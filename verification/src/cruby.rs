//! Runtime object-layout helpers: the handful of flag masks and field
//! offsets of the host runtime's object format that the binding reads when
//! copying and scanning. The constants match the runtime's own definitions.

use vstd::prelude::*;

verus! {

/// The runtime's false value; also the only special constant without an
/// immediate tag bit.
pub const RUBY_Qfalse: usize = 0;

/// Low bits that mark a value as immediate (not a heap object).
pub const RUBY_IMMEDIATE_MASK: usize = 7;

/// First shift of the user-flag region in an object's flags word.
pub const RUBY_FL_USHIFT: usize = 12;

pub const RUBY_FL_USER1: usize = 1 << 13;

pub const RUBY_FL_USER2: usize = 1 << 14;

pub const RUBY_FL_USER18: usize = 1 << 30;

/// Flag bits holding an embedded array's length.
pub const RARRAY_EMBED_LEN_MASK: usize = (1 << 15) | (1 << 16);

/// Shift of the embedded-array length within the flags word.
pub const RARRAY_EMBED_LEN_SHIFT: usize = 15;

/// Offset of the embedded element array within an ordinary object.
pub const RUBY_OFFSET_ROBJECT_AS_ARY: usize = 32;

/// Offset of the embedded element array within an array object.
pub const RUBY_OFFSET_RARRAY_AS_ARY: usize = 16;

/// String flag: the contents live outside the object.
pub const STR_NO_EMBED: usize = RUBY_FL_USER1;

/// String flag: the contents are shared with another string.
pub const STR_SHARED: usize = RUBY_FL_USER2;

/// String flag: the contents must not be freed.
pub const STR_NOFREE: usize = RUBY_FL_USER18;

/// A tagged runtime value: either an immediate or the address of a heap
/// object's basic header.
#[derive(Clone, Copy, PartialEq, Eq, Structural, Debug)]
pub struct VALUE(pub usize);

impl VALUE {
    /// The address of the object's basic header, for a non-immediate value.
    pub fn as_basic(self) -> (r: usize)
        ensures
            r == self.0,
    {
        let VALUE(cval) = self;
        cval
    }
}

/// Whether a value is a special constant: an immediate (one of the low tag
/// bits set) or the false value.
pub fn my_special_const_p(value: VALUE) -> (r: bool)
    ensures
        r == (value.0 & RUBY_IMMEDIATE_MASK != 0 || value.0 == RUBY_Qfalse),
{
    let VALUE(cval) = value;
    let is_immediate = cval & RUBY_IMMEDIATE_MASK != 0;
    let is_false = cval == RUBY_Qfalse;
    is_immediate || is_false
}

/// Address of the embedded element array of an ordinary object.
pub fn robject_embed_ary_addr(value: VALUE) -> (r: usize)
    requires
        value.0 + RUBY_OFFSET_ROBJECT_AS_ARY <= usize::MAX,
    ensures
        r == value.0 + RUBY_OFFSET_ROBJECT_AS_ARY,
{
    value.0 + RUBY_OFFSET_ROBJECT_AS_ARY
}

/// Length of an embedded array, read from its flags word.
pub fn rarray_embed_len(flags: usize) -> (r: usize)
    ensures
        r == (flags & RARRAY_EMBED_LEN_MASK) >> RARRAY_EMBED_LEN_SHIFT,
{
    let masked = flags & RARRAY_EMBED_LEN_MASK;
    let shifted = masked >> RARRAY_EMBED_LEN_SHIFT;
    shifted
}

/// Address of the embedded element array of an array object.
pub fn rarray_embed_ary_addr(value: VALUE) -> (r: usize)
    requires
        value.0 + RUBY_OFFSET_RARRAY_AS_ARY <= usize::MAX,
    ensures
        r == value.0 + RUBY_OFFSET_RARRAY_AS_ARY,
{
    value.0 + RUBY_OFFSET_RARRAY_AS_ARY
}

} // verus!
