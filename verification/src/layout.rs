//! The short-string form of a native `std::string`: a mark byte whose low
//! bit tells short from long and whose other bits give the short length.
use vstd::prelude::*;

use crate::text::{lossy_string, utf8_lossy};
use crate::bytes::copy_range;

verus! {

/// A short native string: the mark byte and its inline bytes.
#[derive(Clone, Copy)]
pub struct ShortString {
    pub mark: u8,
    pub data: [u8; 23],
}

/// Whether a mark byte says the string is stored inline (low bit clear).
pub fn is_short_mark(mark: u8) -> (b: bool)
    ensures
        b == (mark % 2 == 0),
{
    let b = mark & 1 == 0;
    assert(b == (mark % 2 == 0)) by (bit_vector)
        requires
            b == (mark & 1 == 0),
    ;
    b
}

/// The length of an inline string, from its mark byte.
pub fn short_len(mark: u8) -> (n: usize)
    ensures
        n == mark / 2,
{
    let v = mark >> 1;
    assert(v == mark / 2) by (bit_vector)
        requires
            v == mark >> 1,
    ;
    v as usize
}

/// The text of an inline string, invalid UTF-8 replaced; its length must
/// fit the inline bytes.
pub fn short_string_text(s: &ShortString) -> (t: String)
    requires
        s.mark / 2 <= 23,
    ensures
        t@ == utf8_lossy(s.data@.subrange(0, (s.mark / 2) as int)),
{
    let len = short_len(s.mark);
    let bytes = copy_range(&s.data, 0, len);
    lossy_string(&bytes)
}

} // verus!
