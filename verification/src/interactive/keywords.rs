//! Words of the command language, compared without regard to the case of
//! ASCII letters.

use uncased::UncasedStr;
use vstd::prelude::*;
use vstd::string::*;
use vstd::utf8::*;

verus! {

/// `byte` with an ASCII capital letter turned into its small letter.
pub open spec fn fold_ascii(byte: u8) -> u8 {
    if 0x41 <= byte <= 0x5a {
        (byte + 0x20) as u8
    } else {
        byte
    }
}

/// Whether two texts are the same but for the case of ASCII letters.
pub open spec fn same_ignoring_case(left: Seq<u8>, right: Seq<u8>) -> bool {
    &&& left.len() == right.len()
    &&& forall|i: int| 0 <= i < left.len() ==> fold_ascii(#[trigger] left[i]) == fold_ascii(right[i])
}

/// Whether `typed` is a beginning of `choice`, but for the case of ASCII
/// letters, that ends on a character boundary of `choice`.
pub open spec fn completes(choice: Seq<u8>, typed: Seq<u8>) -> bool {
    &&& typed.len() <= choice.len()
    &&& is_char_boundary(choice, typed.len() as int)
    &&& same_ignoring_case(choice.subrange(0, typed.len() as int), typed)
}

/// Compares `text` with `word` through `uncased`: `UncasedStr`'s `==` on a
/// `str`, which is `str::eq_ignore_ascii_case`. The two are equal when they
/// have the same bytes once ASCII capitals are made small.
#[verifier::external_body]
pub(crate) fn uncased_eq(text: &str, word: &str) -> (same: bool)
    ensures
        same == same_ignoring_case(text.spec_bytes(), word.spec_bytes()),
{
    UncasedStr::new(text) == word
}

/// Asks `uncased` whether `choice` starts with `typed`:
/// `UncasedStr::starts_with`, which cuts `choice` at the length of `typed`
/// (there must be so many bytes, and a character boundary at that place) and
/// compares the cut with `typed` as `uncased_eq` does.
#[verifier::external_body]
pub(crate) fn uncased_starts_with(choice: &str, typed: &str) -> (starts: bool)
    ensures
        starts == completes(choice.spec_bytes(), typed.spec_bytes()),
{
    UncasedStr::new(choice).starts_with(typed)
}

} // verus!
