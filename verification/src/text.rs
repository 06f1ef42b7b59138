//! Small helpers on strings that several modules share.

use vstd::prelude::*;
use vstd::string::*;

verus! {

/// What formatting a string with `{:?}` writes: the text between double
/// quotes, with the characters that std escapes written as their escapes.
pub uninterp spec fn debug_text(text: Seq<char>) -> Seq<char>;

/// Formats `text` with `format!("{:?}", ..)`. The contract only names the
/// result: it is std's quoted and escaped form of `text`, a function of the
/// text alone, and nothing is claimed of its characters.
#[verifier::external_body]
pub(crate) fn debug_quoted(text: &str) -> (quoted: String)
    ensures
        quoted@ == debug_text(text@),
{
    format!("{:?}", text)
}

/// The three pieces joined in order.
pub fn join3(a: &str, b: &str, c: &str) -> (joined: String)
    ensures
        joined@ == a@ + b@ + c@,
{
    let mut joined = String::from_str(a);
    joined.append(b);
    joined.append(c);
    joined
}

} // verus!
