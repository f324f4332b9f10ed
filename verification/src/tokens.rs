//! Token estimate (tiktoken's o200k_base encoding).
use vstd::prelude::*;

verus! {

/// The number of o200k_base tokens of a text, special tokens allowed.
pub uninterp spec fn o200k_token_count(text: Seq<char>) -> nat;

/// tiktoken-rs: `o200k_base_singleton().encode_with_special_tokens(text).len()`.
/// The count depends on the text alone; the empty text has no token (the
/// encoder's loop yields nothing for it).
#[verifier::external_body]
fn o200k_count(text: &str) -> (r: usize)
    ensures
        r == o200k_token_count(text@),
        text@.len() == 0 ==> r == 0,
{
    tiktoken_rs::o200k_base_singleton().encode_with_special_tokens(text).len()
}

/// Estimated token count of a text (o200k_base).
pub fn count(text: &str) -> (r: usize)
    ensures
        r == o200k_token_count(text@),
        text@.len() == 0 ==> r == 0,
{
    o200k_count(text)
}

} // verus!
