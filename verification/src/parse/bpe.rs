//! Token estimation.

use vstd::prelude::*;
use crate::text;
use crate::text::len_bytes;

verus! {

/// The number of tokens that the `cl100k_base` encoding of `tiktoken_rs` gives
/// a text; `None` where it cannot encode the text.
pub uninterp spec fn bpe_token_count(s: Seq<char>) -> Option<nat>;

/// Calls `CoreBPE::encode` of `tiktoken_rs`, with all special tokens allowed, on
/// the `cl100k_base` encoder that the crate keeps. Claims that the number of
/// tokens depends on the text alone. The encoder cuts a text into pieces, none of
/// them empty and nothing left over, and makes at least one token of a piece and
/// at most one of each byte: so only the empty text has no token, and no text has
/// more tokens than bytes. Which tokens a text has is not said.
#[verifier::external_body]
fn count_tokens(s: &str) -> (r: Option<usize>)
    ensures
        match r {
            Some(n) => {
                &&& bpe_token_count(s@) == Some(n as nat)
                &&& n <= text::byte_len(s@)
                &&& n == 0 <==> s@.len() == 0
            },
            None => bpe_token_count(s@) is None,
        },
{
    let bpe = tiktoken_rs::cl100k_base_singleton();
    bpe.encode(s, &bpe.special_tokens()).ok().map(|(tokens, _)| tokens.len())
}

/// The estimated number of tokens, given what the encoder counted: without a
/// count, one token for four bytes.
pub open spec fn tokens_of(count: Option<nat>, s: Seq<char>) -> nat {
    match count {
        Some(n) => n,
        None => text::byte_len(s) / 4,
    }
}

/// The estimated number of tokens of a text.
pub open spec fn tokens(s: Seq<char>) -> nat {
    tokens_of(bpe_token_count(s), s)
}

/// Loads the encoder, so that later estimates need not.
pub fn warm_bpe() {
    let _ = count_tokens("");
}

/// The estimated number of tokens, given what the encoder counted.
pub fn tokens_or_fallback(count: Option<usize>, s: &str) -> (r: usize)
    ensures
        r == tokens_of(
            match count {
                Some(n) => Some(n as nat),
                None => None,
            },
            s@,
        ),
{
    match count {
        Some(n) => n,
        None => len_bytes(s) / 4,
    }
}

/// The estimated number of tokens of a text: never more than it has bytes, none
/// for the empty text, and some for another that can be encoded.
pub fn estimate_tokens(s: &str) -> (r: usize)
    ensures
        r == tokens(s@),
        r <= text::byte_len(s@),
        s@.len() == 0 ==> r == 0,
        s@.len() > 0 && bpe_token_count(s@) is Some ==> r > 0,
{
    tokens_or_fallback(count_tokens(s), s)
}

} // verus!
