//! Counting tokens.

use vstd::prelude::*;
use vstd::string::*;

verus! {

/// The pattern by which the `cl100k_base` tokenizer splits a text.
pub const CL100K_PATTERN: &'static str = "(?i:'s|'t|'re|'ve|'m|'ll|'d)|[^\\r\\n\\p{L}\\p{N}]?\\p{L}+|\\p{N}{1,3}| ?[^\\s\\p{L}\\p{N}]+[\\r\\n]*|\\s*[\\r\\n]+|\\s+(?!\\S)|\\s+";

/// A text with no more characters than this is always split.
pub const ALWAYS_SPLIT: usize = 999_983;

/// The regular expression engine finds all matches of a pattern in a text, without running into
/// one of its limits.
pub uninterp spec fn matches_found(pattern: Seq<char>, text: Seq<char>) -> bool;

/// `fancy_regex::Regex::new` and `Regex::try_replacen`, which goes from match to match and hands
/// on the error of the first that the engine gives up on. Whether there is one depends on the
/// pattern and the text alone.
#[verifier::external_body]
fn finds_matches(pattern: &str, text: &str) -> (r: bool)
    requires
        pattern@ == CL100K_PATTERN@,
    ensures
        r == matches_found(pattern@, text@),
{
    fancy_regex::Regex::new(pattern).is_ok_and(|re| re.try_replacen(text, 0, "").is_ok())
}

/// The tokenizer takes the text: it can split it. The engine keeps one entry on its stack for
/// each character of a run of letters, of symbols or of white space, and goes back over white
/// space one character at a time. It gives up beyond a million of either, which a shorter text
/// does not reach.
pub open spec fn tokenizable(s: Seq<char>) -> bool {
    s.len() <= ALWAYS_SPLIT || matches_found(CL100K_PATTERN@, s)
}

/// Whether the tokenizer takes the text.
pub fn is_tokenizable(text: &str) -> (r: bool)
    ensures
        r == tokenizable(text@),
{
    text.unicode_len() <= ALWAYS_SPLIT || finds_matches(CL100K_PATTERN, text)
}

/// The tokens of a text in the `cl100k_base` vocabulary.
pub uninterp spec fn cl100k_tokens(text: Seq<char>) -> Seq<u32>;

/// `tiktoken_rs::CoreBPE::encode_ordinary` with the `cl100k_base` vocabulary. It goes through the
/// matches of its pattern in the text, and panics exactly where the engine gives up on one.
#[verifier::external_body]
fn encode_ordinary(text: &str) -> (r: Vec<u32>)
    requires
        tokenizable(text@),
    ensures
        r@ == cl100k_tokens(text@),
{
    tiktoken_rs::cl100k_base_singleton().lock().encode_ordinary(text)
}

/// How many tokens a text has.
pub fn count_tokens(text: &str) -> (r: usize)
    requires
        tokenizable(text@),
    ensures
        r == cl100k_tokens(text@).len(),
{
    encode_ordinary(text).len()
}

/// What a request has used.
#[derive(Clone, Copy, PartialEq, Eq, Structural, Debug)]
pub struct Usage {
    pub prompt_tokens: i64,
    pub completion_tokens: i64,
    pub total_tokens: i64,
    pub reasoning_tokens: i64,
}

impl Default for Usage {
    fn default() -> (r: Self)
        ensures
            r == (Usage {
                prompt_tokens: 0,
                completion_tokens: 0,
                total_tokens: 0,
                reasoning_tokens: 0,
            }),
    {
        Usage { prompt_tokens: 0, completion_tokens: 0, total_tokens: 0, reasoning_tokens: 0 }
    }
}

} // verus!
