//! The values handed back across the C interface.
use vstd::prelude::*;

use crate::text::{chars_of, push_str, string_from_chars};

verus! {

broadcast use vstd::string::group_string_axioms;

/// The tokens an encoding call hands back, with their count.
pub struct TokenBuffer {
    /// The tokens.
    pub data: Vec<u32>,
    /// How many tokens there are.
    pub len: u64,
}

/// Packs tokens for handing back: the tokens and their count.
pub fn into_token_buffer(tokens: Vec<u32>) -> (b: TokenBuffer)
    ensures
        b.data@ == tokens@,
        b.len == tokens@.len(),
{
    let len = tokens.len() as u64;
    TokenBuffer { data: tokens, len }
}

/// `s` with every NUL character replaced by a space, so that it can be
/// handed back as a C string.
pub open spec fn without_nul(s: Seq<char>) -> Seq<char> {
    s.map_values(|c: char| if c == '\0' { ' ' } else { c })
}

/// Replaces every NUL character with a space.
pub fn replace_nul(value: &str) -> (r: String)
    ensures
        r@ == without_nul(value@),
{
    let chars = chars_of(value);
    let mut out: Vec<char> = Vec::new();
    let mut i: usize = 0;
    while i < chars.len()
        invariant
            i <= chars@.len(),
            chars@ == value@,
            out@ == without_nul(chars@.take(i as int)),
        decreases chars.len() - i,
    {
        let c = chars[i];
        out.push(if c == '\0' { ' ' } else { c });
        i = i + 1;
        assert(without_nul(chars@.take(i as int)) =~= without_nul(chars@.take(i - 1)).push(if c == '\0' { ' ' } else { c }));
    }
    assert(chars@.take(i as int) == chars@);
    string_from_chars(&out)
}

/// This library's version, as its package states it.
pub const SHIM_VERSION: &'static str = "0.1.0";

/// The upstream tokenizer release whose behavior the encodings follow.
pub const OPENAI_TIKTOKEN_VERSION: &'static str = "0.12.0";

/// The version line: this library's version and the upstream release.
pub open spec fn version_text(shim_version: Seq<char>) -> Seq<char> {
    "tiktoken_shim/"@ + shim_version + " (openai/tiktoken "@ + OPENAI_TIKTOKEN_VERSION@ + ")"@
}

/// The version line for a given version of this library.
pub fn version_string(shim_version: &str) -> (r: String)
    ensures
        r@ == version_text(shim_version@),
{
    let mut out: Vec<char> = Vec::new();
    push_str(&mut out, "tiktoken_shim/");
    push_str(&mut out, shim_version);
    push_str(&mut out, " (openai/tiktoken ");
    push_str(&mut out, OPENAI_TIKTOKEN_VERSION);
    push_str(&mut out, ")");
    string_from_chars(&out)
}

} // verus!
