//! The library's operations as the C interface offers them: raw arguments
//! in, the encoding looked up in the cache, and the result or the first
//! error, in the order name, lookup, input, encoding.
use vstd::prelude::*;

use std::sync::Arc;

use crate::cache::{get_encoding_post, model_lookup_post, shared_view, EncodingCache};
use crate::encoding::{
    count_tokens, decode_outcome, decode_tokens, encode_outcome, encode_tokens, same_outcome,
    LoadedEncoding,
};
use crate::registry::{model_encoding, resolve_encoding_name_for_model, unmapped_model_message};
use crate::special::{c_string_outcome, parse_c_string, RawText};
use crate::text::owned;

verus! {

broadcast use vstd::string::group_string_axioms;

/// The argument that names the encoding: a model name or an encoding name.
pub open spec fn name_field(by_model: bool) -> Seq<char> {
    if by_model {
        "model_name"@
    } else {
        "encoding_name"@
    }
}

/// What looking up the encoding that a raw name argument gives does to the
/// cache: a missing or non-UTF-8 name is its error and changes nothing;
/// otherwise the lookup by model name or by encoding name.
pub open spec fn looked_up(
    before: EncodingCache,
    name: RawText,
    by_model: bool,
    got: Result<LoadedEncoding, Seq<char>>,
    after: EncodingCache,
) -> bool {
    match c_string_outcome(name, name_field(by_model)) {
        Err(m) => got == Err::<LoadedEncoding, Seq<char>>(m) && after == before,
        Ok(n) => if by_model {
            model_lookup_post(before, n, got, after)
        } else {
            get_encoding_post(before, n, got, after)
        },
    }
}

/// What encoding gives once the lookup gave `got`: the lookup's error, else
/// the input's error, else the outcome of encoding the input.
pub open spec fn encode_call_outcome(
    got: Result<LoadedEncoding, Seq<char>>,
    input: RawText,
    special_mode: u32,
    special_tokens: RawText,
) -> Result<Seq<u32>, Seq<char>> {
    match got {
        Err(m) => Err(m),
        Ok(enc) => match c_string_outcome(input, "input"@) {
            Err(m) => Err(m),
            Ok(text) => encode_outcome(enc, text, special_mode, special_tokens),
        },
    }
}

/// A count compared with the tokens its contract names.
pub open spec fn same_count(r: Result<u64, String>, o: Result<Seq<u32>, Seq<char>>) -> bool {
    match (r, o) {
        (Ok(n), Ok(tokens)) => n == tokens.len(),
        (Err(e), Err(m)) => e@ == m,
        _ => false,
    }
}

/// What decoding gives once the lookup gave `got`: the lookup's error, else
/// the outcome of decoding the tokens.
pub open spec fn decode_call_outcome(got: Result<LoadedEncoding, Seq<char>>, tokens: Seq<u32>) -> Result<Seq<char>, Seq<char>> {
    match got {
        Err(m) => Err(m),
        Ok(enc) => decode_outcome(enc.decoder_map(), tokens),
    }
}

/// Looks up the encoding that a raw name argument gives: a model name when
/// `by_model`, else an encoding name.
pub fn lookup_encoding(cache: &mut EncodingCache, name: RawText, by_model: bool) -> (r: Result<Arc<LoadedEncoding>, String>)
    requires
        old(cache).wf(),
    ensures
        final(cache).wf(),
        looked_up(*old(cache), name, by_model, shared_view(r), *final(cache)),
{
    let field = if by_model {
        "model_name"
    } else {
        "encoding_name"
    };
    let n = match parse_c_string(name, field) {
        Ok(n) => n,
        Err(e) => {
            return Err(e);
        },
    };
    if by_model {
        cache.get_encoding_for_model(n.as_str())
    } else {
        cache.get_encoding(n.as_str())
    }
}

/// Encodes the input with what the lookup found, or passes its error on.
pub fn encode_found(
    found: Result<Arc<LoadedEncoding>, String>,
    input: RawText,
    special_mode: u32,
    special_tokens: RawText,
) -> (r: Result<Vec<u32>, String>)
    ensures
        same_outcome(r, encode_call_outcome(shared_view(found), input, special_mode, special_tokens)),
{
    let encoding = match found {
        Ok(e) => e,
        Err(e) => {
            return Err(e);
        },
    };
    let text = match parse_c_string(input, "input") {
        Ok(t) => t,
        Err(e) => {
            return Err(e);
        },
    };
    encode_tokens(&encoding, text.as_str(), special_mode, special_tokens)
}

/// Counts the tokens of the input under what the lookup found, or passes
/// its error on.
pub fn count_found(
    found: Result<Arc<LoadedEncoding>, String>,
    input: RawText,
    special_mode: u32,
    special_tokens: RawText,
) -> (r: Result<u64, String>)
    ensures
        same_count(r, encode_call_outcome(shared_view(found), input, special_mode, special_tokens)),
{
    let encoding = match found {
        Ok(e) => e,
        Err(e) => {
            return Err(e);
        },
    };
    let text = match parse_c_string(input, "input") {
        Ok(t) => t,
        Err(e) => {
            return Err(e);
        },
    };
    count_tokens(&encoding, text.as_str(), special_mode, special_tokens)
}

/// Decodes tokens with what the lookup found, or passes its error on.
pub fn decode_found(found: Result<Arc<LoadedEncoding>, String>, tokens: &[u32]) -> (r: Result<String, String>)
    ensures
        same_outcome(r, decode_call_outcome(shared_view(found), tokens@)),
{
    match found {
        Ok(encoding) => decode_tokens(&encoding, tokens),
        Err(e) => Err(e),
    }
}

/// Counts the tokens of `input` under the encoding named `encoding_name`.
pub fn count_with_encoding(
    cache: &mut EncodingCache,
    encoding_name: RawText,
    input: RawText,
    special_mode: u32,
    special_tokens: RawText,
) -> (r: Result<u64, String>)
    requires
        old(cache).wf(),
    ensures
        final(cache).wf(),
        exists|got: Result<LoadedEncoding, Seq<char>>| looked_up(*old(cache), encoding_name, false, got, *final(cache))
            && same_count(r, encode_call_outcome(got, input, special_mode, special_tokens)),
{
    let found = lookup_encoding(cache, encoding_name, false);
    assert(looked_up(*old(cache), encoding_name, false, shared_view(found), *cache));
    count_found(found, input, special_mode, special_tokens)
}

/// Counts the tokens of `input` under the encoding of the model named
/// `model_name`.
pub fn count_with_model(
    cache: &mut EncodingCache,
    model_name: RawText,
    input: RawText,
    special_mode: u32,
    special_tokens: RawText,
) -> (r: Result<u64, String>)
    requires
        old(cache).wf(),
    ensures
        final(cache).wf(),
        exists|got: Result<LoadedEncoding, Seq<char>>| looked_up(*old(cache), model_name, true, got, *final(cache))
            && same_count(r, encode_call_outcome(got, input, special_mode, special_tokens)),
{
    let found = lookup_encoding(cache, model_name, true);
    assert(looked_up(*old(cache), model_name, true, shared_view(found), *cache));
    count_found(found, input, special_mode, special_tokens)
}

/// Encodes `input` with the encoding named `encoding_name`.
pub fn encode_with_encoding(
    cache: &mut EncodingCache,
    encoding_name: RawText,
    input: RawText,
    special_mode: u32,
    special_tokens: RawText,
) -> (r: Result<Vec<u32>, String>)
    requires
        old(cache).wf(),
    ensures
        final(cache).wf(),
        exists|got: Result<LoadedEncoding, Seq<char>>| looked_up(*old(cache), encoding_name, false, got, *final(cache))
            && same_outcome(r, encode_call_outcome(got, input, special_mode, special_tokens)),
{
    let found = lookup_encoding(cache, encoding_name, false);
    assert(looked_up(*old(cache), encoding_name, false, shared_view(found), *cache));
    encode_found(found, input, special_mode, special_tokens)
}

/// Encodes `input` with the encoding of the model named `model_name`.
pub fn encode_with_model(
    cache: &mut EncodingCache,
    model_name: RawText,
    input: RawText,
    special_mode: u32,
    special_tokens: RawText,
) -> (r: Result<Vec<u32>, String>)
    requires
        old(cache).wf(),
    ensures
        final(cache).wf(),
        exists|got: Result<LoadedEncoding, Seq<char>>| looked_up(*old(cache), model_name, true, got, *final(cache))
            && same_outcome(r, encode_call_outcome(got, input, special_mode, special_tokens)),
{
    let found = lookup_encoding(cache, model_name, true);
    assert(looked_up(*old(cache), model_name, true, shared_view(found), *cache));
    encode_found(found, input, special_mode, special_tokens)
}

/// Decodes `tokens` with the encoding named `encoding_name`.
pub fn decode_with_encoding(cache: &mut EncodingCache, encoding_name: RawText, tokens: &[u32]) -> (r: Result<String, String>)
    requires
        old(cache).wf(),
    ensures
        final(cache).wf(),
        exists|got: Result<LoadedEncoding, Seq<char>>| looked_up(*old(cache), encoding_name, false, got, *final(cache))
            && same_outcome(r, decode_call_outcome(got, tokens@)),
{
    let found = lookup_encoding(cache, encoding_name, false);
    assert(looked_up(*old(cache), encoding_name, false, shared_view(found), *cache));
    decode_found(found, tokens)
}

/// Decodes `tokens` with the encoding of the model named `model_name`.
pub fn decode_with_model(cache: &mut EncodingCache, model_name: RawText, tokens: &[u32]) -> (r: Result<String, String>)
    requires
        old(cache).wf(),
    ensures
        final(cache).wf(),
        exists|got: Result<LoadedEncoding, Seq<char>>| looked_up(*old(cache), model_name, true, got, *final(cache))
            && same_outcome(r, decode_call_outcome(got, tokens@)),
{
    let found = lookup_encoding(cache, model_name, true);
    assert(looked_up(*old(cache), model_name, true, shared_view(found), *cache));
    decode_found(found, tokens)
}

/// What asking for a model's encoding name gives: the argument's error,
/// else the encoding name, else the error for a model with no encoding.
pub open spec fn name_for_model_outcome(model_name: RawText) -> Result<Seq<char>, Seq<char>> {
    match c_string_outcome(model_name, "model_name"@) {
        Err(m) => Err(m),
        Ok(m) => match model_encoding(m) {
            Some(n) => Ok(n),
            None => Err(unmapped_model_message(m)),
        },
    }
}

/// The name of the encoding that the model named `model_name` uses.
pub fn encoding_name_for_model(model_name: RawText) -> (r: Result<String, String>)
    ensures
        same_outcome(r, name_for_model_outcome(model_name)),
{
    let model = match parse_c_string(model_name, "model_name") {
        Ok(m) => m,
        Err(e) => {
            return Err(e);
        },
    };
    match resolve_encoding_name_for_model(model.as_str()) {
        Ok(n) => Ok(owned(n)),
        Err(e) => Err(e),
    }
}

} // verus!
