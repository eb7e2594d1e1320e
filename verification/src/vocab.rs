//! Reading a `.tiktoken` vocabulary: one `base64-token rank` pair per line.
use vstd::prelude::*;

use base64::engine::general_purpose::STANDARD as BASE64_STANDARD;
use base64::Engine;

use crate::number::{int_error_text, parse_u32, IntErrorKind};
use crate::rank_map::RankMap;
use crate::text::{find_byte_from, first_index_of, lemma_first_index_of, push_str, string_from_chars};

verus! {

broadcast use vstd::string::group_string_axioms;

/// What the `base64` crate's standard engine (RFC 4648 alphabet, padding
/// required) decodes these bytes to, or the text of its error.
pub uninterp spec fn base64_standard_decode(input: Seq<u8>) -> Result<Seq<u8>, Seq<char>>;

/// Decodes standard base64.
///
/// Calls `base64::engine::general_purpose::STANDARD.decode`, and turns its
/// `DecodeError` into the text its `Display` prints. The contract names the
/// outcome as a function of the input bytes.
#[verifier::external_body]
fn decode_base64(input: &[u8]) -> (r: Result<Vec<u8>, String>)
    ensures
        match (r, base64_standard_decode(input@)) {
            (Ok(v), Ok(w)) => v@ == w,
            (Err(e), Err(m)) => e@ == m,
            _ => false,
        },
{
    match BASE64_STANDARD.decode(input) {
        Ok(v) => Ok(v),
        Err(e) => Err(e.to_string()),
    }
}

/// The text of the `Utf8Error` that `std::str::from_utf8` reports for these
/// bytes.
pub uninterp spec fn utf8_error_text(bytes: Seq<u8>) -> Seq<char>;

/// Checks that bytes are UTF-8.
///
/// Calls `std::str::from_utf8`, which fails exactly on bytes that are not
/// UTF-8, and turns its error into the text its `Display` prints; that text
/// is named, as a function of the bytes.
#[verifier::external_body]
fn check_utf8(bytes: &[u8]) -> (r: Result<(), String>)
    ensures
        r is Ok <==> vstd::utf8::valid_utf8(bytes@),
        r matches Err(e) ==> e@ == utf8_error_text(bytes@),
{
    match std::str::from_utf8(bytes) {
        Ok(_) => Ok(()),
        Err(e) => Err(e.to_string()),
    }
}

/// The message for a line without a space.
pub open spec fn invalid_line_message(name: Seq<char>) -> Seq<char> {
    "invalid tiktoken BPE line in "@ + name
}

/// The message for a token that is not base64.
pub open spec fn invalid_base64_message(name: Seq<char>, err: Seq<char>) -> Seq<char> {
    "invalid base64 token in "@ + name + ": "@ + err
}

/// The message for a rank that is not UTF-8.
pub open spec fn invalid_utf8_message(name: Seq<char>, err: Seq<char>) -> Seq<char> {
    "invalid UTF-8 rank in "@ + name + ": "@ + err
}

/// The message for a rank that is not a `u32`.
pub open spec fn invalid_rank_message(name: Seq<char>, kind: IntErrorKind) -> Seq<char> {
    "invalid rank in "@ + name + ": "@ + int_error_text(kind)
}

/// The pair one non-empty line holds: the base64 token before the first
/// space, and the decimal rank after it.
pub open spec fn line_entry(line: Seq<u8>, name: Seq<char>) -> Result<(Seq<u8>, u32), Seq<char>> {
    let sep = first_index_of(line, 32u8);
    if sep == line.len() {
        Err(invalid_line_message(name))
    } else {
        let token = line.take(sep);
        let rank = line.skip(sep + 1);
        match base64_standard_decode(token) {
            Err(e) => Err(invalid_base64_message(name, e)),
            Ok(bytes) => if !vstd::utf8::valid_utf8(rank) {
                Err(invalid_utf8_message(name, utf8_error_text(rank)))
            } else {
                match crate::number::parse_u32_spec(rank) {
                    Err(k) => Err(invalid_rank_message(name, k)),
                    Ok(v) => Ok((bytes, v)),
                }
            },
        }
    }
}

/// The ranks read from `rest` onto `acc`, line by line: empty lines are
/// skipped, each other line sets its token's rank, and the first bad line
/// is the error.
pub open spec fn ranks_from(rest: Seq<u8>, name: Seq<char>, acc: Map<Seq<u8>, u32>) -> Result<Map<Seq<u8>, u32>, Seq<char>>
    decreases rest.len(),
{
    let k = first_index_of(rest, 10u8);
    let line = rest.take(k);
    let step: Result<Map<Seq<u8>, u32>, Seq<char>> = if line.len() == 0 {
        Ok(acc)
    } else {
        match line_entry(line, name) {
            Ok(entry) => Ok(acc.insert(entry.0, entry.1)),
            Err(e) => Err(e),
        }
    };
    match step {
        Err(e) => Err(e),
        Ok(m) => if k < rest.len() {
            proof {
                lemma_first_index_of(rest, 10u8);
            }
            ranks_from(rest.skip(k + 1), name, m)
        } else {
            Ok(m)
        },
    }
}

/// The mergeable ranks a vocabulary file holds, or the error for its first
/// bad line.
pub open spec fn vocab_ranks(contents: Seq<u8>, name: Seq<char>) -> Result<Map<Seq<u8>, u32>, Seq<char>> {
    ranks_from(contents, name, Map::empty())
}

/// Builds one of the messages that name the vocabulary file.
fn file_message(prefix: &str, name: &str, detail: Option<&str>) -> (msg: String)
    ensures
        match detail {
            Some(d) => msg@ == prefix@ + name@ + ": "@ + d@,
            None => msg@ == prefix@ + name@,
        },
{
    let mut out: Vec<char> = Vec::new();
    push_str(&mut out, prefix);
    push_str(&mut out, name);
    match detail {
        Some(d) => {
            push_str(&mut out, ": ");
            push_str(&mut out, d);
        },
        None => {},
    }
    string_from_chars(&out)
}

/// Reads the pair on one non-empty line.
fn parse_line(line: &[u8], name: &str) -> (r: Result<(Vec<u8>, u32), String>)
    ensures
        match (r, line_entry(line@, name@)) {
            (Ok(p), Ok(q)) => p.0@ == q.0 && p.1 == q.1,
            (Err(e), Err(m)) => e@ == m,
            _ => false,
        },
{
    let sep = find_byte_from(line, 32u8, 0);
    assert(line@.skip(0) == line@);
    if sep == line.len() {
        return Err(file_message("invalid tiktoken BPE line in ", name, None));
    }
    let token = &line[0..sep];
    let rank = &line[sep + 1..line.len()];
    assert(token@ == line@.take(sep as int));
    assert(rank@ == line@.skip(sep + 1));
    let token_bytes = match decode_base64(token) {
        Ok(b) => b,
        Err(e) => {
            return Err(file_message("invalid base64 token in ", name, Some(e.as_str())));
        },
    };
    match check_utf8(rank) {
        Ok(()) => {},
        Err(e) => {
            return Err(file_message("invalid UTF-8 rank in ", name, Some(e.as_str())));
        },
    }
    match parse_u32(rank) {
        Ok(v) => Ok((token_bytes, v)),
        Err(k) => Err(file_message("invalid rank in ", name, Some(k.message()))),
    }
}

/// Reads a `.tiktoken` vocabulary: for each non-empty line, a base64 token,
/// a space and a decimal rank. A later line for the same token sets its
/// rank again. The first bad line ends the read with its error.
pub fn load_tiktoken_bpe(contents: &[u8], name: &str) -> (r: Result<RankMap, String>)
    ensures
        match (r, vocab_ranks(contents@, name@)) {
            (Ok(m), Ok(ranks)) => m.wf() && m.map() == ranks,
            (Err(e), Err(msg)) => e@ == msg,
            _ => false,
        },
{
    let mut ranks = RankMap::new();
    let mut start: usize = 0;
    assert(contents@.skip(0) == contents@);
    loop
        invariant
            start <= contents@.len(),
            ranks.wf(),
            vocab_ranks(contents@, name@) == ranks_from(contents@.skip(start as int), name@, ranks.map()),
        decreases contents@.len() - start,
    {
        let end = find_byte_from(contents, 10u8, start);
        let ghost rest = contents@.skip(start as int);
        let line = &contents[start..end];
        assert(line@ == rest.take(end - start));
        if end > start {
            match parse_line(line, name) {
                Ok((token, rank)) => {
                    ranks.insert(token, rank);
                },
                Err(e) => {
                    return Err(e);
                },
            }
        }
        if end == contents.len() {
            return Ok(ranks);
        }
        assert(rest.skip(end - start + 1) == contents@.skip(end + 1));
        start = end + 1;
    }
}

} // verus!
