//! Which encodings exist, and which encoding a model name uses.
use vstd::prelude::*;

use crate::special_tokens::SpecialTokenSet;
use crate::text::{chars_of, push_chars, push_str, string_from_chars};

verus! {

broadcast use vstd::string::group_string_axioms;

/// The encodings that model names map to.
#[derive(Clone, Copy, Debug, PartialEq, Eq, Structural)]
pub enum ModelEncoding {
    Gpt2,
    R50kBase,
    P50kBase,
    P50kEdit,
    Cl100kBase,
    O200kBase,
    O200kHarmony,
}

/// The name of the encoding.
pub open spec fn model_encoding_name(e: ModelEncoding) -> Seq<char> {
    match e {
        ModelEncoding::Gpt2 => "gpt2"@,
        ModelEncoding::R50kBase => "r50k_base"@,
        ModelEncoding::P50kBase => "p50k_base"@,
        ModelEncoding::P50kEdit => "p50k_edit"@,
        ModelEncoding::Cl100kBase => "cl100k_base"@,
        ModelEncoding::O200kBase => "o200k_base"@,
        ModelEncoding::O200kHarmony => "o200k_harmony"@,
    }
}

impl ModelEncoding {
    /// The name of the encoding.
    pub fn name(&self) -> (s: &'static str)
        ensures
            s@ == model_encoding_name(*self),
    {
        match self {
            ModelEncoding::Gpt2 => "gpt2",
            ModelEncoding::R50kBase => "r50k_base",
            ModelEncoding::P50kBase => "p50k_base",
            ModelEncoding::P50kEdit => "p50k_edit",
            ModelEncoding::Cl100kBase => "cl100k_base",
            ModelEncoding::O200kBase => "o200k_base",
            ModelEncoding::O200kHarmony => "o200k_harmony",
        }
    }
}

/// Model names that map to an encoding as a whole, checked in order.
pub const EXACT_MODEL_ENCODINGS: [(&'static str, ModelEncoding); 45] = [
    ("o1", ModelEncoding::O200kBase),
    ("o3", ModelEncoding::O200kBase),
    ("o4-mini", ModelEncoding::O200kBase),
    ("gpt-5", ModelEncoding::O200kBase),
    ("gpt-4.1", ModelEncoding::O200kBase),
    ("gpt-4o", ModelEncoding::O200kBase),
    ("gpt-4", ModelEncoding::Cl100kBase),
    ("gpt-3.5-turbo", ModelEncoding::Cl100kBase),
    ("gpt-3.5", ModelEncoding::Cl100kBase),
    ("gpt-35-turbo", ModelEncoding::Cl100kBase),
    ("davinci-002", ModelEncoding::Cl100kBase),
    ("babbage-002", ModelEncoding::Cl100kBase),
    ("text-embedding-ada-002", ModelEncoding::Cl100kBase),
    ("text-embedding-3-small", ModelEncoding::Cl100kBase),
    ("text-embedding-3-large", ModelEncoding::Cl100kBase),
    ("text-davinci-003", ModelEncoding::P50kBase),
    ("text-davinci-002", ModelEncoding::P50kBase),
    ("text-davinci-001", ModelEncoding::R50kBase),
    ("text-curie-001", ModelEncoding::R50kBase),
    ("text-babbage-001", ModelEncoding::R50kBase),
    ("text-ada-001", ModelEncoding::R50kBase),
    ("davinci", ModelEncoding::R50kBase),
    ("curie", ModelEncoding::R50kBase),
    ("babbage", ModelEncoding::R50kBase),
    ("ada", ModelEncoding::R50kBase),
    ("code-davinci-002", ModelEncoding::P50kBase),
    ("code-davinci-001", ModelEncoding::P50kBase),
    ("code-cushman-002", ModelEncoding::P50kBase),
    ("code-cushman-001", ModelEncoding::P50kBase),
    ("davinci-codex", ModelEncoding::P50kBase),
    ("cushman-codex", ModelEncoding::P50kBase),
    ("text-davinci-edit-001", ModelEncoding::P50kEdit),
    ("code-davinci-edit-001", ModelEncoding::P50kEdit),
    ("text-similarity-davinci-001", ModelEncoding::R50kBase),
    ("text-similarity-curie-001", ModelEncoding::R50kBase),
    ("text-similarity-babbage-001", ModelEncoding::R50kBase),
    ("text-similarity-ada-001", ModelEncoding::R50kBase),
    ("text-search-davinci-doc-001", ModelEncoding::R50kBase),
    ("text-search-curie-doc-001", ModelEncoding::R50kBase),
    ("text-search-babbage-doc-001", ModelEncoding::R50kBase),
    ("text-search-ada-doc-001", ModelEncoding::R50kBase),
    ("code-search-babbage-code-001", ModelEncoding::R50kBase),
    ("code-search-ada-code-001", ModelEncoding::R50kBase),
    ("gpt2", ModelEncoding::Gpt2),
    ("gpt-2", ModelEncoding::Gpt2),
];

/// Model-name prefixes that map to an encoding, checked in order after the
/// exact names.
pub const PREFIX_MODEL_ENCODINGS: [(&'static str, ModelEncoding); 17] = [
    ("o1-", ModelEncoding::O200kBase),
    ("o3-", ModelEncoding::O200kBase),
    ("o4-mini-", ModelEncoding::O200kBase),
    ("gpt-5-", ModelEncoding::O200kBase),
    ("gpt-4.5-", ModelEncoding::O200kBase),
    ("gpt-4.1-", ModelEncoding::O200kBase),
    ("chatgpt-4o-", ModelEncoding::O200kBase),
    ("gpt-4o-", ModelEncoding::O200kBase),
    ("gpt-4-", ModelEncoding::Cl100kBase),
    ("gpt-3.5-turbo-", ModelEncoding::Cl100kBase),
    ("gpt-35-turbo-", ModelEncoding::Cl100kBase),
    ("gpt-oss-", ModelEncoding::O200kHarmony),
    ("ft:gpt-4o", ModelEncoding::O200kBase),
    ("ft:gpt-4", ModelEncoding::Cl100kBase),
    ("ft:gpt-3.5-turbo", ModelEncoding::Cl100kBase),
    ("ft:davinci-002", ModelEncoding::Cl100kBase),
    ("ft:babbage-002", ModelEncoding::Cl100kBase),
];

/// `p` is a prefix of `s`.
pub open spec fn has_prefix(s: Seq<char>, p: Seq<char>) -> bool {
    p.len() <= s.len() && s.take(p.len() as int) == p
}

/// The first index at or after `i` of an exact entry for model `m`.
pub open spec fn exact_entry_from(m: Seq<char>, i: int) -> Option<int>
    decreases 45 - i,
{
    if i < 0 || i >= 45 {
        None
    } else if EXACT_MODEL_ENCODINGS@[i].0@ == m {
        Some(i)
    } else {
        exact_entry_from(m, i + 1)
    }
}

/// The first index at or after `i` of a prefix entry that model `m` starts with.
pub open spec fn prefix_entry_from(m: Seq<char>, i: int) -> Option<int>
    decreases 17 - i,
{
    if i < 0 || i >= 17 {
        None
    } else if has_prefix(m, PREFIX_MODEL_ENCODINGS@[i].0@) {
        Some(i)
    } else {
        prefix_entry_from(m, i + 1)
    }
}

/// The encoding name for model `m`: the first exact entry naming `m`, else
/// the first prefix entry that `m` starts with, else none.
pub open spec fn model_encoding(m: Seq<char>) -> Option<Seq<char>> {
    match exact_entry_from(m, 0) {
        Some(i) => Some(model_encoding_name(EXACT_MODEL_ENCODINGS@[i].1)),
        None => match prefix_entry_from(m, 0) {
            Some(j) => Some(model_encoding_name(PREFIX_MODEL_ENCODINGS@[j].1)),
            None => None,
        },
    }
}

/// The message for a model name with no encoding.
pub open spec fn unmapped_model_message(m: Seq<char>) -> Seq<char> {
    "could not automatically map "@ + m
        + " to a tokeniser. Please use get_encoding explicitly."@
}

/// Whether the characters `m` start with those of `p`.
pub fn chars_start_with(m: &Vec<char>, p: &str) -> (r: bool)
    ensures
        r == has_prefix(m@, p@),
{
    let mut i: usize = 0;
    for c in it: p.chars()
        invariant
            i == it.index(),
            it.seq() == p@,
            i <= m.len(),
            m@.take(i as int) == p@.take(i as int),
    {
        if i >= m.len() || m[i] != c {
            return false;
        }
        i = i + 1;
        assert(m@.take(i as int) == p@.take(i as int)) by {
            assert(m@.take(i as int) == m@.take(i - 1).push(m@[i - 1]));
            assert(p@.take(i as int) == p@.take(i - 1).push(p@[i - 1]));
        }
    }
    assert(p@.take(i as int) == p@);
    true
}

/// Whether the characters `m` are exactly those of `p`.
pub fn chars_equal(m: &Vec<char>, p: &str) -> (r: bool)
    ensures
        r == (m@ == p@),
{
    let mut i: usize = 0;
    for c in it: p.chars()
        invariant
            i == it.index(),
            it.seq() == p@,
            i <= m.len(),
            m@.take(i as int) == p@.take(i as int),
    {
        if i >= m.len() || m[i] != c {
            proof {
                if m@ == p@ {
                    assert(m@[i as int] == p@[i as int]);
                }
            }
            return false;
        }
        i = i + 1;
        assert(m@.take(i as int) == p@.take(i as int)) by {
            assert(m@.take(i as int) == m@.take(i - 1).push(m@[i - 1]));
            assert(p@.take(i as int) == p@.take(i - 1).push(p@[i - 1]));
        }
    }
    assert(p@.take(i as int) == p@);
    if i == m.len() {
        assert(m@.take(i as int) == m@);
        true
    } else {
        false
    }
}

/// Maps a model name to the name of its encoding: exact model names first,
/// then known prefixes (fine-tuned and dated variants).
pub fn resolve_encoding_name_for_model(model_name: &str) -> (res: Result<&'static str, String>)
    ensures
        match res {
            Ok(name) => model_encoding(model_name@) == Some(name@),
            Err(msg) => model_encoding(model_name@) is None
                && msg@ == unmapped_model_message(model_name@),
        },
{
    let m = chars_of(model_name);
    let mut i: usize = 0;
    while i < 45
        invariant
            i <= 45,
            m@ == model_name@,
            exact_entry_from(m@, 0) == exact_entry_from(m@, i as int),
        decreases 45 - i,
    {
        if chars_equal(&m, EXACT_MODEL_ENCODINGS[i].0) {
            return Ok(EXACT_MODEL_ENCODINGS[i].1.name());
        }
        i = i + 1;
    }
    let mut j: usize = 0;
    while j < 17
        invariant
            j <= 17,
            m@ == model_name@,
            exact_entry_from(m@, 0) is None,
            prefix_entry_from(m@, 0) == prefix_entry_from(m@, j as int),
        decreases 17 - j,
    {
        if chars_start_with(&m, PREFIX_MODEL_ENCODINGS[j].0) {
            return Ok(PREFIX_MODEL_ENCODINGS[j].1.name());
        }
        j = j + 1;
    }
    let mut msg: Vec<char> = Vec::new();
    push_str(&mut msg, "could not automatically map ");
    push_chars(&mut msg, &m);
    push_str(&mut msg, " to a tokeniser. Please use get_encoding explicitly.");
    Err(string_from_chars(&msg))
}


/// The vocabulary files that the encodings read their mergeable ranks from.
#[derive(Clone, Copy, Debug, PartialEq, Eq, Structural)]
pub enum VocabFile {
    R50kBase,
    P50kBase,
    Cl100kBase,
    O200kBase,
}

/// The encodings: name, vocabulary file name, the `tiktoken` tokenizer
/// for ordinary text, vocabulary, special tokens.
///
/// An encoding that shares its merge ranks and pattern with another
/// tokenizes ordinary text with that one's tokenizer: `gpt2` with
/// `r50k_base`, `p50k_edit` with `p50k_base`, `o200k_harmony` with
/// `o200k_base`. They differ only in their special tokens, which the
/// library handles itself.
pub const ENCODINGS: [(&'static str, &'static str, &'static str, VocabFile, SpecialTokenSet); 7] = [
    ("gpt2", "r50k_base.tiktoken", "r50k_base", VocabFile::R50kBase, SpecialTokenSet::R50kBase),
    ("r50k_base", "r50k_base.tiktoken", "r50k_base", VocabFile::R50kBase, SpecialTokenSet::R50kBase),
    ("p50k_base", "p50k_base.tiktoken", "p50k_base", VocabFile::P50kBase, SpecialTokenSet::P50kBase),
    ("p50k_edit", "p50k_base.tiktoken", "p50k_base", VocabFile::P50kBase, SpecialTokenSet::P50kEdit),
    ("cl100k_base", "cl100k_base.tiktoken", "cl100k_base", VocabFile::Cl100kBase, SpecialTokenSet::Cl100kBase),
    ("o200k_base", "o200k_base.tiktoken", "o200k_base", VocabFile::O200kBase, SpecialTokenSet::O200kBase),
    ("o200k_harmony", "o200k_base.tiktoken", "o200k_base", VocabFile::O200kBase, SpecialTokenSet::O200kHarmony),
];

/// How to build one encoding.
#[derive(Clone, Copy, Debug)]
pub struct EncodingSpec {
    /// The encoding's name.
    pub name: &'static str,
    /// The name of its vocabulary file, for messages.
    pub bpe_name: &'static str,
    /// The `tiktoken` tokenizer for its ordinary text.
    pub tokenizer: &'static str,
    /// Its vocabulary.
    pub vocab: VocabFile,
    /// Its special tokens.
    pub special_tokens: SpecialTokenSet,
}

/// The first index at or after `i` of the encoding named `name`.
pub open spec fn encoding_row_from(name: Seq<char>, i: int) -> Option<int>
    decreases 7 - i,
{
    if i < 0 || i >= 7 {
        None
    } else if ENCODINGS@[i].0@ == name {
        Some(i)
    } else {
        encoding_row_from(name, i + 1)
    }
}

/// A row found is a row of the table.
pub proof fn lemma_encoding_row_bound(name: Seq<char>, i: int)
    requires
        0 <= i,
    ensures
        encoding_row_from(name, i) matches Some(k) ==> i <= k < 7,
    decreases 7 - i,
{
    if i < 7 {
        lemma_encoding_row_bound(name, i + 1);
    }
}

/// The row of the encoding named `name`.
pub open spec fn encoding_row(name: Seq<char>) -> Option<int> {
    encoding_row_from(name, 0)
}

/// The spec of row `i` of the encoding table.
pub open spec fn row_spec(i: int) -> EncodingSpec {
    EncodingSpec {
        name: ENCODINGS@[i].0,
        bpe_name: ENCODINGS@[i].1,
        tokenizer: ENCODINGS@[i].2,
        vocab: ENCODINGS@[i].3,
        special_tokens: ENCODINGS@[i].4,
    }
}

/// The row of the encoding named `name`.
pub fn find_encoding(name: &str) -> (r: Option<usize>)
    ensures
        match encoding_row(name@) {
            Some(i) => r == Some(i as usize) && 0 <= i < 7,
            None => r is None,
        },
{
    let n = chars_of(name);
    let mut i: usize = 0;
    while i < 7
        invariant
            i <= 7,
            n@ == name@,
            encoding_row(name@) == encoding_row_from(name@, i as int),
        decreases 7 - i,
    {
        if chars_equal(&n, ENCODINGS[i].0) {
            return Some(i);
        }
        i = i + 1;
    }
    None
}

/// The message for a name that is no encoding.
pub open spec fn unknown_encoding_message(name: Seq<char>) -> Seq<char> {
    "unknown encoding: "@ + name
}

/// How to build the encoding in row `i` of the table.
pub fn row_encoding_spec(i: usize) -> (spec: EncodingSpec)
    requires
        i < 7,
    ensures
        spec == row_spec(i as int),
{
    let row = ENCODINGS[i];
    EncodingSpec { name: row.0, bpe_name: row.1, tokenizer: row.2, vocab: row.3, special_tokens: row.4 }
}

/// The error for a name that is no encoding.
pub fn unknown_encoding_error(name: &str) -> (msg: String)
    ensures
        msg@ == unknown_encoding_message(name@),
{
    let mut msg: Vec<char> = Vec::new();
    push_str(&mut msg, "unknown encoding: ");
    push_str(&mut msg, name);
    string_from_chars(&msg)
}

/// How to build the encoding named `name`.
pub fn encoding_spec(name: &str) -> (r: Result<EncodingSpec, String>)
    ensures
        match r {
            Ok(spec) => encoding_row(name@) matches Some(i) && spec == row_spec(i),
            Err(msg) => encoding_row(name@) is None && msg@ == unknown_encoding_message(name@),
        },
{
    match find_encoding(name) {
        Some(i) => Ok(row_encoding_spec(i)),
        None => Err(unknown_encoding_error(name)),
    }
}

/// The row for a name that some row holds is found.
proof fn lemma_row_of(name: Seq<char>, k: int)
    requires
        0 <= k < 7,
        ENCODINGS@[k].0@ == name,
    ensures
        encoding_row(name) is Some,
{
    lemma_row_from(name, k, 0);
}

proof fn lemma_row_from(name: Seq<char>, k: int, i: int)
    requires
        0 <= i <= k < 7,
        ENCODINGS@[k].0@ == name,
    ensures
        encoding_row_from(name, i) is Some,
    decreases k - i,
{
    if ENCODINGS@[i].0@ != name {
        lemma_row_from(name, k, i + 1);
    }
}

proof fn lemma_exact_entry_bound(m: Seq<char>, i: int)
    requires
        0 <= i,
    ensures
        exact_entry_from(m, i) matches Some(k) ==> i <= k < 45,
    decreases 45 - i,
{
    if i < 45 {
        lemma_exact_entry_bound(m, i + 1);
    }
}

proof fn lemma_prefix_entry_bound(m: Seq<char>, i: int)
    requires
        0 <= i,
    ensures
        prefix_entry_from(m, i) matches Some(k) ==> i <= k < 17,
    decreases 17 - i,
{
    if i < 17 {
        lemma_prefix_entry_bound(m, i + 1);
    }
}

/// Every encoding that model names map to has a row.
proof fn lemma_model_encoding_row(e: ModelEncoding)
    ensures
        encoding_row(model_encoding_name(e)) is Some,
{
    match e {
        ModelEncoding::Gpt2 => lemma_row_of(model_encoding_name(e), 0),
        ModelEncoding::R50kBase => lemma_row_of(model_encoding_name(e), 1),
        ModelEncoding::P50kBase => lemma_row_of(model_encoding_name(e), 2),
        ModelEncoding::P50kEdit => lemma_row_of(model_encoding_name(e), 3),
        ModelEncoding::Cl100kBase => lemma_row_of(model_encoding_name(e), 4),
        ModelEncoding::O200kBase => lemma_row_of(model_encoding_name(e), 5),
        ModelEncoding::O200kHarmony => lemma_row_of(model_encoding_name(e), 6),
    }
}

/// Every encoding that a model name resolves to is an encoding there is.
pub proof fn law_resolved_encodings_exist(m: Seq<char>)
    ensures
        model_encoding(m) matches Some(n) ==> encoding_row(n) is Some,
{
    lemma_exact_entry_bound(m, 0);
    lemma_prefix_entry_bound(m, 0);
    match exact_entry_from(m, 0) {
        Some(i) => lemma_model_encoding_row(EXACT_MODEL_ENCODINGS@[i].1),
        None => match prefix_entry_from(m, 0) {
            Some(j) => lemma_model_encoding_row(PREFIX_MODEL_ENCODINGS@[j].1),
            None => {},
        },
    }
}

} // verus!
