//! A loaded encoding: the tokenizer, the decoder and the special tokens.
use vstd::prelude::*;

use std::collections::HashMap;
use tiktoken::CoreBpe;

use crate::pairs::distinct_keys;
use crate::rank_map::RankMap;
use crate::registry::{EncodingSpec, VocabFile};
use crate::scanner::{encode_admitting, entries_view, special_encoding};
use crate::special::{
    allowed_view, contains_name, lemma_has_name_view, disallowed_message, disallowed_special_token_error, first_disallowed_from,
    first_disallowed_special, first_unknown_from, first_unknown_special, mode_of,
    parse_special_token_list, special_list_outcome, strings_view, unknown_mode_message,
    unknown_special_message, unknown_special_token_error, RawText, SpecialMode,
};
use crate::special_tokens::{
    distinct_tokens, has_name, has_token, names_of_table, names_sorted, sorted_token_names,
    specials_of, table_map, table_rank, SpecialTable,
};
use crate::text::{chars_of, decimal, push_decimal, push_str, string_from_chars};
use crate::vocab::{load_tiktoken_bpe, vocab_ranks};

verus! {

broadcast use {vstd::string::group_string_axioms, vstd::std_specs::hash::group_hash_axioms};

#[verifier::external_type_specification]
#[verifier::external_body]
pub struct ExCoreBpe(CoreBpe);

/// A tokenizer of the `tiktoken` crate, with the name it was opened
/// under. Only `open_tokenizer` builds one, so `bpe` is always the crate's
/// tokenizer for `name`.
pub struct Tokenizer {
    bpe: &'static CoreBpe,
    name: &'static str,
}

impl View for Tokenizer {
    type V = Seq<char>;

    /// The name the tokenizer was opened under.
    closed spec fn view(&self) -> Seq<char> {
        self.name@
    }
}

/// The encoding names that `tiktoken::get_encoding` serves with the crate's
/// default features.
pub open spec fn crate_serves(name: Seq<char>) -> bool {
    ||| name == "cl100k_base"@
    ||| name == "o200k_base"@
    ||| name == "o200k_harmony"@
    ||| name == "p50k_base"@
    ||| name == "p50k_edit"@
    ||| name == "r50k_base"@
    ||| name == "gpt2"@
    ||| name == "llama3"@
    ||| name == "deepseek_v3"@
    ||| name == "deepseek_v4"@
    ||| name == "qwen2"@
    ||| name == "mistral_v3"@
    ||| name == "kimi_k2"@
    ||| name == "kimi_k3"@
    ||| name == "glm4"@
    ||| name == "glm5"@
    ||| name == "minimax_m2"@
}

/// Opens the crate's tokenizer for an encoding.
///
/// Calls `tiktoken::get_encoding`, which returns its cached tokenizer for
/// each name it serves (see `crate_serves`) and `None` for any other name.
#[verifier::external_body]
fn open_tokenizer(name: &'static str) -> (r: Option<Tokenizer>)
    ensures
        r is Some <==> crate_serves(name@),
        r matches Some(t) ==> t@ == name@,
{
    match tiktoken::get_encoding(name) {
        Some(bpe) => Some(Tokenizer { bpe, name }),
        None => None,
    }
}

/// The tokens that the crate's tokenizer named `tokenizer` gives `text`,
/// all special-token text read as ordinary text.
pub uninterp spec fn ordinary_tokens(tokenizer: Seq<char>, text: Seq<char>) -> Seq<u32>;

/// Encodes text, treating special-token text as ordinary text.
///
/// Calls `CoreBpe::encode`; the result depends on the tokenizer (fixed by
/// the name it was opened under) and the text alone, and is named.
#[verifier::external_body]
pub(crate) fn encode_ordinary(t: &Tokenizer, text: &str) -> (r: Vec<u32>)
    ensures
        r@ == ordinary_tokens(t@, text@),
{
    t.bpe.encode(text)
}

/// The contents of a map whose values are byte vectors.
pub open spec fn bytes_view(m: Map<u32, Vec<u8>>) -> Map<u32, Seq<u8>> {
    Map::new(|r: u32| m.contains_key(r), |r: u32| m[r]@)
}

/// The decoder that mergeable pairs give: each rank to its token, later
/// pairs overriding earlier ones.
pub open spec fn merge_decoder(e: Seq<(Vec<u8>, u32)>) -> Map<u32, Seq<u8>>
    decreases e.len(),
{
    if e.len() == 0 {
        Map::empty()
    } else {
        merge_decoder(e.drop_last()).insert(e.last().1, e.last().0@)
    }
}

/// `base` with each special token's rank mapped to its UTF-8 bytes, later
/// tokens overriding earlier ones.
pub open spec fn with_special_decoding(base: Map<u32, Seq<u8>>, s: Seq<(String, u32)>) -> Map<u32, Seq<u8>>
    decreases s.len(),
{
    if s.len() == 0 {
        base
    } else {
        with_special_decoding(base, s.drop_last()).insert(
            s.last().1,
            vstd::utf8::encode_utf8(s.last().0@),
        )
    }
}

/// The decoder built from mergeable pairs and then special tokens.
pub open spec fn decoder_spec(e: Seq<(Vec<u8>, u32)>, s: Seq<(String, u32)>) -> Map<u32, Seq<u8>> {
    with_special_decoding(merge_decoder(e), s)
}

/// Builds the map from ranks back to token bytes: every mergeable token,
/// then every special token (whose rank wins when a mergeable token has it
/// too).
pub fn build_decoder(ranks: &RankMap, specials: &SpecialTable) -> (d: HashMap<u32, Vec<u8>>)
    requires
        ranks.wf(),
    ensures
        bytes_view(d@) == decoder_spec(ranks.entries_view(), specials@),
{
    let entries = ranks.entries();
    let mut d: HashMap<u32, Vec<u8>> = HashMap::new();
    let mut i: usize = 0;
    assert(bytes_view(d@) =~= merge_decoder(entries@.take(0)));
    while i < entries.len()
        invariant
            i <= entries@.len(),
            entries@ == ranks.entries_view(),
            bytes_view(d@) == merge_decoder(entries@.take(i as int)),
        decreases entries.len() - i,
    {
        let token: Vec<u8> = vstd::slice::slice_to_vec(entries[i].0.as_slice());
        let ghost before = d@;
        d.insert(entries[i].1, token);
        proof {
            assert(entries@.take(i + 1).drop_last() == entries@.take(i as int));
            assert(bytes_view(d@) =~= bytes_view(before).insert(entries@[i as int].1, entries@[i as int].0@));
        }
        i = i + 1;
    }
    assert(entries@.take(i as int) == entries@);
    let ghost base = bytes_view(d@);
    let mut j: usize = 0;
    assert(specials@.take(0) == Seq::<(String, u32)>::empty());
    while j < specials.len()
        invariant
            j <= specials@.len(),
            bytes_view(d@) == with_special_decoding(base, specials@.take(j as int)),
        decreases specials.len() - j,
    {
        let token: Vec<u8> = vstd::slice::slice_to_vec(specials[j].0.as_str().as_bytes());
        let ghost before = d@;
        d.insert(specials[j].1, token);
        proof {
            assert(specials@.take(j + 1).drop_last() == specials@.take(j as int));
            assert(bytes_view(d@) =~= bytes_view(before).insert(
                specials@[j as int].1,
                vstd::utf8::encode_utf8(specials@[j as int].0@),
            ));
        }
        j = j + 1;
    }
    assert(specials@.take(j as int) == specials@);
    d
}


/// Some mergeable token has rank `r`.
pub open spec fn is_mergeable_rank(ranks: Map<Seq<u8>, u32>, r: u32) -> bool {
    exists|t: Seq<u8>| ranks.contains_key(t) && ranks[t] == r
}

/// Some special token has rank `r`.
pub open spec fn is_special_rank(specials: Map<Seq<char>, u32>, r: u32) -> bool {
    exists|t: Seq<char>| specials.contains_key(t) && specials[t] == r
}

/// `dec` maps exactly the mergeable and special ranks back to a token of
/// that rank, a special token where the rank is special. This holds
/// whatever order the ranks were added in.
pub open spec fn decoder_matches(
    dec: Map<u32, Seq<u8>>,
    ranks: Map<Seq<u8>, u32>,
    specials: Map<Seq<char>, u32>,
) -> bool {
    &&& forall|r: u32| #[trigger] dec.contains_key(r) <==> (is_mergeable_rank(ranks, r) || is_special_rank(specials, r))
    &&& forall|r: u32| #[trigger] dec.contains_key(r) && is_special_rank(specials, r) ==> exists|t: Seq<char>|
        specials.contains_key(t) && specials[t] == r && dec[r] == vstd::utf8::encode_utf8(t)
    &&& forall|r: u32| #[trigger] dec.contains_key(r) && !is_special_rank(specials, r) ==> ranks.contains_key(dec[r]) && ranks[dec[r]] == r
}

/// Some pair of `e` has rank `r`.
pub open spec fn has_rank<K>(e: Seq<(K, u32)>, r: u32) -> bool {
    exists|i: int| 0 <= i < e.len() && e[i].1 == r
}

proof fn lemma_merge_decoder(e: Seq<(Vec<u8>, u32)>)
    ensures
        forall|r: u32| #[trigger] merge_decoder(e).contains_key(r) <==> has_rank(e, r),
        forall|r: u32| #[trigger] merge_decoder(e).contains_key(r) ==> exists|i: int| 0 <= i < e.len() && e[i].1 == r && merge_decoder(e)[r] == e[i].0@,
    decreases e.len(),
{
    if e.len() > 0 {
        let init = e.drop_last();
        lemma_merge_decoder(init);
        assert(merge_decoder(e) == merge_decoder(init).insert(e.last().1, e.last().0@));
        assert forall|i: int| 0 <= i < init.len() implies #[trigger] init[i] == e[i] by {}
        assert forall|r: u32| #[trigger] merge_decoder(e).contains_key(r) <==> has_rank(e, r) by {
            if has_rank(e, r) {
                let i = choose|i: int| 0 <= i < e.len() && e[i].1 == r;
                if i < e.len() - 1 {
                    assert(init[i] == e[i]);
                    assert(has_rank(init, r));
                }
            }
            if merge_decoder(e).contains_key(r) && r != e.last().1 {
                assert(has_rank(init, r));
                let i = choose|i: int| 0 <= i < init.len() && init[i].1 == r;
                assert(e[i] == init[i]);
            }
        }
        assert forall|r: u32| #[trigger] merge_decoder(e).contains_key(r) implies exists|i: int| 0 <= i < e.len() && e[i].1 == r && merge_decoder(e)[r] == e[i].0@ by {
            if r == e.last().1 {
                assert(e[e.len() - 1].1 == r);
            } else {
                assert(merge_decoder(init).contains_key(r));
                let i = choose|i: int| 0 <= i < init.len() && init[i].1 == r && merge_decoder(init)[r] == init[i].0@;
                assert(e[i] == init[i]);
            }
        }
    }
}

proof fn lemma_special_decoding(base: Map<u32, Seq<u8>>, s: Seq<(String, u32)>)
    ensures
        forall|r: u32| #[trigger] with_special_decoding(base, s).contains_key(r) <==> (base.contains_key(r) || has_rank(s, r)),
        forall|r: u32| has_rank(s, r) ==> exists|i: int| 0 <= i < s.len() && s[i].1 == r && #[trigger] with_special_decoding(base, s)[r] == vstd::utf8::encode_utf8(s[i].0@),
        forall|r: u32| !has_rank(s, r) && base.contains_key(r) ==> #[trigger] with_special_decoding(base, s)[r] == base[r],
    decreases s.len(),
{
    if s.len() > 0 {
        let init = s.drop_last();
        lemma_special_decoding(base, init);
        assert forall|i: int| 0 <= i < init.len() implies #[trigger] init[i] == s[i] by {}
        let last = s[s.len() - 1];
        assert(with_special_decoding(base, s) == with_special_decoding(base, init).insert(last.1, vstd::utf8::encode_utf8(last.0@)));
        assert forall|r: u32| #[trigger] with_special_decoding(base, s).contains_key(r) <==> (base.contains_key(r) || has_rank(s, r)) by {
            if has_rank(s, r) && r != last.1 {
                let i = choose|i: int| 0 <= i < s.len() && s[i].1 == r;
                assert(init[i] == s[i]);
                assert(has_rank(init, r));
            }
            if has_rank(init, r) {
                let i = choose|i: int| 0 <= i < init.len() && init[i].1 == r;
                assert(s[i] == init[i]);
            }
        }
        assert forall|r: u32| has_rank(s, r) implies exists|i: int| 0 <= i < s.len() && s[i].1 == r && #[trigger] with_special_decoding(base, s)[r] == vstd::utf8::encode_utf8(s[i].0@) by {
            if r == last.1 {
                assert(s[s.len() - 1].1 == r);
            } else {
                let i = choose|i: int| 0 <= i < s.len() && s[i].1 == r;
                assert(init[i] == s[i]);
                assert(has_rank(init, r));
                let j = choose|j: int| 0 <= j < init.len() && init[j].1 == r && with_special_decoding(base, init)[r] == vstd::utf8::encode_utf8(init[j].0@);
                assert(s[j] == init[j]);
            }
        }
        assert forall|r: u32| !has_rank(s, r) && base.contains_key(r) implies #[trigger] with_special_decoding(base, s)[r] == base[r] by {
            assert(r != last.1);
            if has_rank(init, r) {
                let i = choose|i: int| 0 <= i < init.len() && init[i].1 == r;
                assert(s[i] == init[i]);
            }
        }
    }
}

/// The decoder built from distinct mergeable pairs and a special-token
/// table maps every rank back to a token of that rank.
pub proof fn lemma_decoder_matches(e: Seq<(Vec<u8>, u32)>, s: Seq<(String, u32)>)
    requires
        distinct_keys(e),
        distinct_keys(s),
    ensures
        decoder_matches(decoder_spec(e, s), crate::pairs::pairs_map(e), table_map(s)),
{
    let ranks = crate::pairs::pairs_map(e);
    let specials = table_map(s);
    let dec = decoder_spec(e, s);
    lemma_merge_decoder(e);
    lemma_special_decoding(merge_decoder(e), s);
    crate::pairs::lemma_pairs_map(e);
    crate::pairs::lemma_pairs_map(s);
    assert forall|r: u32| is_special_rank(specials, r) <==> has_rank(s, r) by {
        if is_special_rank(specials, r) {
            let t = choose|t: Seq<char>| specials.contains_key(t) && specials[t] == r;
            assert(crate::pairs::has_key(s, t));
            let i = choose|i: int| 0 <= i < s.len() && s[i].0@ == t;
            assert(specials[s[i].0@] == s[i].1);
        }
        if has_rank(s, r) {
            let i = choose|i: int| 0 <= i < s.len() && s[i].1 == r;
            assert(specials[s[i].0@] == s[i].1);
            assert(crate::pairs::has_key(s, s[i].0@));
            assert(specials.contains_key(s[i].0@));
        }
    }
    assert forall|r: u32| is_mergeable_rank(ranks, r) <==> has_rank(e, r) by {
        if is_mergeable_rank(ranks, r) {
            let t = choose|t: Seq<u8>| ranks.contains_key(t) && ranks[t] == r;
            assert(crate::pairs::has_key(e, t));
            let i = choose|i: int| 0 <= i < e.len() && e[i].0@ == t;
            assert(ranks[e[i].0@] == e[i].1);
        }
        if has_rank(e, r) {
            let i = choose|i: int| 0 <= i < e.len() && e[i].1 == r;
            assert(ranks[e[i].0@] == e[i].1);
            assert(crate::pairs::has_key(e, e[i].0@));
            assert(ranks.contains_key(e[i].0@));
        }
    }
    assert forall|r: u32| #[trigger] dec.contains_key(r) && is_special_rank(specials, r) implies exists|t: Seq<char>|
        specials.contains_key(t) && specials[t] == r && dec[r] == vstd::utf8::encode_utf8(t) by {
        assert(has_rank(s, r));
        let i = choose|i: int| 0 <= i < s.len() && s[i].1 == r && with_special_decoding(merge_decoder(e), s)[r] == vstd::utf8::encode_utf8(s[i].0@);
        assert(specials[s[i].0@] == s[i].1);
        assert(crate::pairs::has_key(s, s[i].0@));
        assert(specials.contains_key(s[i].0@));
    }
    assert forall|r: u32| #[trigger] dec.contains_key(r) && !is_special_rank(specials, r) implies ranks.contains_key(dec[r]) && ranks[dec[r]] == r by {
        assert(!has_rank(s, r));
        assert(dec[r] == merge_decoder(e)[r]);
        assert(merge_decoder(e).contains_key(r));
        let i = choose|i: int| 0 <= i < e.len() && e[i].1 == r && merge_decoder(e)[r] == e[i].0@;
        assert(ranks[e[i].0@] == e[i].1);
        assert(crate::pairs::has_key(e, e[i].0@));
    }
}


/// The bytes of each vocabulary file.
pub struct Vocabularies<'a> {
    pub r50k_base: &'a [u8],
    pub p50k_base: &'a [u8],
    pub cl100k_base: &'a [u8],
    pub o200k_base: &'a [u8],
}

impl<'a> Vocabularies<'a> {
    /// The bytes of one vocabulary file.
    pub open spec fn file_bytes(&self, f: VocabFile) -> Seq<u8> {
        match f {
            VocabFile::R50kBase => self.r50k_base@,
            VocabFile::P50kBase => self.p50k_base@,
            VocabFile::Cl100kBase => self.cl100k_base@,
            VocabFile::O200kBase => self.o200k_base@,
        }
    }

    /// The bytes of one vocabulary file.
    pub fn bytes(&self, f: VocabFile) -> (b: &'a [u8])
        ensures
            b@ == self.file_bytes(f),
    {
        match f {
            VocabFile::R50kBase => self.r50k_base,
            VocabFile::P50kBase => self.p50k_base,
            VocabFile::Cl100kBase => self.cl100k_base,
            VocabFile::O200kBase => self.o200k_base,
        }
    }
}

/// An encoding ready for use: its tokenizer, the map from ranks back to
/// bytes, and its special tokens, longest first, each also with its rank.
pub struct LoadedEncoding {
    name: &'static str,
    tokenizer: Tokenizer,
    decoder: HashMap<u32, Vec<u8>>,
    special_tokens: Vec<String>,
    special_ranks: Vec<(Vec<char>, u32)>,
}

/// The names are exactly the tokens of the map.
pub open spec fn names_of_map(s: Seq<String>, m: Map<Seq<char>, u32>) -> bool {
    forall|x: Seq<char>| #[trigger] has_name(s, x) <==> m.contains_key(x)
}

impl LoadedEncoding {
    /// The name of the encoding.
    pub closed spec fn name(&self) -> Seq<char> {
        self.name@
    }

    /// The name of the `tiktoken` tokenizer for its ordinary text.
    pub closed spec fn tokenizer_name(&self) -> Seq<char> {
        self.tokenizer@
    }

    /// The map from ranks back to token bytes.
    pub closed spec fn decoder_map(&self) -> Map<u32, Seq<u8>> {
        bytes_view(self.decoder@)
    }

    /// The special tokens, longest first.
    pub closed spec fn special_names(&self) -> Seq<String> {
        self.special_tokens@
    }

    /// The special tokens with their ranks, in the order of `special_names`.
    pub closed spec fn special_entries(&self) -> Seq<(Seq<char>, u32)> {
        entries_view(self.special_ranks@)
    }

    /// Each entry holds the special token at the same place in the list.
    #[verifier::type_invariant]
    spec fn entries_follow_names(self) -> bool {
        &&& self.special_ranks@.len() == self.special_tokens@.len()
        &&& forall|i: int| 0 <= i < self.special_tokens@.len() ==> (#[trigger] self.special_ranks@[i]).0@ == self.special_tokens@[i]@
    }

    /// The special tokens, longest first, ties in byte order.
    pub fn special_tokens(&self) -> (r: &Vec<String>)
        ensures
            r@ == self.special_names(),
    {
        &self.special_tokens
    }
}

/// `enc` is what loading `spec` from a vocabulary file with these bytes
/// gives: the file reads without error, every rank decodes back to a token
/// of that rank, and the special tokens are listed longest first.
pub open spec fn is_loading_of(enc: LoadedEncoding, spec: EncodingSpec, contents: Seq<u8>) -> bool {
    &&& enc.name() == spec.name@
    &&& enc.tokenizer_name() == spec.tokenizer@
    &&& vocab_ranks(contents, spec.bpe_name@) matches Ok(ranks)
    &&& decoder_matches(enc.decoder_map(), ranks, specials_of(spec.special_tokens))
    &&& names_sorted(enc.special_names())
    &&& names_of_map(enc.special_names(), specials_of(spec.special_tokens))
    &&& enc.special_entries().len() == enc.special_names().len()
    &&& forall|i: int| 0 <= i < enc.special_names().len() ==> #[trigger] enc.special_entries()[i] == (
        enc.special_names()[i]@,
        specials_of(spec.special_tokens)[enc.special_names()[i]@],
    )
}

/// The message when the `tiktoken` crate has no tokenizer for the encoding.
pub open spec fn tokenizer_missing_message(name: Seq<char>) -> Seq<char> {
    "failed to build tokenizer: no tokenizer for encoding "@ + name
}

/// What loading `spec` from these bytes gives when it fails: the first bad
/// vocabulary line, else a missing tokenizer.
pub open spec fn load_error(spec: EncodingSpec, contents: Seq<u8>) -> Option<Seq<char>> {
    match vocab_ranks(contents, spec.bpe_name@) {
        Err(m) => Some(m),
        Ok(_) => if crate_serves(spec.tokenizer@) {
            None
        } else {
            Some(tokenizer_missing_message(spec.tokenizer@))
        },
    }
}

/// Each name with its characters and its rank in the table.
fn ranked_names(table: &SpecialTable, names: &Vec<String>) -> (r: Vec<(Vec<char>, u32)>)
    requires
        distinct_tokens(table@),
        names_of_table(names@, table@),
    ensures
        r@.len() == names@.len(),
        forall|i: int| 0 <= i < names@.len() ==> (#[trigger] r@[i]).0@ == names@[i]@ && r@[i].1 == table_map(table@)[names@[i]@],
{
    let mut r: Vec<(Vec<char>, u32)> = Vec::new();
    let mut k: usize = 0;
    while k < names.len()
        invariant
            k <= names@.len(),
            r@.len() == k,
            distinct_tokens(table@),
            names_of_table(names@, table@),
            forall|i: int| 0 <= i < k ==> (#[trigger] r@[i]).0@ == names@[i]@ && r@[i].1 == table_map(table@)[names@[i]@],
        decreases names.len() - k,
    {
        assert(has_name(names@, names@[k as int]@));
        assert(has_token(table@, names@[k as int]@));
        let rank = table_rank(table, &names[k]);
        let chars = chars_of(names[k].as_str());
        r.push((chars, rank));
        k = k + 1;
    }
    r
}

impl EncodingSpec {
    /// Loads the encoding: reads the mergeable ranks from its vocabulary
    /// file, builds the decoder and the ordered special-token list, and
    /// opens its tokenizer.
    pub fn load(&self, vocabs: &Vocabularies) -> (r: Result<LoadedEncoding, String>)
        ensures
            match r {
                Ok(enc) => load_error(*self, vocabs.file_bytes(self.vocab)) is None
                    && is_loading_of(enc, *self, vocabs.file_bytes(self.vocab)),
                Err(msg) => load_error(*self, vocabs.file_bytes(self.vocab)) == Some(msg@),
            },
    {
        let contents = vocabs.bytes(self.vocab);
        let ranks = match load_tiktoken_bpe(contents, self.bpe_name) {
            Ok(m) => m,
            Err(e) => {
                return Err(e);
            },
        };
        let table = self.special_tokens.table();
        let decoder = build_decoder(&ranks, &table);
        let names = sorted_token_names(&table);
        let special_ranks = ranked_names(&table, &names);
        let tokenizer = match open_tokenizer(self.tokenizer) {
            Some(t) => t,
            None => {
                let mut msg: Vec<char> = Vec::new();
                push_str(&mut msg, "failed to build tokenizer: no tokenizer for encoding ");
                push_str(&mut msg, self.tokenizer);
                return Err(string_from_chars(&msg));
            },
        };
        proof {
            let e = ranks.entries_view();
            ranks.lemma_distinct();
            lemma_decoder_matches(e, table@);
            crate::pairs::lemma_pairs_map(table@);
            assert forall|x: Seq<char>| #[trigger] has_name(names@, x) <==> specials_of(self.special_tokens).contains_key(x) by {
                assert(has_name(names@, x) <==> crate::special_tokens::has_token(table@, x));
                assert(crate::special_tokens::has_token(table@, x) <==> crate::pairs::has_key(table@, x));
            }
        }
        Ok(LoadedEncoding { name: self.name, tokenizer, decoder, special_tokens: names, special_ranks })
    }
}


/// The result a call gives, compared with the outcome its contract names.
pub open spec fn same_outcome<T: View>(r: Result<T, String>, o: Result<T::V, Seq<char>>) -> bool {
    match (r, o) {
        (Ok(v), Ok(w)) => v@ == w,
        (Err(e), Err(m)) => e@ == m,
        _ => false,
    }
}

/// The tokens of `text` with the special tokens in `admitted` read as
/// themselves and all other text, other special-token text included, read
/// as ordinary text.
pub open spec fn encoded_with(enc: LoadedEncoding, text: Seq<char>, admitted: Set<Seq<char>>) -> Seq<u32> {
    special_encoding(enc.tokenizer_name(), text, enc.special_entries(), admitted)
}

/// The special tokens an optional allow-list admits: none without a list.
pub open spec fn admitted_by(allowed: Option<Seq<Seq<char>>>) -> Set<Seq<char>> {
    match allowed {
        Some(a) => a.to_set(),
        None => Set::empty(),
    }
}

/// Every special token of the encoding.
pub open spec fn all_specials(enc: LoadedEncoding) -> Set<Seq<char>> {
    strings_view(enc.special_names()).to_set()
}

/// Encoding `text` after checking it for special tokens that are not
/// allowed: the first such token in the encoding's order is the error;
/// otherwise the tokens with the allowed special tokens read as themselves.
pub open spec fn guarded_outcome(enc: LoadedEncoding, text: Seq<char>, allowed: Option<Seq<Seq<char>>>) -> Result<Seq<u32>, Seq<char>> {
    match first_disallowed_from(text, enc.special_names(), allowed, 0) {
        Some(i) => Err(disallowed_message(enc.special_names()[i]@)),
        None => Ok(encoded_with(enc, text, admitted_by(allowed))),
    }
}

/// Encoding with an allow-list: a listed name that is no special token of
/// the encoding is the error; otherwise the guarded encoding.
pub open spec fn allow_list_outcome(enc: LoadedEncoding, text: Seq<char>, allowed: Seq<Seq<char>>) -> Result<Seq<u32>, Seq<char>> {
    match first_unknown_from(allowed, enc.special_names(), 0) {
        Some(i) => Err(unknown_special_message(allowed[i])),
        None => guarded_outcome(enc, text, Some(allowed)),
    }
}

/// What encoding `text` gives in the mode `mode_raw` names, with the raw
/// special-token list (read only in allow-list mode).
pub open spec fn encode_outcome(enc: LoadedEncoding, text: Seq<char>, mode_raw: u32, list: RawText) -> Result<Seq<u32>, Seq<char>> {
    match mode_of(mode_raw) {
        None => Err(unknown_mode_message(mode_raw)),
        Some(SpecialMode::Disallow) => guarded_outcome(enc, text, None),
        Some(SpecialMode::EncodeAsText) => Ok(encoded_with(enc, text, Set::empty())),
        Some(SpecialMode::AllowAll) => Ok(encoded_with(enc, text, all_specials(enc))),
        Some(SpecialMode::AllowList) => match special_list_outcome(list) {
            Err(e) => Err(e),
            Ok(allowed) => allow_list_outcome(enc, text, allowed),
        },
    }
}

/// For each special token of the encoding, whether the optional allow-list
/// names it.
fn admit_listed(encoding: &LoadedEncoding, allowed: Option<&Vec<String>>) -> (flags: Vec<bool>)
    ensures
        flags@.len() == encoding.special_ranks@.len(),
        forall|i: int| 0 <= i < flags@.len() ==> flags@[i] == admitted_by(allowed_view(allowed)).contains(
            #[trigger] encoding.special_ranks@[i].0@,
        ),
{
    proof {
        use_type_invariant(encoding);
    }
    let mut flags: Vec<bool> = Vec::new();
    let mut i: usize = 0;
    while i < encoding.special_tokens.len()
        invariant
            i <= encoding.special_tokens@.len(),
            flags@.len() == i,
            encoding.special_ranks@.len() == encoding.special_tokens@.len(),
            forall|j: int| 0 <= j < encoding.special_tokens@.len() ==> (#[trigger] encoding.special_ranks@[j]).0@ == encoding.special_tokens@[j]@,
            forall|j: int| 0 <= j < i ==> flags@[j] == admitted_by(allowed_view(allowed)).contains(
                #[trigger] encoding.special_ranks@[j].0@,
            ),
        decreases encoding.special_tokens.len() - i,
    {
        let listed = match allowed {
            Some(a) => {
                proof {
                    lemma_has_name_view(a@, encoding.special_tokens@[i as int]@);
                }
                contains_name(a, &encoding.special_tokens[i])
            },
            None => false,
        };
        assert(encoding.special_ranks@[i as int].0@ == encoding.special_tokens@[i as int]@);
        flags.push(listed);
        i = i + 1;
    }
    flags
}

/// A set flag for every special token of the encoding.
fn admit_all(encoding: &LoadedEncoding) -> (flags: Vec<bool>)
    ensures
        flags@.len() == encoding.special_ranks@.len(),
        forall|i: int| 0 <= i < flags@.len() ==> flags@[i] == all_specials(*encoding).contains(
            #[trigger] encoding.special_ranks@[i].0@,
        ),
{
    proof {
        use_type_invariant(encoding);
    }
    let mut flags: Vec<bool> = Vec::new();
    let mut i: usize = 0;
    while i < encoding.special_ranks.len()
        invariant
            i <= encoding.special_ranks@.len(),
            flags@.len() == i,
            encoding.special_ranks@.len() == encoding.special_tokens@.len(),
            forall|j: int| 0 <= j < encoding.special_tokens@.len() ==> (#[trigger] encoding.special_ranks@[j]).0@ == encoding.special_tokens@[j]@,
            forall|j: int| 0 <= j < i ==> flags@[j] == all_specials(*encoding).contains(#[trigger] encoding.special_ranks@[j].0@),
        decreases encoding.special_ranks.len() - i,
    {
        assert(strings_view(encoding.special_tokens@)[i as int] == encoding.special_tokens@[i as int]@);
        assert(encoding.special_ranks@[i as int].0@ == encoding.special_tokens@[i as int]@);
        flags.push(true);
        i = i + 1;
    }
    flags
}

/// Checks `text` for special tokens that are not allowed, then encodes it
/// with the allowed ones read as themselves.
fn encode_guarded(encoding: &LoadedEncoding, text: &str, allowed: Option<&Vec<String>>) -> (r: Result<Vec<u32>, String>)
    ensures
        same_outcome(r, guarded_outcome(*encoding, text@, allowed_view(allowed))),
{
    match first_disallowed_special(text, &encoding.special_tokens, allowed) {
        Some(token) => Err(disallowed_special_token_error(token)),
        None => {
            let flags = admit_listed(encoding, allowed);
            Ok(encode_admitting(
                &encoding.tokenizer,
                text,
                &encoding.special_ranks,
                &flags,
                Ghost(admitted_by(allowed_view(allowed))),
            ))
        },
    }
}

/// Encodes `text` allowing the listed special tokens: every listed name
/// must be a special token of the encoding, and the text may spell no
/// other special token. The listed special tokens in the text are then
/// encoded as their ranks.
pub fn encode_allowing(encoding: &LoadedEncoding, text: &str, allowed: &Vec<String>) -> (r: Result<Vec<u32>, String>)
    ensures
        same_outcome(r, allow_list_outcome(*encoding, text@, strings_view(allowed@))),
{
    match first_unknown_special(allowed, &encoding.special_tokens) {
        Some(i) => {
            assert(strings_view(allowed@)[i as int] == allowed@[i as int]@);
            Err(unknown_special_token_error(&allowed[i]))
        },
        None => {
            assert(allowed_view(Some(allowed)) == Some(strings_view(allowed@)));
            encode_guarded(encoding, text, Some(allowed))
        },
    }
}

/// Encodes `text` with the given special-token mode: disallow (error on any
/// special-token text), encode as text, allow all, or allow a list.
pub fn encode_tokens(
    encoding: &LoadedEncoding,
    text: &str,
    special_mode_raw: u32,
    special_tokens_raw: RawText,
) -> (r: Result<Vec<u32>, String>)
    ensures
        same_outcome(r, encode_outcome(*encoding, text@, special_mode_raw, special_tokens_raw)),
{
    let mode = match SpecialMode::try_from(special_mode_raw) {
        Ok(m) => m,
        Err(e) => {
            return Err(e);
        },
    };
    match mode {
        SpecialMode::Disallow => encode_guarded(encoding, text, None),
        SpecialMode::EncodeAsText => {
            let flags = admit_listed(encoding, None);
            Ok(encode_admitting(&encoding.tokenizer, text, &encoding.special_ranks, &flags, Ghost(Set::empty())))
        },
        SpecialMode::AllowAll => {
            let flags = admit_all(encoding);
            Ok(encode_admitting(
                &encoding.tokenizer,
                text,
                &encoding.special_ranks,
                &flags,
                Ghost(all_specials(*encoding)),
            ))
        },
        SpecialMode::AllowList => {
            let allowed = match parse_special_token_list(special_tokens_raw) {
                Ok(v) => v,
                Err(e) => {
                    return Err(e);
                },
            };
            encode_allowing(encoding, text, &allowed)
        },
    }
}

/// The number of tokens that encoding `text` gives, or its error.
pub fn count_tokens(
    encoding: &LoadedEncoding,
    text: &str,
    special_mode_raw: u32,
    special_tokens_raw: RawText,
) -> (r: Result<u64, String>)
    ensures
        match (r, encode_outcome(*encoding, text@, special_mode_raw, special_tokens_raw)) {
            (Ok(n), Ok(tokens)) => n == tokens.len(),
            (Err(e), Err(m)) => e@ == m,
            _ => false,
        },
{
    match encode_tokens(encoding, text, special_mode_raw, special_tokens_raw) {
        Ok(tokens) => Ok(tokens.len() as u64),
        Err(e) => Err(e),
    }
}

/// The first index at or after `i` of a token the decoder does not know.
pub open spec fn first_unknown_token(dec: Map<u32, Seq<u8>>, tokens: Seq<u32>, i: int) -> Option<int>
    decreases tokens.len() - i,
{
    if i < 0 || i >= tokens.len() {
        None
    } else if !dec.contains_key(tokens[i]) {
        Some(i)
    } else {
        first_unknown_token(dec, tokens, i + 1)
    }
}

/// The bytes of the tokens, one after another.
pub open spec fn token_bytes(dec: Map<u32, Seq<u8>>, tokens: Seq<u32>) -> Seq<u8>
    decreases tokens.len(),
{
    if tokens.len() == 0 {
        Seq::empty()
    } else {
        token_bytes(dec, tokens.drop_last()) + dec[tokens.last()]
    }
}

/// What `String::from_utf8_lossy` makes of these bytes: the text they
/// encode, with U+FFFD for each invalid sequence.
pub uninterp spec fn utf8_lossy(bytes: Seq<u8>) -> Seq<char>;

/// Turns bytes into text, replacing invalid UTF-8.
///
/// Calls `String::from_utf8_lossy`, whose documentation promises the
/// decoded text unchanged when the bytes are valid UTF-8; otherwise the
/// result is named.
#[verifier::external_body]
fn lossy_string(bytes: &[u8]) -> (s: String)
    ensures
        s@ == utf8_lossy(bytes@),
        vstd::utf8::valid_utf8(bytes@) ==> s@ == vstd::utf8::decode_utf8(bytes@),
{
    String::from_utf8_lossy(bytes).into_owned()
}

/// The message for a token the encoding does not have.
pub open spec fn unknown_token_message(token: u32) -> Seq<char> {
    "unknown token: "@ + decimal(token as nat)
}

/// What decoding the tokens gives: the first unknown token is the error;
/// otherwise the text of their bytes.
pub open spec fn decode_outcome(dec: Map<u32, Seq<u8>>, tokens: Seq<u32>) -> Result<Seq<char>, Seq<char>> {
    match first_unknown_token(dec, tokens, 0) {
        Some(i) => Err(unknown_token_message(tokens[i])),
        None => Ok(utf8_lossy(token_bytes(dec, tokens))),
    }
}

/// Appends `b` to `out`.
fn append_bytes(out: &mut Vec<u8>, b: &Vec<u8>)
    ensures
        final(out)@ == old(out)@ + b@,
{
    let ghost start = out@;
    let mut i: usize = 0;
    while i < b.len()
        invariant
            i <= b@.len(),
            out@ == start + b@.take(i as int),
        decreases b.len() - i,
    {
        out.push(b[i]);
        i = i + 1;
        assert(b@.take(i as int) == b@.take(i - 1).push(b@[i - 1]));
    }
    assert(b@.take(i as int) == b@);
}

/// Decodes tokens to text: every token must be known; their bytes are
/// joined and read as UTF-8, invalid sequences replaced.
pub fn decode_tokens(encoding: &LoadedEncoding, tokens: &[u32]) -> (r: Result<String, String>)
    ensures
        same_outcome(r, decode_outcome(encoding.decoder_map(), tokens@)),
        r is Ok && vstd::utf8::valid_utf8(token_bytes(encoding.decoder_map(), tokens@)) ==> r->Ok_0@
            == vstd::utf8::decode_utf8(token_bytes(encoding.decoder_map(), tokens@)),
{
    let ghost dec = encoding.decoder_map();
    let mut bytes: Vec<u8> = Vec::new();
    let mut i: usize = 0;
    assert(tokens@.take(0) == Seq::<u32>::empty());
    while i < tokens.len()
        invariant
            i <= tokens@.len(),
            dec == encoding.decoder_map(),
            first_unknown_token(dec, tokens@, 0) == first_unknown_token(dec, tokens@, i as int),
            bytes@ == token_bytes(dec, tokens@.take(i as int)),
        decreases tokens.len() - i,
    {
        let t = tokens[i];
        match encoding.decoder.get(&t) {
            Some(b) => {
                append_bytes(&mut bytes, b);
                assert(tokens@.take(i + 1).drop_last() == tokens@.take(i as int));
            },
            None => {
                let mut msg: Vec<char> = Vec::new();
                push_str(&mut msg, "unknown token: ");
                push_decimal(&mut msg, t);
                return Err(string_from_chars(&msg));
            },
        }
        i = i + 1;
    }
    assert(tokens@.take(i as int) == tokens@);
    Ok(lossy_string(bytes.as_slice()))
}

} // verus!
