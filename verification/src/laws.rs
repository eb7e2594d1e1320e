//! Properties that hold across the library's operations.
use vstd::prelude::*;

use crate::cache::{get_encoding_post, is_row_loading, EncodingCache};
use crate::calls::{decode_call_outcome, encode_call_outcome, looked_up};
use crate::encoding::{
    all_specials, allow_list_outcome, decoder_matches, encode_outcome, encoded_with, guarded_outcome, ordinary_tokens, first_unknown_token, is_special_rank, token_bytes,
    LoadedEncoding,
};
use crate::registry::{encoding_row, lemma_encoding_row_bound, model_encoding};
use crate::output::without_nul;
use crate::scanner::{lemma_special_match, occurs_chars, scan_from, segment_tokens, special_encoding, special_match};
use crate::special::{
    c_string_outcome, unknown_special_message, first_disallowed_from, first_unknown_from, flush, is_allowed, lemma_has_name_view, lines_from,
    nonempty_lines, special_list_outcome, strings_view, text_contains, RawText,
};
use crate::text::{occurs_at, first_index_of, lemma_first_index_of, lemma_first_index_of_at};
use crate::vocab::ranks_from;

verus! {

proof fn lemma_first_disallowed_none(
    text: Seq<char>,
    tokens: Seq<String>,
    allowed: Option<Seq<Seq<char>>>,
    i: int,
)
    requires
        0 <= i,
    ensures
        first_disallowed_from(text, tokens, allowed, i) matches Some(k) ==> i <= k < tokens.len()
            && !is_allowed(allowed, tokens[k]@) && text_contains(text, tokens[k]@),
        first_disallowed_from(text, tokens, allowed, i) is None ==> forall|k: int|
            i <= k < tokens.len() ==> is_allowed(allowed, #[trigger] tokens[k]@) || !text_contains(text, tokens[k]@),
    decreases tokens.len() - i,
{
    if i < tokens.len() {
        lemma_first_disallowed_none(text, tokens, allowed, i + 1);
    }
}

proof fn lemma_empty_allow_list_allows_nothing(text: Seq<char>, tokens: Seq<String>, i: int)
    ensures
        first_disallowed_from(text, tokens, Some(Seq::<Seq<char>>::empty()), i)
            == first_disallowed_from(text, tokens, None, i),
    decreases tokens.len() - i,
{
    if 0 <= i < tokens.len() {
        lemma_empty_allow_list_allows_nothing(text, tokens, i + 1);
    }
}

/// In the default mode, text that spells a special token of the encoding
/// is refused, and any other text encodes exactly as in encode-as-text
/// mode.
pub proof fn law_default_mode_refuses_special_text(enc: LoadedEncoding, text: Seq<char>, list: RawText)
    ensures
        encode_outcome(enc, text, 0, list) is Err <==> exists|k: int|
            0 <= k < enc.special_names().len() && text_contains(text, #[trigger] enc.special_names()[k]@),
        encode_outcome(enc, text, 0, list) is Ok ==> encode_outcome(enc, text, 0, list) == encode_outcome(enc, text, 1, list),
{
    lemma_first_disallowed_none(text, enc.special_names(), None, 0);
}

/// A special-token list with no entries (no list at all, or only empty
/// lines) behaves as the default mode.
pub proof fn law_empty_allow_list_is_default_mode(enc: LoadedEncoding, text: Seq<char>, list: RawText)
    requires
        special_list_outcome(list) == Ok::<Seq<Seq<char>>, Seq<char>>(Seq::empty()),
    ensures
        encode_outcome(enc, text, 3, list) == encode_outcome(enc, text, 0, list),
{
    lemma_empty_allow_list_allows_nothing(text, enc.special_names(), 0);
    assert(first_unknown_from(Seq::<Seq<char>>::empty(), enc.special_names(), 0) is None);
    assert(Seq::<Seq<char>>::empty().to_set() =~= Set::<Seq<char>>::empty());
}

proof fn lemma_all_known(a: Seq<Seq<char>>, names: Seq<String>, i: int)
    requires
        0 <= i,
        forall|x: Seq<char>| #[trigger] a.contains(x) ==> strings_view(names).contains(x),
    ensures
        first_unknown_from(a, names, i) is None,
    decreases a.len() - i,
{
    if i < a.len() {
        assert(a.contains(a[i]));
        lemma_has_name_view(names, a[i]);
        lemma_all_known(a, names, i + 1);
    }
}

proof fn lemma_all_admitted(text: Seq<char>, names: Seq<String>, a: Seq<Seq<char>>, i: int)
    requires
        0 <= i,
        forall|x: Seq<char>| #[trigger] strings_view(names).contains(x) ==> a.contains(x),
    ensures
        first_disallowed_from(text, names, Some(a), i) is None,
    decreases names.len() - i,
{
    if i < names.len() {
        assert(strings_view(names)[i] == names[i]@);
        assert(strings_view(names).contains(names[i]@));
        lemma_all_admitted(text, names, a, i + 1);
    }
}

/// A special-token list that names every special token of the encoding
/// and nothing else, in any order and with repeats, behaves as allow-all
/// mode.
pub proof fn law_allowing_every_special_is_allow_all(enc: LoadedEncoding, text: Seq<char>, list: RawText)
    requires
        special_list_outcome(list) matches Ok(a) && a.to_set() == all_specials(enc),
    ensures
        encode_outcome(enc, text, 3, list) == encode_outcome(enc, text, 2, list),
{
    let a = special_list_outcome(list)->Ok_0;
    let names = enc.special_names();
    assert forall|x: Seq<char>| #[trigger] a.contains(x) implies strings_view(names).contains(x) by {
        assert(a.to_set().contains(x));
    }
    assert forall|x: Seq<char>| #[trigger] strings_view(names).contains(x) implies a.contains(x) by {
        assert(all_specials(enc).contains(x));
    }
    lemma_all_known(a, names, 0);
    lemma_all_admitted(text, names, a, 0);
}

proof fn lemma_scan_without_specials(
    encoding: Seq<char>,
    text: Seq<char>,
    entries: Seq<(Seq<char>, u32)>,
    p: int,
)
    requires
        0 <= p <= text.len(),
    ensures
        scan_from(encoding, text, entries, Set::empty(), 0, p) == segment_tokens(encoding, text, 0, text.len() as int),
    decreases text.len() - p,
{
    if p < text.len() {
        lemma_special_match(text, entries, Set::empty(), p, 0);
        lemma_scan_without_specials(encoding, text, entries, p + 1);
    }
}

/// With no special token admitted, every text is ordinary text: the
/// tokens are those the encoding's tokenizer gives the whole text (none for
/// the empty text).
pub proof fn law_nothing_admitted_is_ordinary(enc: LoadedEncoding, text: Seq<char>)
    ensures
        encoded_with(enc, text, Set::empty()) == if text.len() == 0 {
            Seq::<u32>::empty()
        } else {
            ordinary_tokens(enc.tokenizer_name(), text)
        },
{
    lemma_scan_without_specials(enc.tokenizer_name(), text, enc.special_entries(), 0);
    assert(text.subrange(0, text.len() as int) == text);
}

/// Encodings built on the same tokenizer (`gpt2` and `r50k_base`,
/// `p50k_edit` and `p50k_base`, `o200k_harmony` and `o200k_base`) encode
/// ordinary text alike: in encode-as-text mode they give the same tokens.
pub proof fn law_same_tokenizer_same_ordinary_tokens(a: LoadedEncoding, b: LoadedEncoding, text: Seq<char>)
    requires
        a.tokenizer_name() == b.tokenizer_name(),
    ensures
        encoded_with(a, text, Set::empty()) == encoded_with(b, text, Set::empty()),
        forall|list: RawText| encode_outcome(a, text, 1, list) == encode_outcome(b, text, 1, list),
{
    law_nothing_admitted_is_ordinary(a, text);
    law_nothing_admitted_is_ordinary(b, text);
}

proof fn lemma_first_unknown_token(dec: Map<u32, Seq<u8>>, t: Seq<u32>, i: int)
    requires
        0 <= i,
    ensures
        first_unknown_token(dec, t, i) is None <==> forall|k: int| i <= k < t.len() ==> dec.contains_key(#[trigger] t[k]),
    decreases t.len() - i,
{
    if i < t.len() {
        lemma_first_unknown_token(dec, t, i + 1);
    }
}

proof fn lemma_token_bytes_concat(dec: Map<u32, Seq<u8>>, a: Seq<u32>, b: Seq<u32>)
    ensures
        token_bytes(dec, a + b) == token_bytes(dec, a) + token_bytes(dec, b),
    decreases b.len(),
{
    if b.len() == 0 {
        assert(a + b == a);
        assert(token_bytes(dec, a) + Seq::<u8>::empty() == token_bytes(dec, a));
    } else {
        lemma_token_bytes_concat(dec, a, b.drop_last());
        assert((a + b).drop_last() == a + b.drop_last());
        assert((a + b).last() == b.last());
        assert(token_bytes(dec, a) + token_bytes(dec, b.drop_last()) + dec[b.last()]
            == token_bytes(dec, a) + (token_bytes(dec, b.drop_last()) + dec[b.last()]));
    }
}

/// Decoding is compositional: tokens joined decode exactly when both parts
/// do, to the parts' bytes one after the other.
pub proof fn law_decode_concat(dec: Map<u32, Seq<u8>>, a: Seq<u32>, b: Seq<u32>)
    ensures
        first_unknown_token(dec, a + b, 0) is None <==> (first_unknown_token(dec, a, 0) is None
            && first_unknown_token(dec, b, 0) is None),
        token_bytes(dec, a + b) == token_bytes(dec, a) + token_bytes(dec, b),
{
    lemma_first_unknown_token(dec, a + b, 0);
    lemma_first_unknown_token(dec, a, 0);
    lemma_first_unknown_token(dec, b, 0);
    if first_unknown_token(dec, a, 0) is None && first_unknown_token(dec, b, 0) is None {
        assert forall|k: int| 0 <= k < (a + b).len() implies dec.contains_key(#[trigger] (a + b)[k]) by {
            if k < a.len() {
                assert((a + b)[k] == a[k]);
            } else {
                assert((a + b)[k] == b[k - a.len()]);
            }
        }
    }
    if first_unknown_token(dec, a + b, 0) is None {
        assert forall|k: int| 0 <= k < a.len() implies dec.contains_key(#[trigger] a[k]) by {
            assert((a + b)[k] == a[k]);
        }
        assert forall|k: int| 0 <= k < b.len() implies dec.contains_key(#[trigger] b[k]) by {
            assert((a + b)[k + a.len()] == b[k]);
        }
    }
    lemma_token_bytes_concat(dec, a, b);
}

/// A lookup leaves an encoding already loaded in place, and a lookup of
/// its own name gives it back.
proof fn lemma_lookup_keeps(
    c: EncodingCache,
    name: Seq<char>,
    r: Result<LoadedEncoding, Seq<char>>,
    c2: EncodingCache,
    i: int,
    a: LoadedEncoding,
)
    requires
        get_encoding_post(c, name, r, c2),
        c.slots_view().len() == 7,
        0 <= i < 7,
        c.cached(i) == Some(a),
    ensures
        c2.slots_view().len() == 7,
        c2.cached(i) == Some(a),
        encoding_row(name) == Some(i) ==> r == Ok::<LoadedEncoding, Seq<char>>(a),
{
    lemma_encoding_row_bound(name, 0);
}

proof fn lemma_kept_from(
    caches: Seq<EncodingCache>,
    names: Seq<Seq<char>>,
    results: Seq<Result<LoadedEncoding, Seq<char>>>,
    i: int,
    a: LoadedEncoding,
    j: int,
)
    requires
        caches.len() == names.len() + 1,
        results.len() == names.len(),
        forall|k: int| 0 <= k < names.len() ==> get_encoding_post(
            #[trigger] caches[k],
            names[k],
            results[k],
            caches[k + 1],
        ),
        0 <= i < 7,
        caches[1].slots_view().len() == 7,
        caches[1].cached(i) == Some(a),
        1 <= j <= names.len(),
    ensures
        caches[j].slots_view().len() == 7,
        caches[j].cached(i) == Some(a),
    decreases j,
{
    if j > 1 {
        lemma_kept_from(caches, names, results, i, a, j - 1);
        lemma_lookup_keeps(caches[j - 1], names[j - 1], results[j - 1], caches[j], i, a);
    }
}

/// Once looking up a name has given an encoding, every later lookup of
/// that name gives the same encoding, whatever was looked up in between:
/// each encoding is loaded once and kept.
pub proof fn law_loaded_encoding_is_kept(
    caches: Seq<EncodingCache>,
    names: Seq<Seq<char>>,
    results: Seq<Result<LoadedEncoding, Seq<char>>>,
    k: int,
)
    requires
        caches.len() == names.len() + 1,
        results.len() == names.len(),
        caches[0].wf(),
        forall|j: int| 0 <= j < names.len() ==> get_encoding_post(
            #[trigger] caches[j],
            names[j],
            results[j],
            caches[j + 1],
        ),
        0 <= k < names.len(),
        results[0] is Ok,
        names[k] == names[0],
    ensures
        results[k] == results[0],
{
    caches[0].lemma_slots();
    lemma_encoding_row_bound(names[0], 0);
    assert(get_encoding_post(caches[0], names[0], results[0], caches[1]));
    let i = encoding_row(names[0])->0;
    let a = results[0]->Ok_0;
    if caches[0].cached(i) is None {
        assert(caches[1].slots_view() == caches[0].slots_view().update(i, Some(a)));
    }
    assert(caches[1].cached(i) == Some(a));
    if k > 0 {
        lemma_kept_from(caches, names, results, i, a, k);
        assert(get_encoding_post(caches[k], names[k], results[k], caches[k + 1]));
        lemma_lookup_keeps(caches[k], names[k], results[k], caches[k + 1], i, a);
    }
}

/// Two lookups of one encoding name in a row give the same result.
proof fn lemma_same_name_twice(
    c0: EncodingCache,
    name: Seq<char>,
    g1: Result<LoadedEncoding, Seq<char>>,
    c1: EncodingCache,
    g2: Result<LoadedEncoding, Seq<char>>,
    c2: EncodingCache,
)
    requires
        c0.slots_view().len() == 7,
        get_encoding_post(c0, name, g1, c1),
        get_encoding_post(c1, name, g2, c2),
    ensures
        g2 == g1,
{
    lemma_encoding_row_bound(name, 0);
    if let Some(i) = encoding_row(name) {
        if c0.cached(i) is None && g1 is Ok {
            assert(c1.slots_view() == c0.slots_view().update(i, Some(g1->Ok_0)));
            assert(c1.cached(i) == Some(g1->Ok_0));
        }
    }
}

/// Looking an encoding up by a model name and by the name of the encoding
/// that the model resolves to, one after the other on the same cache and
/// in either order, gives the same result. So counting, encoding and
/// decoding by model give what the same calls by encoding name give.
pub proof fn law_model_lookup_is_name_lookup(
    c0: EncodingCache,
    c1: EncodingCache,
    c2: EncodingCache,
    model: RawText,
    name: RawText,
    model_first: bool,
    got1: Result<LoadedEncoding, Seq<char>>,
    got2: Result<LoadedEncoding, Seq<char>>,
    input: RawText,
    special_mode: u32,
    special_tokens: RawText,
    tokens: Seq<u32>,
)
    requires
        c0.wf(),
        c_string_outcome(model, "model_name"@) matches Ok(m) && c_string_outcome(name, "encoding_name"@) matches Ok(n)
            && model_encoding(m) == Some(n),
        looked_up(c0, if model_first { model } else { name }, model_first, got1, c1),
        looked_up(c1, if model_first { name } else { model }, !model_first, got2, c2),
    ensures
        got2 == got1,
        encode_call_outcome(got2, input, special_mode, special_tokens) == encode_call_outcome(
            got1,
            input,
            special_mode,
            special_tokens,
        ),
        decode_call_outcome(got2, tokens) == decode_call_outcome(got1, tokens),
{
    c0.lemma_slots();
    let n = c_string_outcome(name, "encoding_name"@)->Ok_0;
    lemma_same_name_twice(c0, n, got1, c1, got2, c2);
}

/// Looking an encoding up by a model name and, from the same cache, by
/// the name of the encoding the model resolves to gives the same error, or
/// two encodings that are both what loading that encoding gives, and the
/// very same encoding when it was loaded already.
pub proof fn law_model_and_name_lookups_agree(
    c0: EncodingCache,
    c1: EncodingCache,
    c2: EncodingCache,
    model: RawText,
    name: RawText,
    got1: Result<LoadedEncoding, Seq<char>>,
    got2: Result<LoadedEncoding, Seq<char>>,
)
    requires
        c0.wf(),
        c_string_outcome(model, "model_name"@) matches Ok(m) && c_string_outcome(name, "encoding_name"@) matches Ok(n)
            && model_encoding(m) == Some(n),
        looked_up(c0, model, true, got1, c1),
        looked_up(c0, name, false, got2, c2),
    ensures
        got1 is Err ==> got2 == got1,
        got2 is Err ==> got2 == got1,
        got1 is Ok && got2 is Ok ==> (encoding_row(c_string_outcome(name, "encoding_name"@)->Ok_0) matches Some(i)
            && is_row_loading(got1->Ok_0, i, c0.vocabularies()) && is_row_loading(got2->Ok_0, i, c0.vocabularies())
            && (c0.cached(i) is Some ==> got2 == got1)),
{
    c0.lemma_slots();
    let n = c_string_outcome(name, "encoding_name"@)->Ok_0;
    lemma_encoding_row_bound(n, 0);
}

proof fn lemma_lines_from(s: Seq<char>, cur: Seq<char>)
    requires
        !cur.contains('\n'),
    ensures
        forall|k: int| 0 <= k < lines_from(s, cur).len() ==> (#[trigger] lines_from(s, cur)[k]).len() > 0
            && !lines_from(s, cur)[k].contains('\n'),
    decreases s.len(),
{
    if s.len() == 0 {
        if cur.len() > 0 {
            assert(lines_from(s, cur) == seq![cur]);
            assert(lines_from(s, cur)[0] == cur);
        }
    } else {
        if s[0] == '\n' {
            lemma_lines_from(s.drop_first(), seq![]);
            let rest = lines_from(s.drop_first(), seq![]);
            assert forall|k: int| 0 <= k < lines_from(s, cur).len() implies (#[trigger] lines_from(s, cur)[k]).len() > 0
                && !lines_from(s, cur)[k].contains('\n') by {
                assert(lines_from(s, cur) == flush(cur) + rest);
                if k >= flush(cur).len() {
                    assert(lines_from(s, cur)[k] == rest[k - flush(cur).len()]);
                } else {
                    assert(cur.len() > 0);
                    assert(lines_from(s, cur)[k] == cur);
                }
            }
        } else {
            assert(!cur.push(s[0]).contains('\n')) by {
                if cur.push(s[0]).contains('\n') {
                    let j = choose|j: int| 0 <= j < cur.push(s[0]).len() && cur.push(s[0])[j] == '\n';
                    if j < cur.len() {
                        assert(cur[j] == '\n');
                    }
                }
            }
            lemma_lines_from(s.drop_first(), cur.push(s[0]));
            assert(lines_from(s, cur) == lines_from(s.drop_first(), cur.push(s[0])));
        }
    }
}

/// Every entry of a special-token list is non-empty and holds no newline.
pub proof fn law_special_list_entries(s: Seq<char>)
    ensures
        forall|k: int| 0 <= k < nonempty_lines(s).len() ==> (#[trigger] nonempty_lines(s)[k]).len() > 0
            && !nonempty_lines(s)[k].contains('\n'),
{
    lemma_lines_from(s, seq![]);
}


/// A loaded decoder gives back the token a rank was read for, when no
/// other token has that rank and it is no special token's rank.
pub proof fn law_decoder_inverts_unique_ranks(
    dec: Map<u32, Seq<u8>>,
    ranks: Map<Seq<u8>, u32>,
    specials: Map<Seq<char>, u32>,
    t: Seq<u8>,
)
    requires
        decoder_matches(dec, ranks, specials),
        ranks.contains_key(t),
        !is_special_rank(specials, ranks[t]),
        forall|u: Seq<u8>| ranks.contains_key(u) && ranks[u] == ranks[t] ==> u == t,
    ensures
        dec.contains_key(ranks[t]),
        dec[ranks[t]] == t,
{
    let r = ranks[t];
    assert(crate::encoding::is_mergeable_rank(ranks, r));
    assert(dec.contains_key(r));
}


proof fn lemma_first_index_of_concat(a: Seq<u8>, c: Seq<u8>, x: u8)
    ensures
        first_index_of(a, x) < a.len() ==> first_index_of(a + c, x) == first_index_of(a, x),
        first_index_of(a, x) == a.len() ==> first_index_of(a + c, x) == a.len() + first_index_of(c, x),
{
    lemma_first_index_of(a, x);
    lemma_first_index_of(c, x);
    let s = a + c;
    let k = first_index_of(a, x);
    if k < a.len() {
        assert forall|j: int| 0 <= j < k implies s[j] != x by {
            assert(s[j] == a[j]);
        }
        assert(s[k] == a[k]);
        lemma_first_index_of_at(s, x, k);
    } else {
        let m = first_index_of(c, x);
        assert forall|j: int| 0 <= j < a.len() + m implies s[j] != x by {
            if j < a.len() {
                assert(s[j] == a[j]);
            } else {
                assert(s[j] == c[j - a.len()]);
            }
        }
        if m < c.len() {
            assert(s[a.len() + m] == c[m]);
        }
        lemma_first_index_of_at(s, x, a.len() + m);
    }
}

/// Reading a vocabulary that is two parts joined by a newline is reading
/// the first part, then the second onto what the first gave.
pub proof fn law_vocab_reads_in_parts(a: Seq<u8>, b: Seq<u8>, name: Seq<char>, acc: Map<Seq<u8>, u32>)
    ensures
        ranks_from(a + seq![10u8] + b, name, acc) == match ranks_from(a, name, acc) {
            Err(e) => Err(e),
            Ok(m) => ranks_from(b, name, m),
        },
    decreases a.len(),
{
    let s = a + seq![10u8] + b;
    let nl: Seq<u8> = seq![10u8];
    assert(s == a + (nl + b));
    lemma_first_index_of_concat(a, nl + b, 10u8);
    lemma_first_index_of(a, 10u8);
    let k = first_index_of(a, 10u8);
    assert(s.take(k) == a.take(k));
    if k < a.len() {
        let rest_a = a.skip(k + 1);
        assert(s.skip(k + 1) == rest_a + seq![10u8] + b);
        let line = a.take(k);
        let step: Result<Map<Seq<u8>, u32>, Seq<char>> = if line.len() == 0 {
            Ok(acc)
        } else {
            match crate::vocab::line_entry(line, name) {
                Ok(entry) => Ok(acc.insert(entry.0, entry.1)),
                Err(e) => Err(e),
            }
        };
        if let Ok(m) = step {
            law_vocab_reads_in_parts(rest_a, b, name, m);
        }
    } else {
        assert(first_index_of(nl + b, 10u8) == 0);
        assert(a.take(k) == a);
        assert(s.skip(k + 1) == b);
    }
}


proof fn lemma_occurs_in_prefix(x: Seq<char>, w: Seq<char>, token: Seq<char>, q: int)
    requires
        x.len() <= w.len(),
        w.subrange(0, x.len() as int) == x,
        occurs_chars(x, token, q),
    ensures
        occurs_chars(w, token, q),
{
    assert(w.subrange(q, q + token.len()) =~= x.subrange(q, q + token.len())) by {
        assert forall|i: int| 0 <= i < token.len() implies #[trigger] w.subrange(q, q + token.len())[i] == x.subrange(q, q + token.len())[i] by {
            assert(w[q + i] == w.subrange(0, x.len() as int)[q + i]);
        }
    }
}

proof fn lemma_occurs_shifted(w: Seq<char>, y: Seq<char>, m: int, token: Seq<char>, q: int)
    requires
        0 <= m <= q,
        w.len() == m + y.len(),
        w.subrange(m, w.len() as int) == y,
    ensures
        occurs_chars(w, token, q) == occurs_chars(y, token, q - m),
{
    if q + token.len() <= w.len() {
        assert(w.subrange(q, q + token.len()) =~= y.subrange(q - m, q - m + token.len())) by {
            assert forall|i: int| 0 <= i < token.len() implies #[trigger] w.subrange(q, q + token.len())[i] == y.subrange(q - m, q - m + token.len())[i] by {
                assert(w[q + i] == w.subrange(m, w.len() as int)[q + i - m]);
            }
        }
    }
}

proof fn lemma_match_shifted(
    w: Seq<char>,
    y: Seq<char>,
    m: int,
    entries: Seq<(Seq<char>, u32)>,
    admitted: Set<Seq<char>>,
    q: int,
    i: int,
)
    requires
        0 <= m <= q,
        0 <= i,
        w.len() == m + y.len(),
        w.subrange(m, w.len() as int) == y,
    ensures
        special_match(w, entries, admitted, q, i) == special_match(y, entries, admitted, q - m, i),
    decreases entries.len() - i,
{
    if i < entries.len() {
        lemma_occurs_shifted(w, y, m, entries[i].0, q);
        lemma_match_shifted(w, y, m, entries, admitted, q, i + 1);
    }
}

proof fn lemma_scan_shifted(
    t: Seq<char>,
    w: Seq<char>,
    y: Seq<char>,
    m: int,
    entries: Seq<(Seq<char>, u32)>,
    admitted: Set<Seq<char>>,
    s: int,
    p: int,
)
    requires
        0 <= m <= s <= p <= w.len(),
        w.len() == m + y.len(),
        w.subrange(m, w.len() as int) == y,
    ensures
        scan_from(t, w, entries, admitted, s, p) == scan_from(t, y, entries, admitted, s - m, p - m),
    decreases w.len() - p,
{
    assert forall|a: int, b: int| m <= a <= b <= w.len() implies #[trigger] w.subrange(a, b) == y.subrange(a - m, b - m) by {
        assert(w.subrange(a, b) =~= y.subrange(a - m, b - m)) by {
            assert forall|i: int| 0 <= i < b - a implies #[trigger] w.subrange(a, b)[i] == y.subrange(a - m, b - m)[i] by {
                assert(w[a + i] == w.subrange(m, w.len() as int)[a + i - m]);
            }
        }
    }
    if p < w.len() {
        lemma_match_shifted(w, y, m, entries, admitted, p, 0);
        lemma_special_match(w, entries, admitted, p, 0);
        match special_match(w, entries, admitted, p, 0) {
            Some(k) => {
                let e = p + entries[k].0.len();
                lemma_scan_shifted(t, w, y, m, entries, admitted, e, e);
            },
            None => {
                lemma_scan_shifted(t, w, y, m, entries, admitted, s, p + 1);
            },
        }
    }
}

proof fn lemma_scan_skips(
    t: Seq<char>,
    w: Seq<char>,
    entries: Seq<(Seq<char>, u32)>,
    admitted: Set<Seq<char>>,
    s: int,
    p: int,
    n: int,
)
    requires
        0 <= s <= p <= n <= w.len(),
        forall|q: int| p <= q < n ==> #[trigger] special_match(w, entries, admitted, q, 0) is None,
    ensures
        scan_from(t, w, entries, admitted, s, p) == scan_from(t, w, entries, admitted, s, n),
    decreases n - p,
{
    if p < n {
        lemma_scan_skips(t, w, entries, admitted, s, p + 1, n);
    }
}

proof fn lemma_match_first(
    w: Seq<char>,
    entries: Seq<(Seq<char>, u32)>,
    admitted: Set<Seq<char>>,
    q: int,
    k: int,
    i: int,
)
    requires
        0 <= i <= k < entries.len(),
        admitted.contains(entries[k].0),
        entries[k].0.len() > 0,
        occurs_chars(w, entries[k].0, q),
        forall|j: int| 0 <= j < k && admitted.contains(#[trigger] entries[j].0) && entries[j].0.len() > 0
            ==> !occurs_chars(w, entries[j].0, q),
    ensures
        special_match(w, entries, admitted, q, i) == Some(k),
    decreases k - i,
{
    if i < k {
        lemma_match_first(w, entries, admitted, q, k, i + 1);
    }
}

/// Every occurrence of an admitted special token is read as its rank,
/// whatever came before it: when `x` holds no start of an admitted token,
/// the tokens of `x ++ s ++ y` are the tokens of `x` (its ordinary tokens,
/// none when empty), then the rank of `s`, then the tokens of `y` under
/// the same admitted tokens. (`s` is the first entry in table order that
/// starts there; in the encodings' tables no token starts another.)
pub proof fn law_admitted_special_reads_as_rank(
    tokenizer: Seq<char>,
    entries: Seq<(Seq<char>, u32)>,
    admitted: Set<Seq<char>>,
    x: Seq<char>,
    k: int,
    y: Seq<char>,
)
    requires
        0 <= k < entries.len(),
        admitted.contains(entries[k].0),
        entries[k].0.len() > 0,
        forall|j: int, q: int|
            0 <= j < entries.len() && admitted.contains(#[trigger] entries[j].0) && entries[j].0.len() > 0 && 0 <= q
                < x.len() ==> !#[trigger] occurs_chars(x + entries[k].0 + y, entries[j].0, q),
        forall|j: int| 0 <= j < k && admitted.contains(#[trigger] entries[j].0) && entries[j].0.len() > 0
            ==> !occurs_chars(x + entries[k].0 + y, entries[j].0, x.len() as int),
    ensures
        special_encoding(tokenizer, x + entries[k].0 + y, entries, admitted) == special_encoding(
            tokenizer,
            x,
            entries,
            admitted,
        ).push(entries[k].1) + special_encoding(tokenizer, y, entries, admitted),
        special_encoding(tokenizer, x, entries, admitted) == if x.len() == 0 {
            Seq::<u32>::empty()
        } else {
            ordinary_tokens(tokenizer, x)
        },
{
    let tok = entries[k].0;
    let w = x + tok + y;
    let m = x.len() as int;
    let e = m + tok.len();
    assert(w.subrange(0, m) =~= x);
    assert(w.subrange(m, e) =~= tok);
    assert(w.subrange(e, w.len() as int) =~= y);
    assert forall|q: int| 0 <= q < m implies #[trigger] special_match(w, entries, admitted, q, 0) is None by {
        lemma_special_match(w, entries, admitted, q, 0);
    }
    lemma_scan_skips(tokenizer, w, entries, admitted, 0, 0, m);
    assert(occurs_chars(w, tok, m));
    lemma_match_first(w, entries, admitted, m, k, 0);
    lemma_scan_shifted(tokenizer, w, y, e, entries, admitted, e, e);
    assert forall|q: int| 0 <= q < m implies #[trigger] special_match(x, entries, admitted, q, 0) is None by {
        lemma_special_match(x, entries, admitted, q, 0);
        if let Some(j) = special_match(x, entries, admitted, q, 0) {
            lemma_occurs_in_prefix(x, w, entries[j].0, q);
        }
    }
    lemma_scan_skips(tokenizer, x, entries, admitted, 0, 0, m);
    assert(x.subrange(0, m) =~= x);
}

proof fn lemma_encode_utf8_concat(a: Seq<char>, b: Seq<char>)
    ensures
        vstd::utf8::encode_utf8(a + b) == vstd::utf8::encode_utf8(a) + vstd::utf8::encode_utf8(b),
    decreases a.len(),
{
    if a.len() == 0 {
        assert(a + b =~= b);
    } else {
        assert((a + b).drop_first() =~= a.drop_first() + b);
        assert((a + b)[0] == a[0]);
        lemma_encode_utf8_concat(a.drop_first(), b);
    }
}

/// A text spells a token wherever the token's UTF-8 bytes stand in the
/// text's, its very start included: `x ++ token ++ y` spells `token`.
pub proof fn law_text_spells_token_anywhere(x: Seq<char>, token: Seq<char>, y: Seq<char>)
    ensures
        text_contains(x + token + y, token),
{
    lemma_encode_utf8_concat(x + token, y);
    lemma_encode_utf8_concat(x, token);
    let bx = vstd::utf8::encode_utf8(x);
    let bt = vstd::utf8::encode_utf8(token);
    let by = vstd::utf8::encode_utf8(y);
    let b = vstd::utf8::encode_utf8(x + token + y);
    assert(b == bx + bt + by);
    assert(b.subrange(bx.len() as int, (bx.len() + bt.len()) as int) =~= bt);
    assert(occurs_at(b, bt, bx.len() as int));
}

/// In the default mode every text that spells a special token of the
/// encoding anywhere, at its start too, is refused.
pub proof fn law_default_mode_refuses_any_special_occurrence(
    enc: LoadedEncoding,
    k: int,
    x: Seq<char>,
    y: Seq<char>,
    list: RawText,
)
    requires
        0 <= k < enc.special_names().len(),
    ensures
        encode_outcome(enc, x + enc.special_names()[k]@ + y, 0, list) is Err,
{
    law_text_spells_token_anywhere(x, enc.special_names()[k]@, y);
    law_default_mode_refuses_special_text(enc, x + enc.special_names()[k]@ + y, list);
}

/// The bytes of one known token are exactly its decoder bytes; with
/// `law_decode_concat`, the bytes of a token list are the decoder bytes of
/// its tokens one after another, which `decode_tokens` then reads as UTF-8
/// in one piece.
pub proof fn law_token_bytes_are_decoder_bytes(dec: Map<u32, Seq<u8>>, tokens: Seq<u32>)
    ensures
        forall|t: u32| #[trigger] token_bytes(dec, seq![t]) == dec[t],
        token_bytes(dec, tokens) == tokens.map_values(|t: u32| dec[t]).flatten(),
    decreases tokens.len(),
{
    assert forall|t: u32| #[trigger] token_bytes(dec, seq![t]) == dec[t] by {
        let one: Seq<u32> = seq![t];
        assert(one.drop_last() =~= Seq::<u32>::empty());
        assert(token_bytes(dec, one.drop_last()) == Seq::<u8>::empty());
        assert(one.last() == t);
        assert(token_bytes(dec, one) == token_bytes(dec, one.drop_last()) + dec[one.last()]);
        assert(Seq::<u8>::empty() + dec[t] =~= dec[t]);
    }
    if tokens.len() == 0 {
        assert(tokens.map_values(|t: u32| dec[t]) =~= Seq::<Seq<u8>>::empty());
    } else {
        law_token_bytes_are_decoder_bytes(dec, tokens.drop_last());
        let f = |t: u32| dec[t];
        assert(tokens.map_values(f) =~= tokens.drop_last().map_values(f).push(dec[tokens.last()]));
        tokens.drop_last().map_values(f).lemma_flatten_push(dec[tokens.last()]);
    }
}

/// The allow-list is accepted only if every listed name, wherever it
/// stands, is a special token of the encoding: the first name that is not
/// is the error, and when every name is one, no name is refused.
pub proof fn law_allow_list_checks_every_name(enc: LoadedEncoding, a: Seq<Seq<char>>, text: Seq<char>)
    ensures
        (forall|i: int| 0 <= i < a.len() ==> strings_view(enc.special_names()).contains(#[trigger] a[i]))
            ==> allow_list_outcome(enc, text, a) == guarded_outcome(enc, text, Some(a)),
        forall|j: int|
            0 <= j < a.len() && !strings_view(enc.special_names()).contains(#[trigger] a[j]) && (forall|i: int|
                0 <= i < j ==> strings_view(enc.special_names()).contains(#[trigger] a[i]))
                ==> allow_list_outcome(enc, text, a) == Err::<Seq<u32>, Seq<char>>(unknown_special_message(a[j])),
{
    let names = enc.special_names();
    lemma_first_unknown(a, names, 0);
}

proof fn lemma_first_unknown(a: Seq<Seq<char>>, names: Seq<String>, i: int)
    requires
        0 <= i,
    ensures
        (forall|k: int| i <= k < a.len() ==> strings_view(names).contains(#[trigger] a[k]))
            ==> first_unknown_from(a, names, i) is None,
        forall|j: int|
            i <= j < a.len() && !strings_view(names).contains(#[trigger] a[j]) && (forall|k: int|
                i <= k < j ==> strings_view(names).contains(#[trigger] a[k])) ==> first_unknown_from(a, names, i) == Some(j),
    decreases a.len() - i,
{
    if i < a.len() {
        lemma_has_name_view(names, a[i]);
        lemma_first_unknown(a, names, i + 1);
    }
}

/// Handing text back changes nothing but NUL characters, each of which
/// becomes a space: same length, every other character kept in place.
pub proof fn law_handed_back_text_differs_only_at_nul(s: Seq<char>)
    ensures
        without_nul(s).len() == s.len(),
        forall|i: int| 0 <= i < s.len() && s[i] != '\0' ==> #[trigger] without_nul(s)[i] == s[i],
        forall|i: int| 0 <= i < s.len() && s[i] == '\0' ==> #[trigger] without_nul(s)[i] == ' ',
{
}

} // verus!
