//! The special tokens of each encoding.
use vstd::prelude::*;

use crate::pairs::{distinct_keys, lemma_pairs_push, lemma_pairs_update, pairs_map};
use crate::text::{decimal, owned, push_decimal, push_str, string_from_chars};

verus! {

broadcast use vstd::string::group_string_axioms;

/// The special-token tables there are.
#[derive(Clone, Copy, Debug, PartialEq, Eq, Structural)]
pub enum SpecialTokenSet {
    R50kBase,
    P50kBase,
    P50kEdit,
    Cl100kBase,
    O200kBase,
    O200kHarmony,
}

/// A table of special tokens with their ranks, each token at most once.
pub type SpecialTable = Vec<(String, u32)>;

/// The map that a table describes, later pairs overriding earlier ones.
pub open spec fn table_map(t: Seq<(String, u32)>) -> Map<Seq<char>, u32> {
    pairs_map(t)
}

/// No token occurs twice in the table.
pub open spec fn distinct_tokens(t: Seq<(String, u32)>) -> bool {
    distinct_keys(t)
}

/// Sets `token` to `rank`, replacing the rank it already has, as
/// `HashMap::insert` does.
pub fn table_insert(t: &mut SpecialTable, token: String, rank: u32)
    requires
        distinct_tokens(old(t)@),
    ensures
        distinct_tokens(final(t)@),
        table_map(final(t)@) == table_map(old(t)@).insert(token@, rank),
{
    let mut i: usize = 0;
    while i < t.len()
        invariant
            i <= t@.len(),
            t@ == old(t)@,
            distinct_tokens(t@),
            forall|j: int| 0 <= j < i ==> t@[j].0@ != token@,
        decreases t.len() - i,
    {
        if t[i].0 == token {
            proof {
                lemma_pairs_update(t@, i as int, token, rank);
            }
            t.set(i, (token, rank));
            return;
        }
        i = i + 1;
    }
    proof {
        lemma_pairs_push(t@, token, rank);
    }
    t.push((token, rank));
}

/// The rank of a token that the table holds.
pub fn table_rank(t: &SpecialTable, token: &String) -> (r: u32)
    requires
        distinct_tokens(t@),
        has_token(t@, token@),
    ensures
        r == table_map(t@)[token@],
{
    proof {
        crate::pairs::lemma_pairs_map(t@);
    }
    let mut i: usize = 0;
    while i < t.len()
        invariant
            i <= t@.len(),
            has_token(t@, token@),
            forall|j: int| 0 <= j < t@.len() ==> pairs_map(t@)[#[trigger] t@[j].0@] == t@[j].1,
            forall|j: int| 0 <= j < i ==> t@[j].0@ != token@,
        decreases t.len() - i,
    {
        if t[i].0 == *token {
            return t[i].1;
        }
        i = i + 1;
    }
    proof {
        let j = choose|j: int| 0 <= j < t@.len() && t@[j].0@ == token@;
        assert(t@[j].0@ != token@);
    }
    0
}

/// The special tokens of `r50k_base` (and `gpt2`).
pub open spec fn r50k_base_specials() -> Map<Seq<char>, u32> {
    Map::empty().insert("<|endoftext|>"@, 50256)
}

/// The special tokens of `p50k_base`.
pub open spec fn p50k_base_specials() -> Map<Seq<char>, u32> {
    Map::empty().insert("<|endoftext|>"@, 50256)
}

/// The special tokens of `p50k_edit`.
pub open spec fn p50k_edit_specials() -> Map<Seq<char>, u32> {
    Map::empty()
        .insert("<|endoftext|>"@, 50256)
        .insert("<|fim_prefix|>"@, 50281)
        .insert("<|fim_middle|>"@, 50282)
        .insert("<|fim_suffix|>"@, 50283)
}

/// The special tokens of `cl100k_base`.
pub open spec fn cl100k_base_specials() -> Map<Seq<char>, u32> {
    Map::empty()
        .insert("<|endoftext|>"@, 100257)
        .insert("<|fim_prefix|>"@, 100258)
        .insert("<|fim_middle|>"@, 100259)
        .insert("<|fim_suffix|>"@, 100260)
        .insert("<|endofprompt|>"@, 100276)
}

/// The special tokens of `o200k_base`.
pub open spec fn o200k_base_specials() -> Map<Seq<char>, u32> {
    Map::empty()
        .insert("<|endoftext|>"@, 199999)
        .insert("<|endofprompt|>"@, 200018)
}

/// The named special tokens that `o200k_harmony` adds to `o200k_base`.
pub open spec fn harmony_named_specials() -> Map<Seq<char>, u32> {
    o200k_base_specials()
        .insert("<|startoftext|>"@, 199998)
        .insert("<|endoftext|>"@, 199999)
        .insert("<|reserved_200000|>"@, 200000)
        .insert("<|reserved_200001|>"@, 200001)
        .insert("<|return|>"@, 200002)
        .insert("<|constrain|>"@, 200003)
        .insert("<|reserved_200004|>"@, 200004)
        .insert("<|channel|>"@, 200005)
        .insert("<|start|>"@, 200006)
        .insert("<|end|>"@, 200007)
        .insert("<|message|>"@, 200008)
        .insert("<|reserved_200009|>"@, 200009)
        .insert("<|reserved_200010|>"@, 200010)
        .insert("<|reserved_200011|>"@, 200011)
        .insert("<|call|>"@, 200012)
}

/// The name of the reserved special token with rank `rank`.
pub open spec fn reserved_token(rank: nat) -> Seq<char> {
    "<|reserved_"@ + decimal(rank) + "|>"@
}

/// `m` with the reserved tokens of ranks `lo..hi` inserted in order.
pub open spec fn with_reserved(m: Map<Seq<char>, u32>, lo: nat, hi: nat) -> Map<Seq<char>, u32>
    decreases hi - lo,
{
    if lo >= hi {
        m
    } else {
        with_reserved(m.insert(reserved_token(lo), lo as u32), lo + 1, hi)
    }
}

/// The first rank after the named tokens of `o200k_harmony`.
pub const HARMONY_RESERVED_START: u32 = 200013;

/// One past the last reserved rank of `o200k_harmony`.
pub const HARMONY_RESERVED_END: u32 = 201088;

/// The special tokens of `o200k_harmony`.
pub open spec fn o200k_harmony_specials() -> Map<Seq<char>, u32> {
    with_reserved(
        harmony_named_specials(),
        HARMONY_RESERVED_START as nat,
        HARMONY_RESERVED_END as nat,
    )
}

/// A table holding `token => rank` only.
fn single_table(token: &str, rank: u32) -> (t: SpecialTable)
    ensures
        distinct_tokens(t@),
        table_map(t@) == Map::<Seq<char>, u32>::empty().insert(token@, rank),
{
    let mut t: SpecialTable = Vec::new();
    table_insert(&mut t, owned(token), rank);
    t
}

/// The special tokens of `r50k_base` (and `gpt2`).
pub fn special_tokens_r50k_base() -> (t: SpecialTable)
    ensures
        distinct_tokens(t@),
        table_map(t@) == r50k_base_specials(),
{
    single_table("<|endoftext|>", 50256)
}

/// The special tokens of `p50k_base`.
pub fn special_tokens_p50k_base() -> (t: SpecialTable)
    ensures
        distinct_tokens(t@),
        table_map(t@) == p50k_base_specials(),
{
    single_table("<|endoftext|>", 50256)
}

/// The special tokens of `p50k_edit`.
pub fn special_tokens_p50k_edit() -> (t: SpecialTable)
    ensures
        distinct_tokens(t@),
        table_map(t@) == p50k_edit_specials(),
{
    let mut t = single_table("<|endoftext|>", 50256);
    table_insert(&mut t, owned("<|fim_prefix|>"), 50281);
    table_insert(&mut t, owned("<|fim_middle|>"), 50282);
    table_insert(&mut t, owned("<|fim_suffix|>"), 50283);
    t
}

/// The special tokens of `cl100k_base`.
pub fn special_tokens_cl100k_base() -> (t: SpecialTable)
    ensures
        distinct_tokens(t@),
        table_map(t@) == cl100k_base_specials(),
{
    let mut t = single_table("<|endoftext|>", 100257);
    table_insert(&mut t, owned("<|fim_prefix|>"), 100258);
    table_insert(&mut t, owned("<|fim_middle|>"), 100259);
    table_insert(&mut t, owned("<|fim_suffix|>"), 100260);
    table_insert(&mut t, owned("<|endofprompt|>"), 100276);
    t
}

/// The special tokens of `o200k_base`.
pub fn special_tokens_o200k_base() -> (t: SpecialTable)
    ensures
        distinct_tokens(t@),
        table_map(t@) == o200k_base_specials(),
{
    let mut t = single_table("<|endoftext|>", 199999);
    table_insert(&mut t, owned("<|endofprompt|>"), 200018);
    t
}

/// The name of the reserved special token with rank `rank`.
pub fn reserved_token_name(rank: u32) -> (s: String)
    ensures
        s@ == reserved_token(rank as nat),
{
    let mut chars: Vec<char> = Vec::new();
    push_str(&mut chars, "<|reserved_");
    push_decimal(&mut chars, rank);
    push_str(&mut chars, "|>");
    string_from_chars(&chars)
}

/// The special tokens of `o200k_harmony`: those of `o200k_base`, the
/// named harmony tokens, and the reserved tokens up to rank 201087.
pub fn special_tokens_o200k_harmony() -> (t: SpecialTable)
    ensures
        distinct_tokens(t@),
        table_map(t@) == o200k_harmony_specials(),
{
    let mut t = special_tokens_o200k_base();
    table_insert(&mut t, owned("<|startoftext|>"), 199998);
    table_insert(&mut t, owned("<|endoftext|>"), 199999);
    table_insert(&mut t, owned("<|reserved_200000|>"), 200000);
    table_insert(&mut t, owned("<|reserved_200001|>"), 200001);
    table_insert(&mut t, owned("<|return|>"), 200002);
    table_insert(&mut t, owned("<|constrain|>"), 200003);
    table_insert(&mut t, owned("<|reserved_200004|>"), 200004);
    table_insert(&mut t, owned("<|channel|>"), 200005);
    table_insert(&mut t, owned("<|start|>"), 200006);
    table_insert(&mut t, owned("<|end|>"), 200007);
    table_insert(&mut t, owned("<|message|>"), 200008);
    table_insert(&mut t, owned("<|reserved_200009|>"), 200009);
    table_insert(&mut t, owned("<|reserved_200010|>"), 200010);
    table_insert(&mut t, owned("<|reserved_200011|>"), 200011);
    table_insert(&mut t, owned("<|call|>"), 200012);
    assert(table_map(t@) == harmony_named_specials());
    let mut rank: u32 = HARMONY_RESERVED_START;
    while rank < HARMONY_RESERVED_END
        invariant
            HARMONY_RESERVED_START <= rank <= HARMONY_RESERVED_END,
            distinct_tokens(t@),
            with_reserved(table_map(t@), rank as nat, HARMONY_RESERVED_END as nat)
                == o200k_harmony_specials(),
        decreases HARMONY_RESERVED_END - rank,
    {
        table_insert(&mut t, reserved_token_name(rank), rank);
        rank = rank + 1;
    }
    t
}


/// `a` comes before `b` in byte-wise lexicographic order, for sequences of
/// the same length.
pub open spec fn lex_less(a: Seq<u8>, b: Seq<u8>) -> bool {
    exists|k: int| 0 <= k < a.len() && k < b.len() && a.take(k) == b.take(k) && a[k] < b[k]
}

/// Special-token order: longer UTF-8 encodings first, then byte-wise
/// lexicographic order, as `String` comparison decides.
pub open spec fn token_precedes(a: Seq<char>, b: Seq<char>) -> bool {
    let x = vstd::utf8::encode_utf8(a);
    let y = vstd::utf8::encode_utf8(b);
    x.len() > y.len() || (x.len() == y.len() && lex_less(x, y))
}

/// Every name comes before every later name.
pub open spec fn names_sorted(s: Seq<String>) -> bool {
    forall|i: int, j: int| 0 <= i < j < s.len() ==> token_precedes(s[i]@, s[j]@)
}

/// Some string in `s` is `x`.
pub open spec fn has_name(s: Seq<String>, x: Seq<char>) -> bool {
    exists|i: int| 0 <= i < s.len() && s[i]@ == x
}

/// Some pair in `t` has token `x`.
pub open spec fn has_token(t: Seq<(String, u32)>, x: Seq<char>) -> bool {
    exists|j: int| 0 <= j < t.len() && t[j].0@ == x
}

/// The names are the tokens of the table.
pub open spec fn names_of_table(s: Seq<String>, t: Seq<(String, u32)>) -> bool {
    &&& s.len() == t.len()
    &&& forall|x: Seq<char>| #![trigger has_name(s, x)] #![trigger has_token(t, x)] has_name(s, x) <==> has_token(t, x)
}

proof fn lemma_first_difference(a: Seq<u8>, b: Seq<u8>, n: int)
    requires
        0 <= n <= a.len(),
        a.len() == b.len(),
        a.take(n) != b.take(n),
    ensures
        exists|k: int| 0 <= k < n && a.take(k) == b.take(k) && a[k] != b[k],
    decreases n,
{
    assert(a.take(0) =~= b.take(0));
    if a.take(n - 1) == b.take(n - 1) {
        assert(a[n - 1] != b[n - 1]) by {
            if a[n - 1] == b[n - 1] {
                assert(a.take(n) =~= a.take(n - 1).push(a[n - 1]));
                assert(b.take(n) =~= b.take(n - 1).push(b[n - 1]));
            }
        }
    } else {
        lemma_first_difference(a, b, n - 1);
    }
}

/// Distinct names are ordered one way or the other, never both, and the
/// order is transitive.
pub proof fn lemma_token_order(a: Seq<char>, b: Seq<char>, c: Seq<char>)
    ensures
        a != b ==> token_precedes(a, b) || token_precedes(b, a),
        !(token_precedes(a, b) && token_precedes(b, a)),
        !token_precedes(a, a),
        token_precedes(a, b) && token_precedes(b, c) ==> token_precedes(a, c),
{
    broadcast use vstd::utf8::encode_utf8_decode_utf8;
    let x = vstd::utf8::encode_utf8(a);
    let y = vstd::utf8::encode_utf8(b);
    let z = vstd::utf8::encode_utf8(c);
    if a != b && x.len() == y.len() {
        assert(x != y) by {
            if x == y {
                assert(vstd::utf8::decode_utf8(x) == a);
                assert(vstd::utf8::decode_utf8(y) == b);
            }
        }
        assert(x.take(x.len() as int) == x && y.take(y.len() as int) == y);
        lemma_first_difference(x, y, x.len() as int);
    }
    if x.len() == y.len() && lex_less(x, y) && lex_less(y, x) {
        let k1 = choose|k: int| 0 <= k < x.len() && k < y.len() && x.take(k) == y.take(k) && x[k] < y[k];
        let k2 = choose|k: int| 0 <= k < y.len() && k < x.len() && y.take(k) == x.take(k) && y[k] < x[k];
        if k1 < k2 {
            assert(y.take(k2)[k1] == x.take(k2)[k1]);
        } else if k2 < k1 {
            assert(y.take(k1)[k2] == x.take(k1)[k2]);
        }
    }
    if x.len() == y.len() && lex_less(x, x) {
        let k = choose|k: int| 0 <= k < x.len() && k < x.len() && x.take(k) == x.take(k) && x[k] < x[k];
    }
    if token_precedes(a, b) && token_precedes(b, c) && x.len() == y.len() && y.len() == z.len() {
        let k1 = choose|k: int| 0 <= k < x.len() && k < y.len() && x.take(k) == y.take(k) && x[k] < y[k];
        let k2 = choose|k: int| 0 <= k < y.len() && k < z.len() && y.take(k) == z.take(k) && y[k] < z[k];
        if k1 <= k2 {
            assert(x.take(k1) == z.take(k1)) by {
                assert(y.take(k1) == y.take(k2).take(k1));
                assert(z.take(k1) == z.take(k2).take(k1));
            }
            if k1 < k2 {
                assert(y.take(k2)[k1] == z.take(k2)[k1]);
            }
            assert(lex_less(x, z));
        } else {
            assert(x.take(k2) == z.take(k2)) by {
                assert(x.take(k2) == x.take(k1).take(k2));
                assert(y.take(k2) == y.take(k1).take(k2));
            }
            assert(x.take(k1)[k2] == y.take(k1)[k2]);
            assert(lex_less(x, z));
        }
    }
}

/// Whether `a` comes before `b` in special-token order.
pub fn token_precedes_exec(a: &str, b: &str) -> (r: bool)
    ensures
        r == token_precedes(a@, b@),
{
    let x = a.as_bytes();
    let y = b.as_bytes();
    if x.len() != y.len() {
        return x.len() > y.len();
    }
    let mut k: usize = 0;
    while k < x.len()
        invariant
            x@ == vstd::utf8::encode_utf8(a@),
            y@ == vstd::utf8::encode_utf8(b@),
            x@.len() == y@.len(),
            k <= x@.len(),
            x@.take(k as int) == y@.take(k as int),
        decreases x.len() - k,
    {
        if x[k] != y[k] {
            proof {
                if lex_less(x@, y@) {
                    let j = choose|j: int| 0 <= j < x@.len() && j < y@.len() && x@.take(j) == y@.take(j) && x@[j] < y@[j];
                    if j < k {
                        assert(x@.take(k as int)[j] == y@.take(k as int)[j]);
                    } else if j > k {
                        assert(x@.take(j)[k as int] == y@.take(j)[k as int]);
                    }
                }
            }
            return x[k] < y[k];
        }
        assert(x@.take(k + 1) == x@.take(k as int).push(x@[k as int]));
        assert(y@.take(k + 1) == y@.take(k as int).push(y@[k as int]));
        k = k + 1;
    }
    proof {
        if lex_less(x@, y@) {
            let j = choose|j: int| 0 <= j < x@.len() && j < y@.len() && x@.take(j) == y@.take(j) && x@[j] < y@[j];
            assert(x@.take(k as int)[j] == y@.take(k as int)[j]);
        }
    }
    false
}

proof fn lemma_insert_keeps_sorted(before: Seq<String>, p: int, e: String)
    requires
        0 <= p <= before.len(),
        names_sorted(before),
        forall|i: int| 0 <= i < p ==> !token_precedes(e@, before[i]@),
        forall|i: int| 0 <= i < before.len() ==> before[i]@ != e@,
        p < before.len() ==> token_precedes(e@, before[p]@),
    ensures
        names_sorted(before.insert(p, e)),
{
    let names = before.insert(p, e);
    before.insert_ensures(p, e);
    assert forall|i: int, j: int| 0 <= i < j < names.len() implies token_precedes(names[i]@, names[j]@) by {
        if j < p {
            assert(names[i] == before[i] && names[j] == before[j]);
        } else if i > p {
            assert(names[i] == before[i - 1] && names[j] == before[j - 1]);
        } else if i == p {
            assert(names[j] == before[j - 1]);
            if j - 1 > p {
                lemma_token_order(e@, before[p]@, before[j - 1]@);
            }
        } else if j == p {
            assert(names[i] == before[i]);
            lemma_token_order(before[i]@, e@, e@);
        } else {
            assert(names[i] == before[i] && names[j] == before[j - 1]);
            lemma_token_order(before[i]@, e@, e@);
            if j - 1 > p {
                lemma_token_order(e@, before[p]@, before[j - 1]@);
            }
            lemma_token_order(before[i]@, e@, before[j - 1]@);
        }
    }
}

proof fn lemma_insert_adds_token(before: Seq<String>, t: Seq<(String, u32)>, k: int, p: int, e: String)
    requires
        0 <= k < t.len(),
        0 <= p <= before.len(),
        e@ == t[k].0@,
        forall|x: Seq<char>| #![trigger has_name(before, x)] #![trigger has_token(t.take(k), x)] has_name(before, x) <==> has_token(t.take(k), x),
    ensures
        forall|x: Seq<char>| #![trigger has_name(before.insert(p, e), x)] #![trigger has_token(t.take(k + 1), x)] has_name(before.insert(p, e), x) <==> has_token(t.take(k + 1), x),
{
    let names = before.insert(p, e);
    before.insert_ensures(p, e);
    let tk = t.take(k);
    let tk1 = t.take(k + 1);
    assert forall|j: int| 0 <= j < k implies #[trigger] tk1[j] == tk[j] by {}
    assert(tk1[k] == t[k]);
    assert forall|x: Seq<char>| #![trigger has_name(names, x)] #![trigger has_token(tk1, x)] has_name(names, x) <==> has_token(tk1, x) by {
        if has_name(names, x) {
            let i = choose|i: int| 0 <= i < names.len() && names[i]@ == x;
            if i < p {
                assert(names[i] == before[i]);
                assert(has_name(before, x));
                let j = choose|j: int| 0 <= j < tk.len() && tk[j].0@ == x;
                assert(tk1[j] == tk[j]);
            } else if i > p {
                assert(names[i] == before[i - 1]);
                assert(has_name(before, x));
                let j = choose|j: int| 0 <= j < tk.len() && tk[j].0@ == x;
                assert(tk1[j] == tk[j]);
            } else {
                assert(tk1[k].0@ == x);
            }
        }
        if has_token(tk1, x) {
            let j = choose|j: int| 0 <= j < tk1.len() && tk1[j].0@ == x;
            if j < k {
                assert(tk[j] == tk1[j]);
                assert(has_token(tk, x));
                assert(has_name(before, x));
                let i = choose|i: int| 0 <= i < before.len() && before[i]@ == x;
                if i < p {
                    assert(names[i] == before[i]);
                } else {
                    assert(names[i + 1] == before[i]);
                }
            } else {
                assert(names[p] == e);
            }
        }
    }
}

/// The tokens of a table in special-token order: longest first, ties in
/// byte-wise lexicographic order.
pub fn sorted_token_names(t: &SpecialTable) -> (names: Vec<String>)
    requires
        distinct_tokens(t@),
    ensures
        names_sorted(names@),
        names_of_table(names@, t@),
{
    let mut names: Vec<String> = Vec::new();
    let mut k: usize = 0;
    while k < t.len()
        invariant
            k <= t@.len(),
            distinct_tokens(t@),
            names@.len() == k,
            names_sorted(names@),
            forall|x: Seq<char>| #![trigger has_name(names@, x)] #![trigger has_token(t@.take(k as int), x)] has_name(names@, x) <==> has_token(t@.take(k as int), x),
        decreases t.len() - k,
    {
        let e: String = t[k].0.clone();
        proof {
            assert forall|i: int| 0 <= i < names@.len() implies names@[i]@ != e@ by {
                let x = names@[i]@;
                assert(has_name(names@, x));
                assert(has_token(t@.take(k as int), x));
                let j = choose|j: int| 0 <= j < k && t@.take(k as int)[j].0@ == x;
                assert(t@.take(k as int)[j] == t@[j]);
                assert(j != k);
            }
        }
        let mut p: usize = 0;
        while p < names.len() && !token_precedes_exec(e.as_str(), names[p].as_str())
            invariant
                p <= names@.len(),
                forall|i: int| 0 <= i < p ==> !token_precedes(e@, names@[i]@),
            decreases names.len() - p,
        {
            p = p + 1;
        }
        let ghost before = names@;
        names.insert(p, e);
        proof {
            lemma_insert_keeps_sorted(before, p as int, e);
            lemma_insert_adds_token(before, t@, k as int, p as int, e);
        }
        k = k + 1;
    }
    assert(t@.take(k as int) == t@);
    names
}


/// The special tokens of a table, as a map.
pub open spec fn specials_of(set: SpecialTokenSet) -> Map<Seq<char>, u32> {
    match set {
        SpecialTokenSet::R50kBase => r50k_base_specials(),
        SpecialTokenSet::P50kBase => p50k_base_specials(),
        SpecialTokenSet::P50kEdit => p50k_edit_specials(),
        SpecialTokenSet::Cl100kBase => cl100k_base_specials(),
        SpecialTokenSet::O200kBase => o200k_base_specials(),
        SpecialTokenSet::O200kHarmony => o200k_harmony_specials(),
    }
}

impl SpecialTokenSet {
    /// The table of special tokens.
    pub fn table(&self) -> (t: SpecialTable)
        ensures
            distinct_tokens(t@),
            table_map(t@) == specials_of(*self),
    {
        match self {
            SpecialTokenSet::R50kBase => special_tokens_r50k_base(),
            SpecialTokenSet::P50kBase => special_tokens_p50k_base(),
            SpecialTokenSet::P50kEdit => special_tokens_p50k_edit(),
            SpecialTokenSet::Cl100kBase => special_tokens_cl100k_base(),
            SpecialTokenSet::O200kBase => special_tokens_o200k_base(),
            SpecialTokenSet::O200kHarmony => special_tokens_o200k_harmony(),
        }
    }
}

} // verus!
