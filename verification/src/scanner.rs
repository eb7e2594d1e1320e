//! Encoding text in which the admitted special tokens stand for themselves.
use vstd::prelude::*;

use crate::encoding::{encode_ordinary, ordinary_tokens, Tokenizer};
use crate::text::{chars_of, string_from_chars};

verus! {

broadcast use vstd::string::group_string_axioms;

/// `token` occurs in `text` starting at position `q`.
pub open spec fn occurs_chars(text: Seq<char>, token: Seq<char>, q: int) -> bool {
    0 <= q && q + token.len() <= text.len() && text.subrange(q, q + token.len()) == token
}

/// The contents of a list of special tokens with their ranks.
pub open spec fn entries_view(v: Seq<(Vec<char>, u32)>) -> Seq<(Seq<char>, u32)> {
    v.map_values(|e: (Vec<char>, u32)| (e.0@, e.1))
}

/// The first entry, from index `i` on, whose token is admitted, is not
/// empty and starts at position `q` of `text`.
pub open spec fn special_match(
    text: Seq<char>,
    entries: Seq<(Seq<char>, u32)>,
    admitted: Set<Seq<char>>,
    q: int,
    i: int,
) -> Option<int>
    decreases entries.len() - i,
{
    if i < 0 || i >= entries.len() {
        None
    } else if admitted.contains(entries[i].0) && entries[i].0.len() > 0 && occurs_chars(text, entries[i].0, q) {
        Some(i)
    } else {
        special_match(text, entries, admitted, q, i + 1)
    }
}

/// What `special_match` finds is an admitted, non-empty token at `q`; when
/// it finds nothing, no such token starts there.
pub proof fn lemma_special_match(
    text: Seq<char>,
    entries: Seq<(Seq<char>, u32)>,
    admitted: Set<Seq<char>>,
    q: int,
    i: int,
)
    requires
        0 <= i,
    ensures
        special_match(text, entries, admitted, q, i) matches Some(k) ==> i <= k < entries.len()
            && admitted.contains(entries[k].0) && entries[k].0.len() > 0 && occurs_chars(text, entries[k].0, q),
        special_match(text, entries, admitted, q, i) is None ==> forall|k: int|
            i <= k < entries.len() && admitted.contains(#[trigger] entries[k].0) && entries[k].0.len() > 0
                ==> !occurs_chars(text, entries[k].0, q),
    decreases entries.len() - i,
{
    if i < entries.len() {
        lemma_special_match(text, entries, admitted, q, i + 1);
    }
}

/// The tokens of the ordinary text from `s` to `p`: none when it is empty.
pub open spec fn segment_tokens(tokenizer: Seq<char>, text: Seq<char>, s: int, p: int) -> Seq<u32> {
    if s == p {
        Seq::empty()
    } else {
        ordinary_tokens(tokenizer, text.subrange(s, p))
    }
}

/// The tokens of `text` from position `p` on, the ordinary text from `s`
/// to `p` not yet encoded. Where an admitted special token starts, the
/// ordinary text before it is encoded, the token's rank follows, and the
/// scan goes on after the token; at the end the rest is ordinary text.
pub open spec fn scan_from(
    tokenizer: Seq<char>,
    text: Seq<char>,
    entries: Seq<(Seq<char>, u32)>,
    admitted: Set<Seq<char>>,
    s: int,
    p: int,
) -> Seq<u32>
    decreases text.len() - p,
{
    if 0 <= s <= p < text.len() {
        match special_match(text, entries, admitted, p, 0) {
            Some(k) => {
                proof {
                    lemma_special_match(text, entries, admitted, p, 0);
                }
                let e = p + entries[k].0.len();
                segment_tokens(tokenizer, text, s, p).push(entries[k].1) + scan_from(
                    tokenizer,
                    text,
                    entries,
                    admitted,
                    e,
                    e,
                )
            },
            None => scan_from(tokenizer, text, entries, admitted, s, p + 1),
        }
    } else {
        segment_tokens(tokenizer, text, s, text.len() as int)
    }
}

/// The tokens of `text` under the tokenizer named `tokenizer`, each admitted
/// special token of `entries` encoded as its rank and all other text
/// encoded as ordinary text. Where several entries start at one position,
/// the first in `entries` is taken.
pub open spec fn special_encoding(
    tokenizer: Seq<char>,
    text: Seq<char>,
    entries: Seq<(Seq<char>, u32)>,
    admitted: Set<Seq<char>>,
) -> Seq<u32> {
    scan_from(tokenizer, text, entries, admitted, 0, 0)
}

/// Whether `token` occurs in `text` at `q`.
fn chars_match_at(text: &Vec<char>, token: &Vec<char>, q: usize) -> (r: bool)
    requires
        q <= text@.len(),
    ensures
        r == occurs_chars(text@, token@, q as int),
{
    if token.len() > text.len() - q {
        return false;
    }
    let n: usize = text.len();
    let mut k: usize = 0;
    while k < token.len()
        invariant
            n == text@.len(),
            k <= token@.len(),
            q + token@.len() <= text@.len(),
            forall|j: int| 0 <= j < k ==> text@[q + j] == token@[j],
        decreases token.len() - k,
    {
        assert(q + k < n);
        if text[q + k] != token[k] {
            proof {
                if occurs_chars(text@, token@, q as int) {
                    assert(text@.subrange(q as int, q + token@.len())[k as int] == token@[k as int]);
                }
            }
            return false;
        }
        k = k + 1;
    }
    assert(text@.subrange(q as int, q + token@.len()) =~= token@);
    true
}

/// Whether `c` is one of `cs`.
fn has_char(cs: &Vec<char>, c: char) -> (r: bool)
    ensures
        r == cs@.contains(c),
{
    let mut i: usize = 0;
    while i < cs.len()
        invariant
            i <= cs@.len(),
            forall|j: int| 0 <= j < i ==> cs@[j] != c,
        decreases cs.len() - i,
    {
        if cs[i] == c {
            return true;
        }
        i = i + 1;
    }
    false
}

/// The first characters of the admitted, non-empty tokens, each once.
fn first_chars(entries: &Vec<(Vec<char>, u32)>, active: &Vec<bool>) -> (firsts: Vec<char>)
    requires
        active@.len() == entries@.len(),
    ensures
        forall|i: int| 0 <= i < entries@.len() && active@[i] && (#[trigger] entries@[i]).0@.len() > 0
            ==> firsts@.contains(entries@[i].0@[0]),
{
    let mut firsts: Vec<char> = Vec::new();
    let mut i: usize = 0;
    while i < entries.len()
        invariant
            i <= entries@.len(),
            active@.len() == entries@.len(),
            forall|j: int| 0 <= j < i && active@[j] && (#[trigger] entries@[j]).0@.len() > 0
                ==> firsts@.contains(entries@[j].0@[0]),
        decreases entries.len() - i,
    {
        if active[i] && entries[i].0.len() > 0 {
            let c = entries[i].0[0];
            if !has_char(&firsts, c) {
                let ghost before = firsts@;
                firsts.push(c);
                proof {
                    assert(firsts@[before.len() as int] == c);
                    assert forall|x: char| before.contains(x) implies firsts@.contains(x) by {
                        let j = choose|j: int| 0 <= j < before.len() && before[j] == x;
                        assert(firsts@[j] == x);
                    }
                }
            }
        }
        i = i + 1;
    }
    firsts
}

/// The first admitted, non-empty entry whose token starts at `q`.
fn find_special(
    text: &Vec<char>,
    entries: &Vec<(Vec<char>, u32)>,
    active: &Vec<bool>,
    Ghost(admitted): Ghost<Set<Seq<char>>>,
    q: usize,
) -> (r: Option<usize>)
    requires
        q < text@.len(),
        active@.len() == entries@.len(),
        forall|i: int| 0 <= i < entries@.len() ==> active@[i] == admitted.contains(#[trigger] entries@[i].0@),
    ensures
        match special_match(text@, entries_view(entries@), admitted, q as int, 0) {
            Some(k) => r == Some(k as usize),
            None => r is None,
        },
{
    let ghost ev = entries_view(entries@);
    let mut i: usize = 0;
    while i < entries.len()
        invariant
            i <= entries@.len(),
            q < text@.len(),
            ev == entries_view(entries@),
            active@.len() == entries@.len(),
            forall|j: int| 0 <= j < entries@.len() ==> active@[j] == admitted.contains(#[trigger] entries@[j].0@),
            special_match(text@, ev, admitted, q as int, 0) == special_match(text@, ev, admitted, q as int, i as int),
        decreases entries.len() - i,
    {
        assert(ev[i as int] == (entries@[i as int].0@, entries@[i as int].1));
        if active[i] && entries[i].0.len() > 0 && chars_match_at(text, &entries[i].0, q) {
            return Some(i);
        }
        i = i + 1;
    }
    None
}

/// Appends the ordinary tokens of `text` from `s` to `p`.
fn encode_segment(out: &mut Vec<u32>, t: &Tokenizer, text: &Vec<char>, s: usize, p: usize)
    requires
        s <= p <= text@.len(),
    ensures
        final(out)@ == old(out)@ + segment_tokens(t@, text@, s as int, p as int),
{
    if s == p {
        assert(old(out)@ + Seq::<u32>::empty() == old(out)@);
        return;
    }
    let mut piece: Vec<char> = Vec::new();
    let mut i: usize = s;
    while i < p
        invariant
            s <= i <= p,
            p <= text@.len(),
            piece@ == text@.subrange(s as int, i as int),
        decreases p - i,
    {
        piece.push(text[i]);
        i = i + 1;
        assert(piece@ =~= text@.subrange(s as int, i as int));
    }
    let segment = string_from_chars(&piece);
    let mut tokens = encode_ordinary(t, segment.as_str());
    out.append(&mut tokens);
}

/// Encodes `text` with the tokenizer, each special token of `entries`
/// whose flag in `active` is set encoded as its rank.
pub(crate) fn encode_admitting(
    t: &Tokenizer,
    text: &str,
    entries: &Vec<(Vec<char>, u32)>,
    active: &Vec<bool>,
    Ghost(admitted): Ghost<Set<Seq<char>>>,
) -> (r: Vec<u32>)
    requires
        active@.len() == entries@.len(),
        forall|i: int| 0 <= i < entries@.len() ==> active@[i] == admitted.contains(#[trigger] entries@[i].0@),
    ensures
        r@ == special_encoding(t@, text@, entries_view(entries@), admitted),
{
    let chars = chars_of(text);
    let ghost ev = entries_view(entries@);
    let ghost total = special_encoding(t@, text@, ev, admitted);
    let firsts = first_chars(entries, active);
    let n_entries: usize = entries.len();
    let mut out: Vec<u32> = Vec::new();
    let mut s: usize = 0;
    let mut p: usize = 0;
    assert(out@ + scan_from(t@, chars@, ev, admitted, 0, 0) =~= total);
    while p < chars.len()
        invariant
            chars@ == text@,
            ev == entries_view(entries@),
            n_entries == entries@.len(),
            s <= p <= chars@.len(),
            active@.len() == entries@.len(),
            forall|i: int| 0 <= i < entries@.len() ==> active@[i] == admitted.contains(#[trigger] entries@[i].0@),
            forall|i: int| 0 <= i < entries@.len() && active@[i] && (#[trigger] entries@[i]).0@.len() > 0
                ==> firsts@.contains(entries@[i].0@[0]),
            out@ + scan_from(t@, chars@, ev, admitted, s as int, p as int) == total,
        decreases chars.len() - p,
    {
        let mut found: Option<usize> = None;
        if has_char(&firsts, chars[p]) {
            found = find_special(&chars, entries, active, Ghost(admitted), p);
        } else {
            proof {
                lemma_special_match(chars@, ev, admitted, p as int, 0);
                if let Some(k) = special_match(chars@, ev, admitted, p as int, 0) {
                    assert(ev[k] == (entries@[k].0@, entries@[k].1));
                    assert(entries@[k].0@[0] == chars@.subrange(p as int, p + ev[k].0.len())[0]);
                    assert(firsts@.contains(entries@[k].0@[0]));
                }
            }
        }
        match found {
            Some(k) => {
                proof {
                    lemma_special_match(chars@, ev, admitted, p as int, 0);
                    assert(ev[k as int] == (entries@[k as int].0@, entries@[k as int].1));
                }
                let ghost seg = segment_tokens(t@, chars@, s as int, p as int);
                let ghost rest = scan_from(t@, chars@, ev, admitted, p + ev[k as int].0.len(), p + ev[k as int].0.len());
                let ghost before = out@;
                encode_segment(&mut out, t, &chars, s, p);
                out.push(entries[k].1);
                p = p + entries[k].0.len();
                s = p;
                assert(out@ + rest =~= before + (seg.push(entries@[k as int].1) + rest));
            },
            None => {
                p = p + 1;
            },
        }
    }
    encode_segment(&mut out, t, &chars, s, p);
    out
}

} // verus!
