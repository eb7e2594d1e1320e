//! How an encoding call treats special tokens found in its text.
use vstd::prelude::*;

use crate::special_tokens::has_name;
use crate::text::{
    bytes_contain, chars_of, contains_bytes, decimal, owned, push_chars, push_decimal, push_str,
    string_from_chars,
};

verus! {

broadcast use vstd::string::group_string_axioms;

/// What to do with text that spells a special token.
#[derive(Clone, Copy, Debug, PartialEq, Eq, Structural)]
pub enum SpecialMode {
    /// Refuse text that spells any special token.
    Disallow,
    /// Encode special-token text as ordinary text.
    EncodeAsText,
    /// Encode every special token as itself.
    AllowAll,
    /// Encode the listed special tokens as themselves and refuse the others.
    AllowList,
}

/// The mode that a raw mode number stands for.
pub open spec fn mode_of(value: u32) -> Option<SpecialMode> {
    if value == 0 {
        Some(SpecialMode::Disallow)
    } else if value == 1 {
        Some(SpecialMode::EncodeAsText)
    } else if value == 2 {
        Some(SpecialMode::AllowAll)
    } else if value == 3 {
        Some(SpecialMode::AllowList)
    } else {
        None
    }
}

/// The message for a mode number that names no mode.
pub open spec fn unknown_mode_message(value: u32) -> Seq<char> {
    "unknown special token mode: "@ + decimal(value as nat)
}

impl SpecialMode {
    /// The mode for a raw mode number: 0 disallow, 1 encode as text,
    /// 2 allow all, 3 allow a list.
    pub fn try_from(value: u32) -> (r: Result<SpecialMode, String>)
        ensures
            match r {
                Ok(mode) => mode_of(value) == Some(mode),
                Err(msg) => mode_of(value) is None && msg@ == unknown_mode_message(value),
            },
    {
        if value == 0 {
            Ok(SpecialMode::Disallow)
        } else if value == 1 {
            Ok(SpecialMode::EncodeAsText)
        } else if value == 2 {
            Ok(SpecialMode::AllowAll)
        } else if value == 3 {
            Ok(SpecialMode::AllowList)
        } else {
            let mut msg: Vec<char> = Vec::new();
            push_str(&mut msg, "unknown special token mode: ");
            push_decimal(&mut msg, value);
            Err(string_from_chars(&msg))
        }
    }
}

/// `token` is in the allow-list, when there is one.
pub open spec fn is_allowed(allowed: Option<Seq<Seq<char>>>, token: Seq<char>) -> bool {
    match allowed {
        Some(a) => a.contains(token),
        None => false,
    }
}

/// The contents of an optional allow-list.
pub open spec fn allowed_view(allowed: Option<&Vec<String>>) -> Option<Seq<Seq<char>>> {
    match allowed {
        Some(a) => Some(strings_view(a@)),
        None => None,
    }
}

/// A list holds a string exactly when its contents hold it.
pub proof fn lemma_has_name_view(s: Seq<String>, x: Seq<char>)
    ensures
        has_name(s, x) <==> strings_view(s).contains(x),
{
    if has_name(s, x) {
        let i = choose|i: int| 0 <= i < s.len() && s[i]@ == x;
        assert(strings_view(s)[i] == x);
    }
    if strings_view(s).contains(x) {
        let i = choose|i: int| 0 <= i < strings_view(s).len() && strings_view(s)[i] == x;
        assert(s[i]@ == x);
    }
}

/// `text` spells `token`, as `str::contains` decides (on UTF-8 bytes).
pub open spec fn text_contains(text: Seq<char>, token: Seq<char>) -> bool {
    contains_bytes(vstd::utf8::encode_utf8(text), vstd::utf8::encode_utf8(token))
}

/// The first index at or after `i` of a token that is not allowed and that
/// `text` spells.
pub open spec fn first_disallowed_from(
    text: Seq<char>,
    tokens: Seq<String>,
    allowed: Option<Seq<Seq<char>>>,
    i: int,
) -> Option<int>
    decreases tokens.len() - i,
{
    if i < 0 || i >= tokens.len() {
        None
    } else if !is_allowed(allowed, tokens[i]@) && text_contains(text, tokens[i]@) {
        Some(i)
    } else {
        first_disallowed_from(text, tokens, allowed, i + 1)
    }
}

/// Whether `names` holds a string equal to `name`.
pub fn contains_name(names: &Vec<String>, name: &String) -> (r: bool)
    ensures
        r == has_name(names@, name@),
{
    let mut i: usize = 0;
    while i < names.len()
        invariant
            i <= names@.len(),
            forall|j: int| 0 <= j < i ==> names@[j]@ != name@,
        decreases names.len() - i,
    {
        if names[i] == *name {
            return true;
        }
        i = i + 1;
    }
    false
}

/// The first special token, in the given order, that is not allowed and
/// that `text` spells.
pub fn first_disallowed_special<'a>(
    text: &str,
    special_tokens: &'a Vec<String>,
    allowed: Option<&Vec<String>>,
) -> (r: Option<&'a str>)
    ensures
        match first_disallowed_from(text@, special_tokens@, allowed_view(allowed), 0) {
            Some(i) => r matches Some(t) && t@ == special_tokens@[i]@,
            None => r is None,
        },
{
    let bytes = text.as_bytes();
    let mut i: usize = 0;
    while i < special_tokens.len()
        invariant
            i <= special_tokens@.len(),
            bytes@ == vstd::utf8::encode_utf8(text@),
            first_disallowed_from(text@, special_tokens@, allowed_view(allowed), 0)
                == first_disallowed_from(text@, special_tokens@, allowed_view(allowed), i as int),
        decreases special_tokens.len() - i,
    {
        let token: &String = &special_tokens[i];
        let is_allowed = match allowed {
            Some(a) => {
                proof {
                    lemma_has_name_view(a@, token@);
                }
                contains_name(a, token)
            },
            None => false,
        };
        if !is_allowed && bytes_contain(bytes, token.as_str().as_bytes()) {
            return Some(token.as_str());
        }
        i = i + 1;
    }
    None
}

/// What `{:?}` prints for a string: the string in double quotes, with
/// quotes, backslashes and unprintable characters escaped.
pub uninterp spec fn str_debug(s: Seq<char>) -> Seq<char>;

/// Formats a string with `{:?}`.
///
/// Calls std's `Debug` implementation for `str` through `format!`; the
/// contract names the text it produces, a function of the string alone.
#[verifier::external_body]
fn debug_quoted(s: &str) -> (r: String)
    ensures
        r@ == str_debug(s@),
{
    format!("{s:?}")
}

/// The message for text that spells a special token that is not allowed.
pub open spec fn disallowed_message(token: Seq<char>) -> Seq<char> {
    "Encountered text corresponding to disallowed special token "@ + str_debug(token)
        + ".\nIf you want this text to be encoded as a special token, allow it explicitly.\nIf you want this text to be encoded as normal text, use special mode EncodeAsText.\n"@
}

/// The error for text that spells a special token that is not allowed.
pub fn disallowed_special_token_error(token: &str) -> (msg: String)
    ensures
        msg@ == disallowed_message(token@),
{
    let mut out: Vec<char> = Vec::new();
    push_str(&mut out, "Encountered text corresponding to disallowed special token ");
    let quoted = debug_quoted(token);
    push_str(&mut out, quoted.as_str());
    push_str(
        &mut out,
        ".\nIf you want this text to be encoded as a special token, allow it explicitly.\nIf you want this text to be encoded as normal text, use special mode EncodeAsText.\n",
    );
    string_from_chars(&out)
}

/// The pieces `cur` closes: itself when it is not empty.
pub open spec fn flush(cur: Seq<char>) -> Seq<Seq<char>> {
    if cur.len() > 0 {
        seq![cur]
    } else {
        seq![]
    }
}

/// The non-empty pieces of `s` between newlines, when a piece `cur` has
/// already been started.
pub open spec fn lines_from(s: Seq<char>, cur: Seq<char>) -> Seq<Seq<char>>
    decreases s.len(),
{
    if s.len() == 0 {
        flush(cur)
    } else if s[0] == '\n' {
        flush(cur) + lines_from(s.drop_first(), seq![])
    } else {
        lines_from(s.drop_first(), cur.push(s[0]))
    }
}

/// The non-empty pieces of `s` between newlines, in order.
pub open spec fn nonempty_lines(s: Seq<char>) -> Seq<Seq<char>> {
    lines_from(s, seq![])
}

/// The contents of a list of strings.
pub open spec fn strings_view(v: Seq<String>) -> Seq<Seq<char>> {
    v.map_values(|s: String| s@)
}

/// Splits a newline-separated list of special tokens, dropping empty
/// entries.
pub fn split_special_token_list(raw: &str) -> (tokens: Vec<String>)
    ensures
        strings_view(tokens@) == nonempty_lines(raw@),
{
    let s = chars_of(raw);
    let mut tokens: Vec<String> = Vec::new();
    let mut cur: Vec<char> = Vec::new();
    let mut i: usize = 0;
    assert(s@.skip(0) == s@);
    assert(strings_view(tokens@) =~= Seq::<Seq<char>>::empty());
    assert(cur@ =~= Seq::<char>::empty());
    while i < s.len()
        invariant
            i <= s@.len(),
            s@ == raw@,
            nonempty_lines(raw@) == strings_view(tokens@) + lines_from(s@.skip(i as int), cur@),
        decreases s.len() - i,
    {
        let ghost rest = s@.skip(i as int);
        assert(rest.drop_first() == s@.skip(i + 1));
        let c = s[i];
        if c == '\n' {
            if cur.len() > 0 {
                let ghost before = tokens@;
                tokens.push(string_from_chars(&cur));
                assert(strings_view(tokens@) == strings_view(before).push(cur@));
            }
            cur = Vec::new();
        } else {
            cur.push(c);
        }
        i = i + 1;
    }
    if cur.len() > 0 {
        let ghost before = tokens@;
        tokens.push(string_from_chars(&cur));
        assert(strings_view(tokens@) == strings_view(before).push(cur@));
    }
    assert(s@.skip(i as int).len() == 0);
    tokens
}

/// The first index of a name in `allowed` that `specials` does not hold.
pub open spec fn first_unknown_from(allowed: Seq<Seq<char>>, specials: Seq<String>, i: int) -> Option<int>
    decreases allowed.len() - i,
{
    if i < 0 || i >= allowed.len() {
        None
    } else if !has_name(specials, allowed[i]) {
        Some(i)
    } else {
        first_unknown_from(allowed, specials, i + 1)
    }
}

/// The first name in `allowed` that is not one of `specials`.
pub fn first_unknown_special(allowed: &Vec<String>, specials: &Vec<String>) -> (r: Option<usize>)
    ensures
        match r {
            Some(i) => i < allowed@.len() && first_unknown_from(strings_view(allowed@), specials@, 0) == Some(i as int),
            None => first_unknown_from(strings_view(allowed@), specials@, 0) is None,
        },
{
    let mut i: usize = 0;
    while i < allowed.len()
        invariant
            i <= allowed@.len(),
            first_unknown_from(strings_view(allowed@), specials@, 0) == first_unknown_from(strings_view(allowed@), specials@, i as int),
        decreases allowed.len() - i,
    {
        if !contains_name(specials, &allowed[i]) {
            return Some(i);
        }
        i = i + 1;
    }
    None
}

/// The message for an allowed token that the encoding does not have.
pub open spec fn unknown_special_message(token: Seq<char>) -> Seq<char> {
    "unknown special token for encoding: "@ + token
}

/// The error for an allowed token that the encoding does not have.
pub fn unknown_special_token_error(token: &String) -> (msg: String)
    ensures
        msg@ == unknown_special_message(token@),
{
    let mut out: Vec<char> = Vec::new();
    push_str(&mut out, "unknown special token for encoding: ");
    let t = chars_of(token.as_str());
    push_chars(&mut out, &t);
    string_from_chars(&out)
}


/// What reading a C string gave: no pointer, bytes that are not UTF-8, or
/// the text.
pub enum RawText<'a> {
    /// The pointer was null.
    Null,
    /// The bytes were not UTF-8.
    NotUtf8,
    /// The text.
    Text(&'a str),
}

/// The message for a list of special tokens that is not UTF-8.
pub open spec fn list_not_utf8_message() -> Seq<char> {
    "special token list must be valid UTF-8"@
}

/// The special tokens a raw list names: none when there is no list, an
/// error when it is not UTF-8, else its non-empty lines.
pub open spec fn special_list_outcome(raw: RawText) -> Result<Seq<Seq<char>>, Seq<char>> {
    match raw {
        RawText::Null => Ok(Seq::empty()),
        RawText::NotUtf8 => Err(list_not_utf8_message()),
        RawText::Text(s) => Ok(nonempty_lines(s@)),
    }
}

/// Reads a newline-separated list of special tokens; no list is an empty
/// list.
pub fn parse_special_token_list(raw: RawText) -> (r: Result<Vec<String>, String>)
    ensures
        match (r, special_list_outcome(raw)) {
            (Ok(v), Ok(w)) => strings_view(v@) == w,
            (Err(e), Err(m)) => e@ == m,
            _ => false,
        },
{
    match raw {
        RawText::Null => {
            let v: Vec<String> = Vec::new();
            assert(strings_view(v@) =~= Seq::<Seq<char>>::empty());
            Ok(v)
        },
        RawText::NotUtf8 => Err(owned("special token list must be valid UTF-8")),
        RawText::Text(s) => Ok(split_special_token_list(s)),
    }
}

/// The text of a required C-string argument, or the error naming it.
pub open spec fn c_string_outcome(raw: RawText, field_name: Seq<char>) -> Result<Seq<char>, Seq<char>> {
    match raw {
        RawText::Null => Err(field_name + " cannot be null"@),
        RawText::NotUtf8 => Err(field_name + " must be valid UTF-8"@),
        RawText::Text(s) => Ok(s@),
    }
}

/// The text of a required C-string argument; a missing or non-UTF-8
/// argument is an error that names the field.
pub fn parse_c_string(raw: RawText, field_name: &str) -> (r: Result<String, String>)
    ensures
        match (r, c_string_outcome(raw, field_name@)) {
            (Ok(v), Ok(w)) => v@ == w,
            (Err(e), Err(m)) => e@ == m,
            _ => false,
        },
{
    match raw {
        RawText::Null => {
            let mut out: Vec<char> = Vec::new();
            push_str(&mut out, field_name);
            push_str(&mut out, " cannot be null");
            Err(string_from_chars(&out))
        },
        RawText::NotUtf8 => {
            let mut out: Vec<char> = Vec::new();
            push_str(&mut out, field_name);
            push_str(&mut out, " must be valid UTF-8");
            Err(string_from_chars(&out))
        },
        RawText::Text(s) => Ok(owned(s)),
    }
}

} // verus!
