//! Reading a `u32` from text the way `str::parse::<u32>` does.
use vstd::prelude::*;

verus! {

/// Why text is not a `u32`, as std's `IntErrorKind` tells it.
#[derive(Clone, Copy, Debug, PartialEq, Eq, Structural)]
pub enum IntErrorKind {
    /// The text is empty.
    Empty,
    /// The text holds a character that is not a decimal digit.
    InvalidDigit,
    /// The number does not fit in a `u32`.
    PosOverflow,
}

/// `b` is an ASCII decimal digit.
pub open spec fn is_digit(b: u8) -> bool {
    48 <= b <= 57
}

/// Scans digits left to right onto the value `acc` read so far: the first
/// character that is not a digit is an error, and so is a value that passes
/// `u32::MAX` before it.
pub open spec fn scan_digits(d: Seq<u8>, acc: nat) -> Result<nat, IntErrorKind>
    decreases d.len(),
{
    if d.len() == 0 {
        Ok(acc)
    } else if !is_digit(d[0]) {
        Err(IntErrorKind::InvalidDigit)
    } else if acc * 10 + (d[0] - 48) > u32::MAX {
        Err(IntErrorKind::PosOverflow)
    } else {
        scan_digits(d.drop_first(), (acc * 10 + (d[0] - 48)) as nat)
    }
}

/// What `str::parse::<u32>` gives for text with these bytes: empty text is
/// an error, a lone sign is an invalid digit, a leading `+` is skipped, and
/// the rest is scanned as decimal digits.
pub open spec fn parse_u32_spec(src: Seq<u8>) -> Result<u32, IntErrorKind> {
    if src.len() == 0 {
        Err(IntErrorKind::Empty)
    } else if src.len() == 1 && (src[0] == 43 || src[0] == 45) {
        Err(IntErrorKind::InvalidDigit)
    } else {
        let digits = if src[0] == 43 { src.drop_first() } else { src };
        match scan_digits(digits, 0) {
            Ok(v) => Ok(v as u32),
            Err(k) => Err(k),
        }
    }
}

proof fn lemma_scan_bound(d: Seq<u8>, acc: nat)
    requires
        acc <= u32::MAX,
    ensures
        scan_digits(d, acc) matches Ok(v) ==> v <= u32::MAX,
    decreases d.len(),
{
    if d.len() > 0 && is_digit(d[0]) && acc * 10 + (d[0] - 48) <= u32::MAX {
        lemma_scan_bound(d.drop_first(), (acc * 10 + (d[0] - 48)) as nat);
    }
}

/// Reads a `u32` from its decimal text, with the result and errors of
/// `str::parse::<u32>`.
pub fn parse_u32(src: &[u8]) -> (r: Result<u32, IntErrorKind>)
    ensures
        r == parse_u32_spec(src@),
{
    if src.len() == 0 {
        return Err(IntErrorKind::Empty);
    }
    if src.len() == 1 && (src[0] == 43 || src[0] == 45) {
        return Err(IntErrorKind::InvalidDigit);
    }
    let start: usize = if src[0] == 43 { 1 } else { 0 };
    let ghost digits = src@.skip(start as int);
    assert(digits == if src@[0] == 43 { src@.drop_first() } else { src@ });
    let mut acc: u32 = 0;
    let mut i: usize = start;
    while i < src.len()
        invariant
            start <= i <= src@.len(),
            src@.len() > 0,
            !(src@.len() == 1 && (src@[0] == 43 || src@[0] == 45)),
            start == (if src@[0] == 43 { 1usize } else { 0usize }),
            digits == src@.skip(start as int),
            digits == (if src@[0] == 43 { src@.drop_first() } else { src@ }),
            scan_digits(digits, 0) == scan_digits(src@.skip(i as int), acc as nat),
        decreases src.len() - i,
    {
        let b = src[i];
        assert(src@.skip(i as int).drop_first() == src@.skip(i + 1));
        assert(src@.skip(i as int)[0] == b);
        if b < 48 || b > 57 {
            return Err(IntErrorKind::InvalidDigit);
        }
        let d: u32 = (b - 48) as u32;
        if acc > 429496729 || (acc == 429496729 && d > 5) {
            return Err(IntErrorKind::PosOverflow);
        }
        acc = acc * 10 + d;
        i = i + 1;
    }
    assert(src@.skip(i as int).len() == 0);
    proof {
        lemma_scan_bound(digits, 0);
    }
    Ok(acc)
}

/// What std prints for each kind of error.
pub open spec fn int_error_text(kind: IntErrorKind) -> Seq<char> {
    match kind {
        IntErrorKind::Empty => "cannot parse integer from empty string"@,
        IntErrorKind::InvalidDigit => "invalid digit found in string"@,
        IntErrorKind::PosOverflow => "number too large to fit in target type"@,
    }
}

impl IntErrorKind {
    /// The text std prints for this error.
    pub fn message(&self) -> (s: &'static str)
        ensures
            s@ == int_error_text(*self),
    {
        match self {
            IntErrorKind::Empty => "cannot parse integer from empty string",
            IntErrorKind::InvalidDigit => "invalid digit found in string",
            IntErrorKind::PosOverflow => "number too large to fit in target type",
        }
    }
}

} // verus!
