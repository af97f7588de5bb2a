//! The text language of region-copy instructions, as a mathematical model.
//!
//! An instruction reads `key:w,h+sx,sy>dx,dy`: an alphabetic key, the extent
//! of the rectangle, its corner in the source, and the corner at which it
//! lands on the destination. The first four numbers are unsigned and fit in
//! 32 bits; the last two may carry a `-` and fit in 64 bits, signed.

use vstd::prelude::*;

use crate::geometry::{Replacer, Vec2};

verus! {

/// Why a text is not an instruction.
#[derive(Clone, Copy, Debug, PartialEq, Eq, Structural)]
pub enum ParseErrorKind {
    /// The text does not begin with a letter.
    EmptyKey,
    /// The separator `expected` does not stand where it must.
    MissingSeparator { expected: char },
    /// A number must begin here, and no digit does.
    NonNumeric,
    /// The number that begins here does not fit its field.
    OutOfRange,
    /// The instruction is complete, and text follows it.
    TrailingInput,
}

/// A failure to read an instruction, with the index of the character at which
/// reading stopped (the length of the text, where it ended too early).
#[derive(Clone, Copy, Debug, PartialEq, Eq, Structural)]
pub struct ParseError {
    pub kind: ParseErrorKind,
    pub position: usize,
}

/// The largest magnitude a destination coordinate may have behind a `-`.
pub open spec fn max_negative_magnitude() -> int {
    0x8000_0000_0000_0000
}

pub open spec fn is_letter(c: char) -> bool {
    ('a' <= c && c <= 'z') || ('A' <= c && c <= 'Z')
}

pub open spec fn is_digit(c: char) -> bool {
    '0' <= c && c <= '9'
}

pub open spec fn digit_value(c: char) -> int {
    c as int - '0' as int
}

/// The number that a run of decimal digits denotes.
pub open spec fn decimal(digits: Seq<char>) -> nat
    decreases digits.len(),
{
    if digits.len() == 0 {
        0
    } else {
        (decimal(digits.drop_last()) * 10 + digit_value(digits.last())) as nat
    }
}

/// The index of the first character at or after `from` that is not a letter.
pub open spec fn letters_end(s: Seq<char>, from: int) -> int
    decreases s.len() - from,
{
    if 0 <= from < s.len() && is_letter(s[from]) {
        letters_end(s, from + 1)
    } else {
        from
    }
}

/// The index of the first character at or after `from` that is not a digit.
pub open spec fn digits_end(s: Seq<char>, from: int) -> int
    decreases s.len() - from,
{
    if 0 <= from < s.len() && is_digit(s[from]) {
        digits_end(s, from + 1)
    } else {
        from
    }
}

pub open spec fn fault(kind: ParseErrorKind, at: int) -> ParseError {
    ParseError { kind, position: at as usize }
}

/// Reads the separator `c` at `at`; gives the index behind it.
pub open spec fn scan_separator(s: Seq<char>, at: int, c: char) -> Result<int, ParseError> {
    if 0 <= at < s.len() && s[at] == c {
        Ok(at + 1)
    } else {
        Err(fault(ParseErrorKind::MissingSeparator { expected: c }, at))
    }
}

/// Reads the longest run of digits at `at` as a number of at most `max`;
/// gives the number and the index behind the run.
pub open spec fn scan_number(s: Seq<char>, at: int, max: int) -> Result<(int, int), ParseError> {
    let end = digits_end(s, at);
    if end == at {
        Err(fault(ParseErrorKind::NonNumeric, at))
    } else if decimal(s.subrange(at, end)) > max {
        Err(fault(ParseErrorKind::OutOfRange, at))
    } else {
        Ok((decimal(s.subrange(at, end)) as int, end))
    }
}

/// Reads a number with an optional `-` before it, within the signed 64-bit
/// range.
pub open spec fn scan_signed(s: Seq<char>, at: int) -> Result<(int, int), ParseError> {
    if 0 <= at < s.len() && s[at] == '-' {
        match scan_number(s, at + 1, max_negative_magnitude()) {
            Ok((magnitude, end)) => Ok((-magnitude, end)),
            Err(e) => Err(e),
        }
    } else {
        scan_number(s, at, i64::MAX as int)
    }
}

/// Reads two unsigned 32-bit numbers with a comma between them.
pub open spec fn scan_pair(s: Seq<char>, at: int) -> Result<(Vec2<u32>, int), ParseError> {
    match scan_number(s, at, u32::MAX as int) {
        Err(e) => Err(e),
        Ok((x, after_x)) => match scan_separator(s, after_x, ',') {
            Err(e) => Err(e),
            Ok(before_y) => match scan_number(s, before_y, u32::MAX as int) {
                Err(e) => Err(e),
                Ok((y, end)) => Ok((Vec2 { x: x as u32, y: y as u32 }, end)),
            },
        },
    }
}

/// Reads two signed 64-bit numbers with a comma between them.
pub open spec fn scan_signed_pair(s: Seq<char>, at: int) -> Result<(Vec2<i64>, int), ParseError> {
    match scan_signed(s, at) {
        Err(e) => Err(e),
        Ok((x, after_x)) => match scan_separator(s, after_x, ',') {
            Err(e) => Err(e),
            Ok(before_y) => match scan_signed(s, before_y) {
                Err(e) => Err(e),
                Ok((y, end)) => Ok((Vec2 { x: x as i64, y: y as i64 }, end)),
            },
        },
    }
}

/// Reads the three coordinate pairs that follow the key and its colon.
pub open spec fn scan_body(s: Seq<char>, at: int) -> Result<(Replacer, int), ParseError> {
    match scan_pair(s, at) {
        Err(e) => Err(e),
        Ok((size, after_size)) => match scan_separator(s, after_size, '+') {
            Err(e) => Err(e),
            Ok(before_src) => match scan_pair(s, before_src) {
                Err(e) => Err(e),
                Ok((src, after_src)) => match scan_separator(s, after_src, '>') {
                    Err(e) => Err(e),
                    Ok(before_dst) => match scan_signed_pair(s, before_dst) {
                        Err(e) => Err(e),
                        Ok((dst, end)) => Ok((Replacer { size, src, dst }, end)),
                    },
                },
            },
        },
    }
}

/// What a text means: the key and the instruction, where the whole text is
/// one instruction and nothing else; the first fault, read from the left,
/// where it is not.
pub open spec fn parse_text(s: Seq<char>) -> Result<(Seq<char>, Replacer), ParseError> {
    let key_end = letters_end(s, 0);
    if key_end == 0 {
        Err(fault(ParseErrorKind::EmptyKey, 0))
    } else {
        match scan_separator(s, key_end, ':') {
            Err(e) => Err(e),
            Ok(body) => match scan_body(s, body) {
                Err(e) => Err(e),
                Ok((replacer, end)) => if end == s.len() {
                    Ok((s.subrange(0, key_end), replacer))
                } else {
                    Err(fault(ParseErrorKind::TrailingInput, end))
                },
            },
        }
    }
}

/// Whether `key` can be the key of an instruction: letters, and at least one.
pub open spec fn is_key(key: Seq<char>) -> bool {
    key.len() > 0 && forall|i: int| 0 <= i < key.len() ==> is_letter(#[trigger] key[i])
}

/// Whether `t` is written as an unsigned number: digits, and at least one.
pub open spec fn is_number(t: Seq<char>) -> bool {
    t.len() > 0 && forall|i: int| 0 <= i < t.len() ==> is_digit(#[trigger] t[i])
}

/// Whether `t` is written as a signed number: an unsigned number, or `-` and
/// an unsigned number.
pub open spec fn is_signed_number(t: Seq<char>) -> bool {
    is_number(t) || (t.len() > 0 && t[0] == '-' && is_number(t.skip(1)))
}

/// The number that a signed number denotes.
pub open spec fn signed_value(t: Seq<char>) -> int {
    if t.len() > 0 && t[0] == '-' {
        -(decimal(t.skip(1)) as int)
    } else {
        decimal(t) as int
    }
}

/// The text of an instruction, from its key and its six numbers as written.
pub open spec fn instruction(
    key: Seq<char>,
    w: Seq<char>,
    h: Seq<char>,
    sx: Seq<char>,
    sy: Seq<char>,
    dx: Seq<char>,
    dy: Seq<char>,
) -> Seq<char> {
    key + seq![':'] + w + seq![','] + h + seq!['+'] + sx + seq![','] + sy + seq!['>'] + dx
        + seq![','] + dy
}

/// Whether the six numbers as written are the fields of `r`, each within the
/// range of its field.
pub open spec fn denotes(
    w: Seq<char>,
    h: Seq<char>,
    sx: Seq<char>,
    sy: Seq<char>,
    dx: Seq<char>,
    dy: Seq<char>,
    r: Replacer,
) -> bool {
    &&& is_number(w) && decimal(w) == r.size.x
    &&& is_number(h) && decimal(h) == r.size.y
    &&& is_number(sx) && decimal(sx) == r.src.x
    &&& is_number(sy) && decimal(sy) == r.src.y
    &&& is_signed_number(dx) && signed_value(dx) == r.dst.x
    &&& is_signed_number(dy) && signed_value(dy) == r.dst.y
}

/// The digit for a number below ten.
pub open spec fn digit_char(d: int) -> char {
    ('0' as int + d) as char
}

/// A number as written in decimal, without leading zeros.
pub open spec fn digits_of(n: nat) -> Seq<char>
    decreases n,
{
    if n < 10 {
        seq![digit_char(n as int)]
    } else {
        digits_of(n / 10).push(digit_char((n % 10) as int))
    }
}

/// A number as written in decimal, with `-` before it where it is negative.
pub open spec fn signed_digits(v: int) -> Seq<char> {
    if v < 0 {
        seq!['-'] + digits_of((-v) as nat)
    } else {
        digits_of(v as nat)
    }
}

/// The text that `encode` writes for an instruction.
pub open spec fn render(key: Seq<char>, r: Replacer) -> Seq<char> {
    instruction(
        key,
        digits_of(r.size.x as nat),
        digits_of(r.size.y as nat),
        digits_of(r.src.x as nat),
        digits_of(r.src.y as nat),
        signed_digits(r.dst.x as int),
        signed_digits(r.dst.y as int),
    )
}

} // verus!
