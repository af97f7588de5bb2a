//! Reading an instruction from its text.

use vstd::prelude::*;

use crate::geometry::{Replacer, Vec2};
use crate::syntax::{
    decimal, digit_value, digits_end, is_digit, is_letter, letters_end, parse_text, scan_body,
    scan_number, scan_pair, scan_separator, scan_signed, scan_signed_pair, ParseError,
    ParseErrorKind,
};
use crate::syntax_laws::{lemma_decimal_grows, lemma_digits_until_end};

verus! {

fn chars_of(s: &str) -> (chars: Vec<char>)
    ensures
        chars@ == s@,
{
    let mut chars: Vec<char> = Vec::new();
    for c in it: s.chars()
        invariant
            it.seq() == s@,
            chars@ == it.seq().take(it.index() as int),
    {
        chars.push(c);
    }
    chars
}

fn letter(c: char) -> (b: bool)
    ensures
        b == is_letter(c),
{
    ('a' <= c && c <= 'z') || ('A' <= c && c <= 'Z')
}

fn digit(c: char) -> (d: Option<u8>)
    ensures
        d is Some == is_digit(c),
        d matches Some(v) ==> v == digit_value(c),
{
    if '0' <= c && c <= '9' {
        Some(c as u8 - 48u8)
    } else {
        None
    }
}

fn read_letters(chars: &Vec<char>) -> (end: usize)
    ensures
        end == letters_end(chars@, 0),
        end <= chars.len(),
{
    let mut i: usize = 0;
    while i < chars.len() && letter(chars[i])
        invariant
            i <= chars.len(),
            letters_end(chars@, 0) == letters_end(chars@, i as int),
        decreases chars.len() - i,
    {
        i += 1;
    }
    i
}

fn read_separator(chars: &Vec<char>, at: usize, c: char) -> (r: Result<usize, ParseError>)
    requires
        at <= chars.len(),
    ensures
        match r {
            Ok(end) => scan_separator(chars@, at as int, c) == Ok::<int, ParseError>(end as int)
                && end <= chars.len(),
            Err(e) => scan_separator(chars@, at as int, c) == Err::<int, ParseError>(e),
        },
{
    if at < chars.len() && chars[at] == c {
        Ok(at + 1)
    } else {
        Err(ParseError { kind: ParseErrorKind::MissingSeparator { expected: c }, position: at })
    }
}

fn read_number(chars: &Vec<char>, at: usize, max: u64) -> (r: Result<(u64, usize), ParseError>)
    requires
        at <= chars.len(),
    ensures
        match r {
            Ok((value, end)) => scan_number(chars@, at as int, max as int) == Ok::<
                (int, int),
                ParseError,
            >((value as int, end as int)) && end <= chars.len() && value <= max,
            Err(e) => scan_number(chars@, at as int, max as int) == Err::<(int, int), ParseError>(e),
        },
{
    let mut i: usize = at;
    let mut value: u64 = 0;
    assert(chars@.subrange(at as int, at as int) =~= Seq::<char>::empty());
    while i < chars.len() && digit(chars[i]).is_some()
        invariant
            at <= i <= chars.len(),
            digits_end(chars@, at as int) == digits_end(chars@, i as int),
            forall|k: int| at <= k < i ==> is_digit(#[trigger] chars@[k]),
            value == decimal(chars@.subrange(at as int, i as int)),
            value <= max,
        decreases chars.len() - i,
    {
        let d: u8 = digit(chars[i]).unwrap();
        let next: u128 = value as u128 * 10 + d as u128;
        proof {
            let longer = chars@.subrange(at as int, i + 1);
            assert(longer.drop_last() =~= chars@.subrange(at as int, i as int));
            assert(longer.last() == chars@[i as int]);
            assert(decimal(longer) == next);
        }
        if next > max as u128 {
            proof {
                let end = digits_end(chars@, at as int);
                lemma_digits_until_end(chars@, i as int);
                assert(end == digits_end(chars@, i + 1));
                lemma_digits_until_end(chars@, i + 1);
                assert forall|k: int| at <= k < end implies is_digit(#[trigger] chars@[k]) by {
                    if k >= i {
                    }
                }
                lemma_decimal_grows(chars@, at as int, i + 1, end);
            }
            return Err(ParseError { kind: ParseErrorKind::OutOfRange, position: at });
        }
        value = next as u64;
        i += 1;
    }
    if i == at {
        Err(ParseError { kind: ParseErrorKind::NonNumeric, position: at })
    } else {
        Ok((value, i))
    }
}

fn read_signed(chars: &Vec<char>, at: usize) -> (r: Result<(i64, usize), ParseError>)
    requires
        at <= chars.len(),
    ensures
        match r {
            Ok((value, end)) => scan_signed(chars@, at as int) == Ok::<(int, int), ParseError>(
                (value as int, end as int),
            ) && end <= chars.len(),
            Err(e) => scan_signed(chars@, at as int) == Err::<(int, int), ParseError>(e),
        },
{
    if at < chars.len() && chars[at] == '-' {
        match read_number(chars, at + 1, 0x8000_0000_0000_0000u64) {
            Ok((magnitude, end)) => {
                let value: i64 = if magnitude == 0x8000_0000_0000_0000u64 {
                    i64::MIN
                } else {
                    -(magnitude as i64)
                };
                Ok((value, end))
            },
            Err(e) => Err(e),
        }
    } else {
        match read_number(chars, at, 0x7fff_ffff_ffff_ffffu64) {
            Ok((magnitude, end)) => Ok((magnitude as i64, end)),
            Err(e) => Err(e),
        }
    }
}

fn read_pair(chars: &Vec<char>, at: usize) -> (r: Result<(Vec2<u32>, usize), ParseError>)
    requires
        at <= chars.len(),
    ensures
        match r {
            Ok((pair, end)) => scan_pair(chars@, at as int) == Ok::<(Vec2<u32>, int), ParseError>(
                (pair, end as int),
            ) && end <= chars.len(),
            Err(e) => scan_pair(chars@, at as int) == Err::<(Vec2<u32>, int), ParseError>(e),
        },
{
    let (x, after_x) = read_number(chars, at, 0xffff_ffffu64)?;
    let before_y = read_separator(chars, after_x, ',')?;
    let (y, end) = read_number(chars, before_y, 0xffff_ffffu64)?;
    Ok((Vec2 { x: x as u32, y: y as u32 }, end))
}

fn read_signed_pair(chars: &Vec<char>, at: usize) -> (r: Result<(Vec2<i64>, usize), ParseError>)
    requires
        at <= chars.len(),
    ensures
        match r {
            Ok((pair, end)) => scan_signed_pair(chars@, at as int) == Ok::<
                (Vec2<i64>, int),
                ParseError,
            >((pair, end as int)) && end <= chars.len(),
            Err(e) => scan_signed_pair(chars@, at as int) == Err::<(Vec2<i64>, int), ParseError>(e),
        },
{
    let (x, after_x) = read_signed(chars, at)?;
    let before_y = read_separator(chars, after_x, ',')?;
    let (y, end) = read_signed(chars, before_y)?;
    Ok((Vec2 { x, y }, end))
}

fn read_body(chars: &Vec<char>, at: usize) -> (r: Result<(Replacer, usize), ParseError>)
    requires
        at <= chars.len(),
    ensures
        match r {
            Ok((replacer, end)) => scan_body(chars@, at as int) == Ok::<(Replacer, int), ParseError>(
                (replacer, end as int),
            ) && end <= chars.len(),
            Err(e) => scan_body(chars@, at as int) == Err::<(Replacer, int), ParseError>(e),
        },
{
    let (size, after_size) = read_pair(chars, at)?;
    let before_src = read_separator(chars, after_size, '+')?;
    let (src, after_src) = read_pair(chars, before_src)?;
    let before_dst = read_separator(chars, after_src, '>')?;
    let (dst, end) = read_signed_pair(chars, before_dst)?;
    Ok((Replacer { size, src, dst }, end))
}

/// Reads one instruction: the key of the source it copies from, and the copy
/// itself. The whole text must be the instruction; where it is not, the error
/// names the first fault and the index of the character at which it stands.
pub fn parse<'a>(s: &'a str) -> (r: Result<(&'a str, Replacer), ParseError>)
    ensures
        match r {
            Ok((key, replacer)) => parse_text(s@) == Ok::<(Seq<char>, Replacer), ParseError>(
                (key@, replacer),
            ),
            Err(e) => parse_text(s@) == Err::<(Seq<char>, Replacer), ParseError>(e),
        },
{
    let chars = chars_of(s);
    let key_end = read_letters(&chars);
    if key_end == 0 {
        return Err(ParseError { kind: ParseErrorKind::EmptyKey, position: 0 });
    }
    let body = read_separator(&chars, key_end, ':')?;
    let (replacer, end) = read_body(&chars, body)?;
    if end != chars.len() {
        return Err(ParseError { kind: ParseErrorKind::TrailingInput, position: end });
    }
    Ok((s.substring_char(0, key_end), replacer))
}

} // verus!
