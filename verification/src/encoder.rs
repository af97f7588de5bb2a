//! Writing an instruction as text.

use vstd::prelude::*;

use crate::geometry::Replacer;
use crate::syntax::{digit_char, digits_of, render, signed_digits};

verus! {

fn digit_text(d: u64) -> (text: &'static str)
    requires
        d < 10,
    ensures
        text@ == seq![digit_char(d as int)],
{
    proof {
        reveal_strlit("0");
        reveal_strlit("1");
        reveal_strlit("2");
        reveal_strlit("3");
        reveal_strlit("4");
        reveal_strlit("5");
        reveal_strlit("6");
        reveal_strlit("7");
        reveal_strlit("8");
        reveal_strlit("9");
    }
    let text = if d == 0 {
        "0"
    } else if d == 1 {
        "1"
    } else if d == 2 {
        "2"
    } else if d == 3 {
        "3"
    } else if d == 4 {
        "4"
    } else if d == 5 {
        "5"
    } else if d == 6 {
        "6"
    } else if d == 7 {
        "7"
    } else if d == 8 {
        "8"
    } else {
        "9"
    };
    assert(text@ =~= seq![digit_char(d as int)]);
    text
}

fn append_number(out: &mut String, n: u64)
    ensures
        final(out)@ == old(out)@ + digits_of(n as nat),
    decreases n,
{
    if n >= 10 {
        append_number(out, n / 10);
    }
    out.append(digit_text(n % 10));
    assert(out@ =~= old(out)@ + digits_of(n as nat));
}

fn append_signed(out: &mut String, v: i64)
    ensures
        final(out)@ == old(out)@ + signed_digits(v as int),
{
    if v < 0 {
        proof {
            reveal_strlit("-");
        }
        out.append("-");
        let magnitude: u64 = if v == i64::MIN {
            0x8000_0000_0000_0000u64
        } else {
            (-v) as u64
        };
        append_number(out, magnitude);
        assert(out@ =~= old(out)@ + signed_digits(v as int));
    } else {
        append_number(out, v as u64);
    }
}

/// Writes the instruction that copies `replacer` from the source `key`.
pub fn encode(key: &str, replacer: &Replacer) -> (text: String)
    ensures
        text@ == render(key@, *replacer),
{
    proof {
        reveal_strlit(":");
        reveal_strlit(",");
        reveal_strlit("+");
        reveal_strlit(">");
    }
    let mut text = key.to_owned();
    text.append(":");
    append_number(&mut text, replacer.size.x as u64);
    text.append(",");
    append_number(&mut text, replacer.size.y as u64);
    text.append("+");
    append_number(&mut text, replacer.src.x as u64);
    text.append(",");
    append_number(&mut text, replacer.src.y as u64);
    text.append(">");
    append_signed(&mut text, replacer.dst.x);
    text.append(",");
    append_signed(&mut text, replacer.dst.y);
    assert(text@ =~= render(key@, *replacer));
    text
}

} // verus!
