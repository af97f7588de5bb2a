//! What holds of the text language: it reads every instruction, nothing but
//! instructions, and what `encode` writes it reads back.

use vstd::prelude::*;

use crate::geometry::Replacer;
use crate::syntax::{
    decimal, denotes, digit_value, digits_end, digits_of, instruction, is_digit,
    is_key, is_letter, is_number, is_signed_number, letters_end, max_negative_magnitude,
    parse_text, render, scan_body, scan_number, scan_pair, scan_signed,
    scan_signed_pair, signed_digits, signed_value, ParseError,
};

verus! {

/// A number as written denotes itself.
pub proof fn lemma_digits_of(n: nat)
    ensures
        is_number(digits_of(n)),
        decimal(digits_of(n)) == n,
    decreases n,
{
    let t = digits_of(n);
    if n < 10 {
        assert(t.drop_last() =~= Seq::<char>::empty());
        assert(digit_value(t.last()) == n);
        assert(decimal(Seq::<char>::empty()) == 0);
        assert(decimal(t) == decimal(t.drop_last()) * 10 + digit_value(t.last()));
    } else {
        lemma_digits_of(n / 10);
        assert(t.drop_last() =~= digits_of(n / 10));
        assert(digit_value(t.last()) == n % 10);
        assert(decimal(t) == decimal(t.drop_last()) * 10 + digit_value(t.last()));
    }
}

/// A signed number as written denotes itself.
pub proof fn lemma_signed_digits(v: int)
    ensures
        is_signed_number(signed_digits(v)),
        signed_value(signed_digits(v)) == v,
{
    let t = signed_digits(v);
    if v < 0 {
        lemma_digits_of((-v) as nat);
        assert(t.skip(1) =~= digits_of((-v) as nat));
    } else {
        lemma_digits_of(v as nat);
    }
}

/// A run of digits denotes at least what any of its prefixes denotes.
pub proof fn lemma_decimal_grows(s: Seq<char>, from: int, mid: int, to: int)
    requires
        0 <= from <= mid <= to <= s.len(),
        forall|k: int| from <= k < to ==> is_digit(#[trigger] s[k]),
    ensures
        decimal(s.subrange(from, mid)) <= decimal(s.subrange(from, to)),
    decreases to - mid,
{
    if mid < to {
        lemma_decimal_grows(s, from, mid, to - 1);
        assert(s.subrange(from, to).drop_last() =~= s.subrange(from, to - 1));
        assert(s.subrange(from, to).last() == s[to - 1]);
    }
}

/// Letters from `from` up to `to`, and none at `to`: the letters end at `to`.
pub proof fn lemma_letters_run(s: Seq<char>, from: int, to: int)
    requires
        0 <= from <= to <= s.len(),
        forall|k: int| from <= k < to ==> is_letter(#[trigger] s[k]),
        to == s.len() || !is_letter(s[to]),
    ensures
        letters_end(s, from) == to,
    decreases to - from,
{
    if from < to {
        lemma_letters_run(s, from + 1, to);
    }
}

/// Digits from `from` up to `to`, and none at `to`: the digits end at `to`.
pub proof fn lemma_digits_run(s: Seq<char>, from: int, to: int)
    requires
        0 <= from <= to <= s.len(),
        forall|k: int| from <= k < to ==> is_digit(#[trigger] s[k]),
        to == s.len() || !is_digit(s[to]),
    ensures
        digits_end(s, from) == to,
    decreases to - from,
{
    if from < to {
        lemma_digits_run(s, from + 1, to);
    }
}

/// Every character before the end of the letters is a letter, and the
/// character at the end is none.
pub proof fn lemma_letters_until_end(s: Seq<char>, from: int)
    requires
        0 <= from <= s.len(),
    ensures
        from <= letters_end(s, from) <= s.len(),
        forall|k: int| from <= k < letters_end(s, from) ==> is_letter(#[trigger] s[k]),
        letters_end(s, from) == s.len() || !is_letter(s[letters_end(s, from)]),
    decreases s.len() - from,
{
    if from < s.len() && is_letter(s[from]) {
        lemma_letters_until_end(s, from + 1);
    }
}

/// Every character before the end of the digits is a digit, and the
/// character at the end is none.
pub proof fn lemma_digits_until_end(s: Seq<char>, from: int)
    requires
        0 <= from <= s.len(),
    ensures
        from <= digits_end(s, from) <= s.len(),
        forall|k: int| from <= k < digits_end(s, from) ==> is_digit(#[trigger] s[k]),
        digits_end(s, from) == s.len() || !is_digit(s[digits_end(s, from)]),
    decreases s.len() - from,
{
    if from < s.len() && is_digit(s[from]) {
        lemma_digits_until_end(s, from + 1);
    }
}

/// Where the number `run` stands at `at` and no digit follows it, it is read
/// whole.
proof fn lemma_scan_number(s: Seq<char>, at: int, run: Seq<char>, max: int)
    requires
        0 <= at,
        at + run.len() <= s.len(),
        s.subrange(at, at + run.len()) == run,
        is_number(run),
        at + run.len() == s.len() || !is_digit(s[at + run.len()]),
        decimal(run) <= max,
    ensures
        scan_number(s, at, max) == Ok::<(int, int), ParseError>(
            (decimal(run) as int, at + run.len()),
        ),
{
    assert forall|k: int| at <= k < at + run.len() implies is_digit(#[trigger] s[k]) by {
        assert(s[k] == run[k - at]);
    }
    lemma_digits_run(s, at, at + run.len());
}

/// Where the signed number `t` stands at `at` and no digit follows it, it is
/// read whole.
proof fn lemma_scan_signed(s: Seq<char>, at: int, t: Seq<char>)
    requires
        0 <= at,
        at + t.len() <= s.len(),
        s.subrange(at, at + t.len()) == t,
        is_signed_number(t),
        at + t.len() == s.len() || !is_digit(s[at + t.len()]),
        i64::MIN <= signed_value(t) <= i64::MAX,
    ensures
        scan_signed(s, at) == Ok::<(int, int), ParseError>((signed_value(t), at + t.len())),
{
    assert(s[at] == t[0]);
    if t[0] == '-' {
        assert(s.subrange(at + 1, at + t.len()) =~= t.skip(1));
        lemma_scan_number(s, at + 1, t.skip(1), max_negative_magnitude());
    } else {
        lemma_scan_number(s, at, t, i64::MAX as int);
    }
}

/// What joining two texts keeps of the first, and where it puts the second.
proof fn lemma_join(a: Seq<char>, b: Seq<char>)
    ensures
        (a + b).len() == a.len() + b.len(),
        (a + b).subrange(a.len() as int, (a.len() + b.len()) as int) == b,
        forall|i: int, j: int|
            0 <= i <= j <= a.len() ==> #[trigger] (a + b).subrange(i, j) == a.subrange(i, j),
        forall|k: int| 0 <= k < a.len() ==> #[trigger] (a + b)[k] == a[k],
        forall|k: int| 0 <= k < b.len() ==> (a + b)[a.len() + k] == #[trigger] b[k],
{
    assert((a + b).subrange(a.len() as int, (a.len() + b.len()) as int) =~= b);
    assert forall|i: int, j: int| 0 <= i <= j <= a.len() implies #[trigger] (a + b).subrange(i, j)
        == a.subrange(i, j) by {
        assert((a + b).subrange(i, j) =~= a.subrange(i, j));
    }
}

/// The text `head`, then `mark`, then `part`: what stood in `head` stands as
/// before, `mark` stands behind it, and `part` behind `mark`.
proof fn lemma_place(head: Seq<char>, mark: char, part: Seq<char>)
    ensures
        ({
            let s = head + seq![mark] + part;
            &&& s.len() == head.len() + 1 + part.len()
            &&& s[head.len() as int] == mark
            &&& s.subrange((head.len() + 1) as int, s.len() as int) == part
            &&& forall|i: int, j: int|
                0 <= i <= j <= head.len() ==> #[trigger] s.subrange(i, j) == head.subrange(i, j)
            &&& forall|k: int| 0 <= k < head.len() ==> #[trigger] s[k] == head[k]
        }),
{
    let marked = head + seq![mark];
    lemma_join(head, seq![mark]);
    lemma_join(marked, part);
    assert(marked[head.len() as int] == seq![mark][0]);
    let s = marked + part;
    assert forall|i: int, j: int| 0 <= i <= j <= head.len() implies #[trigger] s.subrange(i, j)
        == head.subrange(i, j) by {
        assert(s.subrange(i, j) == marked.subrange(i, j));
    }
    assert forall|k: int| 0 <= k < head.len() implies #[trigger] s[k] == head[k] by {
        assert(s[k] == marked[k]);
    }
}

/// Where the key, the separators and the six numbers stand in the text of an
/// instruction.
proof fn lemma_layout(
    key: Seq<char>,
    w: Seq<char>,
    h: Seq<char>,
    sx: Seq<char>,
    sy: Seq<char>,
    dx: Seq<char>,
    dy: Seq<char>,
)
    ensures
        ({
            let s = instruction(key, w, h, sx, sy, dx, dy);
            let w0: int = key.len() as int + 1;
            let h0: int = w0 + w.len() + 1;
            let sx0: int = h0 + h.len() + 1;
            let sy0: int = sx0 + sx.len() + 1;
            let dx0: int = sy0 + sy.len() + 1;
            let dy0: int = dx0 + dx.len() + 1;
            &&& s.len() == dy0 + dy.len()
            &&& s.subrange(0, key.len() as int) == key
            &&& s[w0 - 1] == ':'
            &&& s.subrange(w0, w0 + w.len()) == w
            &&& s[h0 - 1] == ','
            &&& s.subrange(h0, h0 + h.len()) == h
            &&& s[sx0 - 1] == '+'
            &&& s.subrange(sx0, sx0 + sx.len()) == sx
            &&& s[sy0 - 1] == ','
            &&& s.subrange(sy0, sy0 + sy.len()) == sy
            &&& s[dx0 - 1] == '>'
            &&& s.subrange(dx0, dx0 + dx.len()) == dx
            &&& s[dy0 - 1] == ','
            &&& s.subrange(dy0, dy0 + dy.len()) == dy
        }),
{
    let a = key + seq![':'] + w;
    let b = a + seq![','] + h;
    let c = b + seq!['+'] + sx;
    let d = c + seq![','] + sy;
    let e = d + seq!['>'] + dx;
    let s = e + seq![','] + dy;
    assert(s == instruction(key, w, h, sx, sy, dx, dy));
    lemma_place(key, ':', w);
    assert(key.subrange(0, key.len() as int) =~= key);
    assert(a.subrange(0, key.len() as int) == key);
    lemma_place(a, ',', h);
    lemma_place(b, '+', sx);
    lemma_place(c, ',', sy);
    lemma_place(d, '>', dx);
    lemma_place(e, ',', dy);
}

/// Every text of the form `key:w,h+sx,sy>dx,dy` is read as the instruction
/// that its numbers denote, however the numbers are written: leading zeros
/// and `-0` are numbers too.
pub proof fn lemma_reads_every_instruction(
    key: Seq<char>,
    w: Seq<char>,
    h: Seq<char>,
    sx: Seq<char>,
    sy: Seq<char>,
    dx: Seq<char>,
    dy: Seq<char>,
    r: Replacer,
)
    requires
        is_key(key),
        denotes(w, h, sx, sy, dx, dy, r),
    ensures
        parse_text(instruction(key, w, h, sx, sy, dx, dy)) == Ok::<
            (Seq<char>, Replacer),
            ParseError,
        >((key, r)),
{
    let s = instruction(key, w, h, sx, sy, dx, dy);
    let colon = key.len() as int;
    let w0 = colon + 1;
    let w1 = w0 + w.len();
    let h0 = w1 + 1;
    let h1 = h0 + h.len();
    let sx0 = h1 + 1;
    let sx1 = sx0 + sx.len();
    let sy0 = sx1 + 1;
    let sy1 = sy0 + sy.len();
    let dx0 = sy1 + 1;
    let dx1 = dx0 + dx.len();
    let dy0 = dx1 + 1;
    let dy1 = dy0 + dy.len();
    lemma_layout(key, w, h, sx, sy, dx, dy);
    assert forall|k: int| 0 <= k < colon implies is_letter(#[trigger] s[k]) by {
        assert(s[k] == s.subrange(0, colon)[k]);
    }
    lemma_letters_run(s, 0, colon);
    lemma_scan_number(s, w0, w, u32::MAX as int);
    lemma_scan_number(s, h0, h, u32::MAX as int);
    assert(scan_pair(s, w0) == Ok::<_, ParseError>((r.size, h1)));
    lemma_scan_number(s, sx0, sx, u32::MAX as int);
    lemma_scan_number(s, sy0, sy, u32::MAX as int);
    assert(scan_pair(s, sx0) == Ok::<_, ParseError>((r.src, sy1)));
    lemma_scan_signed(s, dx0, dx);
    lemma_scan_signed(s, dy0, dy);
    assert(scan_signed_pair(s, dx0) == Ok::<_, ParseError>((r.dst, dy1)));
    assert(scan_body(s, w0) == Ok::<_, ParseError>((r, dy1)));
}

/// What a number read at `at` was written as.
proof fn lemma_number_read(s: Seq<char>, at: int, max: int)
    requires
        0 <= at <= s.len(),
        scan_number(s, at, max) is Ok,
    ensures
        ({
            let end = digits_end(s, at);
            let run = s.subrange(at, end);
            &&& at < end <= s.len()
            &&& is_number(run)
            &&& end == s.len() || !is_digit(s[end])
            &&& scan_number(s, at, max) == Ok::<(int, int), ParseError>((decimal(run) as int, end))
            &&& decimal(run) <= max
        }),
{
    lemma_digits_until_end(s, at);
    let end = digits_end(s, at);
    let run = s.subrange(at, end);
    assert forall|i: int| 0 <= i < run.len() implies is_digit(#[trigger] run[i]) by {
        assert(run[i] == s[at + i]);
    }
}

/// What a signed number read at `at` was written as.
proof fn lemma_signed_read(s: Seq<char>, at: int) -> (end: int)
    requires
        0 <= at <= s.len(),
        scan_signed(s, at) is Ok,
    ensures
        at < end <= s.len(),
        is_signed_number(s.subrange(at, end)),
        scan_signed(s, at) == Ok::<(int, int), ParseError>(
            (signed_value(s.subrange(at, end)), end),
        ),
        i64::MIN <= signed_value(s.subrange(at, end)) <= i64::MAX,
{
    if at < s.len() && s[at] == '-' {
        lemma_number_read(s, at + 1, max_negative_magnitude());
        let end = digits_end(s, at + 1);
        let t = s.subrange(at, end);
        assert(t.skip(1) =~= s.subrange(at + 1, end));
        assert(t[0] == '-');
        end
    } else {
        lemma_number_read(s, at, i64::MAX as int);
        let end = digits_end(s, at);
        let t = s.subrange(at, end);
        assert(t[0] == s[at]);
        end
    }
}

/// The beginning of a text up to `at`, the separator that stands at `at`, and
/// what stands behind it up to `to`, joined, are the beginning up to `to`.
proof fn lemma_grow(s: Seq<char>, at: int, mark: char, to: int)
    requires
        0 <= at < to <= s.len(),
        s[at] == mark,
    ensures
        s.subrange(0, at) + seq![mark] + s.subrange(at + 1, to) == s.subrange(0, to),
{
    assert(s.subrange(0, at) + seq![mark] + s.subrange(at + 1, to) =~= s.subrange(0, to));
}

/// Every text that is read as an instruction has the form `key:w,h+sx,sy>dx,dy`,
/// with a key of letters and six numbers that denote the instruction's
/// fields. A text of any other form is refused.
pub proof fn lemma_reads_only_instructions(s: Seq<char>, key: Seq<char>, r: Replacer)
    requires
        parse_text(s) == Ok::<(Seq<char>, Replacer), ParseError>((key, r)),
    ensures
        is_key(key),
        exists|w: Seq<char>, h: Seq<char>, sx: Seq<char>, sy: Seq<char>, dx: Seq<char>, dy: Seq<char>|
            #[trigger] denotes(w, h, sx, sy, dx, dy, r) && s == instruction(
                key,
                w,
                h,
                sx,
                sy,
                dx,
                dy,
            ),
{
    lemma_letters_until_end(s, 0);
    let colon = letters_end(s, 0);
    assert forall|i: int| 0 <= i < key.len() implies is_letter(#[trigger] key[i]) by {
        assert(key[i] == s[i]);
    }
    let w0 = colon + 1;
    lemma_number_read(s, w0, u32::MAX as int);
    let w1 = digits_end(s, w0);
    let h0 = w1 + 1;
    lemma_number_read(s, h0, u32::MAX as int);
    let h1 = digits_end(s, h0);
    let sx0 = h1 + 1;
    lemma_number_read(s, sx0, u32::MAX as int);
    let sx1 = digits_end(s, sx0);
    let sy0 = sx1 + 1;
    lemma_number_read(s, sy0, u32::MAX as int);
    let sy1 = digits_end(s, sy0);
    let dx0 = sy1 + 1;
    let dx1 = lemma_signed_read(s, dx0);
    let dy0 = dx1 + 1;
    let dy1 = lemma_signed_read(s, dy0);
    let w = s.subrange(w0, w1);
    let h = s.subrange(h0, h1);
    let sx = s.subrange(sx0, sx1);
    let sy = s.subrange(sy0, sy1);
    let dx = s.subrange(dx0, dx1);
    let dy = s.subrange(dy0, dy1);
    lemma_grow(s, colon, ':', w1);
    lemma_grow(s, w1, ',', h1);
    lemma_grow(s, h1, '+', sx1);
    lemma_grow(s, sx1, ',', sy1);
    lemma_grow(s, sy1, '>', dx1);
    lemma_grow(s, dx1, ',', dy1);
    assert(s.subrange(0, dy1) =~= s);
    assert(denotes(w, h, sx, sy, dx, dy, r));
}

/// What `encode` writes for a key and an instruction is read back as that key
/// and that instruction.
pub proof fn lemma_round_trip(key: Seq<char>, r: Replacer)
    requires
        is_key(key),
    ensures
        parse_text(render(key, r)) == Ok::<(Seq<char>, Replacer), ParseError>((key, r)),
{
    lemma_digits_of(r.size.x as nat);
    lemma_digits_of(r.size.y as nat);
    lemma_digits_of(r.src.x as nat);
    lemma_digits_of(r.src.y as nat);
    lemma_signed_digits(r.dst.x as int);
    lemma_signed_digits(r.dst.y as int);
    lemma_reads_every_instruction(
        key,
        digits_of(r.size.x as nat),
        digits_of(r.size.y as nat),
        digits_of(r.src.x as nat),
        digits_of(r.src.y as nat),
        signed_digits(r.dst.x as int),
        signed_digits(r.dst.y as int),
        r,
    );
}

} // verus!
