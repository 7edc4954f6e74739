//! Layout post-processing: minimum width, alignment, fill characters and
//! the sign-aware zero-pad shorthand, applied uniformly to raw text.

use vstd::prelude::*;
use crate::numeric::{int_chars, is_base_digit, dec_chars};

verus! {

/// Where the raw text sits inside a wider field.
#[derive(Clone, Copy, PartialEq, Eq, Structural)]
pub enum Align {
    Left,
    Right,
    Center,
}

/// `n` copies of one character.
pub open spec fn repeat_char(c: char, n: nat) -> Seq<char> {
    Seq::<char>::new(n, |i: int| c)
}

/// Pads `raw` to at least `w` characters with `fill`: left alignment pads
/// on the right, right alignment on the left, and centering splits the
/// padding as evenly as possible, the odd remainder going to the right.
pub open spec fn pad_chars(raw: Seq<char>, w: nat, al: Align, fill: char) -> Seq<char> {
    if raw.len() >= w {
        raw
    } else {
        let p = (w - raw.len()) as nat;
        match al {
            Align::Left => raw + repeat_char(fill, p),
            Align::Right => repeat_char(fill, p) + raw,
            Align::Center => repeat_char(fill, (p / 2) as nat) + raw + repeat_char(
                fill,
                (p - p / 2) as nat,
            ),
        }
    }
}

/// The zero-pad shorthand: right alignment with `'0'` as fill, the zeros
/// inserted between an optional leading sign and the digits, never before
/// the sign.
pub open spec fn zero_pad_chars(raw: Seq<char>, w: nat) -> Seq<char> {
    if raw.len() >= w {
        raw
    } else if raw.len() > 0 && raw[0] == '-' {
        seq!['-'] + repeat_char('0', (w - raw.len()) as nat) + raw.drop_first()
    } else {
        repeat_char('0', (w - raw.len()) as nat) + raw
    }
}

/// Pads `raw` to width `w`; with `zero` the sign-aware zero-pad shorthand
/// is used and `al`/`fill` are not consulted.
pub fn pad_exec(raw: Vec<char>, w: usize, al: Align, fill: char, zero: bool) -> (r: Vec<char>)
    ensures
        r@ == if zero {
            zero_pad_chars(raw@, w as nat)
        } else {
            pad_chars(raw@, w as nat, al, fill)
        },
{
    if raw.len() >= w {
        return raw;
    }
    let p = w - raw.len();
    let mut r: Vec<char> = Vec::new();
    if zero {
        let mut start: usize = 0;
        if raw.len() > 0 && raw[0] == '-' {
            r.push('-');
            start = 1;
        }
        push_repeat('0', p, &mut r);
        let mut i = start;
        while i < raw.len()
            invariant
                start <= i <= raw@.len(),
                r@ == if start == 1 {
                    seq!['-'] + repeat_char('0', p as nat) + raw@.subrange(1, i as int)
                } else {
                    repeat_char('0', p as nat) + raw@.subrange(0, i as int)
                },
            decreases raw@.len() - i,
        {
            r.push(raw[i]);
            proof {
                assert(raw@.subrange(start as int, i + 1) =~= raw@.subrange(start as int, i as int)
                    + seq![raw@[i as int]]);
            }
            i += 1;
        }
        proof {
            if start == 1 {
                assert(raw@.subrange(1, raw@.len() as int) =~= raw@.drop_first());
            } else {
                assert(raw@.subrange(0, raw@.len() as int) =~= raw@);
            }
            assert(r@ =~= zero_pad_chars(raw@, w as nat));
        }
    } else {
        match al {
            Align::Left => {
                append_all(&raw, &mut r);
                push_repeat(fill, p, &mut r);
            },
            Align::Right => {
                push_repeat(fill, p, &mut r);
                append_all(&raw, &mut r);
            },
            Align::Center => {
                push_repeat(fill, p / 2, &mut r);
                append_all(&raw, &mut r);
                push_repeat(fill, p - p / 2, &mut r);
            },
        }
        proof {
            assert(r@ =~= pad_chars(raw@, w as nat, al, fill));
        }
    }
    r
}

/// Appends `n` copies of `c`.
fn push_repeat(c: char, n: usize, out: &mut Vec<char>)
    ensures
        final(out)@ == old(out)@ + repeat_char(c, n as nat),
{
    let mut i: usize = 0;
    while i < n
        invariant
            i <= n,
            out@ == old(out)@ + repeat_char(c, i as nat),
        decreases n - i,
    {
        out.push(c);
        proof {
            assert(repeat_char(c, (i + 1) as nat) =~= repeat_char(c, i as nat) + seq![c]);
        }
        i += 1;
    }
}

/// Appends a copy of every character of `src`.
pub fn append_all(src: &Vec<char>, out: &mut Vec<char>)
    ensures
        final(out)@ == old(out)@ + src@,
{
    let mut i: usize = 0;
    while i < src.len()
        invariant
            i <= src@.len(),
            out@ == old(out)@ + src@.take(i as int),
        decreases src@.len() - i,
    {
        out.push(src[i]);
        proof {
            assert(src@.take(i + 1) =~= src@.take(i as int) + seq![src@[i as int]]);
        }
        i += 1;
    }
    proof {
        assert(src@.take(src@.len() as int) =~= src@);
    }
}

/// Zero-padded rendering of an integer: the result is exactly
/// `max(w, len(plain))` characters long, the sign (if any) stays the first
/// character, and every other character is a decimal digit.
pub proof fn lemma_zero_pad_int(n: i64, w: nat)
    ensures
        zero_pad_chars(int_chars(n as int), w).len() == if w >= int_chars(n as int).len() {
            w
        } else {
            int_chars(n as int).len()
        },
        n < 0 ==> zero_pad_chars(int_chars(n as int), w)[0] == '-',
        n < 0 ==> forall|i: int|
            1 <= i < zero_pad_chars(int_chars(n as int), w).len() ==> is_base_digit(
                #[trigger] zero_pad_chars(int_chars(n as int), w)[i],
                10,
            ),
        n >= 0 ==> forall|i: int|
            0 <= i < zero_pad_chars(int_chars(n as int), w).len() ==> is_base_digit(
                #[trigger] zero_pad_chars(int_chars(n as int), w)[i],
                10,
            ),
{
    let raw = int_chars(n as int);
    let s = zero_pad_chars(raw, w);
    assert('0' == crate::numeric::digit_char(0, false));
    assert(is_base_digit('0', 10));
    if n < 0 {
        let mag = (-(n as int)) as nat;
        crate::numeric::lemma_base_round_trip(mag, 10, false);
        assert(raw == seq!['-'] + dec_chars(mag));
        assert(raw[0] == '-');
        assert(forall|i: int|
            1 <= i < raw.len() ==> is_base_digit(#[trigger] raw[i], 10)) by {
            assert(forall|i: int|
                1 <= i < raw.len() ==> raw[i] == dec_chars(mag)[i - 1]);
        }
        if raw.len() >= w {
            assert(s == raw);
        } else {
            assert(s == seq!['-'] + repeat_char('0', (w - raw.len()) as nat) + raw.drop_first());
            assert(s.len() == w);
            assert(s[0] == '-');
            assert forall|i: int| 1 <= i < s.len() implies is_base_digit(#[trigger] s[i], 10) by {
                if i < 1 + (w - raw.len()) {
                    assert(s[i] == '0');
                } else {
                    assert(s[i] == raw.drop_first()[i - 1 - (w - raw.len())]);
                    assert(raw.drop_first()[i - 1 - (w - raw.len())] == raw[i - (w - raw.len())]);
                }
            }
        }
    } else {
        crate::numeric::lemma_base_round_trip(n as nat, 10, false);
        assert(raw == dec_chars(n as nat));
        assert(forall|i: int| 0 <= i < raw.len() ==> is_base_digit(#[trigger] raw[i], 10));
        if raw.len() >= w {
            assert(s == raw);
        } else {
            assert(raw.len() > 0);
            assert(raw[0] != '-') by {
                assert(is_base_digit(raw[0], 10));
                assert(forall|d: nat|
                    d < 10 ==> crate::numeric::digit_char(d, false) != '-'
                        && crate::numeric::digit_char(d, true) != '-');
            }
            assert(s == repeat_char('0', (w - raw.len()) as nat) + raw);
            assert(s.len() == w);
            assert forall|i: int| 0 <= i < s.len() implies is_base_digit(#[trigger] s[i], 10) by {
                if i < w - raw.len() {
                    assert(s[i] == '0');
                } else {
                    assert(s[i] == raw[i - (w - raw.len())]);
                }
            }
        }
    }
}

} // verus!
