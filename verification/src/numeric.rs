//! Rendering of integers to decimal and to the bases 2, 8 and 16, parsing
//! back from those bases, and the round-trip law connecting the two.

use vstd::prelude::*;

verus! {

broadcast use vstd::arithmetic::div_mod::lemma_div_is_strictly_smaller;

/// The character for one digit below 16: `'0'..='9'`, then `'a'..='f'`
/// or `'A'..='F'`.
pub open spec fn digit_char(d: nat, upper: bool) -> char {
    if d == 0 {
        '0'
    } else if d == 1 {
        '1'
    } else if d == 2 {
        '2'
    } else if d == 3 {
        '3'
    } else if d == 4 {
        '4'
    } else if d == 5 {
        '5'
    } else if d == 6 {
        '6'
    } else if d == 7 {
        '7'
    } else if d == 8 {
        '8'
    } else if d == 9 {
        '9'
    } else if d == 10 {
        if upper { 'A' } else { 'a' }
    } else if d == 11 {
        if upper { 'B' } else { 'b' }
    } else if d == 12 {
        if upper { 'C' } else { 'c' }
    } else if d == 13 {
        if upper { 'D' } else { 'd' }
    } else if d == 14 {
        if upper { 'E' } else { 'e' }
    } else {
        if upper { 'F' } else { 'f' }
    }
}

/// The digits of `n` in base `b`, most significant first, with no leading
/// zeros (`0` itself renders as a single `'0'`).
pub open spec fn base_chars(n: nat, b: nat, upper: bool) -> Seq<char>
    recommends
        2 <= b <= 16,
    decreases n,
{
    if n < b || b < 2 {
        seq![digit_char(if b < 2 { 0 } else { n % b }, upper)]
    } else {
        base_chars(n / b, b, upper) + seq![digit_char(n % b, upper)]
    }
}

/// Decimal digits of a natural number.
pub open spec fn dec_chars(n: nat) -> Seq<char> {
    base_chars(n, 10, false)
}

/// The plain rendering of a signed integer: a leading `'-'` for negative
/// values, then the decimal digits of the magnitude.
pub open spec fn int_chars(n: int) -> Seq<char> {
    if n < 0 {
        seq!['-'] + dec_chars((-n) as nat)
    } else {
        dec_chars(n as nat)
    }
}

/// The two's-complement bit pattern of an `i64`, as the natural number a
/// `u64` reinterpretation would hold.
pub open spec fn bit_pattern(n: i64) -> nat {
    if n >= 0 {
        n as nat
    } else {
        (n + 0x1_0000_0000_0000_0000) as nat
    }
}

/// Pushes the digit character for `d` (below 16).
pub fn push_digit(d: u64, upper: bool, out: &mut Vec<char>)
    requires
        d < 16,
    ensures
        final(out)@ == old(out)@ + seq![digit_char(d as nat, upper)],
{
    let c: char = if d == 0 {
        '0'
    } else if d == 1 {
        '1'
    } else if d == 2 {
        '2'
    } else if d == 3 {
        '3'
    } else if d == 4 {
        '4'
    } else if d == 5 {
        '5'
    } else if d == 6 {
        '6'
    } else if d == 7 {
        '7'
    } else if d == 8 {
        '8'
    } else if d == 9 {
        '9'
    } else if d == 10 {
        if upper { 'A' } else { 'a' }
    } else if d == 11 {
        if upper { 'B' } else { 'b' }
    } else if d == 12 {
        if upper { 'C' } else { 'c' }
    } else if d == 13 {
        if upper { 'D' } else { 'd' }
    } else if d == 14 {
        if upper { 'E' } else { 'e' }
    } else {
        if upper { 'F' } else { 'f' }
    };
    out.push(c);
}

/// Pushes the base-`b` digits of `n`, most significant first.
pub fn push_base(n: u64, b: u64, upper: bool, out: &mut Vec<char>)
    requires
        2 <= b <= 16,
    ensures
        final(out)@ == old(out)@ + base_chars(n as nat, b as nat, upper),
    decreases n,
{
    if n >= b {
        push_base(n / b, b, upper, out);
    }
    push_digit(n % b, upper, out);
    proof {
        if n < b {
            assert(base_chars(n as nat, b as nat, upper) == seq![
                digit_char((n as nat) % (b as nat), upper),
            ]);
            vstd::arithmetic::div_mod::lemma_small_mod(n as nat, b as nat);
        }
        assert(out@ == old(out)@ + base_chars(n as nat, b as nat, upper));
    }
}

/// Pushes the decimal digits of `n`.
pub fn push_dec(n: u64, out: &mut Vec<char>)
    ensures
        final(out)@ == old(out)@ + dec_chars(n as nat),
{
    push_base(n, 10, false, out);
}

/// Pushes the plain rendering of a signed integer: sign, then magnitude.
pub fn push_int(n: i64, out: &mut Vec<char>)
    ensures
        final(out)@ == old(out)@ + int_chars(n as int),
{
    if n < 0 {
        out.push('-');
        // -(i64::MIN) overflows, so negate via a non-negative intermediate.
        let mag: u64 = (-(n + 1)) as u64 + 1;
        assert(mag as nat == -(n as int) as nat);
        push_dec(mag, out);
        assert(out@ == old(out)@ + int_chars(n as int));
    } else {
        push_dec(n as u64, out);
    }
}

/// The `u64` holding the two's-complement bit pattern of `n`.
pub fn to_bit_pattern(n: i64) -> (r: u64)
    ensures
        r as nat == bit_pattern(n),
{
    if n >= 0 {
        n as u64
    } else {
        let pos: u64 = (-(n + 1)) as u64;
        u64::MAX - pos
    }
}

/// Whether `c` is a digit of base `b` (letters accepted in either case).
pub open spec fn is_base_digit(c: char, b: nat) -> bool {
    exists|d: nat| d < b && (c == digit_char(d, false) || c == digit_char(d, true))
}

/// The numeric value of a digit character (meaningful for digit characters).
pub open spec fn char_val(c: char) -> nat {
    if c == '0' {
        0
    } else if c == '1' {
        1
    } else if c == '2' {
        2
    } else if c == '3' {
        3
    } else if c == '4' {
        4
    } else if c == '5' {
        5
    } else if c == '6' {
        6
    } else if c == '7' {
        7
    } else if c == '8' {
        8
    } else if c == '9' {
        9
    } else if c == 'a' || c == 'A' {
        10
    } else if c == 'b' || c == 'B' {
        11
    } else if c == 'c' || c == 'C' {
        12
    } else if c == 'd' || c == 'D' {
        13
    } else if c == 'e' || c == 'E' {
        14
    } else if c == 'f' || c == 'F' {
        15
    } else {
        16
    }
}

/// The value of a digit string read in base `b`, most significant first.
pub open spec fn parse_val(s: Seq<char>, b: nat) -> nat
    decreases s.len(),
{
    if s.len() == 0 {
        0
    } else {
        parse_val(s.drop_last(), b) * b + char_val(s.last())
    }
}

/// A non-empty string of base-`b` digit characters.
pub open spec fn valid_digits(s: Seq<char>, b: nat) -> bool {
    s.len() > 0 && forall|i: int| 0 <= i < s.len() ==> is_base_digit(#[trigger] s[i], b)
}

proof fn lemma_digit_char_val(d: nat, upper: bool)
    requires
        d < 16,
    ensures
        char_val(digit_char(d, upper)) == d,
        is_base_digit(digit_char(d, upper), 16),
{
}

/// The digits that `base_chars` produces are valid for their base and
/// parse back, in that base, to exactly the number rendered.
pub proof fn lemma_base_round_trip(n: nat, b: nat, upper: bool)
    requires
        2 <= b <= 16,
    ensures
        valid_digits(base_chars(n, b, upper), b),
        parse_val(base_chars(n, b, upper), b) == n,
    decreases n,
{
    if n < b {
        let s = base_chars(n, b, upper);
        vstd::arithmetic::div_mod::lemma_small_mod(n, b);
        assert(s == seq![digit_char(n % b, upper)]);
        lemma_digit_char_val(n, upper);
        assert(s.drop_last() =~= Seq::<char>::empty());
        assert(parse_val(s.drop_last(), b) == 0);
        assert(s.last() == digit_char(n, upper));
        assert(parse_val(s, b) == parse_val(s.drop_last(), b) * b + char_val(s.last()));
        assert(parse_val(s.drop_last(), b) * b == 0) by (nonlinear_arith)
            requires
                parse_val(s.drop_last(), b) == 0,
        ;
        assert(parse_val(s, b) == char_val(digit_char(n, upper)));
        assert(exists|d: nat|
            d < b && (s[0] == digit_char(d, false) || s[0] == digit_char(d, true))) by {
            assert(s[0] == digit_char(n, upper));
        }
    } else {
        lemma_base_round_trip(n / b, b, upper);
        lemma_digit_char_val(n % b, upper);
        let pre = base_chars(n / b, b, upper);
        let s = base_chars(n, b, upper);
        assert(s == pre + seq![digit_char(n % b, upper)]);
        assert(s.drop_last() =~= pre);
        assert(s.last() == digit_char(n % b, upper));
        assert(parse_val(s, b) == parse_val(pre, b) * b + (n % b));
        assert(parse_val(pre, b) == n / b);
        assert((n / b) * b + n % b == n) by (nonlinear_arith)
            requires b >= 2, n >= 0;
        assert forall|i: int| 0 <= i < s.len() implies is_base_digit(#[trigger] s[i], b) by {
            if i < pre.len() {
                assert(s[i] == pre[i]);
            } else {
                assert(s[i] == digit_char(n % b, upper));
                assert(n % b < b);
            }
        }
    }
}

/// A longer digit string never parses to a smaller value: dropping trailing
/// digits cannot increase `parse_val`.
proof fn lemma_parse_prefix_le(s: Seq<char>, k: int, b: nat)
    requires
        0 <= k <= s.len(),
        b >= 2,
    ensures
        parse_val(s.take(k), b) <= parse_val(s, b),
    decreases s.len() - k,
{
    if k < s.len() {
        let t = s.take(k + 1);
        assert(t.drop_last() =~= s.take(k));
        assert(parse_val(t, b) == parse_val(s.take(k), b) * b + char_val(t.last()));
        assert(parse_val(s.take(k), b) * b >= parse_val(s.take(k), b)) by (nonlinear_arith)
            requires b >= 2;
        lemma_parse_prefix_le(s, k + 1, b);
        assert(s.take(s.len() as int) =~= s);
    } else {
        assert(s.take(k) =~= s);
    }
}

/// Reads one digit character; `16` marks a character that is no digit at all.
fn digit_of(c: char) -> (r: u64)
    ensures
        r as nat == char_val(c),
        r <= 16,
{
    match c {
        '0' => 0,
        '1' => 1,
        '2' => 2,
        '3' => 3,
        '4' => 4,
        '5' => 5,
        '6' => 6,
        '7' => 7,
        '8' => 8,
        '9' => 9,
        'a' | 'A' => 10,
        'b' | 'B' => 11,
        'c' | 'C' => 12,
        'd' | 'D' => 13,
        'e' | 'E' => 14,
        'f' | 'F' => 15,
        _ => 16,
    }
}

proof fn lemma_digit_val_bound(c: char, b: nat)
    requires
        is_base_digit(c, b),
        b <= 16,
    ensures
        char_val(c) < b,
{
    let d = choose|d: nat| d < b && (c == digit_char(d, false) || c == digit_char(d, true));
    lemma_digit_char_val(d, false);
    lemma_digit_char_val(d, true);
}

proof fn lemma_val_is_digit(c: char, b: nat)
    requires
        char_val(c) < b,
        b <= 16,
    ensures
        is_base_digit(c, b),
{
    let d = char_val(c);
    assert(c == digit_char(d, false) || c == digit_char(d, true));
}

/// Parses a string of base-`b` digits back to the number it renders.
/// Returns `None` exactly when the string is empty, holds a character that
/// is no base-`b` digit, or encodes a value that does not fit in a `u64`.
pub fn parse_base(s: &Vec<char>, b: u64) -> (r: Option<u64>)
    requires
        2 <= b <= 16,
    ensures
        match r {
            Some(v) => valid_digits(s@, b as nat) && v as nat == parse_val(s@, b as nat),
            None => !(valid_digits(s@, b as nat) && parse_val(s@, b as nat) <= u64::MAX),
        },
{
    if s.len() == 0 {
        return None;
    }
    let mut acc: u64 = 0;
    let mut i: usize = 0;
    while i < s.len()
        invariant
            2 <= b <= 16,
            0 <= i <= s.len(),
            acc as nat == parse_val(s@.take(i as int), b as nat),
            forall|j: int| 0 <= j < i ==> is_base_digit(#[trigger] s@[j], b as nat),
        decreases s.len() - i,
    {
        let d = digit_of(s[i]);
        if d >= b {
            proof {
                if is_base_digit(s@[i as int], b as nat) {
                    lemma_digit_val_bound(s@[i as int], b as nat);
                }
            }
            return None;
        }
        proof {
            lemma_val_is_digit(s@[i as int], b as nat);
        }
        let next = match acc.checked_mul(b) {
            Some(m) => m.checked_add(d),
            None => None,
        };
        proof {
            assert(s@.take(i + 1).drop_last() =~= s@.take(i as int));
            assert(s@.take(i + 1).last() == s@[i as int]);
        }
        match next {
            Some(v) => {
                acc = v;
            },
            None => {
                proof {
                    assert(parse_val(s@.take(i + 1), b as nat) > u64::MAX);
                    lemma_parse_prefix_le(s@, i + 1, b as nat);
                }
                return None;
            },
        }
        i += 1;
    }
    proof {
        assert(s@.take(s@.len() as int) =~= s@);
    }
    Some(acc)
}


} // verus!
