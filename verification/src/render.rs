//! Raw value-to-text conversion under each convention: the plain custom
//! forms, the structural debug form and its pretty variant, and the
//! numeric-base forms. The executable renderers are proved to produce
//! exactly the specified character sequences.

use vstd::prelude::*;
use crate::numeric::{
    base_chars, bit_pattern, dec_chars, digit_char, int_chars, push_base, push_dec, push_digit,
    push_int, to_bit_pattern,
};
use crate::value::{
    agg_supports, byte_fields, coordinate_shape, dec_display, dec_display_prec,
    fields_support_plain, fields_wf, frac_chars, inc_digits, supports, value_wf, Aggregate,
    Convention, Decimal, Field, Style, Value,
};

verus! {

/// The separator of listed fields: a comma and a space.
pub open spec fn comma_sp() -> Seq<char> {
    seq![',', ' ']
}

/// The separator of a label from its value: a colon and a space.
pub open spec fn colon_sp() -> Seq<char> {
    seq![':', ' ']
}

/// The plain rendering of a value. Meaningful where the value supports the
/// plain convention; total so that contracts can always speak of it.
pub open spec fn plain_of(v: Value) -> Seq<char>
    decreases v,
{
    match v {
        Value::Int(n) => int_chars(n as int),
        Value::Num(d) => dec_display(d.neg, d.whole as nat, d.frac@),
        Value::Text(s) => s@,
        Value::Record(a) => plain_agg(a),
        Value::Tuple(a) => plain_agg(a),
    }
}

pub open spec fn plain_agg(a: Aggregate) -> Seq<char>
    decreases a,
{
    match a.style {
        Style::Opaque => Seq::<char>::empty(),
        Style::Paren => seq!['('] + plain_join(a.fields@, 0) + seq![')'],
        Style::Labelled => labelled_join(a.fields@, 0),
        Style::Indexed => seq!['['] + indexed_join(a.fields@, 0) + seq![']'],
        Style::Separated => plain_join(a.fields@, 0),
        Style::Coordinate => coord_text(a.fields@),
    }
}

/// Fields from index `i` on, rendered plainly and joined with `", "`.
pub open spec fn plain_join(fs: Seq<Field>, i: int) -> Seq<char>
    decreases fs, fs.len() - i,
{
    if i < 0 || i >= fs.len() {
        Seq::<char>::empty()
    } else if i == fs.len() - 1 {
        plain_of(fs[i].value)
    } else {
        plain_of(fs[i].value) + comma_sp() + plain_join(fs, i + 1)
    }
}

/// `label: value` pairs joined with `", "`.
pub open spec fn labelled_join(fs: Seq<Field>, i: int) -> Seq<char>
    decreases fs, fs.len() - i,
{
    if i < 0 || i >= fs.len() {
        Seq::<char>::empty()
    } else if i == fs.len() - 1 {
        fs[i].label@ + colon_sp() + plain_of(fs[i].value)
    } else {
        fs[i].label@ + colon_sp() + plain_of(fs[i].value) + comma_sp() + labelled_join(fs, i + 1)
    }
}

/// `index: value` pairs joined with `", "`, the index counting from the
/// field's position.
pub open spec fn indexed_join(fs: Seq<Field>, i: int) -> Seq<char>
    decreases fs, fs.len() - i,
{
    if i < 0 || i >= fs.len() {
        Seq::<char>::empty()
    } else if i == fs.len() - 1 {
        dec_chars(i as nat) + colon_sp() + plain_of(fs[i].value)
    } else {
        dec_chars(i as nat) + colon_sp() + plain_of(fs[i].value) + comma_sp() + indexed_join(
            fs,
            i + 1,
        )
    }
}

/// The coordinate form: place name, then each magnitude to three decimals
/// with the hemisphere letter chosen by the sign.
pub open spec fn coord_text(fs: Seq<Field>) -> Seq<char> {
    if coordinate_shape(fs) {
        let place = fs[0].value->Text_0;
        let lat = fs[1].value->Num_0;
        let lon = fs[2].value->Num_0;
        place@ + colon_sp() + dec_display_prec(false, lat.whole as nat, lat.frac@, 3) + seq!['°']
            + (if lat.neg {
            seq!['S']
        } else {
            seq!['N']
        }) + seq![' '] + dec_display_prec(false, lon.whole as nat, lon.frac@, 3) + seq!['°'] + (
        if lon.neg {
            seq!['W']
        } else {
            seq!['E']
        })
    } else {
        Seq::<char>::empty()
    }
}

/// The structural debug rendering: primitives as themselves (text quoted),
/// a named-field record as `Name { label: value, ... }`, a tuple record as
/// `Name(value, ...)`, and a field-less record as its bare name.
pub open spec fn debug_of(v: Value) -> Seq<char>
    decreases v,
{
    match v {
        Value::Int(n) => int_chars(n as int),
        Value::Num(d) => dec_display(d.neg, d.whole as nat, d.frac@),
        Value::Text(s) => seq!['"'] + s@ + seq!['"'],
        Value::Record(a) => if a.fields@.len() == 0 {
            a.name@
        } else {
            a.name@ + seq![' ', '{', ' '] + debug_named_join(a.fields@, 0) + seq![' ', '}']
        },
        Value::Tuple(a) => if a.fields@.len() == 0 {
            a.name@
        } else {
            a.name@ + seq!['('] + debug_tuple_join(a.fields@, 0) + seq![')']
        },
    }
}

pub open spec fn debug_named_join(fs: Seq<Field>, i: int) -> Seq<char>
    decreases fs, fs.len() - i,
{
    if i < 0 || i >= fs.len() {
        Seq::<char>::empty()
    } else if i == fs.len() - 1 {
        fs[i].label@ + colon_sp() + debug_of(fs[i].value)
    } else {
        fs[i].label@ + colon_sp() + debug_of(fs[i].value) + comma_sp() + debug_named_join(
            fs,
            i + 1,
        )
    }
}

pub open spec fn debug_tuple_join(fs: Seq<Field>, i: int) -> Seq<char>
    decreases fs, fs.len() - i,
{
    if i < 0 || i >= fs.len() {
        Seq::<char>::empty()
    } else if i == fs.len() - 1 {
        debug_of(fs[i].value)
    } else {
        debug_of(fs[i].value) + comma_sp() + debug_tuple_join(fs, i + 1)
    }
}

/// Four spaces of indentation per nesting level.
pub open spec fn indent(d: nat) -> Seq<char> {
    Seq::<char>::new(4 * d, |i: int| ' ')
}

/// The pretty debug rendering: the same structural template as `debug_of`,
/// but one field per line, indentation growing with depth, and a trailing
/// comma after every field.
pub open spec fn pretty_of(v: Value, d: nat) -> Seq<char>
    decreases v,
{
    match v {
        Value::Record(a) => if a.fields@.len() == 0 {
            a.name@
        } else {
            a.name@ + seq![' ', '{', '\n'] + pretty_named_join(a.fields@, 0, d + 1) + indent(d)
                + seq!['}']
        },
        Value::Tuple(a) => if a.fields@.len() == 0 {
            a.name@
        } else {
            a.name@ + seq!['(', '\n'] + pretty_tuple_join(a.fields@, 0, d + 1) + indent(d)
                + seq![')']
        },
        _ => debug_of(v),
    }
}

pub open spec fn pretty_named_join(fs: Seq<Field>, i: int, d: nat) -> Seq<char>
    decreases fs, fs.len() - i,
{
    if i < 0 || i >= fs.len() {
        Seq::<char>::empty()
    } else {
        indent(d) + fs[i].label@ + colon_sp() + pretty_of(fs[i].value, d) + seq![',', '\n']
            + pretty_named_join(fs, i + 1, d)
    }
}

pub open spec fn pretty_tuple_join(fs: Seq<Field>, i: int, d: nat) -> Seq<char>
    decreases fs, fs.len() - i,
{
    if i < 0 || i >= fs.len() {
        Seq::<char>::empty()
    } else {
        indent(d) + pretty_of(fs[i].value, d) + seq![',', '\n'] + pretty_tuple_join(fs, i + 1, d)
    }
}

/// Two hex digits for a value below 256.
pub open spec fn two_hex(n: nat, upper: bool) -> Seq<char> {
    if n < 16 {
        seq!['0', digit_char(n, upper)]
    } else {
        base_chars(n, 16, upper)
    }
}

/// The hex-packed form of an aggregate: each byte-range field as two hex
/// digits, concatenated.
pub open spec fn hex_pack(fs: Seq<Field>, i: int, upper: bool) -> Seq<char>
    decreases fs.len() - i,
{
    if i < 0 || i >= fs.len() {
        Seq::<char>::empty()
    } else if fs[i].value is Int {
        two_hex(fs[i].value->Int_0 as nat, upper) + hex_pack(fs, i + 1, upper)
    } else {
        hex_pack(fs, i + 1, upper)
    }
}

/// The base-`b` rendering: an integer as the digits of its bit pattern, a
/// hex-opted aggregate as its packed bytes.
pub open spec fn base_of(v: Value, b: nat, upper: bool) -> Seq<char> {
    match v {
        Value::Int(n) => base_chars(bit_pattern(n), b, upper),
        Value::Record(a) => hex_pack(a.fields@, 0, upper),
        Value::Tuple(a) => hex_pack(a.fields@, 0, upper),
        _ => Seq::<char>::empty(),
    }
}

/// The raw text of `v` under convention `c`, before any layout.
pub open spec fn raw_of(v: Value, c: Convention) -> Seq<char> {
    match c {
        Convention::Plain => plain_of(v),
        Convention::Debug => debug_of(v),
        Convention::Pretty => pretty_of(v, 0),
        Convention::Binary => base_of(v, 2, false),
        Convention::Octal => base_of(v, 8, false),
        Convention::LowerHex => base_of(v, 16, false),
        Convention::UpperHex => base_of(v, 16, true),
    }
}


/// Well-formedness of one field, from the well-formedness of the list.
pub proof fn lemma_fields_wf_index(fs: Seq<Field>, i: int)
    requires
        fields_wf(fs),
        0 <= i < fs.len(),
    ensures
        value_wf(fs[i].value),
    decreases i,
{
    if i > 0 {
        lemma_fields_wf_index(fs.drop_first(), i - 1);
        assert(fs.drop_first()[i - 1] == fs[i]);
    }
}

/// Plain support of one field, from plain support of the list.
pub proof fn lemma_fields_plain_index(fs: Seq<Field>, i: int)
    requires
        fields_support_plain(fs),
        0 <= i < fs.len(),
    ensures
        supports(fs[i].value, Convention::Plain),
    decreases i,
{
    if i > 0 {
        lemma_fields_plain_index(fs.drop_first(), i - 1);
        assert(fs.drop_first()[i - 1] == fs[i]);
    }
}

/// Appends the characters of a string.
pub fn push_string(s: &String, out: &mut Vec<char>)
    ensures
        final(out)@ == old(out)@ + s@,
{
    let st: &str = s.as_str();
    let n: usize = st.unicode_len();
    let mut i: usize = 0;
    while i < n
        invariant
            i <= n,
            n == s@.len(),
            st@ == s@,
            out@ == old(out)@ + s@.take(i as int),
        decreases n - i,
    {
        let c = st.get_char(i);
        out.push(c);
        proof {
            assert(s@.take(i + 1) =~= s@.take(i as int) + seq![s@[i as int]]);
        }
        i += 1;
    }
    proof {
        assert(s@.take(n as int) =~= s@);
    }
}

/// Adds one to the digit string in place; returns the carry out.
fn inc_exec(digits: &mut Vec<u8>) -> (carry: bool)
    requires
        forall|i: int| 0 <= i < old(digits)@.len() ==> #[trigger] old(digits)@[i] < 10,
    ensures
        final(digits)@ == inc_digits(old(digits)@).0,
        carry == inc_digits(old(digits)@).1,
        forall|i: int| 0 <= i < final(digits)@.len() ==> #[trigger] final(digits)@[i] < 10,
        final(digits)@.len() == old(digits)@.len(),
    decreases old(digits)@.len(),
{
    let n = digits.len();
    if n == 0 {
        return true;
    }
    let last = digits[n - 1];
    proof {
        assert(digits@.last() == last);
    }
    if last == 9 {
        digits.pop();
        proof {
            assert(digits@ =~= old(digits)@.drop_last());
        }
        let c = inc_exec(digits);
        digits.push(0);
        proof {
            assert(digits@ =~= inc_digits(old(digits)@.drop_last()).0 + seq![0u8]);
        }
        c
    } else {
        digits.set(n - 1, last + 1);
        proof {
            assert(digits@ =~= old(digits)@.drop_last() + seq![(old(digits)@.last() + 1) as u8]);
        }
        false
    }
}

/// Appends the plain rendering of a decimal.
pub fn push_decimal(neg: bool, whole: u64, frac: &Vec<u8>, out: &mut Vec<char>)
    requires
        forall|i: int| 0 <= i < frac@.len() ==> #[trigger] frac@[i] < 10,
    ensures
        final(out)@ == old(out)@ + dec_display(neg, whole as nat, frac@),
{
    if neg {
        out.push('-');
    }
    push_dec(whole, out);
    if frac.len() > 0 {
        out.push('.');
        let ghost mid = out@;
        let mut i: usize = 0;
        while i < frac.len()
            invariant
                i <= frac@.len(),
                forall|k: int| 0 <= k < frac@.len() ==> #[trigger] frac@[k] < 10,
                out@ == mid + frac_chars(frac@.take(i as int)),
            decreases frac@.len() - i,
        {
            push_digit(frac[i] as u64, false, out);
            proof {
                assert(frac_chars(frac@.take(i + 1)) =~= frac_chars(frac@.take(i as int))
                    + seq![digit_char(frac@[i as int] as nat, false)]);
            }
            i += 1;
        }
        proof {
            assert(frac@.take(frac@.len() as int) =~= frac@);
            assert(out@ =~= old(out)@ + dec_display(neg, whole as nat, frac@));
        }
    } else {
        proof {
            assert(out@ =~= old(out)@ + dec_display(neg, whole as nat, frac@));
        }
    }
}

/// Appends the rendering of a decimal rounded to exactly `k` fractional
/// digits.
pub fn push_decimal_prec(neg: bool, whole: u64, frac: &Vec<u8>, k: usize, out: &mut Vec<char>)
    requires
        forall|i: int| 0 <= i < frac@.len() ==> #[trigger] frac@[i] < 10,
        whole < u64::MAX,
    ensures
        final(out)@ == old(out)@ + dec_display_prec(neg, whole as nat, frac@, k as nat),
{
    let mut digits: Vec<u8> = Vec::new();
    let mut carry: u64 = 0;
    if k >= frac.len() {
        let mut i: usize = 0;
        while i < frac.len()
            invariant
                i <= frac@.len(),
                digits@ == frac@.take(i as int),
            decreases frac@.len() - i,
        {
            digits.push(frac[i]);
            proof {
                assert(frac@.take(i + 1) =~= frac@.take(i as int) + seq![frac@[i as int]]);
            }
            i += 1;
        }
        proof {
            assert(frac@.take(frac@.len() as int) =~= frac@);
        }
        while i < k
            invariant
                frac@.len() <= i <= k,
                digits@ == frac@ + Seq::<u8>::new((i - frac@.len()) as nat, |j: int| 0u8),
            decreases k - i,
        {
            digits.push(0);
            proof {
                assert(frac@ + Seq::<u8>::new((i + 1 - frac@.len()) as nat, |j: int| 0u8)
                    =~= (frac@ + Seq::<u8>::new((i - frac@.len()) as nat, |j: int| 0u8))
                    + seq![0u8]);
            }
            i += 1;
        }
    } else {
        let mut i: usize = 0;
        while i < k
            invariant
                i <= k,
                k < frac@.len(),
                digits@ == frac@.take(i as int),
                forall|j: int| 0 <= j < frac@.len() ==> #[trigger] frac@[j] < 10,
            decreases k - i,
        {
            digits.push(frac[i]);
            proof {
                assert(frac@.take(i + 1) =~= frac@.take(i as int) + seq![frac@[i as int]]);
            }
            i += 1;
        }
        if frac[k] >= 5 {
            let c = inc_exec(&mut digits);
            if c {
                carry = 1;
            }
        }
    }
    push_decimal(neg, whole + carry, &digits, out);
    proof {
        assert(forall|i: int| 0 <= i < digits@.len() ==> #[trigger] digits@[i] < 10);
        assert(dec_display(neg, (whole + carry) as nat, digits@) == dec_display_prec(
            neg,
            whole as nat,
            frac@,
            k as nat,
        ));
    }
}



/// Appends two hex digits for `n` below 256 (one leading zero where one
/// digit would do).
fn push_two_hex(n: u64, upper: bool, out: &mut Vec<char>)
    requires
        n < 256,
    ensures
        final(out)@ == old(out)@ + two_hex(n as nat, upper),
{
    if n < 16 {
        out.push('0');
        push_digit(n, upper, out);
    } else {
        push_base(n, 16, upper, out);
    }
}

/// Appends the plain rendering of a value that supports the plain
/// convention.
#[verifier::loop_isolation(false)]
pub fn render_plain(v: &Value, out: &mut Vec<char>)
    requires
        supports(*v, Convention::Plain),
        value_wf(*v),
    ensures
        final(out)@ == old(out)@ + plain_of(*v),
    decreases *v,
{
    match v {
        Value::Int(n) => push_int(*n, out),
        Value::Num(d) => push_decimal(d.neg, d.whole, &d.frac, out),
        Value::Text(s) => push_string(s, out),
        Value::Record(a) => render_plain_agg(a, out),
        Value::Tuple(a) => render_plain_agg(a, out),
    }
}

#[verifier::loop_isolation(false)]
#[verifier::rlimit(50)]
fn render_plain_agg(a: &Aggregate, out: &mut Vec<char>)
    requires
        agg_supports(*a, Convention::Plain),
        fields_wf(a.fields@),
    ensures
        final(out)@ == old(out)@ + plain_agg(*a),
    decreases *a,
{
    let ghost fs = a.fields@;
    match a.style {
        Style::Opaque => {
            proof {
                assert(false);
            }
        },
        Style::Paren | Style::Separated => {
            if matches!(a.style, Style::Paren) {
                out.push('(');
            }
            let ghost start = out@;
            let mut i: usize = 0;
            while i < a.fields.len()
                invariant
                    i <= fs.len(),
                    out@ + plain_join(fs, i as int) == start + plain_join(fs, 0),
                decreases fs.len() - i,
            {
                proof {
                    lemma_fields_plain_index(fs, i as int);
                    lemma_fields_wf_index(fs, i as int);
                }
                render_plain(&a.fields[i].value, out);
                if i + 1 < a.fields.len() {
                    out.push(',');
                    out.push(' ');
                }
                proof {
                    assert(out@ + plain_join(fs, i + 1) =~= start + plain_join(fs, 0));
                }
                i += 1;
            }
            if matches!(a.style, Style::Paren) {
                out.push(')');
            }
        },
        Style::Labelled => {
            let ghost start = out@;
            let mut i: usize = 0;
            while i < a.fields.len()
                invariant
                    i <= fs.len(),
                    out@ + labelled_join(fs, i as int) == start + labelled_join(fs, 0),
                decreases fs.len() - i,
            {
                proof {
                    lemma_fields_plain_index(fs, i as int);
                    lemma_fields_wf_index(fs, i as int);
                }
                push_string(&a.fields[i].label, out);
                out.push(':');
                out.push(' ');
                render_plain(&a.fields[i].value, out);
                if i + 1 < a.fields.len() {
                    out.push(',');
                    out.push(' ');
                }
                proof {
                    assert(out@ + labelled_join(fs, i + 1) =~= start + labelled_join(fs, 0));
                }
                i += 1;
            }
        },
        Style::Indexed => {
            out.push('[');
            let ghost start = out@;
            let mut i: usize = 0;
            while i < a.fields.len()
                invariant
                    i <= fs.len(),
                    out@ + indexed_join(fs, i as int) == start + indexed_join(fs, 0),
                decreases fs.len() - i,
            {
                proof {
                    lemma_fields_plain_index(fs, i as int);
                    lemma_fields_wf_index(fs, i as int);
                }
                push_dec(i as u64, out);
                out.push(':');
                out.push(' ');
                render_plain(&a.fields[i].value, out);
                if i + 1 < a.fields.len() {
                    out.push(',');
                    out.push(' ');
                }
                proof {
                    assert(out@ + indexed_join(fs, i + 1) =~= start + indexed_join(fs, 0));
                }
                i += 1;
            }
            out.push(']');
        },
        Style::Coordinate => {
            match &a.fields[0].value {
                Value::Text(s) => push_string(s, out),
                _ => {
                    proof {
                        assert(false);
                    }
                },
            }
            out.push(':');
            out.push(' ');
            match &a.fields[1].value {
                Value::Num(d) => {
                    proof {
                        lemma_fields_wf_index(fs, 1);
                    }
                    push_decimal_prec(false, d.whole, &d.frac, 3, out);
                    out.push('°');
                    out.push(if d.neg { 'S' } else { 'N' });
                },
                _ => {
                    proof {
                        assert(false);
                    }
                },
            }
            out.push(' ');
            match &a.fields[2].value {
                Value::Num(d) => {
                    proof {
                        lemma_fields_wf_index(fs, 2);
                    }
                    push_decimal_prec(false, d.whole, &d.frac, 3, out);
                    out.push('°');
                    out.push(if d.neg { 'W' } else { 'E' });
                },
                _ => {
                    proof {
                        assert(false);
                    }
                },
            }
            proof {
                assert(out@ =~= old(out)@ + coord_text(fs));
            }
        },
    }
}

/// Appends the structural debug rendering of any value.
#[verifier::loop_isolation(false)]
#[verifier::rlimit(50)]
pub fn render_debug(v: &Value, out: &mut Vec<char>)
    requires
        value_wf(*v),
    ensures
        final(out)@ == old(out)@ + debug_of(*v),
    decreases *v,
{
    match v {
        Value::Int(n) => push_int(*n, out),
        Value::Num(d) => push_decimal(d.neg, d.whole, &d.frac, out),
        Value::Text(s) => {
            out.push('"');
            push_string(s, out);
            out.push('"');
            proof {
                assert(out@ =~= old(out)@ + debug_of(*v));
            }
        },
        Value::Record(a) => {
            push_string(&a.name, out);
            if a.fields.len() > 0 {
                out.push(' ');
                out.push('{');
                out.push(' ');
                let ghost fs = a.fields@;
                let ghost start = out@;
                let mut i: usize = 0;
                while i < a.fields.len()
                    invariant
                        i <= fs.len(),
                        out@ + debug_named_join(fs, i as int) == start + debug_named_join(fs, 0),
                    decreases fs.len() - i,
                {
                    proof {
                        lemma_fields_wf_index(fs, i as int);
                    }
                    push_string(&a.fields[i].label, out);
                    out.push(':');
                    out.push(' ');
                    render_debug(&a.fields[i].value, out);
                    if i + 1 < a.fields.len() {
                        out.push(',');
                        out.push(' ');
                    }
                    proof {
                        assert(out@ + debug_named_join(fs, i + 1) =~= start + debug_named_join(
                            fs,
                            0,
                        ));
                    }
                    i += 1;
                }
                out.push(' ');
                out.push('}');
                proof {
                    assert(out@ =~= old(out)@ + debug_of(*v));
                }
            }
        },
        Value::Tuple(a) => {
            push_string(&a.name, out);
            if a.fields.len() > 0 {
                out.push('(');
                let ghost fs = a.fields@;
                let ghost start = out@;
                let mut i: usize = 0;
                while i < a.fields.len()
                    invariant
                        i <= fs.len(),
                        out@ + debug_tuple_join(fs, i as int) == start + debug_tuple_join(fs, 0),
                    decreases fs.len() - i,
                {
                    proof {
                        lemma_fields_wf_index(fs, i as int);
                    }
                    render_debug(&a.fields[i].value, out);
                    if i + 1 < a.fields.len() {
                        out.push(',');
                        out.push(' ');
                    }
                    proof {
                        assert(out@ + debug_tuple_join(fs, i + 1) =~= start + debug_tuple_join(
                            fs,
                            0,
                        ));
                    }
                    i += 1;
                }
                out.push(')');
                proof {
                    assert(out@ =~= old(out)@ + debug_of(*v));
                }
            }
        },
    }
}

/// Appends the characters of the running indentation.
fn push_pad(pad: &Vec<char>, out: &mut Vec<char>)
    ensures
        final(out)@ == old(out)@ + pad@,
{
    let mut i: usize = 0;
    while i < pad.len()
        invariant
            i <= pad@.len(),
            out@ == old(out)@ + pad@.take(i as int),
        decreases pad@.len() - i,
    {
        out.push(pad[i]);
        proof {
            assert(pad@.take(i + 1) =~= pad@.take(i as int) + seq![pad@[i as int]]);
        }
        i += 1;
    }
    proof {
        assert(pad@.take(pad@.len() as int) =~= pad@);
    }
}

/// Appends the pretty debug rendering. `pad` holds the indentation of the
/// current depth and is restored before returning.
#[verifier::loop_isolation(false)]
#[verifier::rlimit(100)]
fn render_pretty(v: &Value, depth: Ghost<nat>, pad: &mut Vec<char>, out: &mut Vec<char>)
    requires
        value_wf(*v),
        old(pad)@ == indent(depth@),
    ensures
        final(out)@ == old(out)@ + pretty_of(*v, depth@),
        final(pad)@ == old(pad)@,
    decreases *v,
{
    match v {
        Value::Int(n) => push_int(*n, out),
        Value::Num(d) => push_decimal(d.neg, d.whole, &d.frac, out),
        Value::Text(s) => {
            out.push('"');
            push_string(s, out);
            out.push('"');
            proof {
                assert(out@ =~= old(out)@ + pretty_of(*v, depth@));
            }
        },
        Value::Record(a) => {
            push_string(&a.name, out);
            if a.fields.len() > 0 {
                out.push(' ');
                out.push('{');
                out.push('\n');
                let ghost fs = a.fields@;
                let ghost d1: nat = depth@ + 1;
                pad.push(' ');
                pad.push(' ');
                pad.push(' ');
                pad.push(' ');
                proof {
                    assert(pad@ =~= indent(d1));
                }
                let ghost start = out@;
                let mut i: usize = 0;
                while i < a.fields.len()
                    invariant
                        i <= fs.len(),
                        pad@ == indent(d1),
                        out@ + pretty_named_join(fs, i as int, d1) == start + pretty_named_join(
                            fs,
                            0,
                            d1,
                        ),
                    decreases fs.len() - i,
                {
                    proof {
                        lemma_fields_wf_index(fs, i as int);
                    }
                    push_pad(pad, out);
                    push_string(&a.fields[i].label, out);
                    out.push(':');
                    out.push(' ');
                    render_pretty(&a.fields[i].value, Ghost(d1), pad, out);
                    out.push(',');
                    out.push('\n');
                    proof {
                        assert(out@ + pretty_named_join(fs, i + 1, d1) =~= start
                            + pretty_named_join(fs, 0, d1));
                    }
                    i += 1;
                }
                pad.pop();
                pad.pop();
                pad.pop();
                pad.pop();
                proof {
                    assert(pad@ =~= indent(depth@));
                }
                push_pad(pad, out);
                out.push('}');
                proof {
                    assert(out@ =~= old(out)@ + pretty_of(*v, depth@));
                }
            }
        },
        Value::Tuple(a) => {
            push_string(&a.name, out);
            if a.fields.len() > 0 {
                out.push('(');
                out.push('\n');
                let ghost fs = a.fields@;
                let ghost d1: nat = depth@ + 1;
                pad.push(' ');
                pad.push(' ');
                pad.push(' ');
                pad.push(' ');
                proof {
                    assert(pad@ =~= indent(d1));
                }
                let ghost start = out@;
                let mut i: usize = 0;
                while i < a.fields.len()
                    invariant
                        i <= fs.len(),
                        pad@ == indent(d1),
                        out@ + pretty_tuple_join(fs, i as int, d1) == start + pretty_tuple_join(
                            fs,
                            0,
                            d1,
                        ),
                    decreases fs.len() - i,
                {
                    proof {
                        lemma_fields_wf_index(fs, i as int);
                    }
                    push_pad(pad, out);
                    render_pretty(&a.fields[i].value, Ghost(d1), pad, out);
                    out.push(',');
                    out.push('\n');
                    proof {
                        assert(out@ + pretty_tuple_join(fs, i + 1, d1) =~= start
                            + pretty_tuple_join(fs, 0, d1));
                    }
                    i += 1;
                }
                pad.pop();
                pad.pop();
                pad.pop();
                pad.pop();
                proof {
                    assert(pad@ =~= indent(depth@));
                }
                push_pad(pad, out);
                out.push(')');
                proof {
                    assert(out@ =~= old(out)@ + pretty_of(*v, depth@));
                }
            }
        },
    }
}

/// Appends the base-`b` rendering of a value that supports that base
/// convention.
#[verifier::loop_isolation(false)]
pub fn render_base(v: &Value, b: u64, upper: bool, out: &mut Vec<char>)
    requires
        b == 2 || b == 8 || b == 16,
        supports(
            *v,
            if b == 2 {
                Convention::Binary
            } else if b == 8 {
                Convention::Octal
            } else if upper {
                Convention::UpperHex
            } else {
                Convention::LowerHex
            },
        ),
    ensures
        final(out)@ == old(out)@ + base_of(*v, b as nat, upper),
{
    match v {
        Value::Int(n) => {
            let bits = to_bit_pattern(*n);
            push_base(bits, b, upper, out);
        },
        Value::Record(a) | Value::Tuple(a) => {
            let ghost fs = a.fields@;
            let ghost start = out@;
            let mut i: usize = 0;
            while i < a.fields.len()
                invariant
                    i <= fs.len(),
                    byte_fields(fs),
                    out@ + hex_pack(fs, i as int, upper) == start + hex_pack(fs, 0, upper),
                decreases fs.len() - i,
            {
                match &a.fields[i].value {
                    Value::Int(n) => {
                        push_two_hex(*n as u64, upper, out);
                    },
                    _ => {
                        proof {
                            assert(false);
                        }
                    },
                }
                proof {
                    assert(out@ + hex_pack(fs, i + 1, upper) =~= start + hex_pack(fs, 0, upper));
                }
                i += 1;
            }
        },
        _ => {
            proof {
                assert(false);
            }
        },
    }
}

/// Appends the raw text of `v` under convention `c` (no layout applied).
pub fn render_raw(v: &Value, c: Convention, out: &mut Vec<char>)
    requires
        supports(*v, c),
        value_wf(*v),
    ensures
        final(out)@ == old(out)@ + raw_of(*v, c),
{
    match c {
        Convention::Plain => render_plain(v, out),
        Convention::Debug => render_debug(v, out),
        Convention::Pretty => {
            let mut pad: Vec<char> = Vec::new();
            proof {
                assert(pad@ =~= indent(0));
            }
            render_pretty(v, Ghost(0nat), &mut pad, out);
        },
        Convention::Binary => render_base(v, 2, false, out),
        Convention::Octal => render_base(v, 8, false, out),
        Convention::LowerHex => render_base(v, 16, false, out),
        Convention::UpperHex => render_base(v, 16, true, out),
    }
}



/// Round trip through a base convention: the digits an integer renders to
/// under base 2, 8 or 16 are valid digits of that base and parse back, as
/// the bit pattern, to exactly the integer rendered.
pub proof fn lemma_int_render_parse(n: i64, b: nat, upper: bool)
    requires
        b == 2 || b == 8 || b == 16,
    ensures
        crate::numeric::valid_digits(base_of(Value::Int(n), b, upper), b),
        crate::numeric::parse_val(base_of(Value::Int(n), b, upper), b) == bit_pattern(n),
{
    crate::numeric::lemma_base_round_trip(bit_pattern(n), b, upper);
}

/// Structural consistency of debug rendering: a named-field record is
/// exactly the template `Name { label: dbg, ..., label: dbg }`, each field
/// rendered by its own debug rendering.
pub proof fn lemma_debug_record_template(a: Aggregate)
    requires
        a.fields@.len() > 0,
    ensures
        debug_of(Value::Record(a)) == a.name@ + seq![' ', '{', ' '] + debug_named_join(
            a.fields@,
            0,
        ) + seq![' ', '}'],
{
}

/// Structural consistency of debug rendering: a tuple record is exactly
/// the template `Name(dbg, ..., dbg)`.
pub proof fn lemma_debug_tuple_template(a: Aggregate)
    requires
        a.fields@.len() > 0,
    ensures
        debug_of(Value::Tuple(a)) == a.name@ + seq!['('] + debug_tuple_join(a.fields@, 0)
            + seq![')'],
{
}

/// One step of the debug field template: the entry at `i` is the field's
/// label, a colon, and the field value's own debug rendering, followed by
/// a separator and the remaining entries.
pub proof fn lemma_debug_named_join_step(fs: Seq<Field>, i: int)
    requires
        0 <= i < fs.len(),
    ensures
        i == fs.len() - 1 ==> debug_named_join(fs, i) == fs[i].label@ + colon_sp() + debug_of(
            fs[i].value,
        ),
        i < fs.len() - 1 ==> debug_named_join(fs, i) == fs[i].label@ + colon_sp() + debug_of(
            fs[i].value,
        ) + comma_sp() + debug_named_join(fs, i + 1),
{
}

/// The pretty rendering of a primitive is its plain debug rendering, at
/// every depth: the two conventions differ only on aggregates.
pub proof fn lemma_pretty_primitive(v: Value, d: nat)
    requires
        !(v is Record),
        !(v is Tuple),
    ensures
        pretty_of(v, d) == debug_of(v),
{
}


} // verus!
