//! The renderable values: integers, exact decimal numbers, text, and
//! aggregate records, together with the rendering conventions a value may
//! support. A convention may only be requested of a value that supports it.

use vstd::prelude::*;
use crate::numeric::{digit_char, dec_chars};

verus! {

/// A rendering convention. `Plain` is the terse, user-facing form, defined
/// only for values that carry an explicit textual form of their own;
/// `Debug` and `Pretty` are the structural forms, derivable for every
/// value; the base conventions reinterpret an integer as its bit pattern.
#[derive(Clone, Copy, PartialEq, Eq, Structural)]
pub enum Convention {
    Plain,
    Debug,
    Pretty,
    Binary,
    Octal,
    LowerHex,
    UpperHex,
}

/// The explicit plain-text form an aggregate opts into. `Opaque` opts out:
/// a plain rendering of such an aggregate is refused, never invented.
#[derive(Clone, Copy, PartialEq, Eq, Structural)]
pub enum Style {
    /// No plain form of its own.
    Opaque,
    /// `(v1, v2, ...)`
    Paren,
    /// `label1: v1, label2: v2, ...`
    Labelled,
    /// `[0: v1, 1: v2, ...]`
    Indexed,
    /// `v1, v2, ...`
    Separated,
    /// `place: lat°N lon°S` from a text field and two decimal fields:
    /// magnitudes to three decimals, hemisphere letters from the signs.
    Coordinate,
}

/// An exact decimal number, the renderable stand-in for a floating-point
/// value: a sign, a whole part and the fractional digits in order.
pub struct Decimal {
    pub neg: bool,
    pub whole: u64,
    pub frac: Vec<u8>,
}

/// A well-formed decimal: fractional digits below ten, and one unit of
/// headroom in the whole part so that rounding may carry into it.
pub open spec fn decimal_wf(d: Decimal) -> bool {
    &&& forall|i: int| 0 <= i < d.frac@.len() ==> #[trigger] d.frac@[i] < 10
    &&& d.whole < u64::MAX
}

/// One named field of an aggregate.
pub struct Field {
    pub label: String,
    pub value: Value,
}

/// An aggregate: a type name, its fields in order, and the plain-text
/// style it opts into. `hex` opts into the hex conventions, rendering each
/// field (an integer below 256) as two hex digits.
pub struct Aggregate {
    pub name: String,
    pub fields: Vec<Field>,
    pub style: Style,
    pub hex: bool,
}

/// A renderable value.
pub enum Value {
    Int(i64),
    Num(Decimal),
    Text(String),
    /// A named-field record: `Name { a: 1, b: 2 }` under `Debug`.
    Record(Aggregate),
    /// A tuple-like record: `Name(1, 2)` under `Debug`; field labels are
    /// not rendered.
    Tuple(Aggregate),
}

/// Well-formedness of a value: every decimal in it is well formed.
pub open spec fn value_wf(v: Value) -> bool
    decreases v,
{
    match v {
        Value::Int(_) => true,
        Value::Num(d) => decimal_wf(d),
        Value::Text(_) => true,
        Value::Record(a) => fields_wf(a.fields@),
        Value::Tuple(a) => fields_wf(a.fields@),
    }
}

pub open spec fn fields_wf(fs: Seq<Field>) -> bool
    decreases fs,
{
    fs.len() == 0 || (value_wf(fs[0].value) && fields_wf(fs.drop_first()))
}

/// The shape the `Coordinate` style needs: a text field then two decimals.
pub open spec fn coordinate_shape(fs: Seq<Field>) -> bool {
    &&& fs.len() == 3
    &&& fs[0].value is Text
    &&& fs[1].value is Num
    &&& fs[2].value is Num
}

/// Whether every field holds an integer in `0..256` (the shape the hex
/// conventions need of an aggregate).
pub open spec fn byte_fields(fs: Seq<Field>) -> bool {
    forall|i: int|
        0 <= i < fs.len() ==> ((#[trigger] fs[i].value) matches Value::Int(n) && 0 <= n < 256)
}

/// Whether `v` supports the convention `c`. The structural conventions are
/// always supported; the plain convention only where an explicit textual
/// form exists (recursively, for the styles that render their fields
/// plainly); a base convention only of an integer, or of an aggregate that
/// opted into the hex form with fields in byte range.
pub open spec fn supports(v: Value, c: Convention) -> bool
    decreases v,
{
    match v {
        Value::Int(_) => true,
        Value::Num(_) => c is Plain || c is Debug || c is Pretty,
        Value::Text(_) => c is Plain || c is Debug || c is Pretty,
        Value::Record(a) => agg_supports(a, c),
        Value::Tuple(a) => agg_supports(a, c),
    }
}

pub open spec fn agg_supports(a: Aggregate, c: Convention) -> bool
    decreases a,
{
    match c {
        Convention::Debug => true,
        Convention::Pretty => true,
        Convention::Plain => match a.style {
            Style::Opaque => false,
            Style::Coordinate => coordinate_shape(a.fields@),
            _ => fields_support_plain(a.fields@),
        },
        Convention::UpperHex => a.hex && byte_fields(a.fields@),
        Convention::LowerHex => a.hex && byte_fields(a.fields@),
        Convention::Binary => false,
        Convention::Octal => false,
    }
}

pub open spec fn fields_support_plain(fs: Seq<Field>) -> bool
    decreases fs,
{
    fs.len() == 0 || (supports(fs[0].value, Convention::Plain) && fields_support_plain(
        fs.drop_first(),
    ))
}

/// The fractional digits as characters.
pub open spec fn frac_chars(digits: Seq<u8>) -> Seq<char> {
    digits.map(|i: int, d: u8| digit_char(d as nat, false))
}

/// The plain rendering of a decimal: sign, whole part, and the fractional
/// digits after a point when there are any.
pub open spec fn dec_display(neg: bool, whole: nat, frac: Seq<u8>) -> Seq<char> {
    (if neg {
        seq!['-']
    } else {
        Seq::<char>::empty()
    }) + dec_chars(whole) + (if frac.len() > 0 {
        seq!['.'] + frac_chars(frac)
    } else {
        Seq::<char>::empty()
    })
}

/// Adds one to a fractional digit string, least significant digit last;
/// the boolean is the carry out of the most significant digit.
pub open spec fn inc_digits(s: Seq<u8>) -> (Seq<u8>, bool)
    decreases s.len(),
{
    if s.len() == 0 {
        (s, true)
    } else if s.last() == 9 {
        let r = inc_digits(s.drop_last());
        (r.0 + seq![0u8], r.1)
    } else {
        (s.drop_last() + seq![(s.last() + 1) as u8], false)
    }
}

/// Rounds a fractional digit string to exactly `k` digits, half away from
/// zero: short strings are padded with zeros, and a dropped leading digit
/// of five or more rounds the kept digits up. The `nat` is the carry into
/// the whole part.
pub open spec fn rounded_frac(frac: Seq<u8>, k: nat) -> (Seq<u8>, nat) {
    if k >= frac.len() {
        (frac + Seq::<u8>::new((k - frac.len()) as nat, |i: int| 0u8), 0)
    } else if frac[k as int] < 5 {
        (frac.take(k as int), 0)
    } else {
        let r = inc_digits(frac.take(k as int));
        (r.0, if r.1 {
            1
        } else {
            0
        })
    }
}

/// The plain rendering of a decimal rounded to exactly `k` fractional
/// digits.
pub open spec fn dec_display_prec(neg: bool, whole: nat, frac: Seq<u8>, k: nat) -> Seq<char> {
    let r = rounded_frac(frac, k);
    dec_display(neg, whole + r.1, r.0)
}

} // verus!
