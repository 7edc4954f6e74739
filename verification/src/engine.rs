//! The formatting engine: resolves a layout request against the supplied
//! arguments, converts the value under the requested convention, applies
//! the layout, and binds template segments to arguments. Every failure is
//! a typed error produced before any output; no partial text escapes.

use vstd::prelude::*;
use crate::layout::{pad_chars, pad_exec, zero_pad_chars, Align};
use crate::render::{raw_of, render_raw};
use crate::value::{
    dec_display_prec, supports, value_wf, Convention, Value,
};

verus! {

/// Why a render request was refused. No fallback rendering is ever
/// substituted: the caller always sees the failure.
#[derive(Clone, Copy, PartialEq, Eq, Structural, Debug)]
pub enum FormatError {
    /// The value does not support the requested convention.
    UnsupportedConvention,
    /// A positional or named argument reference has no matching argument.
    MissingArgument,
    /// An indirect width or precision argument is not a non-negative
    /// integer that fits the machine.
    InvalidIndirectWidthOrPrecision,
}

/// A width or precision: a literal, or indirected through another
/// argument, which must hold a non-negative integer.
pub enum Amount {
    Lit(usize),
    Pos(usize),
    Named(String),
}

/// Which argument a template slot substitutes.
pub enum ArgRef {
    /// The next positional argument, consumed left to right.
    Auto,
    /// An explicit positional index.
    Pos(usize),
    /// A named argument.
    Named(String),
}

/// A full layout request: the convention, and the modifiers applied to
/// the raw text it produces. With `zero` set the sign-aware zero-pad
/// shorthand is used (right alignment implied; `align` and `fill` are not
/// consulted).
pub struct Request {
    pub conv: Convention,
    pub width: Option<Amount>,
    pub precision: Option<Amount>,
    pub align: Option<Align>,
    pub fill: char,
    pub zero: bool,
}

impl Request {
    /// A bare request: the given convention, no modifiers.
    pub fn bare(conv: Convention) -> (r: Request)
        ensures
            r == (Request {
                conv,
                width: None::<Amount>,
                precision: None::<Amount>,
                align: None::<Align>,
                fill: ' ',
                zero: false,
            }),
    {
        Request { conv, width: None, precision: None, align: None, fill: ' ', zero: false }
    }
}

/// The argument table a call supplies: positional values in order, and
/// named values. An unreferenced argument is allowed.
pub struct Args {
    pub positional: Vec<Value>,
    pub named: Vec<(String, Value)>,
}

impl Args {
    /// An empty argument table.
    pub fn none() -> (r: Args)
        ensures
            r.positional@.len() == 0,
            r.named@.len() == 0,
    {
        Args { positional: Vec::new(), named: Vec::new() }
    }
}

/// Every value in the table is well formed.
pub open spec fn args_wf(args: Args) -> bool {
    &&& forall|i: int|
        0 <= i < args.positional@.len() ==> value_wf(#[trigger] args.positional@[i])
    &&& forall|i: int| 0 <= i < args.named@.len() ==> value_wf(#[trigger] args.named@[i].1)
}

/// The first named argument with the given name, if any.
pub open spec fn lookup_named(named: Seq<(String, Value)>, name: Seq<char>) -> Option<Value>
    decreases named.len(),
{
    if named.len() == 0 {
        None
    } else if named[0].0@ == name {
        Some(named[0].1)
    } else {
        lookup_named(named.drop_first(), name)
    }
}

/// What an indirect width or precision resolves to: the integer held by
/// the referenced argument, which must exist, be an integer, and be in
/// `0..=usize::MAX`.
pub open spec fn resolve_value(ov: Option<Value>) -> Result<Option<nat>, FormatError> {
    match ov {
        None => Err(FormatError::MissingArgument),
        Some(Value::Int(n)) => if 0 <= n <= usize::MAX {
            Ok(Some(n as nat))
        } else {
            Err(FormatError::InvalidIndirectWidthOrPrecision)
        },
        Some(_) => Err(FormatError::InvalidIndirectWidthOrPrecision),
    }
}

/// Resolves an optional width or precision against the argument table.
pub open spec fn resolve_amount(a: Option<Amount>, args: Args) -> Result<
    Option<nat>,
    FormatError,
> {
    match a {
        None => Ok(None),
        Some(Amount::Lit(u)) => Ok(Some(u as nat)),
        Some(Amount::Pos(i)) => resolve_value(
            if i < args.positional@.len() {
                Some(args.positional@[i as int])
            } else {
                None
            },
        ),
        Some(Amount::Named(s)) => resolve_value(lookup_named(args.named@, s@)),
    }
}

/// The alignment a value takes when none is requested: numerics to the
/// right, everything else to the left.
pub open spec fn natural_align(v: Value) -> Align {
    match v {
        Value::Int(_) => Align::Right,
        Value::Num(_) => Align::Right,
        _ => Align::Left,
    }
}

pub open spec fn effective_align(v: Value, al: Option<Align>) -> Align {
    match al {
        Some(a) => a,
        None => natural_align(v),
    }
}

/// The raw text after the precision modifier: a decimal re-rendered to
/// exactly `k` fractional digits under the textual conventions, plain
/// text truncated to its first `k` characters; elsewhere the precision is
/// ignored.
pub open spec fn adjusted_raw(v: Value, c: Convention, p: Option<nat>) -> Seq<char> {
    match p {
        None => raw_of(v, c),
        Some(k) => match v {
            Value::Num(d) => if c is Plain || c is Debug || c is Pretty {
                dec_display_prec(d.neg, d.whole as nat, d.frac@, k)
            } else {
                raw_of(v, c)
            },
            Value::Text(s) => if c is Plain {
                if k < s@.len() {
                    s@.take(k as int)
                } else {
                    s@
                }
            } else {
                raw_of(v, c)
            },
            _ => raw_of(v, c),
        },
    }
}

/// The laid-out text: the precision-adjusted raw text, padded to the
/// resolved width.
pub open spec fn laid_out(
    v: Value,
    c: Convention,
    w: Option<nat>,
    p: Option<nat>,
    al: Option<Align>,
    fill: char,
    zero: bool,
) -> Seq<char> {
    let raw = adjusted_raw(v, c, p);
    match w {
        None => raw,
        Some(wv) => if zero {
            zero_pad_chars(raw, wv)
        } else {
            pad_chars(raw, wv, effective_align(v, al), fill)
        },
    }
}

/// What `render` returns: the width is resolved first, then the
/// precision, then the value's support of the convention is checked, and
/// only then is the laid-out text produced.
pub open spec fn render_spec(v: Value, req: Request, args: Args) -> Result<
    Seq<char>,
    FormatError,
> {
    match resolve_amount(req.width, args) {
        Err(e) => Err(e),
        Ok(w) => match resolve_amount(req.precision, args) {
            Err(e) => Err(e),
            Ok(p) => if !supports(v, req.conv) {
                Err(FormatError::UnsupportedConvention)
            } else {
                Ok(laid_out(v, req.conv, w, p, req.align, req.fill, req.zero))
            },
        },
    }
}

/// A convention the value does not support is refused with
/// `UnsupportedConvention` — never answered with a default or empty
/// rendering — whenever the width and precision themselves resolve.
pub proof fn lemma_unsupported_convention(v: Value, req: Request, args: Args)
    requires
        resolve_amount(req.width, args) is Ok,
        resolve_amount(req.precision, args) is Ok,
        !supports(v, req.conv),
    ensures
        render_spec(v, req, args) == Err::<Seq<char>, FormatError>(
            FormatError::UnsupportedConvention,
        ),
{
}

/// Looks up a named argument.
fn lookup_named_exec<'a>(named: &'a Vec<(String, Value)>, name: &String) -> (r: Option<&'a Value>)
    ensures
        match r {
            Some(v) => lookup_named(named@, name@) == Some(*v),
            None => lookup_named(named@, name@) is None,
        },
{
    let mut i: usize = 0;
    proof {
        assert(named@.skip(0) =~= named@);
    }
    while i < named.len()
        invariant
            i <= named@.len(),
            lookup_named(named@, name@) == lookup_named(named@.skip(i as int), name@),
        decreases named@.len() - i,
    {
        proof {
            assert(named@.skip(i as int)[0] == named@[i as int]);
            assert(named@.skip(i as int).drop_first() =~= named@.skip(i + 1));
        }
        if named[i].0.eq(name) {
            return Some(&named[i].1);
        }
        i += 1;
    }
    proof {
        assert(named@.skip(named@.len() as int).len() == 0);
    }
    None
}

/// Resolves an indirect or literal amount.
fn resolve_amount_exec(a: &Option<Amount>, args: &Args) -> (r: Result<Option<usize>, FormatError>)
    ensures
        match r {
            Ok(Some(u)) => resolve_amount(*a, *args) == Ok::<Option<nat>, FormatError>(
                Some(u as nat),
            ),
            Ok(None) => resolve_amount(*a, *args) == Ok::<Option<nat>, FormatError>(
                None::<nat>,
            ),
            Err(e) => resolve_amount(*a, *args) == Err::<Option<nat>, FormatError>(e),
        },
{
    let looked: Option<&Value> = match a {
        Option::None => {
            return Ok(None);
        },
        Option::Some(Amount::Lit(u)) => {
            return Ok(Some(*u));
        },
        Option::Some(Amount::Pos(i)) => {
            if *i < args.positional.len() {
                Some(&args.positional[*i])
            } else {
                None
            }
        },
        Option::Some(Amount::Named(s)) => lookup_named_exec(&args.named, s),
    };
    match looked {
        None => Err(FormatError::MissingArgument),
        Some(Value::Int(n)) => {
            if *n >= 0 && *n as u64 <= usize::MAX as u64 {
                Ok(Some(*n as usize))
            } else {
                Err(FormatError::InvalidIndirectWidthOrPrecision)
            }
        },
        Some(_) => Err(FormatError::InvalidIndirectWidthOrPrecision),
    }
}

/// Renders one value under a request, as characters.
pub fn render_chars(v: &Value, req: &Request, args: &Args) -> (r: Result<Vec<char>, FormatError>)
    requires
        value_wf(*v),
    ensures
        match r {
            Ok(s) => render_spec(*v, *req, *args) == Ok::<Seq<char>, FormatError>(s@),
            Err(e) => render_spec(*v, *req, *args) == Err::<Seq<char>, FormatError>(e),
        },
{
    let w = match resolve_amount_exec(&req.width, args) {
        Ok(w) => w,
        Err(e) => {
            return Err(e);
        },
    };
    let p = match resolve_amount_exec(&req.precision, args) {
        Ok(p) => p,
        Err(e) => {
            return Err(e);
        },
    };
    if !supports_exec(v, req.conv) {
        return Err(FormatError::UnsupportedConvention);
    }
    let mut raw: Vec<char> = Vec::new();
    match (p, v) {
        (Some(k), Value::Num(d)) if matches!(
            req.conv,
            Convention::Plain | Convention::Debug | Convention::Pretty,
        ) => {
            crate::render::push_decimal_prec(d.neg, d.whole, &d.frac, k, &mut raw);
        },
        (Some(k), Value::Text(s)) if matches!(req.conv, Convention::Plain) => {
            crate::render::push_string(s, &mut raw);
            if k < raw.len() {
                raw.truncate(k);
                proof {
                    assert(raw@ =~= s@.take(k as int));
                }
            }
        },
        _ => {
            render_raw(v, req.conv, &mut raw);
        },
    }
    proof {
        assert(raw@ == adjusted_raw(*v, req.conv, match p {
            Some(k) => Some(k as nat),
            None => None,
        }));
    }
    let out = match w {
        Some(wv) => {
            let al = match req.align {
                Some(a) => a,
                None => match v {
                    Value::Int(_) => Align::Right,
                    Value::Num(_) => Align::Right,
                    _ => Align::Left,
                },
            };
            pad_exec(raw, wv, al, req.fill, req.zero)
        },
        None => raw,
    };
    Ok(out)
}

/// Whether `v` supports `c`, decided at run time.
pub fn supports_exec(v: &Value, c: Convention) -> (r: bool)
    ensures
        r == supports(*v, c),
    decreases *v,
{
    match v {
        Value::Int(_) => true,
        Value::Num(_) => matches!(c, Convention::Plain | Convention::Debug | Convention::Pretty),
        Value::Text(_) => matches!(c, Convention::Plain | Convention::Debug | Convention::Pretty),
        Value::Record(a) => agg_supports_exec(a, c),
        Value::Tuple(a) => agg_supports_exec(a, c),
    }
}

#[verifier::loop_isolation(false)]
fn agg_supports_exec(a: &crate::value::Aggregate, c: Convention) -> (r: bool)
    ensures
        r == crate::value::agg_supports(*a, c),
    decreases *a,
{
    match c {
        Convention::Debug => true,
        Convention::Pretty => true,
        Convention::Plain => {
            match a.style {
                crate::value::Style::Opaque => false,
                crate::value::Style::Coordinate => {
                    if a.fields.len() != 3 {
                        return false;
                    }
                    let ok = matches!(&a.fields[0].value, Value::Text(_)) && matches!(
                        &a.fields[1].value,
                        Value::Num(_),
                    ) && matches!(&a.fields[2].value, Value::Num(_));
                    ok
                },
                _ => {
                    let mut i: usize = 0;
                    let ghost fs = a.fields@;
                    while i < a.fields.len()
                        invariant
                            i <= fs.len(),
                            fs == a.fields@,
                            forall|j: int|
                                0 <= j < i ==> supports(
                                    #[trigger] fs[j].value,
                                    Convention::Plain,
                                ),
                        decreases fs.len() - i,
                    {
                        if !supports_exec(&a.fields[i].value, Convention::Plain) {
                            proof {
                                lemma_not_fields_support(fs, i as int);
                            }
                            return false;
                        }
                        i += 1;
                    }
                    proof {
                        lemma_all_fields_support(fs, 0);
                        assert(fs.skip(0) =~= fs);
                    }
                    true
                },
            }
        },
        Convention::UpperHex | Convention::LowerHex => {
            if !a.hex {
                return false;
            }
            let mut i: usize = 0;
            let ghost fs = a.fields@;
            while i < a.fields.len()
                invariant
                    i <= fs.len(),
                    fs == a.fields@,
                    forall|j: int|
                        0 <= j < i ==> ((#[trigger] fs[j].value) matches Value::Int(n) && 0 <= n
                            < 256),
                decreases fs.len() - i,
            {
                let ok = match &a.fields[i].value {
                    Value::Int(n) => *n >= 0 && *n < 256,
                    _ => false,
                };
                if !ok {
                    proof {
                        assert(!((fs[i as int].value) matches Value::Int(n) && 0 <= n < 256));
                        assert(!crate::value::byte_fields(fs));
                    }
                    return false;
                }
                i += 1;
            }
            true
        },
        Convention::Binary => false,
        Convention::Octal => false,
    }
}

/// If one field refuses the plain convention, the list does.
proof fn lemma_not_fields_support(fs: Seq<crate::value::Field>, i: int)
    requires
        0 <= i < fs.len(),
        !supports(fs[i].value, Convention::Plain),
    ensures
        !crate::value::fields_support_plain(fs),
    decreases i,
{
    if i > 0 {
        assert(fs.drop_first()[i - 1] == fs[i]);
        lemma_not_fields_support(fs.drop_first(), i - 1);
    }
}

/// If every field supports the plain convention, the list does.
proof fn lemma_all_fields_support(fs: Seq<crate::value::Field>, i: int)
    requires
        0 <= i <= fs.len(),
        forall|j: int| i <= j < fs.len() ==> supports(#[trigger] fs[j].value, Convention::Plain),
    ensures
        crate::value::fields_support_plain(fs.skip(i)),
    decreases fs.len() - i,
{
    if i < fs.len() {
        lemma_all_fields_support(fs, i + 1);
        assert(fs.skip(i)[0] == fs[i]);
        assert(fs.skip(i).drop_first() =~= fs.skip(i + 1));
    }
}


/// One piece of a format template: literal text, or a slot that
/// substitutes an argument under a layout request.
pub enum Segment {
    Lit(String),
    Slot(ArgRef, Request),
}

/// The argument a slot reference picks out of the table; `ctr` is the
/// running count of auto slots already consumed.
pub open spec fn resolve_ref(r: ArgRef, ctr: nat, args: Args) -> Option<Value> {
    match r {
        ArgRef::Auto => if ctr < args.positional@.len() {
            Some(args.positional@[ctr as int])
        } else {
            None
        },
        ArgRef::Pos(i) => if i < args.positional@.len() {
            Some(args.positional@[i as int])
        } else {
            None
        },
        ArgRef::Named(s) => lookup_named(args.named@, s@),
    }
}

/// The auto counter after one slot: only an auto reference consumes.
pub open spec fn next_ctr(r: ArgRef, ctr: nat) -> nat {
    match r {
        ArgRef::Auto => ctr + 1,
        _ => ctr,
    }
}

/// What formatting the segments from index `i` on yields: the
/// concatenation of literal text and rendered slots, or the first error,
/// left to right. A reference to a missing argument is `MissingArgument`;
/// nothing is substituted silently.
pub open spec fn format_spec(segs: Seq<Segment>, args: Args, i: int, ctr: nat) -> Result<
    Seq<char>,
    FormatError,
>
    decreases segs.len() - i,
{
    if i < 0 || i >= segs.len() {
        Ok(Seq::<char>::empty())
    } else {
        match segs[i] {
            Segment::Lit(s) => match format_spec(segs, args, i + 1, ctr) {
                Ok(rest) => Ok(s@ + rest),
                Err(e) => Err(e),
            },
            Segment::Slot(r, req) => match resolve_ref(r, ctr, args) {
                None => Err(FormatError::MissingArgument),
                Some(val) => match render_spec(val, req, args) {
                    Err(e) => Err(e),
                    Ok(txt) => match format_spec(segs, args, i + 1, next_ctr(r, ctr)) {
                        Ok(rest) => Ok(txt + rest),
                        Err(e) => Err(e),
                    },
                },
            },
        }
    }
}

/// Renders a whole template against an argument table, as characters.
#[verifier::loop_isolation(false)]
#[verifier::rlimit(100)]
pub fn format_chars(segs: &Vec<Segment>, args: &Args) -> (r: Result<Vec<char>, FormatError>)
    requires
        args_wf(*args),
    ensures
        match r {
            Ok(s) => format_spec(segs@, *args, 0, 0) == Ok::<Seq<char>, FormatError>(s@),
            Err(e) => format_spec(segs@, *args, 0, 0) == Err::<Seq<char>, FormatError>(e),
        },
{
    let mut out: Vec<char> = Vec::new();
    let mut ctr: usize = 0;
    let mut i: usize = 0;
    while i < segs.len()
        invariant
            i <= segs@.len(),
            ctr <= i,
            format_spec(segs@, *args, i as int, ctr as nat) matches Ok(rest) ==> format_spec(
                segs@,
                *args,
                0,
                0,
            ) == Ok::<Seq<char>, FormatError>(out@ + rest),
            format_spec(segs@, *args, i as int, ctr as nat) matches Err(e) ==> format_spec(
                segs@,
                *args,
                0,
                0,
            ) == Err::<Seq<char>, FormatError>(e),
        decreases segs@.len() - i,
    {
        let ghost pre = out@;
        match &segs[i] {
            Segment::Lit(s) => {
                crate::render::push_string(s, &mut out);
                proof {
                    let rem = format_spec(segs@, *args, i + 1, ctr as nat);
                    if rem is Ok {
                        assert(pre + (s@ + rem->Ok_0) =~= out@ + rem->Ok_0);
                    }
                }
            },
            Segment::Slot(r, req) => {
                let picked: Option<&Value> = match r {
                    ArgRef::Auto => {
                        if ctr < args.positional.len() {
                            let vv = &args.positional[ctr];
                            proof {
                                assert(value_wf(args.positional@[ctr as int]));
                            }
                            Some(vv)
                        } else {
                            None
                        }
                    },
                    ArgRef::Pos(p) => {
                        if *p < args.positional.len() {
                            let vv = &args.positional[*p];
                            proof {
                                assert(value_wf(args.positional@[*p as int]));
                            }
                            Some(vv)
                        } else {
                            None
                        }
                    },
                    ArgRef::Named(nm) => {
                        let found = lookup_named_exec(&args.named, nm);
                        proof {
                            lemma_lookup_named_wf(args.named@, nm@);
                        }
                        found
                    },
                };
                let val = match picked {
                    Some(v) => v,
                    None => {
                        return Err(FormatError::MissingArgument);
                    },
                };
                proof {
                    assert(resolve_ref(segs@[i as int]->Slot_0, ctr as nat, *args) == Some(*val));
                    assert(value_wf(*val));
                }
                match render_chars(val, req, args) {
                    Ok(txt) => {
                        crate::layout::append_all(&txt, &mut out);
                        proof {
                            let c2 = next_ctr(segs@[i as int]->Slot_0, ctr as nat);
                            let rem = format_spec(segs@, *args, i + 1, c2);
                            if rem is Ok {
                                assert(pre + (txt@ + rem->Ok_0) =~= out@ + rem->Ok_0);
                            }
                        }
                        if matches!(r, ArgRef::Auto) {
                            ctr += 1;
                        }
                    },
                    Err(e) => {
                        return Err(e);
                    },
                }
            },
        }
        i += 1;
    }
    proof {
        assert(format_spec(segs@, *args, i as int, ctr as nat) matches Ok(rest) && rest
            == Seq::<char>::empty());
        assert(out@ + Seq::<char>::empty() =~= out@);
    }
    Ok(out)
}

/// A value found by name in a well-formed table is well formed.
proof fn lemma_lookup_named_wf(named: Seq<(String, Value)>, name: Seq<char>)
    requires
        forall|i: int| 0 <= i < named.len() ==> value_wf(#[trigger] named[i].1),
    ensures
        lookup_named(named, name) matches Some(v) ==> value_wf(v),
    decreases named.len(),
{
    if named.len() > 0 && named[0].0@ != name {
        assert(forall|i: int|
            0 <= i < named.drop_first().len() ==> value_wf(
                #[trigger] named.drop_first()[i].1,
            )) by {
            assert(forall|i: int|
                0 <= i < named.drop_first().len() ==> named.drop_first()[i] == named[i + 1]);
        }
        lemma_lookup_named_wf(named.drop_first(), name);
    }
}

/// Relies on `String`'s `FromIterator<char>` implementation: collecting
/// characters yields the string of exactly those characters in order.
#[verifier::external_body]
fn string_of(chars: Vec<char>) -> (r: String)
    ensures
        r@ == chars@,
{
    chars.into_iter().collect()
}

/// Renders one value under a layout request, resolving indirect width and
/// precision against the argument table. The result is exactly
/// `render_spec`: the laid-out text, or the first error in resolution
/// order, with nothing substituted on failure.
pub fn render(v: &Value, req: &Request, args: &Args) -> (r: Result<String, FormatError>)
    requires
        value_wf(*v),
    ensures
        match r {
            Ok(s) => render_spec(*v, *req, *args) == Ok::<Seq<char>, FormatError>(s@),
            Err(e) => render_spec(*v, *req, *args) == Err::<Seq<char>, FormatError>(e),
        },
{
    match render_chars(v, req, args) {
        Ok(chars) => Ok(string_of(chars)),
        Err(e) => Err(e),
    }
}

/// Renders a whole template against an argument table. The result is
/// exactly `format_spec` over the segments: every slot substituted under
/// its own request, or the first error, with no partial output.
pub fn format_segments(segs: &Vec<Segment>, args: &Args) -> (r: Result<String, FormatError>)
    requires
        args_wf(*args),
    ensures
        match r {
            Ok(s) => format_spec(segs@, *args, 0, 0) == Ok::<Seq<char>, FormatError>(s@),
            Err(e) => format_spec(segs@, *args, 0, 0) == Err::<Seq<char>, FormatError>(e),
        },
{
    match format_chars(segs, args) {
        Ok(chars) => Ok(string_of(chars)),
        Err(e) => Err(e),
    }
}



/// Zero-padded rendering through the engine: an integer under the plain
/// convention, a literal width and the zero flag renders to exactly the
/// sign-aware zero-padded plain text (see `lemma_zero_pad_int` for its
/// length and sign-position guarantees).
pub proof fn lemma_render_zero_pad(n: i64, w: usize, args: Args)
    ensures
        render_spec(
            Value::Int(n),
            (Request {
                conv: Convention::Plain,
                width: Some(Amount::Lit(w)),
                precision: None::<Amount>,
                align: None::<crate::layout::Align>,
                fill: ' ',
                zero: true,
            }),
            args,
        ) == Ok::<Seq<char>, FormatError>(
            zero_pad_chars(crate::numeric::int_chars(n as int), w as nat),
        ),
{
}



/// Zero-padded rendering of an integer `n` to width `w` succeeds, has
/// length `max(w, len(plain(n)))`, keeps a sign (if any) as its first
/// character — never interior — and holds decimal digits everywhere else.
pub proof fn lemma_render_zero_pad_shape(n: i64, w: usize, args: Args)
    ensures
        ({
            let r = render_spec(
                Value::Int(n),
                (Request {
                    conv: Convention::Plain,
                    width: Some(Amount::Lit(w)),
                    precision: None::<Amount>,
                    align: None::<crate::layout::Align>,
                    fill: ' ',
                    zero: true,
                }),
                args,
            );
            let plain = crate::numeric::int_chars(n as int);
            &&& r matches Ok(s)
            &&& r->Ok_0.len() == if w >= plain.len() {
                w as nat
            } else {
                plain.len()
            }
            &&& n < 0 ==> r->Ok_0[0] == '-'
            &&& forall|i: int|
                (if n < 0 {
                    1int
                } else {
                    0int
                }) <= i < r->Ok_0.len() ==> crate::numeric::is_base_digit(
                    #[trigger] r->Ok_0[i],
                    10,
                )
        }),
{
    lemma_render_zero_pad(n, w, args);
    crate::layout::lemma_zero_pad_int(n, w as nat);
}


} // verus!
