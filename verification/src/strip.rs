//! The relation between pretty and plain debug rendering: stripped of all
//! whitespace, the pretty rendering is the plain structural template with
//! a trailing comma after the last field of every non-empty aggregate,
//! and nothing else differs. On values without fields the two stripped
//! forms coincide.

use vstd::prelude::*;
use crate::render::{
    colon_sp, comma_sp, debug_named_join, debug_of, debug_tuple_join, indent, pretty_named_join,
    pretty_of, pretty_tuple_join,
};
use crate::value::{Field, Value};

verus! {

/// The whitespace that layout inserts: spaces and newlines.
pub open spec fn is_ws(c: char) -> bool {
    c == ' ' || c == '\n'
}

/// `s` with every space and newline removed.
pub open spec fn strip_ws(s: Seq<char>) -> Seq<char>
    decreases s.len(),
{
    if s.len() == 0 {
        Seq::<char>::empty()
    } else if is_ws(s[0]) {
        strip_ws(s.drop_first())
    } else {
        seq![s[0]] + strip_ws(s.drop_first())
    }
}

proof fn lemma_strip_ws_add(a: Seq<char>, b: Seq<char>)
    ensures
        strip_ws(a + b) == strip_ws(a) + strip_ws(b),
    decreases a.len(),
{
    if a.len() == 0 {
        assert(a + b =~= b);
        assert(Seq::<char>::empty() + strip_ws(b) =~= strip_ws(b));
    } else {
        assert((a + b).drop_first() =~= a.drop_first() + b);
        assert((a + b)[0] == a[0]);
        lemma_strip_ws_add(a.drop_first(), b);
        if !is_ws(a[0]) {
            assert(seq![a[0]] + (strip_ws(a.drop_first()) + strip_ws(b)) =~= (seq![a[0]]
                + strip_ws(a.drop_first())) + strip_ws(b));
        }
    }
}

proof fn lemma_strip_ws_all(s: Seq<char>)
    requires
        forall|i: int| 0 <= i < s.len() ==> is_ws(#[trigger] s[i]),
    ensures
        strip_ws(s) == Seq::<char>::empty(),
    decreases s.len(),
{
    if s.len() > 0 {
        lemma_strip_ws_all(s.drop_first());
    }
}

proof fn lemma_strip_one(c: char)
    ensures
        strip_ws(seq![c]) == if is_ws(c) {
            Seq::<char>::empty()
        } else {
            seq![c]
        },
{
    assert(seq![c].drop_first() =~= Seq::<char>::empty());
    assert(strip_ws(Seq::<char>::empty()) == Seq::<char>::empty());
    assert(strip_ws(seq![c].drop_first()) == Seq::<char>::empty());
    if !is_ws(c) {
        assert(seq![c] + Seq::<char>::empty() =~= seq![c]);
    }
}

proof fn lemma_strip_pair(a: char, b: char)
    requires
        is_ws(a),
        !is_ws(b),
    ensures
        strip_ws(seq![a, b]) == seq![b],
        strip_ws(seq![b, a]) == seq![b],
{
    assert(seq![a, b] =~= seq![a] + seq![b]);
    assert(seq![b, a] =~= seq![b] + seq![a]);
    lemma_strip_ws_add(seq![a], seq![b]);
    lemma_strip_ws_add(seq![b], seq![a]);
    lemma_strip_one(a);
    lemma_strip_one(b);
    assert(Seq::<char>::empty() + seq![b] =~= seq![b]);
    assert(seq![b] + Seq::<char>::empty() =~= seq![b]);
}

proof fn lemma_strip_triple(a: char, b: char, c: char)
    requires
        is_ws(a),
        !is_ws(b),
        is_ws(c),
    ensures
        strip_ws(seq![a, b, c]) == seq![b],
{
    assert(seq![a, b, c] =~= seq![a, b] + seq![c]);
    lemma_strip_ws_add(seq![a, b], seq![c]);
    lemma_strip_pair(a, b);
    lemma_strip_one(c);
    assert(seq![b] + Seq::<char>::empty() =~= seq![b]);
}

/// The pretty rendering with its whitespace removed, written structurally:
/// the debug template, but with a comma after every field, the last
/// included.
pub open spec fn stripped_pretty(v: Value) -> Seq<char>
    decreases v,
{
    match v {
        Value::Record(a) => if a.fields@.len() == 0 {
            strip_ws(a.name@)
        } else {
            strip_ws(a.name@) + seq!['{'] + pretty_fields_named(a.fields@, 0) + seq!['}']
        },
        Value::Tuple(a) => if a.fields@.len() == 0 {
            strip_ws(a.name@)
        } else {
            strip_ws(a.name@) + seq!['('] + pretty_fields_tuple(a.fields@, 0) + seq![')']
        },
        _ => strip_ws(debug_of(v)),
    }
}

pub open spec fn pretty_fields_named(fs: Seq<Field>, i: int) -> Seq<char>
    decreases fs, fs.len() - i,
{
    if i < 0 || i >= fs.len() {
        Seq::<char>::empty()
    } else {
        strip_ws(fs[i].label@) + seq![':'] + stripped_pretty(fs[i].value) + seq![',']
            + pretty_fields_named(fs, i + 1)
    }
}

pub open spec fn pretty_fields_tuple(fs: Seq<Field>, i: int) -> Seq<char>
    decreases fs, fs.len() - i,
{
    if i < 0 || i >= fs.len() {
        Seq::<char>::empty()
    } else {
        stripped_pretty(fs[i].value) + seq![','] + pretty_fields_tuple(fs, i + 1)
    }
}

/// The plain debug rendering with its whitespace removed, written
/// structurally: the same template as `stripped_pretty`, without the
/// trailing comma after the last field.
pub open spec fn stripped_debug(v: Value) -> Seq<char>
    decreases v,
{
    match v {
        Value::Record(a) => if a.fields@.len() == 0 {
            strip_ws(a.name@)
        } else {
            strip_ws(a.name@) + seq!['{'] + debug_fields_named(a.fields@, 0) + seq!['}']
        },
        Value::Tuple(a) => if a.fields@.len() == 0 {
            strip_ws(a.name@)
        } else {
            strip_ws(a.name@) + seq!['('] + debug_fields_tuple(a.fields@, 0) + seq![')']
        },
        _ => strip_ws(debug_of(v)),
    }
}

pub open spec fn debug_fields_named(fs: Seq<Field>, i: int) -> Seq<char>
    decreases fs, fs.len() - i,
{
    if i < 0 || i >= fs.len() {
        Seq::<char>::empty()
    } else if i == fs.len() - 1 {
        strip_ws(fs[i].label@) + seq![':'] + stripped_debug(fs[i].value)
    } else {
        strip_ws(fs[i].label@) + seq![':'] + stripped_debug(fs[i].value) + seq![',']
            + debug_fields_named(fs, i + 1)
    }
}

pub open spec fn debug_fields_tuple(fs: Seq<Field>, i: int) -> Seq<char>
    decreases fs, fs.len() - i,
{
    if i < 0 || i >= fs.len() {
        Seq::<char>::empty()
    } else if i == fs.len() - 1 {
        stripped_debug(fs[i].value)
    } else {
        stripped_debug(fs[i].value) + seq![','] + debug_fields_tuple(fs, i + 1)
    }
}

/// Stripping the pretty rendering of every whitespace yields the
/// structural comma-terminated template, at every depth: pretty debug is
/// the same data as plain debug, laid out differently, up to the trailing
/// commas that `stripped_pretty` carries and `stripped_debug` does not.
pub proof fn lemma_pretty_strip(v: Value, d: nat)
    ensures
        strip_ws(pretty_of(v, d)) == stripped_pretty(v),
    decreases v,
{
    match v {
        Value::Record(a) => {
            if a.fields@.len() == 0 {
            } else {
                let fs = a.fields@;
                let name = a.name@;
                let open = seq![' ', '{', '\n'];
                let j = pretty_named_join(fs, 0, d + 1);
                let ind = indent(d);
                let close = seq!['}'];
                lemma_strip_ws_add(name + open + j + ind, close);
                lemma_strip_ws_add(name + open + j, ind);
                lemma_strip_ws_add(name + open, j);
                lemma_strip_ws_add(name, open);
                lemma_strip_triple(' ', '{', '\n');
                lemma_strip_ws_all(ind);
                lemma_strip_one('}');
                lemma_strip_pretty_named(fs, 0, d + 1);
                assert((strip_ws(name) + seq!['{'] + pretty_fields_named(fs, 0))
                    + Seq::<char>::empty() =~= strip_ws(name) + seq!['{'] + pretty_fields_named(
                    fs,
                    0,
                ));
            }
        },
        Value::Tuple(a) => {
            if a.fields@.len() == 0 {
            } else {
                let fs = a.fields@;
                let name = a.name@;
                let open = seq!['(', '\n'];
                let j = pretty_tuple_join(fs, 0, d + 1);
                let ind = indent(d);
                let close = seq![')'];
                lemma_strip_ws_add(name + open + j + ind, close);
                lemma_strip_ws_add(name + open + j, ind);
                lemma_strip_ws_add(name + open, j);
                lemma_strip_ws_add(name, open);
                lemma_strip_pair('\n', '(');
                lemma_strip_ws_all(ind);
                lemma_strip_one(')');
                lemma_strip_pretty_tuple(fs, 0, d + 1);
                assert((strip_ws(name) + seq!['('] + pretty_fields_tuple(fs, 0))
                    + Seq::<char>::empty() =~= strip_ws(name) + seq!['('] + pretty_fields_tuple(
                    fs,
                    0,
                ));
            }
        },
        _ => {},
    }
}

proof fn lemma_strip_pretty_named(fs: Seq<Field>, i: int, d: nat)
    ensures
        strip_ws(pretty_named_join(fs, i, d)) == pretty_fields_named(fs, i),
    decreases fs, fs.len() - i,
{
    if 0 <= i < fs.len() {
        let ind = indent(d);
        let label = fs[i].label@;
        let pv = pretty_of(fs[i].value, d);
        let sep = seq![',', '\n'];
        let rest = pretty_named_join(fs, i + 1, d);
        lemma_strip_ws_add(ind + label + colon_sp() + pv + sep, rest);
        lemma_strip_ws_add(ind + label + colon_sp() + pv, sep);
        lemma_strip_ws_add(ind + label + colon_sp(), pv);
        lemma_strip_ws_add(ind + label, colon_sp());
        lemma_strip_ws_add(ind, label);
        lemma_strip_ws_all(ind);
        lemma_strip_pair(' ', ':');
        lemma_strip_pair('\n', ',');
        lemma_pretty_strip(fs[i].value, d);
        lemma_strip_pretty_named(fs, i + 1, d);
        assert(Seq::<char>::empty() + strip_ws(label) =~= strip_ws(label));
    }
}

proof fn lemma_strip_pretty_tuple(fs: Seq<Field>, i: int, d: nat)
    ensures
        strip_ws(pretty_tuple_join(fs, i, d)) == pretty_fields_tuple(fs, i),
    decreases fs, fs.len() - i,
{
    if 0 <= i < fs.len() {
        let ind = indent(d);
        let pv = pretty_of(fs[i].value, d);
        let sep = seq![',', '\n'];
        let rest = pretty_tuple_join(fs, i + 1, d);
        lemma_strip_ws_add(ind + pv + sep, rest);
        lemma_strip_ws_add(ind + pv, sep);
        lemma_strip_ws_add(ind, pv);
        lemma_strip_ws_all(ind);
        lemma_strip_pair('\n', ',');
        lemma_pretty_strip(fs[i].value, d);
        lemma_strip_pretty_tuple(fs, i + 1, d);
        assert(Seq::<char>::empty() + strip_ws(pv) =~= strip_ws(pv));
    }
}

/// Stripping the plain debug rendering of every whitespace yields the
/// structural template without trailing commas.
pub proof fn lemma_debug_strip(v: Value)
    ensures
        strip_ws(debug_of(v)) == stripped_debug(v),
    decreases v,
{
    match v {
        Value::Record(a) => {
            if a.fields@.len() == 0 {
            } else {
                let fs = a.fields@;
                let name = a.name@;
                let open = seq![' ', '{', ' '];
                let j = debug_named_join(fs, 0);
                let close = seq![' ', '}'];
                lemma_strip_ws_add(name + open + j, close);
                lemma_strip_ws_add(name + open, j);
                lemma_strip_ws_add(name, open);
                lemma_strip_triple(' ', '{', ' ');
                lemma_strip_pair(' ', '}');
                lemma_strip_debug_named(fs, 0);
            }
        },
        Value::Tuple(a) => {
            if a.fields@.len() == 0 {
            } else {
                let fs = a.fields@;
                let name = a.name@;
                let j = debug_tuple_join(fs, 0);
                lemma_strip_ws_add(name + seq!['('] + j, seq![')']);
                lemma_strip_ws_add(name + seq!['('], j);
                lemma_strip_ws_add(name, seq!['(']);
                lemma_strip_one('(');
                lemma_strip_one(')');
                lemma_strip_debug_tuple(fs, 0);
            }
        },
        _ => {},
    }
}

proof fn lemma_strip_debug_named(fs: Seq<Field>, i: int)
    ensures
        strip_ws(debug_named_join(fs, i)) == debug_fields_named(fs, i),
    decreases fs, fs.len() - i,
{
    if 0 <= i < fs.len() {
        let label = fs[i].label@;
        let dv = debug_of(fs[i].value);
        lemma_strip_ws_add(label, colon_sp());
        lemma_strip_ws_add(label + colon_sp(), dv);
        lemma_strip_pair(' ', ':');
        lemma_strip_pair(' ', ',');
        lemma_debug_strip(fs[i].value);
        if i < fs.len() - 1 {
            let rest = debug_named_join(fs, i + 1);
            lemma_strip_ws_add(label + colon_sp() + dv + comma_sp(), rest);
            lemma_strip_ws_add(label + colon_sp() + dv, comma_sp());
            lemma_strip_debug_named(fs, i + 1);
        }
    }
}

proof fn lemma_strip_debug_tuple(fs: Seq<Field>, i: int)
    ensures
        strip_ws(debug_tuple_join(fs, i)) == debug_fields_tuple(fs, i),
    decreases fs, fs.len() - i,
{
    if 0 <= i < fs.len() {
        let dv = debug_of(fs[i].value);
        lemma_strip_pair(' ', ',');
        lemma_debug_strip(fs[i].value);
        if i < fs.len() - 1 {
            let rest = debug_tuple_join(fs, i + 1);
            lemma_strip_ws_add(dv + comma_sp(), rest);
            lemma_strip_ws_add(dv, comma_sp());
            lemma_strip_debug_tuple(fs, i + 1);
        }
    }
}

/// On a value without fields the two stripped forms coincide: only a
/// field's trailing comma ever distinguishes them.
pub proof fn lemma_strip_agree_no_fields(v: Value)
    requires
        match v {
            Value::Record(a) => a.fields@.len() == 0,
            Value::Tuple(a) => a.fields@.len() == 0,
            _ => true,
        },
    ensures
        stripped_pretty(v) == stripped_debug(v),
{
}

} // verus!
