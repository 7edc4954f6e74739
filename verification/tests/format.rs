use textfmt::engine::{render, format_segments, Amount, ArgRef, Args, FormatError, Request, Segment};
use textfmt::layout::Align;
use textfmt::value::{Aggregate, Convention, Decimal, Field, Style, Value};

fn bare(conv: Convention) -> Request {
    Request { conv, width: None, precision: None, align: None, fill: ' ', zero: false }
}

fn num(neg: bool, whole: u64, frac: &[u8]) -> Value {
    Value::Num(Decimal { neg, whole, frac: frac.to_vec() })
}

fn field(label: &str, value: Value) -> Field {
    Field { label: label.to_string(), value }
}

fn color(r: i64, g: i64, b: i64) -> Value {
    Value::Record(Aggregate {
        name: "Color".to_string(),
        fields: vec![
            field("red", Value::Int(r)),
            field("green", Value::Int(g)),
            field("blue", Value::Int(b)),
        ],
        style: Style::Separated,
        hex: true,
    })
}

fn point2d(x: Value, y: Value) -> Value {
    Value::Record(Aggregate {
        name: "Point2D".to_string(),
        fields: vec![field("x", x), field("y", y)],
        style: Style::Labelled,
        hex: false,
    })
}

#[test]
fn plain_integer() {
    let r = render(&Value::Int(31), &bare(Convention::Plain), &Args::none());
    assert_eq!(r.unwrap(), "31");
}

#[test]
fn width_right_aligned() {
    let mut req = bare(Convention::Plain);
    req.width = Some(Amount::Lit(6));
    req.align = Some(Align::Right);
    let r = render(&Value::Int(1), &req, &Args::none());
    assert_eq!(r.unwrap(), "     1");
}

#[test]
fn width_right_is_numeric_default() {
    let mut req = bare(Convention::Plain);
    req.width = Some(Amount::Lit(6));
    let r = render(&Value::Int(1), &req, &Args::none());
    assert_eq!(r.unwrap(), "     1");
}

#[test]
fn width_zero_padded() {
    let mut req = bare(Convention::Plain);
    req.width = Some(Amount::Lit(6));
    req.zero = true;
    let r = render(&Value::Int(1), &req, &Args::none());
    assert_eq!(r.unwrap(), "000001");
}

#[test]
fn zero_pad_keeps_sign_first() {
    let mut req = bare(Convention::Plain);
    req.width = Some(Amount::Lit(4));
    req.zero = true;
    let r = render(&Value::Int(-5), &req, &Args::none());
    assert_eq!(r.unwrap(), "-005");
}

#[test]
fn zero_pad_length_is_max_of_width_and_plain() {
    let mut req = bare(Convention::Plain);
    req.width = Some(Amount::Lit(2));
    req.zero = true;
    let r = render(&Value::Int(-12345), &req, &Args::none());
    assert_eq!(r.unwrap(), "-12345");
}

#[test]
fn center_alignment_odd_padding_goes_right() {
    let mut req = bare(Convention::Plain);
    req.width = Some(Amount::Lit(5));
    req.align = Some(Align::Center);
    req.fill = '*';
    let r = render(&Value::Text("ab".to_string()), &req, &Args::none());
    assert_eq!(r.unwrap(), "*ab**");
}

#[test]
fn color_upper_hex() {
    let r = render(&color(128, 255, 90), &bare(Convention::UpperHex), &Args::none());
    assert_eq!(r.unwrap(), "80FF5A");
}

#[test]
fn color_lower_hex_with_leading_zeros() {
    let r = render(&color(0, 3, 254), &bare(Convention::LowerHex), &Args::none());
    assert_eq!(r.unwrap(), "0003fe");
}

#[test]
fn color_plain_lists_channels() {
    let r = render(&color(128, 255, 90), &bare(Convention::Plain), &Args::none());
    assert_eq!(r.unwrap(), "128, 255, 90");
}

#[test]
fn point2d_custom_plain_template() {
    let p = point2d(num(false, 3, &[3]), num(false, 7, &[2]));
    let r = render(&p, &bare(Convention::Plain), &Args::none());
    assert_eq!(r.unwrap(), "x: 3.3, y: 7.2");
}

#[test]
fn point2d_debug_template() {
    let p = point2d(num(false, 3, &[3]), num(false, 7, &[2]));
    let r = render(&p, &bare(Convention::Debug), &Args::none());
    assert_eq!(r.unwrap(), "Point2D { x: 3.3, y: 7.2 }");
}

#[test]
fn list_indexed_plain_template() {
    let list = Value::Tuple(Aggregate {
        name: "List".to_string(),
        fields: vec![
            field("", Value::Int(1)),
            field("", Value::Int(2)),
            field("", Value::Int(3)),
        ],
        style: Style::Indexed,
        hex: false,
    });
    let r = render(&list, &bare(Convention::Plain), &Args::none());
    assert_eq!(r.unwrap(), "[0: 1, 1: 2, 2: 3]");
}

#[test]
fn minmax_paren_plain_and_debug() {
    let mm = Value::Tuple(Aggregate {
        name: "MinMax".to_string(),
        fields: vec![field("", Value::Int(0)), field("", Value::Int(14))],
        style: Style::Paren,
        hex: false,
    });
    assert_eq!(render(&mm, &bare(Convention::Plain), &Args::none()).unwrap(), "(0, 14)");
    assert_eq!(render(&mm, &bare(Convention::Debug), &Args::none()).unwrap(), "MinMax(0, 14)");
}

#[test]
fn city_coordinate_rounds_to_three_decimals() {
    let dublin = Value::Record(Aggregate {
        name: "City".to_string(),
        fields: vec![
            field("name", Value::Text("Dublin".to_string())),
            field("lat", num(false, 53, &[3, 4, 7, 7, 7, 8])),
            field("lon", num(true, 6, &[2, 5, 9, 7, 2, 2])),
        ],
        style: Style::Coordinate,
        hex: false,
    });
    let r = render(&dublin, &bare(Convention::Plain), &Args::none());
    assert_eq!(r.unwrap(), "Dublin: 53.348°N 6.260°W");
}

#[test]
fn city_coordinate_pads_short_fractions() {
    let oslo = Value::Record(Aggregate {
        name: "City".to_string(),
        fields: vec![
            field("name", Value::Text("Oslo".to_string())),
            field("lat", num(false, 59, &[9, 5])),
            field("lon", num(false, 10, &[7, 5])),
        ],
        style: Style::Coordinate,
        hex: false,
    });
    let r = render(&oslo, &bare(Convention::Plain), &Args::none());
    assert_eq!(r.unwrap(), "Oslo: 59.950°N 10.750°E");
}

#[test]
fn nested_tuple_debug() {
    let deep = Value::Tuple(Aggregate {
        name: "Deep".to_string(),
        fields: vec![field(
            "",
            Value::Tuple(Aggregate {
                name: "Structure".to_string(),
                fields: vec![field("", Value::Int(7))],
                style: Style::Opaque,
                hex: false,
            }),
        )],
        style: Style::Opaque,
        hex: false,
    });
    let r = render(&deep, &bare(Convention::Debug), &Args::none());
    assert_eq!(r.unwrap(), "Deep(Structure(7))");
}

#[test]
fn pretty_debug_one_field_per_line() {
    let peter = Value::Record(Aggregate {
        name: "Person".to_string(),
        fields: vec![
            field("name", Value::Text("Peter".to_string())),
            field("age", Value::Int(27)),
        ],
        style: Style::Opaque,
        hex: false,
    });
    let r = render(&peter, &bare(Convention::Pretty), &Args::none());
    assert_eq!(r.unwrap(), "Person {\n    name: \"Peter\",\n    age: 27,\n}");
}

#[test]
fn pretty_nested_indentation_grows() {
    let rect = Value::Record(Aggregate {
        name: "Rectangle".to_string(),
        fields: vec![field(
            "p1",
            Value::Record(Aggregate {
                name: "Point".to_string(),
                fields: vec![field("x", num(false, 10, &[3]))],
                style: Style::Opaque,
                hex: false,
            }),
        )],
        style: Style::Opaque,
        hex: false,
    });
    let r = render(&rect, &bare(Convention::Pretty), &Args::none()).unwrap();
    assert_eq!(r, "Rectangle {\n    p1: Point {\n        x: 10.3,\n    },\n}");
}

#[test]
fn pretty_stripped_matches_debug_up_to_trailing_commas() {
    let p = point2d(num(false, 3, &[3]), num(false, 7, &[2]));
    let pretty = render(&p, &bare(Convention::Pretty), &Args::none()).unwrap();
    let debug = render(&p, &bare(Convention::Debug), &Args::none()).unwrap();
    let stripped: String = pretty.chars().filter(|c| *c != ' ' && *c != '\n').collect();
    let debug_stripped: String = debug.chars().filter(|c| *c != ' ' && *c != '\n').collect();
    assert_eq!(stripped, "Point2D{x:3.3,y:7.2,}");
    assert_eq!(debug_stripped, "Point2D{x:3.3,y:7.2}");
}

#[test]
fn pretty_equals_debug_for_primitives() {
    for v in [Value::Int(-42), num(true, 0, &[5]), Value::Text("a b".to_string())] {
        let pretty = render(&v, &bare(Convention::Pretty), &Args::none()).unwrap();
        let debug = render(&v, &bare(Convention::Debug), &Args::none()).unwrap();
        assert_eq!(pretty, debug);
    }
}

#[test]
fn binary_of_two() {
    let r = render(&Value::Int(2), &bare(Convention::Binary), &Args::none());
    assert_eq!(r.unwrap(), "10");
}

#[test]
fn negative_renders_as_bit_pattern_in_hex() {
    let r = render(&Value::Int(-1), &bare(Convention::LowerHex), &Args::none());
    assert_eq!(r.unwrap(), "ffffffffffffffff");
}

#[test]
fn unsupported_convention_is_an_error_not_empty() {
    let r = render(&Value::Text("x".to_string()), &bare(Convention::Binary), &Args::none());
    assert_eq!(r.unwrap_err(), FormatError::UnsupportedConvention);
    let opaque = Value::Record(Aggregate {
        name: "Opaque".to_string(),
        fields: vec![field("a", Value::Int(1))],
        style: Style::Opaque,
        hex: false,
    });
    let r = render(&opaque, &bare(Convention::Plain), &Args::none());
    assert_eq!(r.unwrap_err(), FormatError::UnsupportedConvention);
    let r = render(&num(false, 1, &[5]), &bare(Convention::Octal), &Args::none());
    assert_eq!(r.unwrap_err(), FormatError::UnsupportedConvention);
}

#[test]
fn indirect_width_resolves_through_named_argument() {
    let args = Args {
        positional: vec![],
        named: vec![("width".to_string(), Value::Int(6))],
    };
    let mut req = bare(Convention::Plain);
    req.width = Some(Amount::Named("width".to_string()));
    let r = render(&Value::Int(1), &req, &args);
    assert_eq!(r.unwrap(), "     1");
}

#[test]
fn indirect_width_missing_argument() {
    let mut req = bare(Convention::Plain);
    req.width = Some(Amount::Named("width".to_string()));
    let r = render(&Value::Int(1), &req, &Args::none());
    assert_eq!(r.unwrap_err(), FormatError::MissingArgument);
}

#[test]
fn indirect_width_must_be_a_non_negative_integer() {
    let args = Args {
        positional: vec![Value::Text("six".to_string()), Value::Int(-2)],
        named: vec![],
    };
    let mut req = bare(Convention::Plain);
    req.width = Some(Amount::Pos(0));
    assert_eq!(
        render(&Value::Int(1), &req, &args).unwrap_err(),
        FormatError::InvalidIndirectWidthOrPrecision
    );
    req.width = Some(Amount::Pos(1));
    assert_eq!(
        render(&Value::Int(1), &req, &args).unwrap_err(),
        FormatError::InvalidIndirectWidthOrPrecision
    );
}

#[test]
fn precision_rounds_decimals_half_up() {
    let mut req = bare(Convention::Plain);
    req.precision = Some(Amount::Lit(3));
    let r = render(&num(false, 59, &[9, 5]), &req, &Args::none());
    assert_eq!(r.unwrap(), "59.950");
    let r = render(&num(false, 6, &[2, 5, 9, 7, 2, 2]), &req, &Args::none());
    assert_eq!(r.unwrap(), "6.260");
    req.precision = Some(Amount::Lit(0));
    let r = render(&num(false, 0, &[7]), &req, &Args::none());
    assert_eq!(r.unwrap(), "1");
}

#[test]
fn precision_truncates_text_by_characters() {
    let mut req = bare(Convention::Plain);
    req.precision = Some(Amount::Lit(3));
    let r = render(&Value::Text("hello".to_string()), &req, &Args::none());
    assert_eq!(r.unwrap(), "hel");
    let r = render(&Value::Text("hé".to_string()), &req, &Args::none());
    assert_eq!(r.unwrap(), "hé");
}

#[test]
fn template_positional_reuse() {
    let segs = vec![
        Segment::Slot(ArgRef::Pos(0), bare(Convention::Plain)),
        Segment::Lit(", this is ".to_string()),
        Segment::Slot(ArgRef::Pos(1), bare(Convention::Plain)),
        Segment::Lit(". ".to_string()),
        Segment::Slot(ArgRef::Pos(1), bare(Convention::Plain)),
        Segment::Lit(", this is ".to_string()),
        Segment::Slot(ArgRef::Pos(0), bare(Convention::Plain)),
    ];
    let args = Args {
        positional: vec![Value::Text("Alice".to_string()), Value::Text("Bob".to_string())],
        named: vec![],
    };
    let r = format_segments(&segs, &args);
    assert_eq!(r.unwrap(), "Alice, this is Bob. Bob, this is Alice");
}

#[test]
fn template_auto_slots_consume_left_to_right() {
    let segs = vec![
        Segment::Slot(ArgRef::Auto, bare(Convention::Plain)),
        Segment::Lit(" of ".to_string()),
        Segment::Slot(ArgRef::Auto, bare(Convention::Binary)),
        Segment::Lit(" people know binary, the other half doesn't".to_string()),
    ];
    let args = Args { positional: vec![Value::Int(1), Value::Int(2)], named: vec![] };
    let r = format_segments(&segs, &args);
    assert_eq!(r.unwrap(), "1 of 10 people know binary, the other half doesn't");
}

#[test]
fn template_named_arguments() {
    let segs = vec![
        Segment::Slot(ArgRef::Named("subject".to_string()), bare(Convention::Plain)),
        Segment::Lit(" ".to_string()),
        Segment::Slot(ArgRef::Named("verb".to_string()), bare(Convention::Plain)),
        Segment::Lit(" ".to_string()),
        Segment::Slot(ArgRef::Named("object".to_string()), bare(Convention::Plain)),
    ];
    let args = Args {
        positional: vec![],
        named: vec![
            ("object".to_string(), Value::Text("the lazy dog".to_string())),
            ("subject".to_string(), Value::Text("the quick brown fox".to_string())),
            ("verb".to_string(), Value::Text("jumps over".to_string())),
        ],
    };
    let r = format_segments(&segs, &args);
    assert_eq!(r.unwrap(), "the quick brown fox jumps over the lazy dog");
}

#[test]
fn template_missing_argument_is_an_error() {
    let segs = vec![
        Segment::Lit("My name is ".to_string()),
        Segment::Slot(ArgRef::Pos(0), bare(Convention::Plain)),
        Segment::Lit(", ".to_string()),
        Segment::Slot(ArgRef::Pos(1), bare(Convention::Plain)),
        Segment::Lit(" ".to_string()),
        Segment::Slot(ArgRef::Pos(0), bare(Convention::Plain)),
    ];
    let args = Args { positional: vec![Value::Text("Bond".to_string())], named: vec![] };
    assert_eq!(format_segments(&segs, &args).unwrap_err(), FormatError::MissingArgument);
}

#[test]
fn template_indirect_width_argument() {
    let mut req = bare(Convention::Plain);
    req.width = Some(Amount::Named("width".to_string()));
    req.zero = true;
    let segs = vec![Segment::Slot(ArgRef::Named("number".to_string()), req)];
    let args = Args {
        positional: vec![],
        named: vec![
            ("number".to_string(), Value::Int(1)),
            ("width".to_string(), Value::Int(6)),
        ],
    };
    assert_eq!(format_segments(&segs, &args).unwrap(), "000001");
}

#[test]
fn text_debug_is_quoted() {
    let r = render(&Value::Text("Slater".to_string()), &bare(Convention::Debug), &Args::none());
    assert_eq!(r.unwrap(), "\"Slater\"");
}

#[test]
fn fieldless_aggregate_debug_is_its_name() {
    let unit = Value::Record(Aggregate {
        name: "Unit".to_string(),
        fields: vec![],
        style: Style::Opaque,
        hex: false,
    });
    let r = render(&unit, &bare(Convention::Debug), &Args::none());
    assert_eq!(r.unwrap(), "Unit");
}

#[test]
fn parse_round_trips_the_rendered_bit_pattern() {
    for (n, base, conv) in [
        (31i64, 2u64, Convention::Binary),
        (-300, 8, Convention::Octal),
        (0, 16, Convention::LowerHex),
        (-1, 16, Convention::UpperHex),
        (i64::MAX, 2, Convention::Binary),
        (i64::MIN, 16, Convention::LowerHex),
    ] {
        let rendered = render(&Value::Int(n), &bare(conv), &Args::none()).unwrap();
        let chars: Vec<char> = rendered.chars().collect();
        let parsed = textfmt::numeric::parse_base(&chars, base).unwrap();
        assert_eq!(parsed, n as u64);
    }
}

#[test]
fn parse_rejects_bad_digits_empty_and_overflow() {
    let empty: Vec<char> = vec![];
    assert_eq!(textfmt::numeric::parse_base(&empty, 16), None);
    let bad: Vec<char> = "12g".chars().collect();
    assert_eq!(textfmt::numeric::parse_base(&bad, 16), None);
    let two: Vec<char> = "2".chars().collect();
    assert_eq!(textfmt::numeric::parse_base(&two, 2), None);
    let over: Vec<char> = "10000000000000000".chars().collect();
    assert_eq!(textfmt::numeric::parse_base(&over, 16), None);
    let max: Vec<char> = "ffffffffffffffff".chars().collect();
    assert_eq!(textfmt::numeric::parse_base(&max, 16), Some(u64::MAX));
}

#[test]
fn indirect_precision_resolves_through_positional_argument() {
    let mut req = bare(Convention::Plain);
    req.precision = Some(Amount::Pos(0));
    let args = Args { positional: vec![Value::Int(2)], named: vec![] };
    let r = render(&num(false, 3, &[1, 4, 1, 5, 9]), &req, &args);
    assert_eq!(r.unwrap(), "3.14");
}

#[test]
fn precision_is_ignored_for_integers() {
    let mut req = bare(Convention::Plain);
    req.precision = Some(Amount::Lit(2));
    let r = render(&Value::Int(31), &req, &Args::none());
    assert_eq!(r.unwrap(), "31");
}

#[test]
fn rounding_carries_through_nines_into_the_whole_part() {
    let mut req = bare(Convention::Plain);
    req.precision = Some(Amount::Lit(2));
    let r = render(&num(false, 1, &[9, 9, 6]), &req, &Args::none());
    assert_eq!(r.unwrap(), "2.00");
    let r = render(&num(true, 0, &[9, 9, 9]), &req, &Args::none());
    assert_eq!(r.unwrap(), "-1.00");
}
