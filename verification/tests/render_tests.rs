use minifmt::directive::RenderError;
use minifmt::render::render;
use minifmt::value::Value;

fn no_args() -> Vec<Value> {
    Vec::new()
}

fn no_named() -> Vec<(String, Value)> {
    Vec::new()
}

fn named(pairs: Vec<(&str, Value)>) -> Vec<(String, Value)> {
    pairs.into_iter().map(|(k, v)| (String::from(k), v)).collect()
}

#[test]
fn literal_round_trip_collapses_braces() {
    let out = render("a {{b}} c", &no_args(), &no_named()).unwrap();
    assert_eq!(out, "a {b} c");
}

#[test]
fn literal_only_template_unchanged() {
    let out = render("Hello, world!", &no_args(), &no_named()).unwrap();
    assert_eq!(out, "Hello, world!");
}

#[test]
fn implicit_argument() {
    let out = render("{} days", &vec![Value::Int(31)], &no_named()).unwrap();
    assert_eq!(out, "31 days");
}

#[test]
fn positional_arguments() {
    let args = vec![
        Value::Text(String::from("Alice")),
        Value::Text(String::from("Bob")),
    ];
    let out = render("{0}, this is {1}. {1}, this is {0}", &args, &no_named()).unwrap();
    assert_eq!(out, "Alice, this is Bob. Bob, this is Alice");
}

#[test]
fn named_arguments() {
    let nm = named(vec![
        ("object", Value::Text(String::from("the lazy dog"))),
        ("subject", Value::Text(String::from("the quick brown fox"))),
        ("verb", Value::Text(String::from("jumps over"))),
    ]);
    let out = render("{subject} {verb} {object}", &no_args(), &nm).unwrap();
    assert_eq!(out, "the quick brown fox jumps over the lazy dog");
}

#[test]
fn radix_notations() {
    let args = vec![Value::Int(69420)];
    assert_eq!(render("{:b}", &args, &no_named()).unwrap(), "10000111100101100");
    assert_eq!(render("{:o}", &args, &no_named()).unwrap(), "207454");
    assert_eq!(render("{:x}", &args, &no_named()).unwrap(), "10f2c");
    assert_eq!(render("{:X}", &args, &no_named()).unwrap(), "10F2C");
    assert_eq!(render("{}", &args, &no_named()).unwrap(), "69420");
}

#[test]
fn width_fill_zero_pad_right() {
    let nm = named(vec![("number", Value::Int(1))]);
    assert_eq!(render("{number:05}", &no_args(), &nm).unwrap(), "00001");
    assert_eq!(render("{number:0>5}", &no_args(), &nm).unwrap(), "00001");
    assert_eq!(render("{number:>5}", &no_args(), &nm).unwrap(), "    1");
    assert_eq!(render("{number:0<5}", &no_args(), &nm).unwrap(), "10000");
}

#[test]
fn width_from_named_argument() {
    let nm = named(vec![("number", Value::Int(1)), ("width", Value::Int(5))]);
    assert_eq!(render("{number:0>width$}", &no_args(), &nm).unwrap(), "00001");
}

#[test]
fn center_alignment_extra_fill_goes_right() {
    let args = vec![Value::Text(String::from("ab"))];
    assert_eq!(render("{:^5}", &args, &no_named()).unwrap(), " ab  ");
}

#[test]
fn forced_sign() {
    let args = vec![Value::Int(31)];
    assert_eq!(render("{:+}", &args, &no_named()).unwrap(), "+31");
    let neg = vec![Value::Int(-31)];
    assert_eq!(render("{:+}", &neg, &no_named()).unwrap(), "-31");
}

#[test]
fn alternate_radix_prefixes() {
    assert_eq!(render("{:#x}", &vec![Value::Int(255)], &no_named()).unwrap(), "0xff");
    assert_eq!(render("{:#b}", &vec![Value::Int(5)], &no_named()).unwrap(), "0b101");
}

#[test]
fn zero_pad_goes_after_sign() {
    let args = vec![Value::Int(-7)];
    assert_eq!(render("{:05}", &args, &no_named()).unwrap(), "-0007");
}

#[test]
fn precision_from_named_argument_rounds_decimal() {
    // pi written as the fixed-point decimal 3.141592
    let nm = named(vec![
        ("prec", Value::Int(3)),
        ("pi", Value::Dec { neg: false, digits: 3141592, scale: 6 }),
    ]);
    assert_eq!(render("Pi is roughly {pi:.prec$}", &no_args(), &nm).unwrap(), "Pi is roughly 3.142");
}

#[test]
fn precision_round_half_to_even() {
    let half_down = vec![Value::Dec { neg: false, digits: 25, scale: 1 }];
    assert_eq!(render("{:.0}", &half_down, &no_named()).unwrap(), "2");
    let half_up = vec![Value::Dec { neg: false, digits: 35, scale: 1 }];
    assert_eq!(render("{:.0}", &half_up, &no_named()).unwrap(), "4");
}

#[test]
fn precision_truncates_text() {
    let args = vec![Value::Text(String::from("hello"))];
    assert_eq!(render("{:.3}", &args, &no_named()).unwrap(), "hel");
}

#[test]
fn precision_pads_decimal_with_zeros() {
    let args = vec![Value::Dec { neg: false, digits: 33, scale: 1 }];
    assert_eq!(render("{:.3}", &args, &no_named()).unwrap(), "3.300");
}

#[test]
fn missing_positional_argument_fails() {
    let args = vec![Value::Int(0), Value::Int(1)];
    let err = render("{2}", &args, &no_named()).unwrap_err();
    assert_eq!(err, RenderError::UnresolvedArgument);
}

#[test]
fn missing_named_argument_fails() {
    let err = render("{missing}", &no_args(), &no_named()).unwrap_err();
    assert_eq!(err, RenderError::UnresolvedArgument);
}

#[test]
fn record_has_no_display_capability() {
    let rec = Value::Record { name: String::from("Structure"), fields: Vec::new() };
    let err = render("{}", &vec![rec], &no_named()).unwrap_err();
    assert_eq!(err, RenderError::NoDisplayCapability);
}

#[test]
fn radix_on_text_is_unsupported() {
    let args = vec![Value::Text(String::from("ab"))];
    let err = render("{:x}", &args, &no_named()).unwrap_err();
    assert_eq!(err, RenderError::UnsupportedNotation);
}

#[test]
fn lone_closing_brace_is_a_parse_error() {
    let err = render("ab}cd", &no_args(), &no_named()).unwrap_err();
    assert_eq!(err, RenderError::ParseError { offset: 2 });
}

#[test]
fn truncated_placeholder_is_a_parse_error() {
    let err = render("ab{", &no_args(), &no_named()).unwrap_err();
    assert_eq!(err, RenderError::ParseError { offset: 3 });
}

#[test]
fn unknown_specifier_character_is_a_parse_error() {
    let err = render("{:z}", &no_args(), &no_named()).unwrap_err();
    assert_eq!(err, RenderError::ParseError { offset: 2 });
}

#[test]
fn first_failure_wins_and_nothing_partial_returns() {
    let args = vec![Value::Int(1)];
    let err = render("ok {0} then {5} end", &args, &no_named()).unwrap_err();
    assert_eq!(err, RenderError::UnresolvedArgument);
}

#[test]
fn explicit_positions_do_not_advance_the_implicit_cursor() {
    let args = vec![
        Value::Text(String::from("a")),
        Value::Text(String::from("b")),
    ];
    let out = render("{0} {} {0} {}", &args, &no_named()).unwrap();
    assert_eq!(out, "a a a b");
}

#[test]
fn missing_argument_example_from_the_source() {
    let args = vec![
        Value::Text(String::from("Bond")),
        Value::Text(String::from("James")),
    ];
    let out = render("My name is {0}, {1} {0}", &args, &no_named()).unwrap();
    assert_eq!(out, "My name is Bond, James Bond");
}

#[test]
fn color_line_mixes_decimal_and_zero_padded_hex() {
    let args = vec![Value::Int(128), Value::Int(255), Value::Int(90)];
    let out = render(
        "RBG ({0}, {1}, {2}) 0x{0:02X}{1:02X}{2:02X}",
        &args,
        &no_named(),
    )
    .unwrap();
    assert_eq!(out, "RBG (128, 255, 90) 0x80FF5A");
}

#[test]
fn debug_placeholder_renders_diagnostic() {
    let v = Value::Wrapper {
        name: String::from("Structure"),
        inner: Box::new(Value::Int(3)),
    };
    let out = render("Now {:?} will print!", &vec![v], &no_named()).unwrap();
    assert_eq!(out, "Now Structure(3) will print!");
}

#[test]
fn pretty_debug_placeholder_renders_indented() {
    let v = Value::Record {
        name: String::from("Person"),
        fields: vec![
            (String::from("name"), Value::Text(String::from("Peter"))),
            (String::from("age"), Value::Int(27)),
        ],
    };
    let out = render("{:#?}", &vec![v], &no_named()).unwrap();
    assert_eq!(out, "Person {\n    name: \"Peter\",\n    age: 27,\n}");
}

#[test]
fn custom_fill_character_with_center() {
    let args = vec![Value::Text(String::from("mid"))];
    assert_eq!(render("{:*^7}", &args, &no_named()).unwrap(), "**mid**");
}

#[test]
fn default_alignment_left_for_text_right_for_numbers() {
    assert_eq!(
        render("{:4}", &vec![Value::Text(String::from("ab"))], &no_named()).unwrap(),
        "ab  "
    );
    assert_eq!(render("{:4}", &vec![Value::Int(7)], &no_named()).unwrap(), "   7");
}

#[test]
fn pretty_debug_of_sequence_indents_elements() {
    let v = Value::Sequence {
        elems: vec![Value::Int(1), Value::Int(2)],
    };
    let out = render("{:#?}", &vec![v], &no_named()).unwrap();
    assert_eq!(out, "[\n    1,\n    2,\n]");
}

#[test]
fn nested_record_pretty_indentation_is_additive() {
    let v = Value::Record {
        name: String::from("Outer"),
        fields: vec![(
            String::from("inner"),
            Value::Record {
                name: String::from("Pair"),
                fields: vec![
                    (String::from("a"), Value::Int(1)),
                    (String::from("b"), Value::Int(2)),
                ],
            },
        )],
    };
    let out = render("{:#?}", &vec![v], &no_named()).unwrap();
    assert_eq!(
        out,
        "Outer {\n    inner: Pair {\n        a: 1,\n        b: 2,\n    },\n}"
    );
}

#[test]
fn width_argument_must_be_a_non_negative_integer() {
    let nm = named(vec![
        ("number", Value::Int(1)),
        ("width", Value::Text(String::from("5"))),
    ]);
    let err = render("{number:width$}", &no_args(), &nm).unwrap_err();
    assert_eq!(err, RenderError::UnresolvedArgument);
    let nm2 = named(vec![("number", Value::Int(1)), ("width", Value::Int(-5))]);
    let err2 = render("{number:width$}", &no_args(), &nm2).unwrap_err();
    assert_eq!(err2, RenderError::UnresolvedArgument);
}

#[test]
fn width_leaves_wide_fragments_alone() {
    let args = vec![Value::Text(String::from("abcdef"))];
    assert_eq!(render("{:3}", &args, &no_named()).unwrap(), "abcdef");
}
