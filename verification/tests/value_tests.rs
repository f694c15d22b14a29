use minifmt::directive::Directive;
use minifmt::parse::parse;
use minifmt::render::{named_used, positional_used};
use minifmt::value::{complex_display, list_display, Value};

fn color() -> Value {
    Value::Record {
        name: String::from("Color"),
        fields: vec![
            (String::from("red"), Value::Int(128)),
            (String::from("green"), Value::Int(255)),
            (String::from("blue"), Value::Int(90)),
        ],
    }
}

#[test]
fn record_pretty_diagnostic_one_field_per_line() {
    let out = color().diagnostic_pretty();
    assert_eq!(out, "Color {\n    red: 128,\n    green: 255,\n    blue: 90,\n}");
}

#[test]
fn record_compact_diagnostic() {
    let out = color().diagnostic();
    assert_eq!(out, "Color { red: 128, green: 255, blue: 90 }");
}

#[test]
fn nested_wrapper_diagnostic_compact() {
    let v = Value::Wrapper {
        name: String::from("Outer"),
        inner: Box::new(Value::Wrapper {
            name: String::from("Inner"),
            inner: Box::new(Value::Int(7)),
        }),
    };
    assert_eq!(v.diagnostic(), "Outer(Inner(7))");
}

#[test]
fn diagnostic_is_stable_across_calls() {
    let v = color();
    assert_eq!(v.diagnostic(), v.diagnostic());
    assert_eq!(v.diagnostic_pretty(), v.diagnostic_pretty());
}

#[test]
fn diagnostic_output_is_well_nested() {
    // a concrete check of the bracket balance the library proves in general
    let v = Value::Sequence {
        elems: vec![
            color(),
            Value::Wrapper { name: String::from("W"), inner: Box::new(color()) },
        ],
    };
    for text in [v.diagnostic(), v.diagnostic_pretty()] {
        let mut stack: Vec<char> = Vec::new();
        for c in text.chars() {
            match c {
                '(' => stack.push(')'),
                '[' => stack.push(']'),
                '{' => stack.push('}'),
                ')' | ']' | '}' => assert_eq!(stack.pop(), Some(c)),
                _ => {}
            }
        }
        assert!(stack.is_empty());
    }
}

#[test]
fn display_versus_diagnostic_divergence() {
    let inner = Value::Record {
        name: String::from("Complex"),
        fields: vec![
            (String::from("real"), Value::Dec { neg: false, digits: 33, scale: 1 }),
            (String::from("imag"), Value::Dec { neg: false, digits: 72, scale: 1 }),
        ],
    };
    let text = complex_display(false, 33, 1, false, 72, 1);
    let v = Value::Shown { inner: Box::new(inner), text };
    let shown = v.display().unwrap();
    let diag = v.diagnostic();
    assert_eq!(shown, "3.3 + 7.2i");
    assert_eq!(diag, "Complex { real: 3.3, imag: 7.2 }");
    assert_ne!(shown, diag);
}

#[test]
fn scalars_have_display_and_records_do_not() {
    assert_eq!(Value::Int(-42).display().unwrap(), "-42");
    assert_eq!(Value::Text(String::from("hi")).display().unwrap(), "hi");
    assert_eq!(Value::Dec { neg: true, digits: 33, scale: 1 }.display().unwrap(), "-3.3");
    assert!(color().display().is_none());
}

#[test]
fn text_scalar_diagnostic_is_quoted() {
    assert_eq!(Value::Text(String::from("hi")).diagnostic(), "\"hi\"");
}

#[test]
fn empty_sequence_and_record_diagnostics() {
    assert_eq!(Value::Sequence { elems: Vec::new() }.diagnostic(), "[]");
    let empty = Value::Record { name: String::from("Unit"), fields: Vec::new() };
    assert_eq!(empty.diagnostic(), "Unit");
}

#[test]
fn sequence_compact_diagnostic() {
    let v = Value::Sequence {
        elems: vec![Value::Int(1), Value::Int(2), Value::Int(3)],
    };
    assert_eq!(v.diagnostic(), "[1, 2, 3]");
}

#[test]
fn list_display_writes_index_value_pairs() {
    assert_eq!(list_display(&vec![1, 2, 3]), "[0:1, 1:2, 2:3]");
    assert_eq!(list_display(&Vec::new()), "[]");
}

#[test]
fn unused_argument_advisory() {
    let d: Directive = parse("{0} and {name:width$}").unwrap();
    assert!(positional_used(&d, 0));
    assert!(!positional_used(&d, 1));
    assert!(named_used(&d, &String::from("name")));
    assert!(named_used(&d, &String::from("width")));
    assert!(!named_used(&d, &String::from("other")));
}

#[test]
fn implicit_placeholders_mark_leading_positionals_used() {
    let d: Directive = parse("{} {}").unwrap();
    assert!(positional_used(&d, 0));
    assert!(positional_used(&d, 1));
    assert!(!positional_used(&d, 2));
}
