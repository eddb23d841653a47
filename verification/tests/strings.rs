use stylecore::args::{eat_call_args, CallArgs};
use stylecore::builtin::{call_builtin, quote, str_index, str_insert, str_length, str_slice, to_lower_case, to_upper_case, unique_id, unquote};
use stylecore::common::QuoteKind;
use stylecore::scope::Scope;
use stylecore::selector::Selector;
use stylecore::span::Span;
use stylecore::token::{Toks, Token};
use stylecore::unit::Unit;
use stylecore::value::Value;

fn args_of(src: &str) -> CallArgs {
    let mut v = Vec::new();
    let mut at = 0u64;
    for c in src.chars() {
        let n = c.len_utf8() as u64;
        v.push(Token::new(Span::new(at, at + n), c));
        at += n;
    }
    let mut t = Toks::new(v);
    eat_call_args(&mut t, Span::new(0, 1)).unwrap()
}

#[test]
fn upper_cases_quoted_string() {
    let scope = Scope::new();
    let sel = Selector::new();
    let v = to_upper_case(args_of("\"aBc1!\")"), &scope, &sel).unwrap();
    match v {
        Value::Ident(s, q) => {
            assert_eq!(s, "ABC1!");
            assert_eq!(q, QuoteKind::Quoted);
        }
        _ => panic!("expected a string"),
    }
}

#[test]
fn lower_cases_string() {
    let scope = Scope::new();
    let sel = Selector::new();
    let v = to_lower_case(args_of("\"AbC\")"), &scope, &sel).unwrap();
    match v {
        Value::Ident(s, _) => assert_eq!(s, "abc"),
        _ => panic!("expected a string"),
    }
}

#[test]
fn str_length_counts_characters() {
    let scope = Scope::new();
    let sel = Selector::new();
    let v = str_length(args_of("\"hello\")"), &scope, &sel).unwrap();
    match v {
        Value::Dimension(n, Unit::NoUnit) => assert_eq!(n.to_usize(), Some(5)),
        _ => panic!("expected a unitless number"),
    }
}

#[test]
fn quote_adds_quotes() {
    let scope = Scope::new();
    let sel = Selector::new();
    let v = quote(args_of("abc)"), &scope, &sel).unwrap();
    match v {
        Value::Ident(s, q) => {
            assert_eq!(s, "abc");
            assert_eq!(q, QuoteKind::Quoted);
        }
        _ => panic!("expected a string"),
    }
}

#[test]
fn unquote_strips_quotes() {
    let scope = Scope::new();
    let sel = Selector::new();
    let v = unquote(args_of("\"abc\")"), &scope, &sel).unwrap();
    match v {
        Value::Ident(s, q) => {
            assert_eq!(s, "abc");
            assert_eq!(q, QuoteKind::Unquoted);
        }
        _ => panic!("expected a string"),
    }
}

#[test]
fn named_string_argument_accepted() {
    let scope = Scope::new();
    let sel = Selector::new();
    let v = to_upper_case(args_of("$string: ab)"), &scope, &sel).unwrap();
    match v {
        Value::Ident(s, _) => assert_eq!(s, "AB"),
        _ => panic!("expected a string"),
    }
}

#[test]
fn too_many_arguments_exact_message() {
    let scope = Scope::new();
    let sel = Selector::new();
    let e = to_upper_case(args_of("a, b)"), &scope, &sel).unwrap_err();
    assert_eq!(e.message, "Only 1 argument allowed, but 2 were passed.");
}

#[test]
fn missing_argument_exact_message() {
    let scope = Scope::new();
    let sel = Selector::new();
    let e = to_upper_case(args_of(")"), &scope, &sel).unwrap_err();
    assert_eq!(e.message, "Missing argument $string.");
}

#[test]
fn number_is_not_a_string() {
    let scope = Scope::new();
    let sel = Selector::new();
    let e = to_upper_case(args_of("1)"), &scope, &sel).unwrap_err();
    assert_eq!(e.message, "$string: 1 is not a string.");
}

#[test]
fn unique_id_is_seven_alphanumerics() {
    let scope = Scope::new();
    let sel = Selector::new();
    let v = unique_id(args_of(")"), &scope, &sel).unwrap();
    match v {
        Value::Ident(s, QuoteKind::Unquoted) => {
            assert_eq!(s.chars().count(), 7);
            assert!(s.chars().all(|c| c.is_ascii_alphanumeric()));
        }
        _ => panic!("expected an unquoted string"),
    }
}

#[test]
fn unique_id_rejects_arguments() {
    let scope = Scope::new();
    let sel = Selector::new();
    let e = unique_id(args_of("a)"), &scope, &sel).unwrap_err();
    assert_eq!(e.message, "Only 0 arguments allowed, but 1 was passed.");
}

#[test]
fn str_index_finds_first_occurrence() {
    let scope = Scope::new();
    let sel = Selector::new();
    let v = str_index(args_of("\"Helvetica Neue\", \"e\")"), &scope, &sel).unwrap();
    match v {
        Value::Dimension(n, Unit::NoUnit) => assert_eq!(n.to_usize(), Some(2)),
        _ => panic!("expected a unitless number"),
    }
}

#[test]
fn str_index_missing_substring_is_null() {
    let scope = Scope::new();
    let sel = Selector::new();
    let v = str_index(args_of("\"abc\", \"q\")"), &scope, &sel).unwrap();
    assert!(matches!(v, Value::Null));
}

#[test]
fn str_index_reports_byte_offsets() {
    // a two-byte character before the match: the reported position is
    // one past its byte offset
    let scope = Scope::new();
    let sel = Selector::new();
    let v = str_index(args_of("\"\u{e9}a\", \"a\")"), &scope, &sel).unwrap();
    match v {
        Value::Dimension(n, Unit::NoUnit) => assert_eq!(n.to_usize(), Some(3)),
        _ => panic!("expected a unitless number"),
    }
}

#[test]
fn str_index_rejects_non_string() {
    let scope = Scope::new();
    let sel = Selector::new();
    let e = str_index(args_of("\"abc\", 2)"), &scope, &sel).unwrap_err();
    assert_eq!(e.message, "$substring: 2 is not a string.");
}

fn slice_text(v: Value) -> String {
    match v {
        Value::Ident(s, _) => s,
        _ => panic!("expected a string"),
    }
}

#[test]
fn str_slice_middle() {
    let scope = Scope::new();
    let sel = Selector::new();
    let v = str_slice(args_of("\"abcd\", 2, 3)"), &scope, &sel).unwrap();
    assert_eq!(slice_text(v), "bc");
}

#[test]
fn str_slice_default_end() {
    let scope = Scope::new();
    let sel = Selector::new();
    let v = str_slice(args_of("\"abcd\", 2)"), &scope, &sel).unwrap();
    assert_eq!(slice_text(v), "bcd");
}

#[test]
fn str_slice_negative_positions() {
    let scope = Scope::new();
    let sel = Selector::new();
    let v = str_slice(args_of("\"abcd\", -3, -2)"), &scope, &sel).unwrap();
    assert_eq!(slice_text(v), "bc");
}

#[test]
fn str_slice_crossed_bounds_empty() {
    let scope = Scope::new();
    let sel = Selector::new();
    let v = str_slice(args_of("\"abcd\", 3, 2)"), &scope, &sel).unwrap();
    assert_eq!(slice_text(v), "");
}

#[test]
fn str_slice_start_past_end_empty() {
    let scope = Scope::new();
    let sel = Selector::new();
    let v = str_slice(args_of("\"abcd\", 9)"), &scope, &sel).unwrap();
    assert_eq!(slice_text(v), "");
}

#[test]
fn str_slice_decimal_start_errors() {
    let scope = Scope::new();
    let sel = Selector::new();
    let e = str_slice(args_of("\"abcd\", 1.5)"), &scope, &sel).unwrap_err();
    assert_eq!(e.message, "1.5 is not an int.");
}

#[test]
fn str_slice_united_start_errors() {
    let scope = Scope::new();
    let sel = Selector::new();
    let e = str_slice(args_of("\"abcd\", 1px)"), &scope, &sel).unwrap_err();
    assert_eq!(e.message, "$start: Expected 1px to have no units.");
}

#[test]
fn str_slice_non_number_start_errors() {
    let scope = Scope::new();
    let sel = Selector::new();
    let e = str_slice(args_of("\"abcd\", x)"), &scope, &sel).unwrap_err();
    assert_eq!(e.message, "$start-at: x is not a number.");
}

#[test]
fn str_insert_middle() {
    let scope = Scope::new();
    let sel = Selector::new();
    let v = str_insert(args_of("\"abcd\", \"X\", 2)"), &scope, &sel).unwrap();
    assert_eq!(slice_text(v), "aXbcd");
}

#[test]
fn str_insert_at_start_and_end() {
    let scope = Scope::new();
    let sel = Selector::new();
    let v = str_insert(args_of("\"abcd\", \"X\", 1)"), &scope, &sel).unwrap();
    assert_eq!(slice_text(v), "Xabcd");
    let v = str_insert(args_of("\"abcd\", \"X\", -1)"), &scope, &sel).unwrap();
    assert_eq!(slice_text(v), "abcdX");
}

#[test]
fn str_insert_into_empty() {
    let scope = Scope::new();
    let sel = Selector::new();
    let v = str_insert(args_of("\"\", \"X\", 1)"), &scope, &sel).unwrap();
    assert_eq!(slice_text(v), "X");
}

#[test]
fn str_insert_decimal_index_errors() {
    let scope = Scope::new();
    let sel = Selector::new();
    let e = str_insert(args_of("\"ab\", \"X\", 1.5)"), &scope, &sel).unwrap_err();
    assert_eq!(e.message, "$index: 1.5 is not an int.");
}

#[test]
fn dispatch_finds_builtins() {
    let scope = Scope::new();
    let sel = Selector::new();
    let r = call_builtin(&"to-upper-case".to_string(), args_of("x)"), &scope, &sel);
    assert!(r.is_some());
    let r = call_builtin(&"no-such-function".to_string(), args_of("x)"), &scope, &sel);
    assert!(r.is_none());
}

#[test]
fn dispatch_runs_the_named_builtin() {
    let scope = Scope::new();
    let sel = Selector::new();
    let v = call_builtin(&"str-length".to_string(), args_of("\"abcd\")"), &scope, &sel)
        .unwrap()
        .unwrap();
    match v {
        Value::Dimension(n, _) => assert_eq!(n.to_usize(), Some(4)),
        _ => panic!("expected a number"),
    }
}
