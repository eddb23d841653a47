use stylecore::args::{eat_call_args, eat_func_args, CallArg, FuncArgs};
use stylecore::scope::Scope;
use stylecore::selector::Selector;
use stylecore::span::Span;
use stylecore::token::{Toks, Token};
use stylecore::value::Value;

fn toks(s: &str) -> Toks {
    let mut v = Vec::new();
    let mut at = 0u64;
    for c in s.chars() {
        let n = c.len_utf8() as u64;
        v.push(Token::new(Span::new(at, at + n), c));
        at += n;
    }
    Toks::new(v)
}

fn sp() -> Span {
    Span::new(0, 1)
}

fn ident_text(v: &Value) -> String {
    match v {
        Value::Ident(s, _) => s.clone(),
        _ => panic!("expected a string value"),
    }
}

#[test]
fn call_args_counts_groups() {
    let scope = Scope::new();
    let sel = Selector::new();
    let mut t = toks("a, b, c)");
    let args = eat_call_args(&mut t, sp()).unwrap();
    assert_eq!(args.len(), 3);
    let _ = (scope, sel);
}

#[test]
fn call_args_empty_is_empty() {
    let mut t = toks(")");
    let args = eat_call_args(&mut t, sp()).unwrap();
    assert_eq!(args.len(), 0);
    assert!(args.is_empty());
}

#[test]
fn trailing_comma_keeps_empty_slot() {
    let mut t = toks("a,)");
    let args = eat_call_args(&mut t, sp()).unwrap();
    assert_eq!(args.len(), 2);
}

#[test]
fn nested_parens_not_split() {
    let scope = Scope::new();
    let sel = Selector::new();
    let mut t = toks("$a: (1, 2), $b: 3)");
    let mut args = eat_call_args(&mut t, sp()).unwrap();
    assert_eq!(args.len(), 2);
    let a = args
        .get_named("a".to_string(), &scope, &sel)
        .expect("slot a must exist")
        .unwrap();
    assert_eq!(ident_text(&a.node), "(1, 2)");
    let b = args
        .get_named("b".to_string(), &scope, &sel)
        .expect("slot b must exist")
        .unwrap();
    match b.node {
        Value::Dimension(n, _) => assert_eq!(n.to_css_string(), "3"),
        _ => panic!("expected a number"),
    }
}

#[test]
fn nested_brackets_and_quotes_not_split() {
    let mut t = toks("[x, y], \"a, b\", z)");
    let args = eat_call_args(&mut t, sp()).unwrap();
    assert_eq!(args.len(), 3);
}

#[test]
fn named_resolution_is_single_use() {
    let scope = Scope::new();
    let sel = Selector::new();
    let mut t = toks("$a: 1)");
    let mut args = eat_call_args(&mut t, sp()).unwrap();
    assert!(args.get_named("a".to_string(), &scope, &sel).is_some());
    assert!(args.get_named("a".to_string(), &scope, &sel).is_none());
}

#[test]
fn positional_resolution_is_single_use() {
    let scope = Scope::new();
    let sel = Selector::new();
    let mut t = toks("x)");
    let mut args = eat_call_args(&mut t, sp()).unwrap();
    assert!(args.get_positional(0, &scope, &sel).is_some());
    assert!(args.get_positional(0, &scope, &sel).is_none());
}

#[test]
fn arity_error_singular_phrasing() {
    let mut t = toks("a, b, c)");
    let args = eat_call_args(&mut t, sp()).unwrap();
    let e = args.max_args(1).unwrap_err();
    assert_eq!(e.message, "Only 1 argument allowed, but 3 were passed.");
}

#[test]
fn arity_error_plural_phrasing() {
    let mut t = toks("a, b, c)");
    let args = eat_call_args(&mut t, sp()).unwrap();
    let e = args.max_args(2).unwrap_err();
    assert_eq!(e.message, "Only 2 arguments allowed, but 3 were passed.");
}

#[test]
fn arity_error_one_passed() {
    let mut t = toks("a)");
    let args = eat_call_args(&mut t, sp()).unwrap();
    let e = args.max_args(0).unwrap_err();
    assert_eq!(e.message, "Only 0 arguments allowed, but 1 was passed.");
}

#[test]
fn max_args_within_limit_is_ok() {
    let mut t = toks("a, b)");
    let args = eat_call_args(&mut t, sp()).unwrap();
    assert!(args.max_args(2).is_ok());
}

#[test]
fn variadic_values_in_order() {
    let scope = Scope::new();
    let sel = Selector::new();
    let mut t = toks("x, y, z)");
    let args = eat_call_args(&mut t, sp()).unwrap();
    let vals = args.get_variadic(&scope, &sel).unwrap();
    assert_eq!(vals.len(), 3);
    assert_eq!(ident_text(&vals[0].node), "x");
    assert_eq!(ident_text(&vals[1].node), "y");
    assert_eq!(ident_text(&vals[2].node), "z");
}

#[test]
fn variadic_rejects_named() {
    let scope = Scope::new();
    let sel = Selector::new();
    let mut t = toks("x, $a: 1)");
    let args = eat_call_args(&mut t, sp()).unwrap();
    let e = args.get_variadic(&scope, &sel).unwrap_err();
    assert_eq!(e.message, "No argument named $a.");
}

#[test]
fn decrement_shifts_positions() {
    let scope = Scope::new();
    let sel = Selector::new();
    let mut t = toks("x, y)");
    let mut args = eat_call_args(&mut t, sp()).unwrap();
    assert!(args.get_positional(0, &scope, &sel).is_some());
    let mut args = args.decrement();
    let v = args.get_positional(0, &scope, &sel).unwrap().unwrap();
    assert_eq!(ident_text(&v.node), "y");
}

#[test]
fn call_arg_position_and_decrement() {
    let p = CallArg::Positional(2);
    assert_eq!(p.position().unwrap(), 2);
    let p = p.decrement();
    assert_eq!(p.position().unwrap(), 1);
    let n = CallArg::Named("width".to_string());
    assert_eq!(n.position().unwrap_err(), "width");
}

#[test]
fn to_css_string_renders_plain_args() {
    let scope = Scope::new();
    let sel = Selector::new();
    let mut t = toks("a, b)");
    let args = eat_call_args(&mut t, sp()).unwrap();
    let s = args.to_css_string(&scope, &sel).unwrap();
    assert_eq!(s.node, "(a, b)");
}

#[test]
fn to_css_string_empty() {
    let scope = Scope::new();
    let sel = Selector::new();
    let mut t = toks(")");
    let args = eat_call_args(&mut t, sp()).unwrap();
    let s = args.to_css_string(&scope, &sel).unwrap();
    assert_eq!(s.node, "()");
}

#[test]
fn to_css_string_rejects_keywords() {
    let scope = Scope::new();
    let sel = Selector::new();
    let mut t = toks("$a: 1)");
    let args = eat_call_args(&mut t, sp()).unwrap();
    let e = args.to_css_string(&scope, &sel).unwrap_err();
    assert_eq!(
        e.message,
        "Plain CSS functions don't support keyword arguments."
    );
}

#[test]
fn func_args_new_is_empty() {
    let fa = FuncArgs::new();
    assert_eq!(fa.0.len(), 0);
}

#[test]
fn declaration_names_and_defaults() {
    let scope = Scope::new();
    let sel = Selector::new();
    let mut t = toks("$a, $b_c: 3) {");
    let fa = eat_func_args(&mut t, &scope, &sel).unwrap();
    assert_eq!(fa.0.len(), 2);
    assert_eq!(fa.0[0].name, "a");
    assert!(fa.0[0].default.is_none());
    assert!(!fa.0[0].is_variadic);
    assert_eq!(fa.0[1].name, "b-c");
    assert!(fa.0[1].default.is_some());
}

#[test]
fn declaration_variadic_is_last() {
    let scope = Scope::new();
    let sel = Selector::new();
    let mut t = toks("$a, $rest...) {");
    let fa = eat_func_args(&mut t, &scope, &sel).unwrap();
    assert_eq!(fa.0.len(), 2);
    assert!(!fa.0[0].is_variadic);
    assert!(fa.0[1].is_variadic);
}

#[test]
fn declaration_variadic_not_last_fails() {
    let scope = Scope::new();
    let sel = Selector::new();
    let mut t = toks("$a..., $b) {");
    assert!(eat_func_args(&mut t, &scope, &sel).is_err());
}

#[test]
fn declaration_malformed_variadic_fails() {
    let scope = Scope::new();
    let sel = Selector::new();
    let mut t = toks("$a.b) {");
    assert!(eat_func_args(&mut t, &scope, &sel).is_err());
}

#[test]
fn declaration_requires_block_open() {
    let scope = Scope::new();
    let sel = Selector::new();
    let mut t = toks("$a)");
    assert!(eat_func_args(&mut t, &scope, &sel).is_err());
}

#[test]
fn variable_argument_resolves_against_scope() {
    let mut scope = Scope::new();
    let sel = Selector::new();
    scope.insert_var(
        "width".to_string(),
        Value::Ident("wide".to_string(), stylecore::common::QuoteKind::Unquoted),
    );
    let mut t = toks("$width)");
    let mut args = eat_call_args(&mut t, sp()).unwrap();
    let v = args.get_positional(0, &scope, &sel).unwrap().unwrap();
    assert_eq!(ident_text(&v.node), "wide");
}

#[test]
fn unbound_variable_argument_errors() {
    let scope = Scope::new();
    let sel = Selector::new();
    let mut t = toks("$nope)");
    let mut args = eat_call_args(&mut t, sp()).unwrap();
    let e = args.get_positional(0, &scope, &sel).unwrap().unwrap_err();
    assert_eq!(e.message, "Undefined variable: \"$nope\".");
}

#[test]
fn comparison_argument_evaluates_units_exactly() {
    // 2in > 1cm: an inch is longer than a centimeter after exact
    // conversion to the canonical length unit
    let scope = Scope::new();
    let sel = Selector::new();
    let mut t = toks("2in > 1cm)");
    let mut args = eat_call_args(&mut t, sp()).unwrap();
    let v = args.get_positional(0, &scope, &sel).unwrap().unwrap();
    assert!(matches!(v.node, Value::True));
}

#[test]
fn comparison_argument_less_or_equal() {
    let scope = Scope::new();
    let sel = Selector::new();
    let mut t = toks("2 <= 1)");
    let mut args = eat_call_args(&mut t, sp()).unwrap();
    let v = args.get_positional(0, &scope, &sel).unwrap().unwrap();
    assert!(matches!(v.node, Value::False));
}

#[test]
fn comparison_argument_undefined_operation() {
    let scope = Scope::new();
    let sel = Selector::new();
    let mut t = toks("1 > b)");
    let mut args = eat_call_args(&mut t, sp()).unwrap();
    let e = args.get_positional(0, &scope, &sel).unwrap().unwrap_err();
    assert_eq!(e.message, "Undefined operation \"1 > b\".");
}

#[test]
fn comparison_inside_quotes_stays_text() {
    let scope = Scope::new();
    let sel = Selector::new();
    let mut t = toks("\"a > b\")");
    let mut args = eat_call_args(&mut t, sp()).unwrap();
    let v = args.get_positional(0, &scope, &sel).unwrap().unwrap();
    assert_eq!(ident_text(&v.node), "a > b");
}

#[test]
fn named_argument_underscores_normalize() {
    let scope = Scope::new();
    let sel = Selector::new();
    let mut t = toks("$b_c: 1)");
    let mut args = eat_call_args(&mut t, sp()).unwrap();
    assert!(args.get_named("b-c".to_string(), &scope, &sel).is_some());
}
