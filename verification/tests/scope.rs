use stylecore::common::QuoteKind;
use stylecore::scope::Scope;
use stylecore::value::Value;

fn ident(s: &str) -> Value {
    Value::Ident(s.to_string(), QuoteKind::Unquoted)
}

fn text_of(v: &Value) -> String {
    match v {
        Value::Ident(s, _) => s.clone(),
        _ => panic!("expected a string value"),
    }
}

#[test]
fn basic_global() {
    // a { $color: red !global; }  b { color: $color; }
    let mut s = Scope::new();
    let a = s.push_scope(0);
    let _ = a;
    s.insert_global("color".to_string(), ident("red"));
    s.pop_scope();
    let b = s.push_scope(0);
    let v = s.get_var_at(b, &"color".to_string()).expect("global visible");
    assert_eq!(text_of(&v), "red");
}

#[test]
fn global_in_mixin() {
    // $y: a; @mixin foo { $y: b !global; } a { @include foo; color: $y; }
    let mut s = Scope::new();
    s.insert_var("y".to_string(), ident("a"));
    let ruleset = s.push_scope(0);
    let mixin_body = s.push_scope(ruleset);
    let _ = mixin_body;
    s.insert_global("y".to_string(), ident("b"));
    s.pop_scope();
    let v = s.get_var_at(ruleset, &"y".to_string()).expect("bound");
    assert_eq!(text_of(&v), "b");
}

#[test]
fn global_inserted_into_local_and_global_scopes() {
    // $foo: 42; .foo { content: $foo; $foo: 1337 !global; content: $foo; }
    // .bar { content: $foo; }
    let mut s = Scope::new();
    s.insert_var("foo".to_string(), ident("42"));
    let foo_block = s.push_scope(0);
    let before = s.get_var_at(foo_block, &"foo".to_string()).unwrap();
    assert_eq!(text_of(&before), "42");
    s.insert_global("foo".to_string(), ident("1337"));
    let after = s.get_var_at(foo_block, &"foo".to_string()).unwrap();
    assert_eq!(text_of(&after), "1337");
    s.pop_scope();
    let bar_block = s.push_scope(0);
    let in_bar = s.get_var_at(bar_block, &"foo".to_string()).unwrap();
    assert_eq!(text_of(&in_bar), "1337");
}

#[test]
fn plain_write_isolated_from_enclosing() {
    // a nested block's plain write is not seen by the enclosing block
    let mut s = Scope::new();
    let outer = s.push_scope(0);
    let inner = s.push_scope(outer);
    let _ = inner;
    s.insert_var("color".to_string(), ident("blue"));
    s.pop_scope();
    assert!(s.get_var_at(outer, &"color".to_string()).is_none());
}

#[test]
fn plain_write_visible_to_further_nested() {
    let mut s = Scope::new();
    let outer = s.push_scope(0);
    let inner = s.push_scope(outer);
    s.insert_var("color".to_string(), ident("blue"));
    let deepest = s.push_scope(inner);
    let v = s.get_var_at(deepest, &"color".to_string()).expect("visible inside");
    assert_eq!(text_of(&v), "blue");
}

#[test]
fn plain_write_overwrites_in_same_scope() {
    let mut s = Scope::new();
    s.insert_var("x".to_string(), ident("one"));
    s.insert_var("x".to_string(), ident("two"));
    let v = s.get_var(&"x".to_string()).unwrap();
    assert_eq!(text_of(&v), "two");
}

#[test]
fn read_walks_outward() {
    let mut s = Scope::new();
    s.insert_var("x".to_string(), ident("root"));
    let a = s.push_scope(0);
    let b = s.push_scope(a);
    let v = s.get_var_at(b, &"x".to_string()).unwrap();
    assert_eq!(text_of(&v), "root");
}

#[test]
fn inner_binding_shadows_outer() {
    let mut s = Scope::new();
    s.insert_var("x".to_string(), ident("root"));
    let a = s.push_scope(0);
    let _ = a;
    s.insert_var("x".to_string(), ident("inner"));
    let v = s.get_var(&"x".to_string()).unwrap();
    assert_eq!(text_of(&v), "inner");
}

#[test]
fn unbound_read_is_none() {
    let s = Scope::new();
    assert!(s.get_var(&"missing".to_string()).is_none());
}
