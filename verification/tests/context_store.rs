use expr_engine::context::VmContext;
use expr_engine::defs::Binding;
use expr_engine::defs::Function;
use expr_engine::defs::FunctionBody;
use expr_engine::defs::Parameter;
use expr_engine::defs::Variable;
use expr_engine::value::EvalError;
use expr_engine::value::Value;

fn var(name: &str, value: Value) -> Binding {
    Binding::Var(Variable { name: name.to_string(), value })
}

fn func(name: &str) -> Function {
    Function {
        name: name.to_string(),
        params: vec![Parameter { name: "a".to_string(), index: 0, value: Value::Null }],
        body: FunctionBody { code: "return a".to_string() },
        ret_val: Value::Null,
    }
}

#[test]
fn push_then_fetch_returns_what_was_pushed() {
    let mut ctx = VmContext::new();
    ctx.push_var(var("x", Value::Num(5)));
    let handle = ctx.get_var("x").expect("x was just pushed");
    assert_eq!(handle.get_value(), Value::Num(5));
    assert_eq!(handle.get_name(), "x".to_string());
}

#[test]
fn set_var_on_unbound_name_is_name_error() {
    let mut ctx = VmContext::new();
    ctx.push_var(var("x", Value::Num(1)));
    assert_eq!(ctx.set_var("y", Value::Num(2)), Err(EvalError::NameError));
    assert!(!ctx.contains_var("y"));
    let untouched = ctx.get_var("x").expect("x stays bound");
    assert_eq!(untouched.get_value(), Value::Num(1));
}

#[test]
fn set_var_mutates_in_place() {
    let mut ctx = VmContext::new();
    ctx.push_var(var("x", Value::Num(1)));
    assert_eq!(ctx.set_var("x", Value::Num(2)), Ok(()));
    let handle = ctx.get_var("x").expect("x stays bound");
    assert_eq!(handle.get_value(), Value::Num(2));
}

#[test]
fn push_var_replaces_under_same_name() {
    let mut ctx = VmContext::new();
    ctx.push_var(var("x", Value::Num(1)));
    ctx.push_var(var("x", Value::Str("two".to_string())));
    let handle = ctx.get_var("x").expect("x stays bound");
    assert_eq!(handle.get_value(), Value::Str("two".to_string()));
}

#[test]
fn lookup_miss_is_not_an_error() {
    let ctx = VmContext::new();
    assert!(ctx.get_var("ghostly").is_none());
    assert!(ctx.get_func("ghostly").is_none());
    assert!(!ctx.contains_var("ghostly"));
    assert!(!ctx.contains_func("ghostly"));
}

#[test]
fn push_func_then_get_func() {
    let mut ctx = VmContext::new();
    ctx.push_func(func("hello"));
    let f = ctx.get_func("hello").expect("hello was just registered");
    assert_eq!(f.get_name(), "hello".to_string());
    assert_eq!(f.params.len(), 1);
    assert!(ctx.contains_func("hello"));
    assert!(!ctx.contains_var("hello"));
}

#[test]
fn push_func_replaces_under_same_name() {
    let mut ctx = VmContext::new();
    ctx.push_func(func("f"));
    let mut second = func("f");
    second.ret_val = Value::Num(1);
    ctx.push_func(second);
    let f = ctx.get_func("f").expect("f stays registered");
    assert_eq!(f.ret_val, Value::Num(1));
}

#[test]
fn default_context_is_empty() {
    let ctx = VmContext::default();
    assert!(!ctx.contains_var("x"));
    assert!(!ctx.contains_func("f"));
}

#[test]
fn variable_accessors() {
    let mut v = Variable { name: "n".to_string(), value: Value::Num(3) };
    assert_eq!(v.get_name(), "n".to_string());
    assert_eq!(v.get_value(), Value::Num(3));
    v.set_value(Value::Bool(true));
    assert_eq!(v.get_value(), Value::Bool(true));
}

#[test]
fn parameter_accessors() {
    let p = Parameter { name: "p".to_string(), index: 2, value: Value::Str("s".to_string()) };
    assert_eq!(p.get_name(), "p".to_string());
    assert_eq!(p.get_value(), Value::Str("s".to_string()));
    assert_eq!(p.index, 2);
}

#[test]
fn binding_exposes_name_and_value() {
    let b = var("k", Value::Num(9));
    assert_eq!(b.get_name(), "k".to_string());
    assert_eq!(b.get_value(), Value::Num(9));
}
