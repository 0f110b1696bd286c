use expr_engine::context::VmContext;
use expr_engine::defs::Binding;
use expr_engine::defs::Parameter;
use expr_engine::defs::Variable;
use expr_engine::expression::Expression;
use expr_engine::operators::Op;
use expr_engine::operators::apply;
use expr_engine::sub_expression::evaluate_token_chain;
use expr_engine::value::EvalError;
use expr_engine::value::Value;

fn var(name: &str, value: Value) -> Binding {
    Binding::Var(Variable { name: name.to_string(), value })
}

fn eval(expr: &str, ctx: &VmContext) -> Result<Value, EvalError> {
    Expression::from_str(expr, ctx).evaluate()
}

#[test]
fn single_number_literal() {
    let ctx = VmContext::new();
    assert_eq!(eval("42", &ctx), Ok(Value::Num(42)));
}

#[test]
fn single_bool_literals() {
    let ctx = VmContext::new();
    assert_eq!(eval("true", &ctx), Ok(Value::Bool(true)));
    assert_eq!(eval("false", &ctx), Ok(Value::Bool(false)));
}

#[test]
fn single_none_literal() {
    let ctx = VmContext::new();
    assert_eq!(eval("none", &ctx), Ok(Value::Null));
}

#[test]
fn single_string_literal() {
    let ctx = VmContext::new();
    assert_eq!(eval("\"hi\"", &ctx), Ok(Value::Str("hi".to_string())));
}

#[test]
fn binary_equals_direct_application() {
    let ctx = VmContext::new();
    let direct = apply(Op::Add, &Value::Num(3), &Value::Num(4));
    assert_eq!(direct, Ok(Value::Num(7)));
    assert_eq!(eval("3+4", &ctx), direct);
}

#[test]
fn chain_evaluates_left_to_right() {
    let ctx = VmContext::new();
    assert_eq!(eval("2+3*2", &ctx), Ok(Value::Num(10)));
}

#[test]
fn longer_chain_no_precedence() {
    let ctx = VmContext::new();
    assert_eq!(eval("1+2*3-4", &ctx), Ok(Value::Num(5)));
}

#[test]
fn bound_variable_resolves_to_current_value() {
    let mut ctx = VmContext::new();
    ctx.push_var(var("x", Value::Num(5)));
    assert_eq!(eval("x+1", &ctx), Ok(Value::Num(6)));
    assert_eq!(ctx.set_var("x", Value::Num(10)), Ok(()));
    assert_eq!(eval("x+1", &ctx), Ok(Value::Num(11)));
}

#[test]
fn empty_expression_is_syntax_error() {
    let ctx = VmContext::new();
    assert_eq!(eval("", &ctx), Err(EvalError::SyntaxError));
}

#[test]
fn multi_token_without_operator_is_syntax_error() {
    let values = vec![Value::Num(1), Value::Num(2)];
    let ops: Vec<Op> = vec![];
    assert_eq!(evaluate_token_chain(&values, &ops), Err(EvalError::SyntaxError));
}

#[test]
fn no_token_without_operator_is_syntax_error() {
    let values: Vec<Value> = vec![];
    let ops: Vec<Op> = vec![];
    assert_eq!(evaluate_token_chain(&values, &ops), Err(EvalError::SyntaxError));
}

#[test]
fn unbound_token_is_parse_error() {
    let ctx = VmContext::new();
    assert_eq!(eval("abc", &ctx), Err(EvalError::ParseError));
}

#[test]
fn number_past_i64_max_is_parse_error() {
    let ctx = VmContext::new();
    assert_eq!(eval("9223372036854775808", &ctx), Err(EvalError::ParseError));
    assert_eq!(eval("9223372036854775807", &ctx), Ok(Value::Num(i64::MAX)));
}

#[test]
fn addition_wraps_at_i64_max() {
    let ctx = VmContext::new();
    assert_eq!(eval("9223372036854775807+1", &ctx), Ok(Value::Num(i64::MIN)));
}

#[test]
fn subtraction_and_comparisons() {
    let ctx = VmContext::new();
    assert_eq!(eval("10-3", &ctx), Ok(Value::Num(7)));
    assert_eq!(eval("3<4", &ctx), Ok(Value::Bool(true)));
    assert_eq!(eval("5>7", &ctx), Ok(Value::Bool(false)));
}

#[test]
fn equality_operator_matches_by_single_character_run() {
    let ctx = VmContext::new();
    assert_eq!(eval("1=1", &ctx), Ok(Value::Bool(true)));
    assert_eq!(eval("1=2", &ctx), Ok(Value::Bool(false)));
    assert_eq!(eval("true=true", &ctx), Ok(Value::Bool(true)));
}

#[test]
fn double_equals_closes_an_empty_token() {
    let ctx = VmContext::new();
    assert_eq!(eval("1==1", &ctx), Err(EvalError::ParseError));
}

#[test]
fn boolean_operators() {
    let mut ctx = VmContext::new();
    ctx.push_var(var("a", Value::Bool(true)));
    ctx.push_var(var("b", Value::Bool(false)));
    assert_eq!(eval("a&b", &ctx), Ok(Value::Bool(false)));
    assert_eq!(eval("a|b", &ctx), Ok(Value::Bool(true)));
}

#[test]
fn incompatible_operands_are_type_error() {
    let ctx = VmContext::new();
    assert_eq!(eval("1&2", &ctx), Err(EvalError::TypeError));
    assert_eq!(eval("true+1", &ctx), Err(EvalError::TypeError));
}

#[test]
fn string_concatenation() {
    let ctx = VmContext::new();
    assert_eq!(eval("\"ab\"+\"cd\"", &ctx), Ok(Value::Str("abcd".to_string())));
}

#[test]
fn leading_operator_closes_an_empty_token() {
    let ctx = VmContext::new();
    assert_eq!(eval("+3", &ctx), Err(EvalError::ParseError));
    assert_eq!(eval("3++4", &ctx), Err(EvalError::ParseError));
}

#[test]
fn trailing_operator_combines_nothing() {
    let ctx = VmContext::new();
    assert_eq!(eval("3+", &ctx), Ok(Value::Num(3)));
}

#[test]
fn parameter_binding_is_readable_in_expressions() {
    let mut ctx = VmContext::new();
    ctx.push_var(Binding::Param(Parameter {
        name: "p".to_string(),
        index: 0,
        value: Value::Num(41),
    }));
    assert_eq!(eval("p+1", &ctx), Ok(Value::Num(42)));
}

#[test]
fn literal_parsing_matches_grammar() {
    assert_eq!(Value::from_string("7"), Ok(Value::Num(7)));
    assert_eq!(Value::from_string("true"), Ok(Value::Bool(true)));
    assert_eq!(Value::from_string("none"), Ok(Value::Null));
    assert_eq!(Value::from_string("\"\""), Ok(Value::Str(String::new())));
    assert_eq!(Value::from_string(""), Err(EvalError::ParseError));
    assert_eq!(Value::from_string("tru"), Err(EvalError::ParseError));
    assert_eq!(Value::from_string("12a"), Err(EvalError::ParseError));
}
