use switchbot::{ConditionError, ConditionExpression, Operator, StatusValue};

fn parse(text: &str) -> Result<ConditionExpression, ConditionError> {
    ConditionExpression::parse(text)
}

fn from_key(key: &str) -> ConditionExpression {
    ConditionExpression { key: key.to_string(), operator: Operator::Truthy, value: String::new() }
}

fn from_strs(key: &str, value: &str) -> ConditionExpression {
    ConditionExpression { key: key.to_string(), operator: Operator::Eq, value: value.to_string() }
}

fn evaluate(expr: &str, value: StatusValue) -> Result<bool, ConditionError> {
    parse(expr)?.evaluate(&value)
}

#[test]
fn condition_expression_parse_condition() {
    assert_eq!(parse("a").unwrap(), from_key("a"));
    assert_eq!(parse("a=b").unwrap(), from_strs("a", "b"));
    assert_eq!(parse("a = b").unwrap(), from_strs("a", "b"));
    assert!(parse("a=").is_err());
    assert!(parse("1=a").is_err());
    assert_eq!(parse("a=12").unwrap(), from_strs("a", "12"));
    assert_eq!(parse("aZ=xZ2").unwrap(), from_strs("aZ", "xZ2"));
    assert!(parse("a<2").is_err());
}

#[test]
fn condition_expression_evaluate_bool() {
    assert!(evaluate("a", StatusValue::Bool(true)).unwrap());
    assert!(!(evaluate("a", StatusValue::Bool(false)).unwrap()));
    assert!(evaluate("a=true", StatusValue::Bool(true)).unwrap());
    assert!(!(evaluate("a=true", StatusValue::Bool(false)).unwrap()));
    assert!(evaluate("a=false", StatusValue::Bool(false)).unwrap());
}

#[test]
fn condition_expression_evaluate_str() {
    assert!(evaluate("a", StatusValue::Text("on".into())).is_err());
    assert!(evaluate("a=on", StatusValue::Text("on".into())).unwrap());
    assert!(!(evaluate("a=on", StatusValue::Text("off".into())).unwrap()));
}

#[test]
fn condition_expression_evaluate_num() {
    assert!(evaluate("a", StatusValue::Number("123".into())).is_err());
    assert!(evaluate("a=123", StatusValue::Number("123".into())).unwrap());
    assert!(!(evaluate("a=123", StatusValue::Number("124".into())).unwrap()));
}
