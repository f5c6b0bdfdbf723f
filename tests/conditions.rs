use switchbot::{ConditionError, ConditionalExpression, Device, Operator, StatusValue};

fn parse(text: &str) -> Result<ConditionalExpression, ConditionError> {
    ConditionalExpression::parse(text)
}

fn from_key(key: &str) -> ConditionalExpression {
    ConditionalExpression { key: key.to_string(), operator: Operator::Truthy, value: String::new() }
}

fn from_strs(key: &str, operator: Operator, value: &str) -> ConditionalExpression {
    ConditionalExpression { key: key.to_string(), operator, value: value.to_string() }
}

fn evaluate(expr: &str, value: StatusValue) -> Result<bool, ConditionError> {
    parse(expr)?.evaluate(&value)
}

fn num(text: &str) -> StatusValue {
    StatusValue::Number(text.to_string())
}

fn text(text: &str) -> StatusValue {
    StatusValue::Text(text.to_string())
}

#[test]
fn conditional_expression_parse_condition() {
    assert_eq!(parse("a").unwrap(), from_key("a"));
    assert_eq!(parse("a=b").unwrap(), from_strs("a", Operator::Eq, "b"));
    assert_eq!(parse("a = b").unwrap(), from_strs("a", Operator::Eq, "b"));
    assert!(parse("a=").is_err());
    assert!(parse("1=a").is_err());
    assert_eq!(parse("a=12").unwrap(), from_strs("a", Operator::Eq, "12"));
    assert_eq!(parse("aZ=xZ2").unwrap(), from_strs("aZ", Operator::Eq, "xZ2"));

    assert_eq!(parse("a<b").unwrap(), from_strs("a", Operator::Lt, "b"));
    assert_eq!(parse("a>b").unwrap(), from_strs("a", Operator::Gt, "b"));
    assert_eq!(parse("a<=b").unwrap(), from_strs("a", Operator::Le, "b"));
    assert_eq!(parse("a>=b").unwrap(), from_strs("a", Operator::Ge, "b"));
}

#[test]
fn conditional_expression_evaluate_bool() {
    assert!(evaluate("a", StatusValue::Bool(true)).unwrap());
    assert!(!(evaluate("a", StatusValue::Bool(false)).unwrap()));
    assert!(evaluate("a=true", StatusValue::Bool(true)).unwrap());
    assert!(!(evaluate("a=true", StatusValue::Bool(false)).unwrap()));
    assert!(evaluate("a=false", StatusValue::Bool(false)).unwrap());
    assert!(evaluate("a>true", StatusValue::Bool(false)).is_err());
}

#[test]
fn conditional_expression_evaluate_str() {
    assert!(evaluate("a", text("on")).is_err());
    assert!(evaluate("a=on", text("on")).unwrap());
    assert!(!(evaluate("a=on", text("off")).unwrap()));
    assert!(evaluate("a>on", text("off")).is_err());
}

#[test]
fn conditional_expression_evaluate_num() {
    assert!(evaluate("a", num("123")).is_err());
    assert!(evaluate("a=123", num("123")).unwrap());
    assert!(!(evaluate("a=123", num("124")).unwrap()));

    assert!(evaluate("a<123", num("122")).unwrap());
    assert!(!(evaluate("a<123", num("123")).unwrap()));
    assert!(evaluate("a>123", num("124")).unwrap());
    assert!(!(evaluate("a>123", num("123")).unwrap()));
    assert!(evaluate("a<=123", num("123")).unwrap());
    assert!(!(evaluate("a<=123", num("124")).unwrap()));
    assert!(evaluate("a>=123", num("123")).unwrap());
    assert!(!(evaluate("a>=123", num("122")).unwrap()));
}

#[test]
fn parse_rejects_malformed() {
    assert_eq!(parse(""), Err(ConditionError::Invalid(String::new())));
    assert_eq!(parse("a=b c"), Err(ConditionError::Invalid("a=b c".to_string())));
    assert!(parse("a==b").is_err());
    assert!(parse("a<>b").is_err());
    assert!(parse("a=b ").is_err());
    assert_eq!(parse("ab \t>=\u{3000}7").unwrap(), from_strs("ab", Operator::Ge, "7"));
}

#[test]
fn decimal_comparisons_are_exact() {
    assert!(evaluate("t>23", num("23.5")).unwrap());
    assert!(!(evaluate("t>=24", num("23.5")).unwrap()));
    assert!(evaluate("t<0", num("-0.5")).unwrap());
    assert!(evaluate("t<=23", num("23.0")).unwrap());
    assert_eq!(evaluate("t>abc", num("23")), Err(ConditionError::NotANumber));
    assert_eq!(evaluate("t>1", num("1e5")), Err(ConditionError::NotANumber));
    assert_eq!(evaluate("t=23.5", num("23.5")), Err(ConditionError::Invalid("t=23.5".to_string())));
    assert_eq!(
        evaluate("t<1", StatusValue::Other("null".to_string())),
        Err(ConditionError::Unsupported)
    );
    assert!(evaluate("t=null", StatusValue::Other("null".to_string())).unwrap());
}

#[test]
fn device_condition_uses_status() {
    let mut device = Device::new(
        "id1".to_string(),
        "Lamp".to_string(),
        "Bot".to_string(),
        String::new(),
        "hub".to_string(),
    );
    device.set_status(vec![
        ("power".to_string(), text("on")),
        ("battery".to_string(), num("80")),
    ]);
    assert_eq!(device.eval_condition("power=on"), Ok(true));
    assert_eq!(device.eval_condition("battery<50"), Ok(false));
    assert_eq!(
        device.eval_condition("humidity>3"),
        Err(ConditionError::NoStatusKey("humidity".to_string()))
    );
    assert!(matches!(device.eval_condition("1"), Err(ConditionError::Invalid(_))));
    assert_eq!(device.status_by_key("battery"), Some(&num("80")));
    assert_eq!(device.status_by_key("none"), None);
}
