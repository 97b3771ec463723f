use kclvm_sema::option::{convert_option, option_value, Converted, FloatCast, OptionError, OptionValue};

fn value(v: OptionValue) -> Result<Converted, OptionError> {
    Ok(Converted::Value(v))
}

#[test]
fn option_given_value_is_converted() {
    let r = option_value(
        Some("replicas"),
        Some(Some(OptionValue::Str("3".to_string()))),
        None,
        Some("int"),
        false,
        false,
    );
    assert_eq!(r, value(OptionValue::Int(3)));
}

#[test]
fn option_given_without_value_is_undefined() {
    let r = option_value(Some("x"), Some(None), Some(OptionValue::Int(1)), Some("int"), true, false);
    assert_eq!(r, value(OptionValue::Undefined));
}

#[test]
fn option_default_is_used_and_converted() {
    let r = option_value(Some("x"), None, Some(OptionValue::Int(1)), Some("bool"), false, false);
    assert_eq!(r, value(OptionValue::Bool(true)));
    let r = option_value(Some("x"), None, Some(OptionValue::Int(7)), None, false, false);
    assert_eq!(r, value(OptionValue::Int(7)));
}

#[test]
fn option_missing_required_and_list_mode() {
    let r = option_value(Some("env"), None, None, None, true, false);
    assert_eq!(r, Err(OptionError::Required { name: "env".to_string() }));
    let r = option_value(None, None, None, None, true, false);
    assert_eq!(r, Err(OptionError::Required { name: "?".to_string() }));
    let r = option_value(Some("env"), None, None, None, true, true);
    assert_eq!(r, value(OptionValue::NoneValue));
    let r = option_value(Some("env"), None, None, None, false, false);
    assert_eq!(r, value(OptionValue::NoneValue));
    // With no name the default is not looked at.
    let r = option_value(None, None, Some(OptionValue::Int(1)), None, false, false);
    assert_eq!(r, value(OptionValue::NoneValue));
}

#[test]
fn convert_to_bool() {
    assert_eq!(convert_option(OptionValue::Int(0), "bool", false), value(OptionValue::Bool(false)));
    assert_eq!(convert_option(OptionValue::Str("True".to_string()), "bool", false), value(OptionValue::Bool(true)));
    assert_eq!(convert_option(OptionValue::Str("yes".to_string()), "bool", false), value(OptionValue::Bool(false)));
    assert_eq!(convert_option(OptionValue::Float((-0.0f64).to_bits()), "bool", false), value(OptionValue::Bool(false)));
    assert_eq!(convert_option(OptionValue::Float(0.5f64.to_bits()), "bool", false), value(OptionValue::Bool(true)));
    assert_eq!(convert_option(OptionValue::List(vec![]), "bool", false), value(OptionValue::Undefined));
}

#[test]
fn convert_to_int() {
    assert_eq!(convert_option(OptionValue::Bool(true), "int", false), value(OptionValue::Int(1)));
    assert_eq!(convert_option(OptionValue::Str("-42".to_string()), "int", false), value(OptionValue::Int(-42)));
    assert_eq!(convert_option(OptionValue::Str("+7".to_string()), "int", false), value(OptionValue::Int(7)));
    assert_eq!(
        convert_option(OptionValue::Str("4x".to_string()), "int", true),
        Err(OptionError::CannotUse { value: OptionValue::Str("4x".to_string()), typ: "int".to_string() })
    );
    assert_eq!(
        convert_option(OptionValue::Str("9223372036854775808".to_string()), "int", false),
        Err(OptionError::CannotUse {
            value: OptionValue::Str("9223372036854775808".to_string()),
            typ: "int".to_string()
        })
    );
    assert_eq!(
        convert_option(OptionValue::Float(2.5f64.to_bits()), "int", false),
        Ok(Converted::Float(FloatCast::FloatToInt(2.5f64.to_bits())))
    );
    assert_eq!(
        convert_option(OptionValue::Other, "int", false),
        Err(OptionError::CannotUse { value: OptionValue::Other, typ: "int".to_string() })
    );
    assert_eq!(convert_option(OptionValue::Other, "int", true), value(OptionValue::NoneValue));
}

#[test]
fn convert_to_float_and_str() {
    assert_eq!(convert_option(OptionValue::Bool(true), "float", false), value(OptionValue::Float(1.0f64.to_bits())));
    assert_eq!(convert_option(OptionValue::Bool(false), "float", false), value(OptionValue::Float(0.0f64.to_bits())));
    assert_eq!(convert_option(OptionValue::Int(3), "float", false), Ok(Converted::Float(FloatCast::IntToFloat(3))));
    assert_eq!(
        convert_option(OptionValue::Str("1.5".to_string()), "float", false),
        Ok(Converted::Float(FloatCast::StrToFloat("1.5".to_string())))
    );
    assert_eq!(convert_option(OptionValue::Int(-120), "str", false), value(OptionValue::Str("-120".to_string())));
    assert_eq!(convert_option(OptionValue::Bool(false), "str", false), value(OptionValue::Str("false".to_string())));
    assert_eq!(convert_option(OptionValue::Int(0), "", false), value(OptionValue::Int(0)));
}

#[test]
fn convert_to_list_dict_and_unknown() {
    let list = OptionValue::List(vec![OptionValue::Int(1)]);
    assert_eq!(convert_option(list, "list", false), value(OptionValue::List(vec![OptionValue::Int(1)])));
    let dict = OptionValue::Dict(vec![("a".to_string(), OptionValue::Int(1))]);
    assert_eq!(
        convert_option(dict, "dict", false),
        value(OptionValue::Dict(vec![("a".to_string(), OptionValue::Int(1))]))
    );
    assert_eq!(
        convert_option(OptionValue::Int(1), "list", false),
        Err(OptionError::CannotUse { value: OptionValue::Int(1), typ: "list".to_string() })
    );
    assert_eq!(
        convert_option(OptionValue::Int(1), "number", false),
        Err(OptionError::UnknownType { typ: "number".to_string() })
    );
    assert_eq!(convert_option(OptionValue::Int(1), "number", true), value(OptionValue::NoneValue));
}

#[test]
fn integer_text_edges() {
    assert_eq!(
        convert_option(OptionValue::Int(i64::MIN), "str", false),
        value(OptionValue::Str("-9223372036854775808".to_string()))
    );
    assert_eq!(convert_option(OptionValue::Int(0), "str", false), value(OptionValue::Str("0".to_string())));
    assert_eq!(
        convert_option(OptionValue::Str("-9223372036854775808".to_string()), "int", false),
        value(OptionValue::Int(i64::MIN))
    );
    assert_eq!(
        convert_option(OptionValue::Str("9223372036854775807".to_string()), "int", false),
        value(OptionValue::Int(i64::MAX))
    );
    assert_eq!(convert_option(OptionValue::Str("007".to_string()), "int", false), value(OptionValue::Int(7)));
    for bad in ["", "-", "+", " 1", "1 ", "--1", "99999999999999999999"] {
        assert_eq!(
            convert_option(OptionValue::Str(bad.to_string()), "int", false),
            Err(OptionError::CannotUse { value: OptionValue::Str(bad.to_string()), typ: "int".to_string() })
        );
    }
}
