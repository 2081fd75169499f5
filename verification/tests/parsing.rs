use frontmatter_gen::error::Error;
use frontmatter_gen::parser::{
    check_output_format, estimate_json_size, estimate_value_size, integer_fits_float,
    optimise_string,
    validate_format_input, validate_frontmatter, validate_parsed, ParseOptions, MAX_KEYS,
    MAX_NESTING_DEPTH, SMALL_STRING_SIZE,
};
use frontmatter_gen::{Format, Frontmatter, Value};

#[test]
fn test_string_optimisation() {
    let short_str = "short";
    let long_str = "a".repeat(SMALL_STRING_SIZE + 1);

    let optimised_short = optimise_string(short_str);
    let optimised_long = optimise_string(&long_str);

    assert_eq!(optimised_short, short_str);
    assert_eq!(optimised_long, long_str);
    assert!(optimised_long.capacity() >= long_str.len());
}

#[test]
fn test_validation() {
    let mut large_fm = Frontmatter::new();
    for i in 0..MAX_KEYS + 1 {
        let _ = large_fm.insert(i.to_string(), Value::String("value".to_string()));
    }
    assert!(validate_frontmatter(&large_fm, MAX_NESTING_DEPTH, MAX_KEYS).is_err());

    let mut nested_fm = Frontmatter::new();
    let mut current = Value::Null;
    for _ in 0..MAX_NESTING_DEPTH + 1 {
        let mut level = Frontmatter::new();
        let _ = level.insert("nested".to_string(), current);
        current = Value::Object(Box::new(level));
    }
    let _ = nested_fm.insert("deep".to_string(), current);
    assert!(validate_frontmatter(&nested_fm, MAX_NESTING_DEPTH, MAX_KEYS).is_err());
}

fn nested(levels: usize) -> Value {
    let mut current = Value::Null;
    for _ in 0..levels {
        current = Value::Array(vec![current]);
    }
    current
}

#[test]
fn depth_limit_is_exact_and_reported_one_past() {
    let mut fm = Frontmatter::new();
    let _ = fm.insert("a".to_string(), nested(3));
    assert!(validate_frontmatter(&fm, 4, 10).is_ok());
    match validate_frontmatter(&fm, 3, 10) {
        Err(Error::NestingTooDeep { depth, max }) => {
            assert_eq!(depth, 4);
            assert_eq!(max, 3);
        }
        other => panic!("unexpected {:?}", other),
    }
    match validate_frontmatter(&fm, 3, 0) {
        Err(Error::ContentTooLarge { size, max }) => {
            assert_eq!(size, 1);
            assert_eq!(max, 0);
        }
        other => panic!("unexpected {:?}", other),
    }
    assert!(validate_frontmatter(&Frontmatter::new(), 0, 0).is_ok());
    assert!(validate_frontmatter(&fm, 0, 1).is_err());
}

#[test]
fn larger_limits_keep_accepting() {
    let mut fm = Frontmatter::new();
    let _ = fm.insert("x".to_string(), nested(2));
    let _ = fm.insert("y".to_string(), Value::Boolean(true));
    assert!(validate_frontmatter(&fm, 3, 2).is_ok());
    assert!(validate_frontmatter(&fm, 30, 20).is_ok());
}

#[test]
fn size_estimates() {
    assert_eq!(estimate_value_size(&Value::Null), 4);
    assert_eq!(estimate_value_size(&Value::String("ab".to_string())), 4);
    assert_eq!(estimate_value_size(&Value::Number(1.5f64.to_bits())), 8);
    assert_eq!(estimate_value_size(&Value::Boolean(false)), 5);
    assert_eq!(estimate_value_size(&Value::Array(vec![Value::Null, Value::Null])), 10);
    assert_eq!(
        estimate_value_size(&Value::Tagged("t".to_string(), Box::new(Value::Null))),
        7
    );
    let mut fm = Frontmatter::new();
    assert_eq!(estimate_json_size(&fm), 2);
    let _ = fm.insert("key".to_string(), Value::Boolean(true));
    assert_eq!(estimate_json_size(&fm), 2 + 3 + 3 + 5 + 1);
    assert_eq!(estimate_value_size(&Value::Object(Box::new(fm))), 14);
}

#[test]
fn format_input_checks() {
    assert!(matches!(
        validate_format_input("a: b", Format::Unsupported),
        Err(Error::ConversionError(ref m))
            if m == "Unsupported format: Unsupported. Supported formats are YAML, TOML, and JSON."
    ));
    assert!(matches!(
        validate_format_input("title: x", Format::Toml),
        Err(Error::ConversionError(ref m))
            if m == "Format set to TOML but input does not contain '=' signs."
    ));
    assert!(matches!(
        validate_format_input("  [1]", Format::Json),
        Err(Error::ConversionError(ref m))
            if m == "Format set to JSON but input does not start with '{'."
    ));
    assert_eq!(validate_format_input("\n a = 1 \n", Format::Toml).unwrap(), "a = 1");
    assert_eq!(validate_format_input(" {} ", Format::Json).unwrap(), "{}");
    assert_eq!(validate_format_input(" x: y\n", Format::Yaml).unwrap(), "x: y");
}

#[test]
fn parsed_front_matter_meets_the_options() {
    let mut fm = Frontmatter::new();
    let _ = fm.insert("a".to_string(), nested(5));
    let strict = ParseOptions { max_depth: 2, max_keys: 10, validate: true };
    assert!(matches!(
        validate_parsed(fm.clone(), Some(strict)),
        Err(Error::NestingTooDeep { depth: 3, max: 2 })
    ));
    let off = ParseOptions { max_depth: 2, max_keys: 10, validate: false };
    assert_eq!(validate_parsed(fm.clone(), Some(off)).unwrap(), fm);
    assert_eq!(validate_parsed(fm.clone(), None).unwrap(), fm);
    let d = ParseOptions::default();
    assert_eq!(d.max_depth, 32);
    assert_eq!(d.max_keys, 1000);
    assert!(d.validate);
}

#[test]
fn output_formats() {
    assert!(check_output_format(Format::Yaml).is_ok());
    assert!(check_output_format(Format::Toml).is_ok());
    assert!(check_output_format(Format::Json).is_ok());
    assert!(matches!(
        check_output_format(Format::Unsupported),
        Err(Error::ConversionError(ref m)) if m == "Unsupported format"
    ));
}

#[test]
fn integers_kept_below_two_to_the_52() {
    assert!(integer_fits_float(0));
    assert!(integer_fits_float((1i64 << 52) - 1));
    assert!(integer_fits_float(-((1i64 << 52) - 1)));
    assert!(!integer_fits_float(1i64 << 52));
    assert!(!integer_fits_float(-(1i64 << 52)));
    assert!(!integer_fits_float(1i64 << 53));
}

#[test]
fn validation_is_a_later_step_and_defaults_apply() {
    let mut fm = Frontmatter::new();
    let _ = fm.insert("a".to_string(), Value::Null);
    let _ = fm.insert("b".to_string(), Value::Null);
    let off = ParseOptions { max_depth: 5, max_keys: 1, validate: false };
    assert!(validate_parsed(fm.clone(), Some(off)).is_ok());
    let on = ParseOptions { validate: true, ..off };
    assert!(validate_parsed(fm.clone(), Some(on)).is_err());
    assert!(validate_frontmatter(&fm, 5, 1).is_err());
    assert_eq!(
        validate_parsed(fm.clone(), None).is_ok(),
        validate_parsed(fm, Some(ParseOptions::default())).is_ok()
    );
}
