use frontmatter_gen::error::Error;
use frontmatter_gen::{extract_parts, parse_usize, validate_input, Format, ParseOptions};

fn mock_operation(input: Option<&str>) -> Result<String, Error> {
    match input {
        Some(value) => Ok(value.to_uppercase()),
        None => Err(Error::ParseError("Input is missing".to_string())),
    }
}

#[test]
fn test_result_type_success() {
    let input = Some("hello");
    let result = mock_operation(input);
    assert!(result.is_ok());
    assert_eq!(result.unwrap(), "HELLO".to_string());
}

#[test]
fn test_result_type_error() {
    let input = None;
    let result = mock_operation(input);
    assert!(matches!(
        result,
        Err(Error::ParseError(ref e)) if e == "Input is missing"
    ));
}

#[test]
fn test_result_type_pattern_matching() {
    let input = Some("world");
    let result = mock_operation(input);
    match result {
        Ok(value) => assert_eq!(value, "WORLD".to_string()),
        Err(e) => panic!("Operation failed: {:?}", e),
    }
}

#[test]
fn test_result_type_unwrap() {
    let input = Some("rust");
    let result = mock_operation(input);
    assert_eq!(result.unwrap(), "RUST".to_string());
}

#[test]
fn test_result_type_expect() {
    let input = Some("test");
    let result = mock_operation(input);
    assert_eq!(result.expect("Unexpected error"), "TEST".to_string());
}

#[test]
fn test_result_type_debug_format() {
    let input = None;
    let result = mock_operation(input);
    assert_eq!(
        format!("{:?}", result),
        "Err(ParseError(\"Input is missing\"))"
    );
}

#[test]
fn test_skip_validation_in_fenced_code_blocks() {
    let options = ParseOptions::default();
    let content = r#"
        ---
        title: Example
        ---
        ```
        ../example/path
        ```
        Valid content here.
        "#;

    let result = validate_input(content, &options);
    assert!(result.is_ok(), "Validation should skip fenced code blocks.");
}

#[test]
fn test_detect_path_traversal_outside_code_blocks() {
    let options = ParseOptions::default();
    let content = r#"
        ---
        title: Example
        ---
        ../malicious/path
        "#;

    let result = validate_input(content, &options);
    assert!(
        result.is_err(),
        "Validation should detect path traversal outside fenced code blocks."
    );
}

#[test]
fn test_validate_input_null_bytes() {
    let options = ParseOptions::default();
    let malicious_content = "title: Valid\0Post";
    let result = validate_input(malicious_content, &options);
    assert!(matches!(
        result,
        Err(Error::ValidationError(ref e)) if e == "Content contains null bytes"
    ));
}

#[test]
fn test_validate_input_exceeds_max_size() {
    let options = ParseOptions::default();
    let oversized_content = "a".repeat(options.max_size + 1);
    let result = validate_input(&oversized_content, &options);
    assert!(matches!(result, Err(Error::ContentTooLarge { .. })));
}

#[test]
fn test_validate_input_contains_null_bytes() {
    let options = ParseOptions::default();
    let malicious_content = "title: Valid\0Post";
    let result = validate_input(malicious_content, &options);
    assert!(matches!(
        result,
        Err(Error::ValidationError(ref e)) if e == "Content contains null bytes"
    ));
}

#[test]
fn test_validate_input_path_traversal() {
    let options = ParseOptions::default();
    let malicious_content = "../malicious/path";
    let result = validate_input(malicious_content, &options);
    assert!(matches!(
        result,
        Err(Error::ValidationError(ref e)) if e == "Content contains path traversal patterns"
    ));
}

#[test]
fn test_parse_options_default() {
    let options = ParseOptions::default();
    assert_eq!(options.max_size, 1024 * 1024);
    assert_eq!(options.max_depth, 32);
    assert!(options.validate);
}

#[test]
fn validation_reports_exact_size_and_limit() {
    let options = ParseOptions { max_size: 5, max_depth: 32, validate: true };
    match validate_input("abcdef", &options) {
        Err(Error::ContentTooLarge { size, max }) => {
            assert_eq!(size, 6);
            assert_eq!(max, 5);
        }
        other => panic!("unexpected {:?}", other),
    }
    assert!(validate_input("abcde", &options).is_ok());
}

#[test]
fn traversal_is_reported_before_size() {
    let options = ParseOptions { max_size: 1, max_depth: 32, validate: true };
    assert!(matches!(
        validate_input("..\\x", &options),
        Err(Error::ValidationError(ref e)) if e == "Content contains path traversal patterns"
    ));
}

#[test]
fn tilde_fences_and_indentation_skip_checks() {
    let options = ParseOptions::default();
    let content = "text\n   ~~~\n\0 and ../ here\n ~~~\nmore";
    assert!(validate_input(content, &options).is_ok());
    let unclosed = "```\n../a";
    assert!(validate_input(unclosed, &options).is_ok());
    let after = "```\n../a\n```\n../b";
    assert!(validate_input(after, &options).is_err());
}

#[test]
fn parse_usize_follows_from_str() {
    assert_eq!(parse_usize("524288"), Some(524288));
    assert_eq!(parse_usize("+20"), Some(20));
    assert_eq!(parse_usize("0"), Some(0));
    assert_eq!(parse_usize(""), None);
    assert_eq!(parse_usize("+"), None);
    assert_eq!(parse_usize("-1"), None);
    assert_eq!(parse_usize("12a"), None);
    assert_eq!(parse_usize("99999999999999999999999"), None);
    assert_eq!(parse_usize(&usize::MAX.to_string()), Some(usize::MAX));
}

#[test]
fn parse_options_from_env_values() {
    let options =
        ParseOptions::from_env_values(Some("524288"), Some("20"), Some("false"));
    assert_eq!(options.max_size, 524288);
    assert_eq!(options.max_depth, 20);
    assert!(!options.validate);

    let options = ParseOptions::from_env_values(Some("lots"), None, Some("TRUE"));
    assert_eq!(options.max_size, 1024 * 1024);
    assert_eq!(options.max_depth, 32);
    assert!(options.validate);

    let options = ParseOptions::from_env_values(None, None, None);
    assert!(options.validate);

    let options = ParseOptions::from_env_values(Some("0"), Some("0"), None);
    assert_eq!(options.max_size, 1024 * 1024);
    assert_eq!(options.max_depth, 32);
    assert!(options.validate);
}

#[test]
fn extraction_steps_before_parsing() {
    let options = ParseOptions::default();
    let (raw, format, rest) =
        extract_parts("---\ntitle: x\n---\nbody", &options).unwrap();
    assert_eq!(raw, "title: x");
    assert_eq!(format, Format::Yaml);
    assert_eq!(rest, "body");
    let (raw, format, _) = extract_parts("+++\na = 1\n+++\n", &options).unwrap();
    assert_eq!(raw, "a = 1");
    assert_eq!(format, Format::Toml);
    assert!(matches!(extract_parts("plain", &options), Err(Error::InvalidFormat)));
    assert!(matches!(
        extract_parts("---\n../x\n---\n", &options),
        Err(Error::ValidationError(_))
    ));
}
