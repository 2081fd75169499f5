use frontmatter_gen::document::{node_value, DocNode};
use frontmatter_gen::error::Error;
use frontmatter_gen::parser::{parse, parse_with_options, MAX_KEYS};
use frontmatter_gen::{extract, Format, ParseOptions, Value};

fn extract_default(content: &str) -> Result<(frontmatter_gen::Frontmatter, &str), Error> {
    extract(content, &ParseOptions::default())
}

#[test]
fn test_parse_yaml_frontmatter() {
    let raw = "title: Test Post\npublished: true";
    let parsed = parse(raw, Format::Yaml).unwrap();
    assert_eq!(parsed.get("title").unwrap().as_str().unwrap(), "Test Post");
    assert!(parsed.get("published").unwrap().as_bool().unwrap());
}

#[test]
fn test_parse_toml_frontmatter() {
    let raw = "title = \"Test Post\"\npublished = true";
    let parsed = parse(raw, Format::Toml).unwrap();
    assert_eq!(parsed.get("title").unwrap().as_str().unwrap(), "Test Post");
    assert!(parsed.get("published").unwrap().as_bool().unwrap());
}

#[test]
fn test_invalid_yaml_syntax() {
    assert!(parse("title: : invalid yaml", Format::Yaml).is_err());
}

#[test]
fn test_parse_invalid_toml_syntax() {
    let result = parse("title = \"Unmatched quote", Format::Toml);
    assert!(result.is_err(), "Should fail for invalid TOML syntax");
}

#[test]
fn test_parse_invalid_json_syntax() {
    let result = parse("{\"title\": \"Missing closing brace\"", Format::Json);
    assert!(result.is_err(), "Should fail for invalid JSON syntax");
}

#[test]
fn test_parse_with_unknown_format() {
    let result = parse("random text", Format::Unsupported);
    assert!(result.is_err(), "Should fail for unsupported formats");
}

#[test]
fn test_parse_valid_yaml() {
    let frontmatter = parse("title: Valid Post\npublished: true", Format::Yaml).unwrap();
    assert_eq!(frontmatter.get("title").unwrap().as_str().unwrap(), "Valid Post");
    assert!(frontmatter.get("published").unwrap().as_bool().unwrap());
}

#[test]
fn test_parse_malformed_yaml() {
    let result = parse("title: : bad yaml", Format::Yaml);
    assert!(result.is_err(), "Should fail for malformed YAML");
}

#[test]
fn test_parse_json() {
    let raw = r#"{"title": "Valid Post", "draft": false}"#;
    let frontmatter = parse(raw, Format::Json).unwrap();
    assert_eq!(frontmatter.get("title").unwrap().as_str().unwrap(), "Valid Post");
    assert!(!frontmatter.get("draft").unwrap().as_bool().unwrap());
}

#[test]
fn test_end_to_end_extraction_and_parsing() {
    let content = "---\ntitle: Test Post\n---\nContent here";
    let (frontmatter, content) = extract_default(content).unwrap();
    assert_eq!(frontmatter.get("title").unwrap().as_str().unwrap(), "Test Post");
    assert_eq!(content.trim(), "Content here");
}

#[test]
fn test_complete_workflow() {
    let content = "---\ntitle: Integration Test\n---\nBody content";
    let (frontmatter, body) = extract_default(content).unwrap();
    assert_eq!(frontmatter.get("title").unwrap().as_str().unwrap(), "Integration Test");
    assert_eq!(body.trim(), "Body content");
}

#[test]
fn test_end_to_end_error_handling() {
    assert!(extract_default("Invalid frontmatter").is_err());
}

#[test]
fn test_special_characters_handling() {
    let cases = vec![
        ("---\ntitle: \"Special: &chars\"\n---\nContent", "Special: &chars"),
        ("---\ntitle: \"Another > test\"\n---\nContent", "Another > test"),
    ];
    for (content, expected_title) in cases {
        let (frontmatter, _) = extract_default(content).unwrap();
        assert_eq!(frontmatter.get("title").unwrap().as_str().unwrap(), expected_title);
    }
}

#[test]
fn test_large_frontmatter() {
    let mut large_content = String::from("---\n");
    for i in 0..1000 {
        large_content.push_str(&format!("key_{}: value_{}\n", i, i));
    }
    large_content.push_str("---\nContent");
    let (frontmatter, content) = extract_default(&large_content).unwrap();
    assert_eq!(frontmatter.len(), 1000);
    assert_eq!(content.trim(), "Content");
}

#[test]
fn test_special_characters() {
    let content = "---\ntitle: \"Special & <characters>\"\n---\nContent";
    let (frontmatter, _) = extract_default(content).unwrap();
    assert_eq!(
        frontmatter.get("title").unwrap().as_str().unwrap(),
        "Special & <characters>"
    );
}

#[test]
fn test_parse_options() {
    let yaml = r"
        nested:
          level1:
            level2:
              value: test
        ";
    assert!(parse_with_options(yaml, Format::Yaml, None).is_ok());
    let restricted_options =
        frontmatter_gen::parser::ParseOptions { max_depth: 2, max_keys: MAX_KEYS, validate: true };
    assert!(parse_with_options(yaml, Format::Yaml, Some(restricted_options)).is_err());
}

#[test]
fn test_error_handling() {
    assert!(matches!(
        parse("test: : invalid", Format::Yaml),
        Err(Error::YamlParseError { .. })
    ));
    assert!(matches!(
        parse("test = = invalid", Format::Toml),
        Err(Error::TomlParseError(_))
    ));
    assert!(matches!(
        parse("{invalid}", Format::Json),
        Err(Error::JsonParseError(_))
    ));
}

#[test]
fn test_large_integer_conversion() {
    let large_i64 = 1_i64 << 53;
    let node = DocNode::Number { integer: Some(large_i64), float_bits: Some((large_i64 as f64).to_bits()) };
    assert_eq!(node_value(&node, true), Value::Number(0.0f64.to_bits()));
}

#[test]
fn parsed_values_keep_their_kinds() {
    let fm = parse(
        "n: 3\nf: 1.5\nbig: 9007199254740993\nlist: [1, two]\ninner:\n  k: v\ntagged: !tag x",
        Format::Yaml,
    )
    .unwrap();
    assert_eq!(fm.get("n"), Some(&Value::Number(3.0f64.to_bits())));
    assert_eq!(fm.get("f"), Some(&Value::Number(1.5f64.to_bits())));
    assert_eq!(fm.get("big"), Some(&Value::Number(0)));
    match fm.get("list") {
        Some(Value::Array(items)) => {
            assert_eq!(items[0], Value::Number(1.0f64.to_bits()));
            assert_eq!(items[1], Value::String("two".to_string()));
        }
        other => panic!("unexpected {:?}", other),
    }
    match fm.get("inner") {
        Some(Value::Object(inner)) => {
            assert_eq!(inner.get("k"), Some(&Value::String("v".to_string())));
        }
        other => panic!("unexpected {:?}", other),
    }
    assert!(matches!(fm.get("tagged"), Some(Value::Tagged(_, _))));
    let toml = parse("big = 9007199254740993\nwhen = 1979-05-27", Format::Toml).unwrap();
    assert_eq!(toml.get("big"), Some(&Value::Number((9007199254740993i64 as f64).to_bits())));
    assert_eq!(toml.get("when"), Some(&Value::String("1979-05-27".to_string())));
    assert!(matches!(parse("- a\n- b", Format::Yaml), Err(Error::ParseError(_))));
    assert!(matches!(parse("[1, 2]", Format::Json), Err(Error::ConversionError(_))));
}

#[test]
fn parser_error_message_is_shown() {
    let e = parse("{invalid}", Format::Json).unwrap_err();
    let text = e.to_string();
    assert!(text.starts_with("Failed to parse JSON: "));
    assert!(text.len() > "Failed to parse JSON: ".len());
    assert_eq!(e.clone().to_string(), text);
}
