use frontmatter_gen::error::Error;
use frontmatter_gen::extractor::{
    detect_format, extract_delimited_frontmatter, extract_json_frontmatter,
    extract_raw_frontmatter,
};
use frontmatter_gen::Format;

#[test]
fn test_extract_raw_frontmatter_yaml() {
    let content = r#"---
title: Example
---
Content here"#;
    let result = extract_raw_frontmatter(content).unwrap();
    assert_eq!(result.0, "title: Example");
    assert_eq!(result.1, "Content here");
}

#[test]
fn test_extract_raw_frontmatter_toml() {
    let content = r#"+++
title = "Example"
+++
Content here"#;
    let result = extract_raw_frontmatter(content).unwrap();
    assert_eq!(result.0, r#"title = "Example""#);
    assert_eq!(result.1, "Content here");
}

#[test]
fn test_extract_raw_frontmatter_json() {
    let content = r#"{ "title": "Example" }
Content here"#;
    let result = extract_raw_frontmatter(content).unwrap();
    assert_eq!(result.0, r#"{ "title": "Example" }"#);
    assert_eq!(result.1, "Content here");
}

#[test]
fn test_extract_json_frontmatter() {
    let content = r#"{ "title": "Example" }
Content here"#;
    let result = extract_json_frontmatter(content).unwrap();
    assert_eq!(result, r#"{ "title": "Example" }"#);
}

#[test]
fn test_extract_json_frontmatter_deeply_nested() {
    let content = r#"{ "a": { "b": { "c": { "d": { "e": {} }}}}}
Content here"#;
    let result = extract_json_frontmatter(content);
    assert!(result.is_ok());
    assert_eq!(
        result.unwrap(),
        r#"{ "a": { "b": { "c": { "d": { "e": {} }}}}}"#
    );
}

#[test]
fn test_extract_json_frontmatter_too_deep() {
    let mut content = String::from("{ ");
    for _ in 0..101 {
        content.push_str(r#""a": { "#);
    }
    content.push_str(&"}".repeat(101));
    content.push_str("\nContent here");

    let result = extract_json_frontmatter(&content);
    assert!(matches!(result, Err(Error::JsonDepthLimitExceeded)));
}

#[test]
fn test_extract_raw_frontmatter_invalid() {
    let content = "Invalid frontmatter";
    let result = extract_raw_frontmatter(content);
    assert!(matches!(result, Err(Error::InvalidFormat)));
}

#[test]
fn test_detect_format() {
    let yaml = "title: Example";
    let toml = "title = \"Example\"";
    let json = "{ \"title\": \"Example\" }";

    assert_eq!(detect_format(yaml).unwrap(), Format::Yaml);
    assert_eq!(detect_format(toml).unwrap(), Format::Toml);
    assert_eq!(detect_format(json).unwrap(), Format::Json);
}

#[test]
fn test_extract_delimited_frontmatter() {
    let content = "---\\ntitle: Example\\n---\\nContent here";
    let result =
        extract_delimited_frontmatter(content, "---\\n", "\\n---\\n").unwrap();
    assert_eq!(result, "title: Example");
}

#[test]
fn test_extract_json_frontmatter_with_escaped_characters() {
    let content = r#"{ "title": "Example with \"quotes\" and {braces}", "content": "Some text with \\ backslash" }
Actual content starts here"#;
    let result = extract_json_frontmatter(content).unwrap();
    assert_eq!(
        result,
        r#"{ "title": "Example with \"quotes\" and {braces}", "content": "Some text with \\ backslash" }"#
    );
}

#[test]
fn yaml_roundtrip_gives_back_front_matter_and_body() {
    let fm = "title: Hello\ntags: [a, b]";
    let body = "# Heading\nText with --- inside a line\n";
    let content = format!("---\n{}\n---\n{}", fm, body);
    let (raw, rest) = extract_raw_frontmatter(&content).unwrap();
    assert_eq!(raw, fm);
    assert_eq!(rest, body);
}

#[test]
fn toml_roundtrip_gives_back_front_matter_and_body() {
    let fm = "title = \"Hello\"\ndraft = false";
    let body = "Body +++ text\n";
    let content = format!("+++\n{}\n+++\n{}", fm, body);
    let (raw, rest) = extract_raw_frontmatter(&content).unwrap();
    assert_eq!(raw, fm);
    assert_eq!(rest, body);
}

#[test]
fn yaml_without_closing_line_is_not_front_matter() {
    let content = "---\ntitle: \"Incomplete\nContent";
    assert!(matches!(
        extract_raw_frontmatter(content),
        Err(Error::InvalidFormat)
    ));
    let toml = "+++\ntitle = 1\nno closing line";
    assert!(matches!(
        extract_raw_frontmatter(toml),
        Err(Error::InvalidFormat)
    ));
}

#[test]
fn empty_yaml_and_toml_blocks() {
    let (raw, rest) = extract_raw_frontmatter("---\n---\nContent here").unwrap();
    assert_eq!(raw, "");
    assert_eq!(rest, "Content here");
    let (raw, rest) = extract_raw_frontmatter("+++\n+++\nContent here").unwrap();
    assert_eq!(raw, "");
    assert_eq!(rest, "Content here");
}

#[test]
fn json_with_leading_whitespace_and_trimmed_body() {
    let (raw, rest) = extract_raw_frontmatter("\n{\"a\":1}\nbody").unwrap();
    assert_eq!(raw, "{\"a\":1}");
    assert_eq!(rest, "body");
    let content = "  \n{\"a\": {\"b\": \"}\"}}   \n\n  body";
    let (raw, rest) = extract_raw_frontmatter(content).unwrap();
    assert_eq!(raw, "{\"a\": {\"b\": \"}\"}}");
    assert_eq!(rest, "body");
    let flush = "{\"a\": 1}   \n\n  body";
    let (raw, rest) = extract_raw_frontmatter(flush).unwrap();
    assert_eq!(raw, "{\"a\": 1}");
    assert_eq!(rest, "body");
}

#[test]
fn json_unclosed_is_invalid_json() {
    assert!(matches!(
        extract_json_frontmatter("{ \"a\": 1"),
        Err(Error::InvalidJson)
    ));
    assert!(matches!(
        extract_json_frontmatter("no brace"),
        Err(Error::InvalidJson)
    ));
}

#[test]
fn json_at_depth_limit_is_accepted() {
    let mut content = String::new();
    for _ in 0..100 {
        content.push('{');
    }
    for _ in 0..100 {
        content.push('}');
    }
    assert_eq!(extract_json_frontmatter(&content).unwrap(), content);
}

#[test]
fn json_after_multibyte_whitespace() {
    let (raw, rest) = extract_raw_frontmatter("\u{3000}{}").unwrap();
    assert_eq!(raw, "{}");
    assert_eq!(rest, "");
    let (raw, rest) = extract_raw_frontmatter("\u{3000}{}x").unwrap();
    assert_eq!(raw, "{}");
    assert_eq!(rest, "x");
}

#[test]
fn delimited_requires_the_start_delimiter() {
    assert_eq!(extract_delimited_frontmatter("abc", "---", "---"), None);
    assert_eq!(
        extract_delimited_frontmatter("<<a>>rest", "<<", ">>"),
        Some("a")
    );
    assert_eq!(
        extract_delimited_frontmatter("<<no end", "<<", ">>"),
        None
    );
}

#[test]
fn detect_format_of_empty_is_yaml() {
    assert_eq!(detect_format("   ").unwrap(), Format::Yaml);
    assert_eq!(detect_format("  {x").unwrap(), Format::Json);
}

#[test]
fn delimited_without_end_is_none() {
    assert_eq!(
        extract_delimited_frontmatter("---\ntitle: Example\nContent", "---\n", "\n---\n"),
        None
    );
}
