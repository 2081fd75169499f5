use frontmatter_gen::error::{Category, Context, EngineError, Error};
use std::io;
use std::sync::Arc;

#[test]
fn test_content_too_large_error() {
    let error = Error::ContentTooLarge { size: 1000, max: 500 };
    assert_eq!(
        error.to_string(),
        "Your front matter contains too many fields (1000). The maximum allowed is 500."
    );
}

#[test]
fn test_nesting_too_deep_error() {
    let error = Error::NestingTooDeep { depth: 10, max: 5 };
    assert_eq!(
        error.to_string(),
        "Your front matter is nested too deeply (10 levels). The maximum allowed nesting depth is 5."
    );
}

#[test]
fn test_json_parse_error() {
    let json_data = r#"{"key": invalid}"#;
    let result: Result<serde_json::Value, _> = serde_json::from_str(json_data);
    assert!(result.is_err());
    let error = Error::JsonParseError(Arc::new(result.unwrap_err()));
    assert!(matches!(error, Error::JsonParseError(_)));
}

#[test]
fn test_invalid_format_error() {
    let error = Error::InvalidFormat;
    assert_eq!(error.to_string(), "Invalid front matter format");
}

#[test]
fn test_conversion_error() {
    let error = Error::ConversionError("Conversion failed".to_string());
    assert_eq!(
        error.to_string(),
        "Failed to convert front matter: Conversion failed"
    );
}

#[test]
fn error_test_unsupported_format() {
    let error = Error::unsupported_format(42);
    assert!(matches!(error, Error::UnsupportedFormat { line: 42 }));
    assert_eq!(
        error.to_string(),
        "Unsupported front matter format detected at line 42"
    );
}

#[test]
fn test_no_frontmatter_found() {
    let error = Error::NoFrontmatterFound;
    assert_eq!(error.to_string(), "No front matter found in the content");
}

#[test]
fn test_invalid_json_error() {
    let error = Error::InvalidJson;
    assert_eq!(
        error.to_string(),
        "Invalid JSON front matter: malformed or invalid structure."
    );
}

#[test]
fn test_invalid_url_error() {
    let error = Error::InvalidUrl("http:// invalid.url".to_string());
    assert_eq!(
        error.to_string(),
        "Invalid URL: http:// invalid.url. Ensure the URL is well-formed and valid."
    );
}

#[test]
fn test_invalid_yaml_error() {
    let error = Error::InvalidYaml;
    assert_eq!(
        error.to_string(),
        "Invalid YAML front matter: malformed or invalid structure."
    );
}

#[test]
fn test_validation_error() {
    let error = Error::ValidationError("Invalid title".to_string());
    assert_eq!(error.to_string(), "Input validation error: Invalid title");
}

#[test]
fn test_json_depth_limit_exceeded() {
    let error = Error::JsonDepthLimitExceeded;
    assert_eq!(
        error.to_string(),
        "JSON front matter exceeds maximum nesting depth"
    );
}

#[test]
fn test_category_method() {
    let validation_error = Error::ValidationError("Invalid field".to_string());
    assert_eq!(validation_error.category(), Category::Validation);

    let conversion_error = Error::ConversionError("Conversion failed".to_string());
    assert_eq!(conversion_error.category(), Category::Conversion);

    let config_error = Error::ContentTooLarge { size: 100, max: 50 };
    assert_eq!(config_error.category(), Category::Configuration);
}

#[test]
fn test_error_clone() {
    let original = Error::ContentTooLarge { size: 200, max: 100 };
    let cloned = original.clone();
    assert!(
        matches!(cloned, Error::ContentTooLarge { size, max } if size == 200 && max == 100)
    );
}

#[test]
fn test_content_error() {
    let error = EngineError::ContentError("Processing failed".to_string());
    assert_eq!(
        error.to_string(),
        "Content processing error: Processing failed"
    );
}

#[test]
fn test_engine_error_to_error_conversion() {
    let io_error = io::Error::new(io::ErrorKind::Other, "disk full");
    let engine_error = EngineError::FileSystemError {
        source: io_error,
        context: "Saving file".to_string(),
    };
    let converted: Error = Error::from_engine_error(engine_error);
    assert!(converted.to_string().contains("disk full"));
    assert!(converted.to_string().contains("Saving file"));
}

#[test]
fn test_context_display() {
    let context = Context {
        line: Some(42),
        column: Some(10),
        snippet: Some("invalid key".to_string()),
    };
    assert_eq!(context.to_string(), "at 42:10 near 'invalid key'");
}

#[test]
fn test_context_missing_fields() {
    let context = Context {
        line: None,
        column: None,
        snippet: Some("example snippet".to_string()),
    };
    assert_eq!(context.to_string(), "at 0:0 near 'example snippet'");
}

#[test]
fn test_io_error_conversion() {
    let io_error = io::Error::new(io::ErrorKind::NotFound, "file missing");
    let error: Error = Error::from_io_error(io_error);
    assert!(matches!(error, Error::ParseError(_)));
    assert!(error.to_string().contains("file missing"));
}

#[test]
fn test_engine_error_conversion() {
    let engine_error = EngineError::ContentError("content failed".to_string());
    let error: Error = Error::from_engine_error(engine_error);
    assert!(matches!(error, Error::ParseError(_)));
    assert!(error.to_string().contains("content failed"));
}

#[test]
fn with_context_extends_parse_errors_only() {
    let context = Context { line: Some(3), column: None, snippet: None };
    let e = Error::generic_parse_error("bad key").with_context(&context);
    assert!(matches!(e, Error::ParseError(ref m) if m == "bad key (line: 3, column: 0)"));
    let e = Error::ParseError("x".to_string()).with_context(&Context {
        line: Some(1),
        column: Some(2),
        snippet: Some("s".to_string()),
    });
    assert_eq!(
        e.to_string(),
        "Failed to parse front matter: x (line: 1, column: 2) near 's'"
    );
    let e = Error::InvalidToml.with_context(&context);
    assert!(matches!(e, Error::InvalidToml));
    assert_eq!(Context { line: None, column: None, snippet: None }.to_string(), "at 0:0");
}

#[test]
fn every_category_and_constructor() {
    assert_eq!(Error::Other("o".to_string()).category(), Category::Configuration);
    assert_eq!(Error::NestingTooDeep { depth: 1, max: 0 }.category(), Category::Configuration);
    assert_eq!(Error::InvalidLanguage("x".to_string()).category(), Category::Parsing);
    assert_eq!(Error::NoFrontmatterFound.category(), Category::Parsing);
    assert!(matches!(Error::validation_error("v"), Error::ValidationError(ref m) if m == "v"));
    assert_eq!(Error::Other("o".to_string()).to_string(), "Generic error: o");
    assert_eq!(Error::ExtractionError("e".to_string()).to_string(), "Extraction error: e");
    assert_eq!(Error::InvalidLanguage("zz".to_string()).to_string(), "Invalid language code: zz");
    assert_eq!(
        Error::InvalidToml.to_string(),
        "Invalid TOML front matter: malformed or invalid structure."
    );
    assert_eq!(Error::ParseError("p".to_string()).to_string(), "Failed to parse front matter: p");
}

#[test]
fn outside_errors_keep_their_prefix() {
    let json_err = serde_json::from_str::<serde_json::Value>("{").unwrap_err();
    let e = Error::JsonParseError(Arc::new(json_err));
    assert!(e.to_string().starts_with("Failed to parse JSON: "));
    let toml_err = "x = = 1".parse::<toml::Value>().unwrap_err();
    let e = Error::TomlParseError(toml_err);
    assert!(e.to_string().starts_with("Failed to parse TOML: "));
    let c = e.clone();
    assert!(matches!(c, Error::TomlParseError(_)));
}

#[test]
fn engine_errors_display_and_convert() {
    assert_eq!(
        EngineError::TemplateError("t".to_string()).to_string(),
        "Template processing error: t"
    );
    assert_eq!(EngineError::AssetError("a".to_string()).to_string(), "Asset processing error: a");
    assert_eq!(EngineError::MetadataError("m".to_string()).to_string(), "Metadata error: m");
    let e = Error::from_engine_error(EngineError::TemplateError("t".to_string()));
    assert!(matches!(e, Error::ParseError(ref m) if m == "Template error: t"));
    let e = Error::from_engine_error(EngineError::AssetError("a".to_string()));
    assert!(matches!(e, Error::ParseError(ref m) if m == "Asset error: a"));
    let e = Error::from_engine_error(EngineError::MetadataError("m".to_string()));
    assert!(matches!(e, Error::ParseError(ref m) if m == "Metadata error: m"));
    let fs = EngineError::FileSystemError {
        source: io::Error::new(io::ErrorKind::NotFound, "gone"),
        context: "ctx".to_string(),
    };
    match fs.clone() {
        EngineError::FileSystemError { source, context } => {
            assert_eq!(context, "ctx");
            assert_eq!(source.kind(), io::ErrorKind::NotFound);
            assert_eq!(source.to_string(), "gone");
        }
        other => panic!("unexpected {:?}", other),
    }
    let e = Error::from_engine_error(fs);
    assert!(matches!(e, Error::ParseError(ref m) if m == "File system error: gone (ctx)"));
}
