use frontmatter_gen::config::{
    default_base_url, default_content_dir, default_language, default_output_dir,
    default_port, default_site_description, default_site_title, default_template_dir,
    Config, ConfigError,
};
use frontmatter_gen::utils::UtilsError;
use std::path::PathBuf;

#[test]
fn test_default_site_title() {
    assert_eq!(default_site_title(), "My Shokunin Site");
}

#[test]
fn test_default_site_description() {
    assert_eq!(default_site_description(), "A site built with Shokunin");
}

#[test]
fn test_default_language() {
    assert_eq!(default_language(), "en-GB");
}

#[test]
fn test_default_base_url() {
    assert_eq!(default_base_url(), "http://localhost:8000");
}

#[test]
fn test_default_content_dir() {
    assert_eq!(PathBuf::from(default_content_dir()), PathBuf::from("content"));
}

#[test]
fn test_default_output_dir() {
    assert_eq!(PathBuf::from(default_output_dir()), PathBuf::from("public"));
}

#[test]
fn test_default_template_dir() {
    assert_eq!(PathBuf::from(default_template_dir()), PathBuf::from("templates"));
}

#[test]
fn test_builder_initialization() {
    let builder = Config::builder();
    assert_eq!(builder.site_name, None);
    assert_eq!(builder.site_title, None);
    assert_eq!(builder.site_description, None);
    assert_eq!(builder.language, None);
    assert_eq!(builder.base_url, None);
    assert_eq!(builder.content_dir, None);
    assert_eq!(builder.output_dir, None);
    assert_eq!(builder.template_dir, None);
    assert_eq!(builder.serve_dir, None);
    assert!(!builder.server_enabled);
    assert_eq!(builder.server_port, None);
}

#[test]
fn test_builder_defaults_applied() {
    let config = Config::builder().site_name("Test Site").build().unwrap();

    assert_eq!(config.site_title, default_site_title());
    assert_eq!(config.site_description, default_site_description());
    assert_eq!(config.language, default_language());
    assert_eq!(config.base_url, default_base_url());
    assert_eq!(config.content_dir, default_content_dir());
    assert_eq!(config.output_dir, default_output_dir());
    assert_eq!(config.template_dir, default_template_dir());
    assert_eq!(config.server_port, default_port());
    assert!(!config.server_enabled);
    assert!(config.serve_dir.is_none());
}

#[test]
fn test_builder_missing_site_name() {
    let result = Config::builder().build();
    assert!(result.is_err(), "Builder should fail without site_name");
}

#[test]
fn test_builder_empty_values() {
    let result = Config::builder().site_name("").site_title("").build();
    assert!(result.is_err(), "Empty values should fail validation");
}

#[test]
fn test_unique_id_generation() {
    let config1 = Config::builder().site_name("Site 1").build().unwrap();
    let config2 = Config::builder().site_name("Site 2").build().unwrap();
    assert_ne!(config1.id(), config2.id(), "IDs should be unique");
}

#[test]
fn test_builder_long_values() {
    let long_string = "a".repeat(256);
    let result = Config::builder()
        .site_name(&long_string)
        .site_title(&long_string)
        .build();
    assert!(result.is_ok(), "Long values should not cause validation errors");
}

#[test]
fn test_empty_site_name() {
    let result = Config::builder().site_name("").content_dir("content").build();
    assert!(result.is_err(), "Empty site name should fail validation");
}

#[test]
fn test_invalid_url_format() {
    let invalid_urls = vec!["not-a-url", "http://", "://invalid", "http//missing-colon"];
    for url in invalid_urls {
        let result = Config::builder().site_name("Test Site").base_url(url).build();
        assert!(result.is_err(), "URL '{}' should fail validation", url);
    }
}

#[test]
fn test_validate_path_safety_mocked() {
    let path = PathBuf::from("valid/path");
    let result = Config::builder()
        .site_name("Test Site")
        .content_dir(path.to_str().unwrap())
        .build();
    assert!(result.is_ok(), "Valid path should pass validation");
}

#[test]
fn test_config_error_display() {
    let error = ConfigError::InvalidSiteName("Empty name".to_string());
    assert_eq!(error.to_string(), "Invalid site name: Empty name");
}

#[test]
fn test_invalid_path_error() {
    let error = ConfigError::InvalidPath {
        path: "invalid/path".to_string(),
        details: "Unsafe path detected".to_string(),
    };
    assert_eq!(
        error.to_string(),
        "Invalid directory path 'invalid/path': Unsafe path detected"
    );
}

#[test]
fn test_file_error_conversion() {
    let io_error = std::io::Error::new(std::io::ErrorKind::NotFound, "File not found");
    let error: ConfigError = ConfigError::FileError(io_error);
    assert_eq!(error.to_string(), "Configuration file error: File not found");
}

#[test]
fn test_is_valid_language_code() {
    let config = Config::builder().site_name("Test").build().unwrap();
    assert!(config.is_valid_language_code("en-US"));
    assert!(!config.is_valid_language_code("invalid-code"));
}

#[test]
fn test_is_valid_port() {
    let config = Config::builder().site_name("Test").build().unwrap();
    assert!(config.is_valid_port(1024));
    assert!(!config.is_valid_port(1023));
}

#[test]
fn test_config_display_format() {
    let config = Config::builder()
        .site_name("Test Site")
        .site_title("Display Title")
        .content_dir("test_content")
        .output_dir("test_output")
        .template_dir("test_templates")
        .build()
        .unwrap();

    let display = config.to_string();
    assert!(display.contains("Site: Test Site (Display Title)"));
    assert!(display.contains("Content: test_content"));
    assert!(display.contains("Output: test_output"));
    assert!(display.contains("Templates: test_templates"));
}

#[test]
fn test_clone_retains_all_fields() {
    let original = Config::builder()
        .site_name("Original")
        .site_title("Clone Test")
        .build()
        .unwrap();

    let cloned = original.clone();

    assert_eq!(original.site_name, cloned.site_name);
    assert_eq!(original.site_title, cloned.site_title);
    assert_eq!(original.id(), cloned.id());
}

#[test]
fn validation_reports_the_first_broken_rule() {
    let e = Config::builder().site_name("  ").build().unwrap_err();
    assert!(matches!(e, ConfigError::InvalidSiteName(ref m) if m == "Site name cannot be empty"));

    let e = Config::builder()
        .site_name("S")
        .output_dir("../out")
        .base_url("bad")
        .build()
        .unwrap_err();
    assert_eq!(e.to_string(), "Invalid output_dir path: ../out");
    match e {
        ConfigError::InvalidDirectory { name, path, source } => {
            assert_eq!(name, "output_dir");
            assert_eq!(path, "../out");
            match source {
                UtilsError::InvalidPath { path, details } => {
                    assert_eq!(path, "../out");
                    assert_eq!(details, "Path traversal not allowed");
                }
                other => panic!("unexpected {:?}", other),
            }
        }
        other => panic!("unexpected {:?}", other),
    }

    let e = Config::builder().site_name("S").base_url("bad").build().unwrap_err();
    assert!(matches!(e, ConfigError::InvalidUrl(ref u) if u == "bad"));

    let e = Config::builder().site_name("S").language("EN-gb").build().unwrap_err();
    assert!(matches!(e, ConfigError::InvalidLanguage(ref l) if l == "EN-gb"));
    assert_eq!(
        e.to_string(),
        "Invalid language code 'EN-gb': must be in format 'xx-XX'"
    );

    let e = Config::builder()
        .site_name("S")
        .server_enabled(true)
        .server_port(80)
        .build()
        .unwrap_err();
    assert!(matches!(e, ConfigError::ServerError(ref m) if m == "Invalid port number: 80"));

    let ok = Config::builder().site_name("S").server_enabled(true).server_port(8080).build();
    let ok = ok.unwrap();
    assert_eq!(ok.server_port(), Some(8080));
    assert!(ok.server_enabled());
    assert_eq!(ok.site_name(), "S");

    let off = Config::builder().site_name("S").server_port(80).build().unwrap();
    assert_eq!(off.server_port(), None);
}

#[test]
fn serve_dir_is_checked_and_reserved_names_refused() {
    let e = Config::builder()
        .site_name("S")
        .serve_dir("site/aux")
        .build()
        .unwrap_err();
    assert_eq!(e.to_string(), "Invalid serve_dir path: site/aux");
    assert!(matches!(e, ConfigError::InvalidDirectory {
        source: UtilsError::InvalidPath { ref details, .. }, ..
    } if details == "Reserved file name not allowed"));
    let e = Config::builder().site_name("S").serve_dir("/srv/www").build().unwrap_err();
    assert_eq!(e.to_string(), "Invalid serve_dir path: /srv/www");
    let ok = Config::builder().site_name("S").serve_dir("srv/www").build();
    assert!(ok.is_ok());
}

#[test]
fn unicode_whitespace_site_name_is_blank() {
    let e = Config::builder().site_name("\u{3000}\t \u{2009}").build().unwrap_err();
    assert!(matches!(e, ConfigError::InvalidSiteName(_)));
    let ok = Config::builder().site_name("\u{3000}S\u{85}").build().unwrap();
    assert_eq!(ok.site_name(), "\u{3000}S\u{85}");
}
