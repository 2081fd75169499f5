use frontmatter_gen::cli::{check_required_fields, output_format, Cli, Commands};
use frontmatter_gen::config::ConfigError;
use frontmatter_gen::ssg::{BuildArgs, ServeArgs, SsgCommand, SsgError, SsgSubCommand};
use frontmatter_gen::{Format, Frontmatter, Value};

#[test]
fn format_names_select_formats_in_any_case() {
    assert_eq!(output_format("yaml"), Ok(Format::Yaml));
    assert_eq!(output_format("YAML"), Ok(Format::Yaml));
    assert_eq!(output_format("Toml"), Ok(Format::Toml));
    assert_eq!(output_format("json"), Ok(Format::Json));
    assert_eq!(output_format("xml"), Err("Unsupported format: xml".to_string()));
}

#[test]
fn required_fields_are_checked_in_order() {
    let mut fm = Frontmatter::new();
    let _ = fm.insert("title".to_string(), Value::String("T".to_string()));
    let _ = fm.insert("date".to_string(), Value::String("D".to_string()));
    assert_eq!(check_required_fields(&fm, "title,date"), Ok(()));
    assert_eq!(check_required_fields(&fm, "title"), Ok(()));
    assert_eq!(
        check_required_fields(&fm, "title,author,tags"),
        Err("Missing required field: author".to_string())
    );
    assert_eq!(
        check_required_fields(&fm, "title,"),
        Err("Missing required field: ".to_string())
    );
    assert_eq!(
        check_required_fields(&fm, " title"),
        Err("Missing required field:  title".to_string())
    );
}

#[test]
fn commands_hold_their_arguments() {
    let cli = Cli {
        command: Commands::Validate {
            input: "input.md".to_string(),
            required: Some("title,date".to_string()),
        },
    };
    match cli.command {
        Commands::Validate { input, required } => {
            assert_eq!(input, "input.md");
            assert_eq!(required, Some("title,date".to_string()));
        }
        _ => panic!("Expected Validate command"),
    }
}

#[test]
fn generator_default_configuration() {
    let cmd = SsgCommand {
        content_dir: "content".to_string(),
        output_dir: "public".to_string(),
        template_dir: "templates".to_string(),
        config: None,
        command: SsgSubCommand::Build(BuildArgs { clean: true }),
    };
    let config = cmd.default_config().unwrap();
    assert_eq!(config.site_name, "Static Site");
    assert_eq!(config.content_dir, "content");
    assert_eq!(config.output_dir, "public");
    assert_eq!(config.template_dir, "templates");

    let bad = SsgCommand {
        content_dir: "../content".to_string(),
        output_dir: "public".to_string(),
        template_dir: "templates".to_string(),
        config: None,
        command: SsgSubCommand::Serve(ServeArgs { port: 8000 }),
    };
    assert!(matches!(bad.default_config(), Err(ConfigError::InvalidDirectory { .. })));
}

#[test]
fn generator_errors_display() {
    assert_eq!(
        SsgError::ConfigurationError("c".to_string()).to_string(),
        "Configuration error: c"
    );
    assert_eq!(SsgError::BuildError("b".to_string()).to_string(), "Build error: b");
    assert_eq!(SsgError::ServerError("s".to_string()).to_string(), "Server error: s");
    assert_eq!(
        SsgError::FileSystemError {
            path: "out".to_string(),
            message: "denied".to_string()
        }
        .to_string(),
        "File system error for path 'out': denied"
    );
}
