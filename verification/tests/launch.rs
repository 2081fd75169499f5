use frontmatter_gen::launch::{
    get_enabled_features, level_filter_from_name, select_mode, Level, LevelFilter, Logger, Mode,
};

#[test]
fn test_enabled_features() {
    let features = get_enabled_features(true, true);
    assert!(!features.is_empty(), "Should list enabled features or 'none'");
}

#[test]
fn test_get_enabled_features_none() {
    let features = get_enabled_features(false, false);
    assert_eq!(features, "none");
}

#[test]
fn test_get_enabled_features_cli() {
    let features = get_enabled_features(true, false);
    assert_eq!(features, "cli");
}

#[test]
fn test_get_enabled_features_ssg() {
    let features = get_enabled_features(false, true);
    assert_eq!(features, "ssg");
}

#[test]
fn test_get_enabled_features_both() {
    let features = get_enabled_features(true, true);
    assert_eq!(features, "cli, ssg");
}

#[test]
fn test_logger_flush() {
    let logger = Logger;
    logger.flush();
}

#[test]
fn test_get_enabled_features_order() {
    let features = get_enabled_features(true, true);
    assert!(
        features == "cli, ssg" || features == "ssg, cli",
        "Features should include both 'cli' and 'ssg'"
    );
}

#[test]
fn test_logger_enabled() {
    let logger = Logger;
    assert!(logger.enabled());
}

#[test]
fn modes_follow_features_and_first_argument() {
    let args = |a: &[&str]| a.iter().map(|s| s.to_string()).collect::<Vec<String>>();
    assert_eq!(select_mode(true, false, &args(&["p", "build"])), Some(Mode::Cli));
    assert_eq!(select_mode(false, true, &args(&["p"])), Some(Mode::Ssg));
    assert_eq!(select_mode(true, true, &args(&["p", "serve"])), Some(Mode::Ssg));
    assert_eq!(select_mode(true, true, &args(&["p", "build"])), Some(Mode::Ssg));
    assert_eq!(select_mode(true, true, &args(&["p", "extract", "x"])), Some(Mode::Cli));
    assert_eq!(select_mode(true, true, &args(&["p"])), Some(Mode::Cli));
    assert_eq!(select_mode(false, false, &args(&["p"])), None);
}

#[test]
fn level_names_and_colours() {
    assert_eq!(level_filter_from_name("DEBUG"), Some(LevelFilter::Debug));
    assert_eq!(level_filter_from_name("warn"), Some(LevelFilter::Warn));
    assert_eq!(level_filter_from_name("Off"), Some(LevelFilter::Off));
    assert_eq!(level_filter_from_name("error"), Some(LevelFilter::Error));
    assert_eq!(level_filter_from_name("info"), Some(LevelFilter::Info));
    assert_eq!(level_filter_from_name("trace"), Some(LevelFilter::Trace));
    assert_eq!(level_filter_from_name("invalid_level"), None);
    assert_eq!(level_filter_from_name(""), None);
    let logger = Logger;
    assert_eq!(logger.level_color(Level::Error), "\x1b[31m");
    assert_eq!(logger.level_color(Level::Warn), "\x1b[33m");
    assert_eq!(logger.level_color(Level::Info), "\x1b[32m");
    assert_eq!(logger.level_color(Level::Debug), "\x1b[36m");
    assert_eq!(logger.level_color(Level::Trace), "\x1b[90m");
}
