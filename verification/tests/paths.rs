use frontmatter_gen::utils::{check_path_safety, validate_path_safety, UtilsError};

fn details(r: Result<(), UtilsError>) -> String {
    match r {
        Err(UtilsError::InvalidPath { details, .. }) => details,
        other => panic!("unexpected {:?}", other),
    }
}

#[test]
fn test_path_validation_edge_cases() {
    assert!(validate_path_safety("content/📚").is_ok());

    let long_name = "a".repeat(255);
    assert!(validate_path_safety(&long_name).is_ok());

    assert!(validate_path_safety("content/#$@!").is_ok());
}

#[test]
fn path_rules_in_order() {
    assert_eq!(
        details(check_path_safety("a\\..\\b", false)),
        "Backslashes are not allowed in paths"
    );
    assert_eq!(
        details(check_path_safety("content\0hidden", false)),
        "Path contains invalid characters"
    );
    assert_eq!(
        details(check_path_safety("a/\u{85}b", false)),
        "Path contains invalid characters"
    );
    assert_eq!(details(check_path_safety("../outside", false)), "Path traversal not allowed");
    assert_eq!(
        details(check_path_safety("/absolute/path", false)),
        "Absolute paths are not allowed"
    );
    assert_eq!(details(check_path_safety("link", true)), "Symlinks are not allowed");
    assert_eq!(details(check_path_safety("CON", false)), "Reserved file name not allowed");
    assert_eq!(
        details(check_path_safety("dir/Lpt1/./", false)),
        "Reserved file name not allowed"
    );
    assert!(check_path_safety("con.txt", false).is_ok());
    assert!(check_path_safety("content/file.txt", false).is_ok());
    assert!(check_path_safety(".", false).is_ok());
    assert!(check_path_safety("", false).is_ok());
}

#[test]
fn invalid_path_error_names_the_path() {
    match check_path_safety("../x", false) {
        Err(UtilsError::InvalidPath { path, .. }) => assert_eq!(path, "../x"),
        other => panic!("unexpected {:?}", other),
    }
}

#[test]
fn path_validation_accepts_relative_and_refuses_the_rest() {
    assert!(validate_path_safety("content/file.txt").is_ok());
    assert!(validate_path_safety("templates/blog").is_ok());
    assert!(validate_path_safety("../outside").is_err());
    assert!(validate_path_safety("/absolute/path").is_err());
    assert!(validate_path_safety("content\0hidden").is_err());
    assert!(validate_path_safety("CON").is_err());
}
