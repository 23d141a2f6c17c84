use harvcode::filter::{is_hidden, is_valid, is_valid_name, matches_name, should_skip_dir, should_skip_dir_name, Rules};

/// Create default filtering rules.
fn rules() -> Rules {
    Rules::default()
}

#[test]
fn hidden_file_is_invalid() {
    // Files whose names start with "." should not be included.
    assert!(!is_valid(".env", &rules()));
}

#[test]
fn hidden_directory_should_be_skipped() {
    assert!(should_skip_dir(".git", &rules()));
}

#[test]
fn default_binary_extensions_are_invalid() {
    assert!(!is_valid("image.png", &rules()));
    assert!(!is_valid("archive.zip", &rules()));
    assert!(!is_valid("Cargo.lock", &rules()));
}

#[test]
fn normal_text_files_are_valid() {
    assert!(is_valid("main.rs", &rules()));
    assert!(is_valid("README.md", &rules()));
}

#[test]
fn file_without_extension_is_valid_by_default() {
    assert!(is_valid("Makefile", &rules()));
}

#[test]
fn include_ext_allows_only_matching_extensions() {
    let mut rules = Rules::default();
    rules.include_ext = vec!["rs".to_string()];

    assert!(is_valid("main.rs", &rules));
    assert!(!is_valid("README.md", &rules));
}

#[test]
fn include_ext_rejects_extensionless_files() {
    let mut rules = Rules::default();
    rules.include_ext = vec!["rs".to_string()];

    assert!(!is_valid("Makefile", &rules));
}

#[test]
fn include_ext_does_not_override_default_skip_ext() {
    let mut rules = Rules::default();
    rules.include_ext = vec!["png".to_string()];

    assert!(!is_valid("image.png", &rules));
}

#[test]
fn exclude_ext_rejects_matching_extension() {
    let mut rules = Rules::default();
    rules.exclude_ext = vec!["json".to_string()];

    assert!(!is_valid("config.json", &rules));
    assert!(is_valid("main.rs", &rules));
}

#[test]
fn exclude_file_rejects_matching_filename_case_insensitively() {
    let mut rules = Rules::default();
    rules.exclude_files = vec!["secret.rs".to_string()];

    assert!(!is_valid("secret.rs", &rules));
    assert!(!is_valid("SECRET.RS", &rules));
    assert!(is_valid("main.rs", &rules));
}

#[test]
fn exclude_dir_rejects_matching_directory_case_insensitively() {
    let mut rules = Rules::default();
    rules.exclude_dirs = vec!["target".to_string()];

    assert!(should_skip_dir("target", &rules));
    assert!(should_skip_dir("TARGET", &rules));
    assert!(!should_skip_dir("src", &rules));
}

#[test]
fn exclude_file_matches_file_name_not_full_path() {
    let mut rules = Rules::default();
    rules.exclude_files = vec!["secret.rs".to_string()];

    assert!(!is_valid("src/secret.rs", &rules));
}

#[test]
fn exclude_dir_matches_directory_name_not_full_path() {
    let mut rules = Rules::default();
    rules.exclude_dirs = vec!["target".to_string()];

    assert!(should_skip_dir("build/target", &rules));
}

#[test]
fn hidden_check_uses_final_component_only() {
    // A hidden directory higher up does not make the file hidden by name.
    assert!(!is_hidden("src/main.rs"));
    assert!(is_hidden("src/.env"));
    assert!(is_hidden(".git"));
    // "." and ".." have no file name, so they are not hidden.
    assert!(!is_hidden("."));
    assert!(!is_hidden(".."));
}

#[test]
fn current_directory_root_is_not_skipped() {
    assert!(!should_skip_dir(".", &rules()));
    assert!(!should_skip_dir("./", &rules()));
}

#[test]
fn extension_matching_is_case_insensitive() {
    assert!(!is_valid("PHOTO.PNG", &rules()));
    let mut rules = Rules::default();
    rules.include_ext = vec!["md".to_string()];
    assert!(is_valid("NOTES.MD", &rules));
    rules.exclude_ext = vec!["md".to_string()];
    assert!(!is_valid("notes.Md", &rules));
}

#[test]
fn extension_is_taken_after_the_last_dot() {
    let mut rules = Rules::default();
    rules.include_ext = vec!["gz".to_string(), "rs".to_string()];
    // "archive.tar.gz" has extension "gz", which is always skipped.
    assert!(!is_valid("archive.tar.gz", &rules));
    assert!(is_valid("a.b.rs", &rules));
    // A leading dot alone is no extension: ".rs" is hidden anyway.
    assert!(!is_valid(".rs", &rules));
}

#[test]
fn file_name_functions_agree_with_path_functions() {
    let mut rules = Rules::default();
    rules.exclude_dirs = vec!["target".to_string()];
    assert_eq!(is_valid_name(Some("main.rs"), &rules), is_valid("src/main.rs", &rules));
    assert!(should_skip_dir_name(Some("Target"), &rules));
    assert!(!should_skip_dir_name(None, &rules));
    assert!(is_valid_name(None, &Rules::default()));
}

#[test]
fn every_default_skip_extension_is_rejected() {
    for ext in [
        "png", "jpg", "jpeg", "gif", "bmp", "ico", "mp3", "mp4", "avi", "exe", "dll", "so", "zip",
        "tar", "gz", "lock",
    ] {
        let name = format!("file.{}", ext);
        assert!(!is_valid(&name, &rules()), "{} should be rejected", name);
    }
    assert!(is_valid("file.toml", &rules()));
}

#[test]
fn matches_name_lowers_the_name_only() {
    let names = vec!["secret.rs".to_string()];
    assert!(matches_name(Some("SECRET.rs"), &names));
    assert!(!matches_name(Some("secret.rs.bak"), &names));
    assert!(!matches_name(None, &names));
    let upper = vec!["SECRET.RS".to_string()];
    assert!(!matches_name(Some("secret.rs"), &upper));
}
