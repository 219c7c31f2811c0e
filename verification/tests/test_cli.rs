use pam_linuxcampam::cli::{
    debug_level_argument, is_yes_answer, label_or_default, parse_operation, remove_label_option,
    train_options, CliOperation,
};
use pam_linuxcampam::utils::{is_emitter_path_safe, split_command_line, trim_line_endings};

fn args(xs: &[&str]) -> Vec<String> {
    xs.iter().map(|s| s.to_string()).collect()
}

#[test]
fn operations() {
    assert_eq!(parse_operation("add"), CliOperation::Add);
    assert_eq!(parse_operation("show-config"), CliOperation::ShowConfig);
    assert_eq!(parse_operation("-v"), CliOperation::Version);
    assert_eq!(parse_operation("--help"), CliOperation::Help);
    assert_eq!(parse_operation("frobnicate"), CliOperation::Unknown);
}

#[test]
fn train_option_parsing() {
    let (user, label, is_new) = train_options(&args(&["linuxcampam", "train", "bob", "--label", "night", "--new"]));
    assert_eq!(user, "bob");
    assert_eq!(label, "night");
    assert!(is_new);
    let (user, label, is_new) = train_options(&args(&["linuxcampam", "train", "--label"]));
    assert_eq!(user, "");
    assert_eq!(label, "");
    assert!(!is_new);
}

#[test]
fn remove_option_parsing() {
    assert_eq!(remove_label_option(&args(&["x", "remove", "bob", "--label", "a", "--label", "b"])), "a");
    assert_eq!(remove_label_option(&args(&["x", "remove", "bob", "--label"])), "");
}

#[test]
fn small_answers() {
    assert_eq!(debug_level_argument("on"), Some("DEBUG"));
    assert_eq!(debug_level_argument("off"), Some("INFO"));
    assert_eq!(debug_level_argument("maybe"), None);
    assert!(is_yes_answer("Y"));
    assert!(!is_yes_answer("yes"));
    assert_eq!(label_or_default("", "default"), "default");
    assert_eq!(label_or_default("x", "default"), "x");
}

#[test]
fn command_lines_split_like_a_shell() {
    assert_eq!(
        split_command_line("loginctl lock-sessions"),
        Some(args(&["loginctl", "lock-sessions"]))
    );
    assert_eq!(
        split_command_line("sh -c 'echo \"a b\"' x\\ y"),
        Some(args(&["sh", "-c", "echo \"a b\"", "x y"]))
    );
    assert_eq!(split_command_line(""), None);
    assert_eq!(split_command_line("   "), None);
    assert_eq!(split_command_line("echo \u{7}"), None);
    assert_eq!(split_command_line(&"a".repeat(4097)), None);
    assert!(split_command_line(&"a".repeat(4096)).is_some());
}

#[test]
fn emitter_path_and_version_text() {
    assert!(is_emitter_path_safe("/usr/local/bin/linux-enable-ir-emitter"));
    assert!(!is_emitter_path_safe("/usr/bin/x;rm"));
    assert!(!is_emitter_path_safe(""));
    assert_eq!(trim_line_endings("6.1.0\r\n\n"), "6.1.0");
    assert_eq!(trim_line_endings("\n"), "");
}
