use gatecmd::config::{ArgPattern, CommandConfig};
use gatecmd::sanitizer::{validate_command, validate_path_under_root, SanitizeError};

fn test_cmd() -> CommandConfig {
    CommandConfig {
        name: "test".into(),
        binary: "/usr/bin/test".into(),
        description: "test command".into(),
        timeout_secs: 10,
        allowed_args: vec![
            ArgPattern {
                pattern: "ld".into(),
                file_args: vec![],
            },
            ArgPattern {
                pattern: "wl {offset} {file}".into(),
                file_args: vec!["file".into()],
            },
            ArgPattern {
                pattern: "".into(),
                file_args: vec![],
            },
        ],
    }
}

const TEST_FILE_ROOT: &str = "/tmp/shared";

#[test]
fn test_literal_match() {
    let cmd = test_cmd();
    let result = validate_command(&cmd, "ld", TEST_FILE_ROOT);
    assert!(result.is_ok());
    assert_eq!(result.unwrap(), vec!["ld"]);
}

#[test]
fn test_empty_args() {
    let cmd = test_cmd();
    let result = validate_command(&cmd, "", TEST_FILE_ROOT);
    assert!(result.is_ok());
    assert!(result.unwrap().is_empty());
}

#[test]
fn test_param_match() {
    let cmd = test_cmd();
    let result = validate_command(&cmd, "wl 0x0000 /tmp/shared/firmware.img", TEST_FILE_ROOT);
    assert!(result.is_ok());
    assert_eq!(result.unwrap(), vec!["wl", "0x0000", "/tmp/shared/firmware.img"]);
}

#[test]
fn test_reject_shell_injection() {
    let cmd = test_cmd();
    let result = validate_command(&cmd, "ld; rm -rf /", TEST_FILE_ROOT);
    assert!(result.is_err());
}

#[test]
fn test_reject_pipe() {
    let cmd = test_cmd();
    let result = validate_command(&cmd, "ld | cat /etc/passwd", TEST_FILE_ROOT);
    assert!(result.is_err());
}

#[test]
fn test_reject_path_traversal() {
    let cmd = test_cmd();
    let result = validate_command(&cmd, "wl 0x0000 /tmp/shared/../etc/shadow", TEST_FILE_ROOT);
    assert!(result.is_err());
}

#[test]
fn test_reject_relative_file_path() {
    let cmd = test_cmd();
    let result = validate_command(&cmd, "wl 0x0000 firmware.img", TEST_FILE_ROOT);
    assert!(result.is_err());
}

#[test]
fn test_reject_unmatched_pattern() {
    let cmd = test_cmd();
    let result = validate_command(&cmd, "delete everything", TEST_FILE_ROOT);
    assert!(result.is_err());
}

#[test]
fn test_reject_file_outside_root() {
    let cmd = test_cmd();
    let result = validate_command(&cmd, "wl 0x0000 /etc/passwd", TEST_FILE_ROOT);
    assert!(result.is_err());
    assert!(result.unwrap_err().message().contains("file_root"));
}

#[test]
fn test_reject_file_root_prefix_trick() {
    // /tmp/shared_evil should not match /tmp/shared
    let cmd = test_cmd();
    let result = validate_command(&cmd, "wl 0x0000 /tmp/shared_evil/fw.img", TEST_FILE_ROOT);
    assert!(result.is_err());
}

// ---- further cases ----

fn err_message(r: Result<Vec<String>, SanitizeError>) -> String {
    match r {
        Ok(v) => panic!("expected a refusal, got {:?}", v),
        Err(e) => e.message(),
    }
}

#[test]
fn surrounding_whitespace_is_trimmed() {
    let cmd = test_cmd();
    assert_eq!(validate_command(&cmd, "  ld \t\n", TEST_FILE_ROOT).unwrap(), vec!["ld"]);
    assert_eq!(validate_command(&cmd, "\r\nld", TEST_FILE_ROOT).unwrap(), vec!["ld"]);
    assert_eq!(
        validate_command(&cmd, "\u{3000}wl   1\u{a0}/tmp/shared/a ", TEST_FILE_ROOT).unwrap(),
        vec!["wl", "1", "/tmp/shared/a"]
    );
}

#[test]
fn whitespace_only_is_no_arguments() {
    let cmd = test_cmd();
    assert!(validate_command(&cmd, " \t \n ", TEST_FILE_ROOT).unwrap().is_empty());
}

#[test]
fn interior_newline_is_forbidden() {
    let cmd = test_cmd();
    let r = validate_command(&cmd, "ld\nls", TEST_FILE_ROOT);
    assert_eq!(err_message(r), "Forbidden character '\n' in arguments");
}

#[test]
fn forbidden_char_reported_in_list_order() {
    let cmd = test_cmd();
    // '|' stands first in the string, but ';' comes first in the list.
    let r = validate_command(&cmd, "a|b;c", TEST_FILE_ROOT);
    assert!(matches!(r, Err(SanitizeError::ForbiddenChar(';'))));
    assert_eq!(err_message(validate_command(&cmd, "a|b;c", TEST_FILE_ROOT)), "Forbidden character ';' in arguments");
}

#[test]
fn every_forbidden_char_is_refused() {
    let cmd = test_cmd();
    for c in [';', '|', '&', '$', '`', '(', ')', '{', '}', '>', '<', '\n', '\r', '\\'] {
        let s = format!("wl {}x /tmp/shared/a", c);
        let r = validate_command(&cmd, &s, TEST_FILE_ROOT);
        assert!(matches!(r, Err(SanitizeError::ForbiddenChar(d)) if d == c), "char {:?}", c);
    }
}

#[test]
fn no_match_message_lists_patterns() {
    let cmd = test_cmd();
    let r = validate_command(&cmd, "delete everything", TEST_FILE_ROOT);
    assert_eq!(
        err_message(r),
        "Arguments 'delete everything' do not match any allowed pattern for 'test'. Allowed: [\"ld\", \"wl {offset} {file}\", \"\"]"
    );
}

#[test]
fn traversal_and_absolute_messages() {
    let cmd = test_cmd();
    assert_eq!(
        err_message(validate_command(&cmd, "wl 1 /tmp/shared/../x", TEST_FILE_ROOT)),
        "Path traversal ('..') not allowed in file argument: /tmp/shared/../x"
    );
    assert_eq!(
        err_message(validate_command(&cmd, "wl 1 fw.img", TEST_FILE_ROOT)),
        "File argument must be an absolute path: fw.img"
    );
    assert_eq!(
        err_message(validate_command(&cmd, "wl 1 /etc/passwd", TEST_FILE_ROOT)),
        "File argument must be under file_root '/tmp/shared', got: /etc/passwd"
    );
}

#[test]
fn non_file_parameter_is_not_checked() {
    let cmd = test_cmd();
    // the offset may hold dots and be relative
    assert_eq!(
        validate_command(&cmd, "wl ../.. /tmp/shared/x", TEST_FILE_ROOT).unwrap(),
        vec!["wl", "../..", "/tmp/shared/x"]
    );
}

#[test]
fn first_matching_pattern_decides() {
    let cmd = CommandConfig {
        name: "t".into(),
        binary: "/bin/t".into(),
        description: "".into(),
        timeout_secs: 1,
        allowed_args: vec![
            ArgPattern { pattern: "db {file}".into(), file_args: vec!["file".into()] },
            ArgPattern { pattern: "db {anything}".into(), file_args: vec![] },
        ],
    };
    // The first pattern fits and refuses the file; the second is never tried.
    assert!(matches!(
        validate_command(&cmd, "db /etc/x", "/srv"),
        Err(SanitizeError::OutsideRoot { .. })
    ));
}

#[test]
fn repeated_parameter_binds_last_value() {
    let cmd = CommandConfig {
        name: "t".into(),
        binary: "/bin/t".into(),
        description: "".into(),
        timeout_secs: 1,
        allowed_args: vec![ArgPattern {
            pattern: "{file} {file}".into(),
            file_args: vec!["file".into(), "missing".into()],
        }],
    };
    // The first value is not a path, but the second one binds the name.
    assert_eq!(validate_command(&cmd, "x /srv/a", "/srv").unwrap(), vec!["x", "/srv/a"]);
    assert!(validate_command(&cmd, "/srv/a x", "/srv").is_err());
}

#[test]
fn literal_words_must_match_exactly() {
    let cmd = test_cmd();
    assert!(validate_command(&cmd, "LD", TEST_FILE_ROOT).is_err());
    assert!(validate_command(&cmd, "ld ld", TEST_FILE_ROOT).is_err());
    assert!(validate_command(&cmd, "wl 1", TEST_FILE_ROOT).is_err());
}

#[test]
fn word_braced_at_both_ends_is_one_parameter() {
    let cmd = CommandConfig {
        name: "t".into(),
        binary: "/bin/t".into(),
        description: "".into(),
        timeout_secs: 1,
        allowed_args: vec![ArgPattern { pattern: "-d {vid}:{pid}".into(), file_args: vec![] }],
    };
    assert_eq!(
        validate_command(&cmd, "-d {vid}:{pid}", "/srv").ok(),
        None // braces are forbidden in the input
    );
    // "{vid}:{pid}" starts with '{' and ends with '}': one parameter, any word fits
    assert_eq!(
        validate_command(&cmd, "-d 1234:5678", "/srv").unwrap(),
        vec!["-d", "1234:5678"]
    );
    assert_eq!(validate_command(&cmd, "-d anything", "/srv").unwrap(), vec!["-d", "anything"]);
}

#[test]
fn path_under_root_cases() {
    assert!(validate_path_under_root("/tmp/shared", "/tmp/shared").is_ok());
    assert!(validate_path_under_root("/tmp/shared/", "/tmp/shared").is_ok());
    assert!(validate_path_under_root("/tmp/shared/a/b", "/tmp/shared").is_ok());
    assert!(validate_path_under_root("/tmp/shared_evil", "/tmp/shared").is_err());
    assert!(validate_path_under_root("/tmp/share", "/tmp/shared").is_err());
    assert!(validate_path_under_root("/tmp/shared/a..b", "/tmp/shared").is_err());
    assert!(validate_path_under_root("tmp/shared/a", "tmp/shared").is_err());
    assert!(validate_path_under_root("", "/tmp/shared").is_err());
    // with the root "/" only paths that continue with another "/" pass
    assert!(validate_path_under_root("/", "/").is_ok());
    assert!(validate_path_under_root("//x", "/").is_ok());
    assert!(validate_path_under_root("/x", "/").is_err());
}

#[test]
fn path_checks_come_in_order() {
    // relative and holding "..": the ".." is reported
    assert!(matches!(
        validate_path_under_root("a/../b", "/r"),
        Err(SanitizeError::PathTraversal(_))
    ));
    // relative, outside: not absolute is reported
    assert!(matches!(
        validate_path_under_root("x", "/r"),
        Err(SanitizeError::NotAbsolute(_))
    ));
}

#[test]
fn unicode_arguments_are_kept() {
    let cmd = CommandConfig {
        name: "t".into(),
        binary: "/bin/t".into(),
        description: "".into(),
        timeout_secs: 1,
        allowed_args: vec![ArgPattern { pattern: "put {file}".into(), file_args: vec!["file".into()] }],
    };
    assert_eq!(
        validate_command(&cmd, "put /données/é.img", "/données").unwrap(),
        vec!["put", "/données/é.img"]
    );
}
