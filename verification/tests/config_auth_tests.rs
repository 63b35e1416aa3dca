use gatecmd::auth::{check_bearer, AuthRejection};
use gatecmd::config::{default_timeout, path_is_absolute, ArgPattern, CommandConfig, Config, ConfigError};

fn cmd(name: &str, binary: &str) -> CommandConfig {
    CommandConfig {
        name: name.into(),
        binary: binary.into(),
        description: format!("{} tool", name),
        allowed_args: vec![ArgPattern { pattern: "".into(), file_args: vec![] }],
        timeout_secs: 5,
    }
}

fn config(root: &str, commands: Vec<CommandConfig>) -> Config {
    Config {
        bind: "0.0.0.0:3000".into(),
        auth_token: "secret".into(),
        file_root: root.into(),
        commands,
    }
}

#[test]
fn default_timeout_is_thirty_seconds() {
    assert_eq!(default_timeout(), 30);
}

#[test]
fn find_command_returns_first_with_name() {
    let c = config("/srv", vec![cmd("a", "/bin/a1"), cmd("b", "/bin/b"), cmd("a", "/bin/a2")]);
    assert_eq!(c.find_command("a").unwrap().binary, "/bin/a1");
    assert_eq!(c.find_command("b").unwrap().binary, "/bin/b");
    assert!(c.find_command("c").is_none());
    assert!(c.find_command("A").is_none());
    assert!(c.find_command("").is_none());
}

#[test]
fn absolute_paths_start_with_slash() {
    assert!(path_is_absolute("/usr/bin/x"));
    assert!(path_is_absolute("/"));
    assert!(!path_is_absolute("usr/bin/x"));
    assert!(!path_is_absolute(""));
    assert!(!path_is_absolute("./x"));
}

#[test]
fn file_root_must_be_absolute() {
    assert!(config("/srv", vec![]).check_file_root().is_ok());
    let e = config("srv/data", vec![]).check_file_root().unwrap_err();
    assert_eq!(e.message(), "file_root must be an absolute path, got: srv/data");
}

#[test]
fn missing_file_root_message() {
    let e = ConfigError::FileRootMissing("/nowhere".into());
    assert_eq!(e.message(), "file_root directory does not exist: /nowhere");
}

#[test]
fn finish_load_installs_root_and_checks_binaries() {
    let c = config("/srv/./x", vec![cmd("a", "/bin/a"), cmd("b", "/bin/b")]);
    let done = c.finish_load("/srv/x".into()).unwrap();
    assert_eq!(done.file_root, "/srv/x");
    assert_eq!(done.bind, "0.0.0.0:3000");
    assert_eq!(done.auth_token, "secret");
    assert_eq!(done.commands.len(), 2);
    assert_eq!(done.commands[1].name, "b");

    let bad = config("/srv", vec![cmd("a", "/bin/a"), cmd("b", "bin/b"), cmd("c", "c")]);
    let e = bad.finish_load("/srv".into()).unwrap_err();
    assert_eq!(e.message(), "Command 'b' binary must be an absolute path, got: bin/b");
}

#[test]
fn bearer_token_accepted() {
    assert_eq!(check_bearer("secret", Some("Bearer secret")), Ok(()));
    assert_eq!(check_bearer("", Some("Bearer ")), Ok(()));
}

#[test]
fn bearer_token_wrong() {
    assert_eq!(check_bearer("secret", Some("Bearer secreT")), Err(AuthRejection::InvalidToken));
    assert_eq!(check_bearer("secret", Some("Bearer  secret")), Err(AuthRejection::InvalidToken));
    assert_eq!(check_bearer("secret", Some("Bearer secret ")), Err(AuthRejection::InvalidToken));
    assert_eq!(check_bearer("secret", Some("Bearer ")), Err(AuthRejection::InvalidToken));
}

#[test]
fn bearer_header_missing_or_malformed() {
    assert_eq!(check_bearer("secret", None), Err(AuthRejection::MissingOrMalformed));
    assert_eq!(check_bearer("secret", Some("secret")), Err(AuthRejection::MissingOrMalformed));
    assert_eq!(check_bearer("secret", Some("bearer secret")), Err(AuthRejection::MissingOrMalformed));
    assert_eq!(check_bearer("secret", Some("Bearer")), Err(AuthRejection::MissingOrMalformed));
    assert_eq!(check_bearer("secret", Some("Basic c2VjcmV0")), Err(AuthRejection::MissingOrMalformed));
}
