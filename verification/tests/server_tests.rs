use std::sync::Arc;

use gatecmd::config::{ArgPattern, CommandConfig, Config};
use gatecmd::server::{
    copy_report, execution_report, listing_report, remove_report, CopyFileArgs, CopyOutcome,
    EntryInfo, ExecOutcome, ExecuteCommandArgs, HostCmdServer, ListCommandsArgs, RemoveFileArgs,
    RemoveStep, ToolError,
};

fn server() -> HostCmdServer {
    HostCmdServer::new(Arc::new(Config {
        bind: "127.0.0.1:9222".into(),
        auth_token: "t".into(),
        file_root: "/tmp/shared".into(),
        commands: vec![
            CommandConfig {
                name: "rkdeveloptool".into(),
                binary: "/usr/bin/rkdeveloptool".into(),
                description: "Rockchip USB development tool".into(),
                allowed_args: vec![
                    ArgPattern { pattern: "ld".into(), file_args: vec![] },
                    ArgPattern { pattern: "wl {offset} {file}".into(), file_args: vec!["file".into()] },
                ],
                timeout_secs: 120,
            },
            CommandConfig {
                name: "lsusb".into(),
                binary: "/usr/bin/lsusb".into(),
                description: "List USB devices".into(),
                allowed_args: vec![ArgPattern { pattern: "".into(), file_args: vec![] }],
                timeout_secs: 10,
            },
        ],
    }))
}

#[test]
fn list_commands_text() {
    let r = server().list_commands(ListCommandsArgs {});
    assert!(!r.is_error);
    assert_eq!(
        r.text,
        "File root: /tmp/shared\n\
         All file path arguments must be under this directory.\n\n\
         ## rkdeveloptool\n\
         Binary: /usr/bin/rkdeveloptool\n\
         Description: Rockchip USB development tool\n\
         Timeout: 120s\n\
         Allowed argument patterns:\n  - ld\n  - wl {offset} {file}\n\n\
         ## lsusb\n\
         Binary: /usr/bin/lsusb\n\
         Description: List USB devices\n\
         Timeout: 10s\n\
         Allowed argument patterns:\n  - (no arguments)\n\n"
    );
}

#[test]
fn plan_execution_validates() {
    let s = server();
    let p = s
        .plan_execution(&ExecuteCommandArgs { command: "rkdeveloptool".into(), args: "wl 0x0 /tmp/shared/fw.img".into() })
        .ok()
        .unwrap();
    assert_eq!(p.binary, "/usr/bin/rkdeveloptool");
    assert_eq!(p.command, "rkdeveloptool");
    assert_eq!(p.args, vec!["wl", "0x0", "/tmp/shared/fw.img"]);
    assert_eq!(p.timeout_secs, 120);

    match s.plan_execution(&ExecuteCommandArgs { command: "rm".into(), args: "".into() }) {
        Err(e @ ToolError::UnknownCommand(_)) => assert_eq!(
            e.message(),
            "Unknown command 'rm'. Use list_commands to see available commands."
        ),
        _ => panic!("expected unknown command"),
    }
    match s.plan_execution(&ExecuteCommandArgs { command: "lsusb".into(), args: "-v".into() }) {
        Err(e @ ToolError::InvalidArguments(_)) => assert_eq!(
            e.message(),
            "Argument validation failed: Arguments '-v' do not match any allowed pattern for 'lsusb'. Allowed: [\"\"]"
        ),
        _ => panic!("expected invalid arguments"),
    }
}

fn plan() -> gatecmd::server::ExecPlan {
    server()
        .plan_execution(&ExecuteCommandArgs { command: "lsusb".into(), args: "".into() })
        .ok()
        .unwrap()
}

#[test]
fn execution_reports() {
    let p = plan();
    let r = execution_report(&p, ExecOutcome::Finished { exit_code: Some(0), stdout: "Bus 001\n".into(), stderr: "".into() });
    assert!(!r.is_error);
    assert_eq!(r.text, "Exit code: 0\n\n--- stdout ---\nBus 001\n");

    let r = execution_report(&p, ExecOutcome::Finished { exit_code: Some(2), stdout: "".into(), stderr: "bad".into() });
    assert!(r.is_error);
    assert_eq!(r.text, "Exit code: 2\n\n--- stderr ---\nbad");

    let r = execution_report(&p, ExecOutcome::Finished { exit_code: None, stdout: "o".into(), stderr: "e".into() });
    assert!(r.is_error);
    assert_eq!(r.text, "Exit code: -1\n\n--- stdout ---\no\n--- stderr ---\ne");

    let r = execution_report(&p, ExecOutcome::SpawnFailed("No such file or directory (os error 2)".into()));
    assert!(r.is_error);
    assert_eq!(r.text, "Failed to execute: No such file or directory (os error 2)");

    let r = execution_report(&p, ExecOutcome::TimedOut);
    assert!(r.is_error);
    assert_eq!(r.text, "Command timed out after 10s");
}

#[test]
fn resolve_paths() {
    let s = server();
    assert_eq!(s.resolve_path("").ok().unwrap(), "/tmp/shared");
    assert_eq!(s.resolve_path("images/a.img").ok().unwrap(), "/tmp/shared/images/a.img");
    assert_eq!(s.resolve_path("/abs").ok().unwrap(), "/tmp/shared//abs");
    match s.resolve_path("../etc/passwd") {
        Err(e @ ToolError::InvalidPath(_)) => assert_eq!(
            e.message(),
            "Path validation failed: Path traversal ('..') not allowed in file argument: /tmp/shared/../etc/passwd"
        ),
        _ => panic!("expected refusal"),
    }
}

#[test]
fn copy_plans_and_reports() {
    let s = server();
    let (a, b) = s.plan_copy(&CopyFileArgs { src: "a".into(), dst: "d/b".into() }).ok().unwrap();
    assert_eq!(a, "/tmp/shared/a");
    assert_eq!(b, "/tmp/shared/d/b");
    assert!(s.plan_copy(&CopyFileArgs { src: "..".into(), dst: "b".into() }).is_err());
    assert!(s.plan_copy(&CopyFileArgs { src: "a".into(), dst: "x/../../b".into() }).is_err());

    let r = copy_report(&a, &b, CopyOutcome::Copied(1024));
    assert!(!r.is_error);
    assert_eq!(r.text, "Copied 1024 bytes: /tmp/shared/a -> /tmp/shared/d/b");
    let r = copy_report(&a, &b, CopyOutcome::Failed("denied".into()));
    assert!(r.is_error);
    assert_eq!(r.text, "Failed to copy '/tmp/shared/a' -> '/tmp/shared/d/b': denied");
    let r = copy_report(&a, &b, CopyOutcome::ParentNotCreated { parent: "/tmp/shared/d".into(), error: "denied".into() });
    assert!(r.is_error);
    assert_eq!(r.text, "Failed to create directory '/tmp/shared/d': denied");
}

#[test]
fn remove_refuses_the_root() {
    let s = server();
    for p in ["", ".", "./", "/", "//.", "./."] {
        match s.plan_remove(&RemoveFileArgs { path: p.into() }) {
            Ok(RemoveStep::Refuse(r)) => {
                assert!(r.is_error);
                assert_eq!(r.text, "Cannot remove the file root directory itself");
            }
            _ => panic!("root must be refused for {:?}", p),
        }
    }
    match s.plan_remove(&RemoveFileArgs { path: "fw.img".into() }) {
        Ok(RemoveStep::Remove(p)) => assert_eq!(p, "/tmp/shared/fw.img"),
        _ => panic!("expected removal"),
    }
    assert!(s.plan_remove(&RemoveFileArgs { path: "a/../..".into() }).is_err());
    assert_eq!(remove_report("/tmp/shared/x", Ok(())).text, "Removed: /tmp/shared/x");
    let r = remove_report("/tmp/shared/x", Err("gone".into()));
    assert!(r.is_error);
    assert_eq!(r.text, "Failed to remove '/tmp/shared/x': gone");
}

#[test]
fn listing_reports() {
    let r = listing_report("/tmp/shared", Ok(vec![]));
    assert!(!r.is_error);
    assert_eq!(r.text, "(empty directory)\n");
    let r = listing_report(
        "/tmp/shared",
        Ok(vec![
            EntryInfo { name: "fw.img".into(), is_dir: false, size: Some(4096) },
            EntryInfo { name: "images".into(), is_dir: true, size: None },
            EntryInfo { name: "big".into(), is_dir: false, size: Some(12345678901) },
        ]),
    );
    assert_eq!(r.text, "      4096  fw.img\n         ?  images/\n12345678901  big\n");
    let r = listing_report("/tmp/shared/x", Err("not found".into()));
    assert!(r.is_error);
    assert_eq!(r.text, "Failed to read directory '/tmp/shared/x': not found");
}
