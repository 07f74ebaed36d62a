use chev_shell::executor::{
    classify_builtin, format_duration, map_command, parse_set_command, pipeline_display,
    plan_stage, prepare_line, record_error_if_absent, resolve_cd_target, resolve_command,
    settle_foreground, Builtin, ExecError, GroupSpec, SetAction, Settled, StderrSpec, StdinSpec,
    StdoutSpec, WaitOutcome,
};
use chev_shell::jobs::{JobManager, JobStatus};
use chev_shell::macros::MacroManager;
use chev_shell::parser::parse_pipeline;

fn strings(v: Vec<&str>) -> Vec<String> {
    v.into_iter().map(|s| s.to_string()).collect()
}

#[test]
fn test_command_mapping() {
    let cases = vec![
        ("ls", "eza"),
        ("cat", "bat"),
        ("find", "fd"),
        ("du", "dust"),
        ("rm", "rip"),
        ("grep", "rg"),
        ("rg", "rg"),
        ("sed", "sd"),
        ("diff", "delta"),
        ("top", "btm"),
        ("htop", "btm"),
        ("ps", "procs"),
        ("time", "hyperfine"),
        ("make", "just"),
        ("cp", "xcp"),
        ("tree", "broot"),
        ("jq", "jql"),
        ("watch", "hwatch"),
        ("dig", "doggo"),
        ("sudo", "sudo-rs"),
        ("ping", "gping"),
        ("curl", "xh"),
        ("http", "xh"),
        ("df", "lfs"),
        ("calc", "fend"),
        ("bc", "fend"),
        ("hex", "heh"),
        ("peek", "lemmeknow"),
        ("nano", "kibi"),
        ("git", "git"), // No mapping
    ];

    for (cmd, expected) in cases {
        let real = map_command(cmd, &Vec::new());
        assert_eq!(real, expected, "Mapping for {} failed", cmd);
    }
}

#[test]
fn test_conditional_mapping() {
    // Test choose mapping
    let real = map_command("cut", &strings(vec!["0:3"]));
    assert_eq!(real, "choose");

    // Test tldr mapping
    let real = map_command("man", &strings(vec!["ls"]));
    assert_eq!(real, "tldr");

    // Test mdcat mapping
    let real = map_command("cat", &strings(vec!["README.md"]));
    assert_eq!(real, "mdcat");

    // Without the trigger argument the plain mapping applies.
    assert_eq!(map_command("cut", &Vec::new()), "cut");
    assert_eq!(map_command("man", &Vec::new()), "man");
    assert_eq!(map_command("cat", &strings(vec!["notes.txt"])), "bat");
}

#[test]
fn test_resolve_unmapped_is_unchanged() {
    // An unmapped name never goes through the availability check.
    assert_eq!(resolve_command("git", &Vec::new()), "git");
    // A mapped name resolves to the tool or falls back to the original.
    let r = resolve_command("ls", &Vec::new());
    assert!(r == "eza" || r == "ls");
}

#[test]
fn test_classify_builtin() {
    let names = vec![
        ("jobs", Builtin::Jobs),
        ("fg", Builtin::Fg),
        ("bg", Builtin::Bg),
        ("set", Builtin::SetVar),
        ("unset", Builtin::Unset),
        ("path", Builtin::Path),
        ("pushd", Builtin::Pushd),
        ("popd", Builtin::Popd),
        ("dirs", Builtin::Dirs),
        ("cd", Builtin::Cd),
    ];
    for (name, expected) in names {
        assert_eq!(classify_builtin(name), Some(expected), "builtin {}", name);
    }
    assert_eq!(classify_builtin("ls"), None);
    assert_eq!(classify_builtin(""), None);
}

#[test]
fn test_pipeline_display() {
    let (_, p) = parse_pipeline("echo hi | wc -c").unwrap();
    assert_eq!(pipeline_display(&p), "echo hi | wc -c");
}

#[test]
fn test_plan_stage_pipe_wiring() {
    // The testable contract of `echo hi | wc -c`: stage 0's stdout is a
    // pipe and nothing else, and stage 1 reads from exactly that pipe.
    let (_, p) = parse_pipeline("echo hi | wc -c").unwrap();
    assert_eq!(p.commands.len(), 2);

    let plan0 = plan_stage(0, 2, &p.commands[0], false);
    assert_eq!(plan0.stdin, StdinSpec::Inherit);
    assert_eq!(plan0.stdout, StdoutSpec::Pipe);
    assert_eq!(plan0.stderr, StderrSpec::Inherit);
    assert_eq!(plan0.group, GroupSpec::Lead);

    let prev_piped = plan0.stdout == StdoutSpec::Pipe;
    let plan1 = plan_stage(1, 2, &p.commands[1], prev_piped);
    assert_eq!(plan1.stdin, StdinSpec::FromPrev);
    assert_eq!(plan1.stdout, StdoutSpec::Inherit);
    assert_eq!(plan1.stderr, StderrSpec::Capture);
    assert_eq!(plan1.group, GroupSpec::Join);
}

#[test]
fn test_plan_stage_redirections() {
    let (_, p) = parse_pipeline("ls > out.txt 2> err.txt").unwrap();
    let plan = plan_stage(0, 1, &p.commands[0], false);
    assert_eq!(plan.stdout, StdoutSpec::File { path: "out.txt".to_string(), append: false });
    assert_eq!(plan.stderr, StderrSpec::File { path: "err.txt".to_string() });

    let (_, p2) = parse_pipeline("x >> log.txt").unwrap();
    let plan2 = plan_stage(0, 1, &p2.commands[0], false);
    assert_eq!(plan2.stdout, StdoutSpec::File { path: "log.txt".to_string(), append: true });
    assert_eq!(plan2.stderr, StderrSpec::Capture);
}

#[test]
fn test_settle_foreground_success_clears_error() {
    let mut jobs = JobManager::new();
    let mut macros = MacroManager::new();
    macros.record_failure("old".to_string(), "old err".to_string());
    macros.set_last_suggestion("old hint".to_string());

    let r = settle_foreground(
        WaitOutcome::Exited(0),
        &mut jobs,
        &mut macros,
        100,
        "sh -c \"exit 0\"".to_string(),
        String::new(),
    );
    assert_eq!(r, Ok(Settled::Completed));
    assert!(macros.last_error().is_none());
    assert!(macros.last_suggestion().is_none());
    assert!(jobs.get_jobs().is_empty());
}

#[test]
fn test_settle_foreground_failure_records_error() {
    let mut jobs = JobManager::new();
    let mut macros = MacroManager::new();

    let r = settle_foreground(
        WaitOutcome::Exited(1),
        &mut jobs,
        &mut macros,
        100,
        "sh -c \"exit 1\"".to_string(),
        "boom".to_string(),
    );
    assert_eq!(r, Err(ExecError::Runtime { code: 1 }));
    let (cmd, err) = macros.last_error().unwrap();
    assert_eq!(cmd, "sh -c \"exit 1\"");
    assert_eq!(err, "boom");
}

#[test]
fn test_settle_foreground_signaled() {
    let mut jobs = JobManager::new();
    let mut macros = MacroManager::new();
    let r = settle_foreground(
        WaitOutcome::Signaled(9),
        &mut jobs,
        &mut macros,
        100,
        "spin".to_string(),
        String::new(),
    );
    assert_eq!(r, Err(ExecError::Signaled { signal: 9 }));
    assert!(macros.last_error().is_some());
}

#[test]
fn test_settle_foreground_stopped_suspends() {
    let mut jobs = JobManager::new();
    let mut macros = MacroManager::new();
    let r = settle_foreground(
        WaitOutcome::Stopped,
        &mut jobs,
        &mut macros,
        4321,
        "vim notes".to_string(),
        String::new(),
    );
    assert_eq!(r, Ok(Settled::Suspended(1)));
    let listed = jobs.get_jobs();
    assert_eq!(listed.len(), 1);
    assert_eq!(listed[0].pgid, 4321);
    assert_eq!(listed[0].status, JobStatus::Suspended);
    assert!(macros.last_error().is_none());
}

#[test]
fn test_record_error_if_absent() {
    let mut macros = MacroManager::new();
    record_error_if_absent(&mut macros, "nonexistentcommand".to_string(), "not found".to_string());
    let (cmd, err) = macros.last_error().unwrap();
    assert_eq!(cmd, "nonexistentcommand");
    assert_eq!(err, "not found");

    // A context already captured is never overwritten.
    record_error_if_absent(&mut macros, "other".to_string(), "later".to_string());
    let (cmd, _) = macros.last_error().unwrap();
    assert_eq!(cmd, "nonexistentcommand");
}

#[test]
fn test_exec_error_messages() {
    assert_eq!(
        ExecError::Runtime { code: 1 }.message(),
        "Command exited with code 1"
    );
    assert_eq!(
        ExecError::Signaled { signal: 15 }.message(),
        "Command killed by signal 15"
    );
    assert_eq!(
        ExecError::Spawn { program: "zz".to_string(), message: "no such file".to_string() }
            .message(),
        "Failed to spawn zz: no such file"
    );
    assert_eq!(ExecError::JobNotFound.message(), "job not found");
}

#[test]
fn test_format_duration() {
    assert_eq!(format_duration(0), "0s");
    assert_eq!(format_duration(59), "59s");
    assert_eq!(format_duration(70), "1m 10s");
    assert_eq!(format_duration(3599), "59m 59s");
    assert_eq!(format_duration(3700), "1h 1m");
}

#[test]
fn test_parse_set_command() {
    assert_eq!(parse_set_command(&strings(vec!["set"])), SetAction::List);
    assert_eq!(
        parse_set_command(&strings(vec!["set", "K=V"])),
        SetAction::Assign { key: "K".to_string(), value: "V".to_string() }
    );
    assert_eq!(
        parse_set_command(&strings(vec!["set", "K", "V"])),
        SetAction::Assign { key: "K".to_string(), value: "V".to_string() }
    );
    assert_eq!(
        parse_set_command(&strings(vec!["set", "K"])),
        SetAction::Assign { key: "K".to_string(), value: String::new() }
    );
    assert_eq!(
        parse_set_command(&strings(vec!["set", "K=a=b"])),
        SetAction::Assign { key: "K".to_string(), value: "a=b".to_string() }
    );
}

#[test]
fn test_resolve_cd_target() {
    assert_eq!(resolve_cd_target("~", "/home/me"), "/home/me");
    assert_eq!(resolve_cd_target("~/src", "/home/me"), "/home/me/src");
    assert_eq!(resolve_cd_target("/etc", "/home/me"), "/etc");
    assert_eq!(resolve_cd_target("rel/dir", "/home/me"), "rel/dir");
}

#[test]
fn test_prepare_line_expands_then_parses() {
    let mut macros = MacroManager::new();
    macros.set_macro("g".to_string(), "git".to_string());
    let (executed, pipeline) = prepare_line(&macros, "g status | wc -l");
    assert_eq!(executed, "git status | wc -l");
    assert_eq!(pipeline.commands.len(), 2);
    assert_eq!(pipeline.commands[0].args, vec!["git", "status"]);
    assert_eq!(pipeline.commands[1].args, vec!["wc", "-l"]);

    let (unchanged, p2) = prepare_line(&macros, "ls -la");
    assert_eq!(unchanged, "ls -la");
    assert_eq!(p2.commands[0].args, vec!["ls", "-la"]);
}
