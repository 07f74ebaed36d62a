use chev_shell::parser::{parse_pipeline, Redirection};

#[test]
fn test_parse_simple_command() {
    let input = "ls -la";
    let (_, pipeline) = parse_pipeline(input).unwrap();
    assert_eq!(pipeline.commands.len(), 1);
    assert_eq!(pipeline.commands[0].args, vec!["ls", "-la"]);
}

#[test]
fn test_parse_pipeline() {
    let input = "ls | grep rust | wc -l";
    let (_, pipeline) = parse_pipeline(input).unwrap();
    assert_eq!(pipeline.commands.len(), 3);
    assert_eq!(pipeline.commands[0].args, vec!["ls"]);
    assert_eq!(pipeline.commands[1].args, vec!["grep", "rust"]);
    assert_eq!(pipeline.commands[2].args, vec!["wc", "-l"]);
}

#[test]
fn test_parse_quoted_arg() {
    let input = "grep \"hello world\" file.txt";
    let (_, pipeline) = parse_pipeline(input).unwrap();
    assert_eq!(pipeline.commands[0].args, vec!["grep", "hello world", "file.txt"]);
}

#[test]
fn test_parse_redirections() {
    let input = "ls > out.txt 2> err.txt";
    let (_, pipeline) = parse_pipeline(input).unwrap();
    assert_eq!(pipeline.commands[0].args, vec!["ls"]);
    assert_eq!(pipeline.commands[0].redirections.len(), 2);
    assert_eq!(
        pipeline.commands[0].redirections[0],
        Redirection::Stdout("out.txt".to_string())
    );
    assert_eq!(
        pipeline.commands[0].redirections[1],
        Redirection::Stderr("err.txt".to_string())
    );
}

#[test]
fn test_parse_background_flag() {
    let (rem, pipeline) = parse_pipeline("sleep 5 &").unwrap();
    assert!(pipeline.background);
    assert_eq!(pipeline.commands.len(), 1);
    assert_eq!(pipeline.commands[0].args, vec!["sleep", "5"]);
    assert_eq!(rem, "");

    let (_, fg) = parse_pipeline("sleep 5").unwrap();
    assert!(!fg.background);
}

#[test]
fn test_parse_append_and_merge() {
    let (_, pipeline) = parse_pipeline("x >> log.txt 2>&1").unwrap();
    assert_eq!(pipeline.commands[0].args, vec!["x"]);
    assert_eq!(
        pipeline.commands[0].redirections,
        vec![
            Redirection::Append("log.txt".to_string()),
            Redirection::StderrToStdout
        ]
    );
}

#[test]
fn test_parse_empty_stage_preserved() {
    let (_, pipeline) = parse_pipeline("a | | b").unwrap();
    assert_eq!(pipeline.commands.len(), 3);
    assert_eq!(pipeline.commands[0].args, vec!["a"]);
    assert!(pipeline.commands[1].args.is_empty());
    assert_eq!(pipeline.commands[2].args, vec!["b"]);
}

#[test]
fn test_parse_remainder_after_unconsumable() {
    let (rem, pipeline) = parse_pipeline("ls < in.txt").unwrap();
    assert_eq!(pipeline.commands.len(), 1);
    assert_eq!(pipeline.commands[0].args, vec!["ls"]);
    assert_eq!(rem, "< in.txt");
}

#[test]
fn test_parse_round_trip_three_stages() {
    let (rem, pipeline) = parse_pipeline("a bb | c dd ee | f").unwrap();
    assert_eq!(rem, "");
    assert!(!pipeline.background);
    assert_eq!(pipeline.commands.len(), 3);
    assert_eq!(pipeline.commands[0].args, vec!["a", "bb"]);
    assert_eq!(pipeline.commands[1].args, vec!["c", "dd", "ee"]);
    assert_eq!(pipeline.commands[2].args, vec!["f"]);
    for cmd in &pipeline.commands {
        assert!(cmd.redirections.is_empty());
    }
}

#[test]
fn test_parse_redirection_without_target_is_not_a_redirection() {
    let (rem, pipeline) = parse_pipeline("ls >").unwrap();
    assert_eq!(pipeline.commands[0].args, vec!["ls"]);
    assert!(pipeline.commands[0].redirections.is_empty());
    assert_eq!(rem, ">");
}
