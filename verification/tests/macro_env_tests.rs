use chev_shell::env::{EnvError, EnvManager};
use chev_shell::macros::MacroManager;

#[test]
fn test_macro_expansion() {
    let mut manager = MacroManager::new();
    manager.set_macro("g".to_string(), "git".to_string());

    let expanded = manager.expand_macro("g commit -m 'feat'").unwrap();
    assert_eq!(expanded, "git commit -m 'feat'");

    manager.set_macro("grep-src".to_string(), "rg $1 src/".to_string());
    let expanded = manager.expand_macro("grep-src hello").unwrap();
    assert_eq!(expanded, "rg hello src/");
}

#[test]
fn test_macro_placeholders() {
    let mut manager = MacroManager::new();
    manager.set_macro("dual".to_string(), "echo $1 $2".to_string());
    let expanded = manager.expand_macro("dual first second").unwrap();
    assert_eq!(expanded, "echo first second");

    manager.set_macro("rest".to_string(), "echo all: $".to_string());
    let expanded = manager.expand_macro("rest one two three").unwrap();
    assert_eq!(expanded, "echo all: one two three");
}

#[test]
fn test_abbreviations() {
    let mut manager = MacroManager::new();
    manager.set_abbreviation("gco".to_string(), "git checkout".to_string());
    assert_eq!(manager.get_abbreviation("gco"), Some(&"git checkout".to_string()));
}

#[test]
fn test_macro_positional_append() {
    // A template with no `$` has the remaining words appended.
    let mut manager = MacroManager::new();
    manager.set_macro("g".to_string(), "git".to_string());
    assert_eq!(manager.expand_macro("g commit -m x").unwrap(), "git commit -m x");
}

#[test]
fn test_macro_unknown_word_is_unchanged() {
    let manager = MacroManager::new();
    assert_eq!(manager.expand_macro("ls -la"), None);
    assert_eq!(manager.expand_macro(""), None);
    assert_eq!(manager.expand_macro("   "), None);
}

#[test]
fn test_macro_redefine_and_unset() {
    let mut manager = MacroManager::new();
    manager.set_macro("g".to_string(), "git".to_string());
    manager.set_macro("g".to_string(), "gitk".to_string());
    assert_eq!(manager.expand_macro("g").unwrap(), "gitk");
    assert_eq!(manager.list().len(), 1);

    manager.unset_macro("g");
    assert_eq!(manager.expand_macro("g"), None);
    assert!(manager.list().is_empty());
}

#[test]
fn test_failure_context_roundtrip() {
    let mut manager = MacroManager::new();
    assert!(manager.last_error().is_none());
    manager.record_failure("bad cmd".to_string(), "oops".to_string());
    let (cmd, err) = manager.last_error().unwrap();
    assert_eq!(cmd, "bad cmd");
    assert_eq!(err, "oops");
    manager.set_last_suggestion("good cmd".to_string());
    assert_eq!(manager.last_suggestion(), Some(&"good cmd".to_string()));
    manager.record_success();
    assert!(manager.last_error().is_none());
    assert!(manager.last_suggestion().is_none());
}

#[test]
fn test_set_and_get_var() {
    let mut env = EnvManager::new();
    env.set_var("CHEV_TEST".to_string(), "rocks".to_string());
    assert_eq!(env.get_var("CHEV_TEST"), Some(&"rocks".to_string()));

    env.set_var("CHEV_TEST".to_string(), "still rocks".to_string());
    assert_eq!(env.get_var("CHEV_TEST"), Some(&"still rocks".to_string()));
    assert_eq!(env.get_all_vars().len(), 1);

    env.remove_var("CHEV_TEST");
    assert_eq!(env.get_var("CHEV_TEST"), None);
}

#[test]
fn test_dir_stack_restores() {
    let mut env = EnvManager::new();
    env.set_cwd("/home/someone".to_string());

    env.pushd("/tmp".to_string());
    assert_eq!(env.cwd(), "/tmp");
    assert_eq!(env.get_stack(), vec!["/tmp".to_string(), "/home/someone".to_string()]);

    let popped = env.popd().unwrap();
    assert_eq!(popped, "/home/someone");
    assert_eq!(env.cwd(), "/home/someone");
    assert_eq!(env.get_stack(), vec!["/home/someone".to_string()]);

    assert_eq!(env.popd(), Err(EnvError::StackEmpty));
    assert_eq!(env.cwd(), "/home/someone");
}

#[test]
fn test_add_to_path() {
    let mut env = EnvManager::new();
    env.set_var("PATH".to_string(), "/bin:/usr/bin".to_string());

    let test_path = "/tmp/chev-test-bin";
    env.add_to_path(test_path, true);
    let current_path = env.get_var("PATH").unwrap();
    assert!(current_path.starts_with(test_path));
    assert_eq!(current_path, "/tmp/chev-test-bin:/bin:/usr/bin");

    env.add_to_path("/usr/local/bin", false);
    let updated_path = env.get_var("PATH").unwrap();
    assert!(updated_path.contains("/usr/local/bin"));
    assert_eq!(updated_path, "/tmp/chev-test-bin:/bin:/usr/bin:/usr/local/bin");
}

#[test]
fn test_add_to_path_dedup() {
    let mut env = EnvManager::new();
    env.set_var("PATH".to_string(), "/a:/b:/a".to_string());

    env.add_to_path("/a", true);
    assert_eq!(env.get_var("PATH").unwrap(), "/a:/b");

    env.add_to_path("/a", false);
    assert_eq!(env.get_var("PATH").unwrap(), "/b:/a");

    env.add_to_path("/c", false);
    env.add_to_path("/c", false);
    assert_eq!(env.get_var("PATH").unwrap(), "/b:/a:/c");
}
