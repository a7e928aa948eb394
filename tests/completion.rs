use shrs::completion::{
    arg_pred, cmdname_action, cmdname_eq_pred, cmdname_pred, flag_pred, git_action, git_pred,
    long_flag_pred, short_flag_pred, Action, CompletionCtx, DefaultCompleter, Pred, PredKind, Rule,
};
use shrs::shell::{executables_in, path_dirs};

fn ctx(words: &[&str]) -> CompletionCtx {
    CompletionCtx::new(words.iter().map(|w| w.to_string()).collect())
}

#[test]
fn simple() {
    let comp = DefaultCompleter::new();
    assert_eq!(comp.rules.len(), 0);
}

#[test]
fn test_is_flag() {
    let ctx = CompletionCtx::new(vec!["git".into(), "-".into()]);
    assert!(flag_pred(&ctx));
    let ctx = CompletionCtx::new(vec![]);
    assert!(!flag_pred(&ctx));
}

#[test]
fn path_execs_test() {
    let dirs = path_dirs("/usr/bin:/usr/local/bin");
    println!("{:?}", dirs);
    assert_eq!(dirs, vec!["/usr/bin".to_string(), "/usr/local/bin".to_string()]);
}

#[test]
fn path_dirs_keeps_empty_entries() {
    assert_eq!(path_dirs("a::b"), vec!["a".to_string(), String::new(), "b".to_string()]);
    assert_eq!(path_dirs(""), vec![String::new()]);
}

#[test]
fn executables_by_mode() {
    let entries = vec![
        ("ls".to_string(), 0o755u32),
        ("notes".to_string(), 0o644u32),
        ("run".to_string(), 0o100u32),
    ];
    assert_eq!(executables_in(&entries), vec!["ls".to_string(), "run".to_string()]);
}

#[test]
fn flag_kinds() {
    assert!(long_flag_pred(&ctx(&["git", "--he"])));
    assert!(!short_flag_pred(&ctx(&["git", "--he"])));
    assert!(short_flag_pred(&ctx(&["git", "-v"])));
    assert!(!flag_pred(&ctx(&["git", "status"])));
}

#[test]
fn command_name_and_argument() {
    assert!(cmdname_pred(&ctx(&["gi"])));
    assert!(!arg_pred(&ctx(&["gi"])));
    assert!(arg_pred(&ctx(&["git", "st"])));
    assert!(git_pred(&ctx(&["git", "st"])));
    assert!(!git_pred(&ctx(&["ls", "st"])));
    let p = Pred::new(cmdname_eq_pred("ls".to_string()));
    assert!(p.test(&ctx(&["ls", "-"])));
    assert!(!p.test(&ctx(&["cat", "-"])));
}

#[test]
fn conjunction_of_tests() {
    let p = Pred::new(PredKind::Git).and(PredKind::Flag);
    assert!(p.test(&ctx(&["git", "--b"])));
    assert!(!p.test(&ctx(&["git", "b"])));
    assert!(!p.test(&ctx(&["ls", "--b"])));
}

#[test]
fn default_rules_complete_by_prefix() {
    let comp = DefaultCompleter::default();
    assert_eq!(comp.complete_helper(&ctx(&["git", "--"])), vec!["--version", "--help", "--bare"]);
    assert_eq!(comp.complete_helper(&ctx(&["git", "--b"])), vec!["--bare"]);
    assert_eq!(comp.complete_helper(&ctx(&["git", "s"])), vec!["status"]);
    assert_eq!(comp.complete_helper(&ctx(&["cat", "x"])), Vec::<String>::new());
    assert_eq!(comp.complete_helper(&ctx(&["cat", ""])), vec!["VALID!"]);
    assert_eq!(comp.complete_helper(&ctx(&["ca"])), Vec::<String>::new());
    assert_eq!(git_action(&ctx(&[])), vec!["status", "add", "commit"]);
}

#[test]
fn registered_command_names() {
    let mut comp = DefaultCompleter::new();
    comp.register(Rule(
        Pred::new(PredKind::CmdName),
        cmdname_action(vec!["ls".to_string(), "less".to_string(), "cat".to_string()]),
    ));
    assert_eq!(comp.complete_helper(&ctx(&["l"])), vec!["ls", "less"]);
    assert!(matches!(comp.rules[0].1, Action::Words(_)));
}
