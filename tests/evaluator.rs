use shrs::ast::{Assign, CaseArm, CmdId, Command, Condition, Redirect, RedirectMode};
use shrs::eval::{Action, EvalError, Evaluator, Event, Input, Launch, Output};
use shrs::runtime::Runtime;
use shrs::shell::{default_builtins, session_runtime, ShellConfigBuilder};

/// A launched child, as the simulated system recorded it.
struct Child {
    program: String,
    args: Vec<String>,
    input: String,
    output: String,
    pgid: Option<usize>,
}

fn words(ws: &[&str]) -> Vec<String> {
    ws.iter().map(|w| w.to_string()).collect()
}

fn simple(ws: &[&str]) -> Command {
    Command::Simple { assigns: vec![], redirects: vec![], args: words(ws) }
}

fn machine() -> Evaluator {
    Evaluator::new(vec![], Runtime::new("/tmp".to_string(), "shrs".to_string()), default_builtins())
}

fn add(ev: &mut Evaluator, c: Command) -> CmdId {
    ev.add(c).expect("children are in the arena")
}

fn describe_input(i: &Input) -> String {
    match i {
        Input::Inherit => "inherit".to_string(),
        Input::PipeFrom(h) => format!("pipe {}", h),
        Input::File { path, .. } => format!("file {}", path),
    }
}

fn describe_output(o: &Output) -> String {
    match o {
        Output::Piped => "piped".to_string(),
        Output::File { path, .. } => format!("file {}", path),
    }
}

/// Runs a line; `false` exits 1, every other program 0; `existing` files refuse create-new opens.
fn run(ev: &mut Evaluator, root: CmdId, existing: &[&str]) -> (Vec<Child>, Result<i32, EvalError>) {
    ev.start(root);
    let mut children: Vec<Child> = vec![];
    let mut statuses: Vec<i32> = vec![];
    let mut event = Event::Proceed;
    for _ in 0..10_000 {
        match ev.step(event) {
            Action::Spawn { handle, launch } => {
                assert_eq!(handle, statuses.len());
                match launch {
                    Launch::External { program, args, streams, pgid, .. } => {
                        if let Output::File { path, .. } = &streams.output {
                            if existing.contains(&path.as_str()) {
                                event = Event::Failed(EvalError::RedirectOpenFailure);
                                continue;
                            }
                        }
                        statuses.push(if program == "false" { 1 } else { 0 });
                        children.push(Child {
                            program,
                            args,
                            input: describe_input(&streams.input),
                            output: describe_output(&streams.output),
                            pgid,
                        });
                    },
                    Launch::Builtin { name, args } => {
                        statuses.push(0);
                        children.push(Child {
                            program: name,
                            args,
                            input: String::new(),
                            output: String::new(),
                            pgid: None,
                        });
                    },
                    Launch::Placeholder { status } => {
                        statuses.push(status);
                        children.push(Child {
                            program: "(placeholder)".to_string(),
                            args: vec![],
                            input: String::new(),
                            output: String::new(),
                            pgid: None,
                        });
                    },
                }
                event = Event::Started;
            },
            Action::Wait { handle } => event = Event::Exited(statuses[handle]),
            Action::Continue => event = Event::Proceed,
            Action::ChangeDir { path } => {
                event = if existing.contains(&"-no-dirs") || path.starts_with("/missing") {
                    Event::Failed(EvalError::NoSuchDirectory)
                } else {
                    Event::Started
                };
            },
            Action::Finished { status } => return (children, Ok(status)),
            Action::Failed { error } => return (children, Err(error)),
            Action::Exit => panic!("exit"),
            Action::Idle => panic!("idle"),
        }
    }
    panic!("the line did not finish")
}

fn externals(children: &[Child]) -> Vec<String> {
    children
        .iter()
        .filter(|c| c.program != "(placeholder)")
        .map(|c| format!("{} {}", c.program, c.args.join(" ")).trim_end().to_string())
        .collect()
}

#[test]
fn echo_hello() {
    let mut ev = machine();
    let root = add(&mut ev, simple(&["echo", "hello"]));
    let (children, status) = run(&mut ev, root, &[]);
    assert_eq!(externals(&children), vec!["echo hello"]);
    assert_eq!(children[0].output, "piped");
    assert_eq!(status, Ok(0));
    assert_eq!(ev.rt.exit_status, 0);
}

#[test]
fn false_and_echo() {
    let mut ev = machine();
    let l = add(&mut ev, simple(&["false"]));
    let r = add(&mut ev, simple(&["echo", "X"]));
    let root = add(&mut ev, Command::And(l, r));
    let (children, status) = run(&mut ev, root, &[]);
    assert_eq!(externals(&children), vec!["false"]);
    assert_eq!(status, Ok(1));
    assert_eq!(ev.rt.exit_status, 1);
}

#[test]
fn true_or_echo() {
    let mut ev = machine();
    let l = add(&mut ev, simple(&["true"]));
    let r = add(&mut ev, simple(&["echo", "X"]));
    let root = add(&mut ev, Command::Or(l, r));
    let (children, status) = run(&mut ev, root, &[]);
    assert_eq!(externals(&children), vec!["true"]);
    assert_eq!(status, Ok(0));
    assert_eq!(ev.rt.exit_status, 0);
}

#[test]
fn and_or_run_the_right_side_when_owed() {
    let mut ev = machine();
    let l = add(&mut ev, simple(&["true"]));
    let r = add(&mut ev, simple(&["echo", "X"]));
    let root = add(&mut ev, Command::And(l, r));
    let (children, _) = run(&mut ev, root, &[]);
    assert_eq!(externals(&children), vec!["true", "echo X"]);
    let l = add(&mut ev, simple(&["false"]));
    let root = add(&mut ev, Command::Or(l, r));
    let (children, status) = run(&mut ev, root, &[]);
    assert_eq!(externals(&children), vec!["false", "echo X"]);
    assert_eq!(status, Ok(0));
}

#[test]
fn echo_pipe_tr() {
    let mut ev = machine();
    let l = add(&mut ev, simple(&["echo", "foo"]));
    let r = add(&mut ev, simple(&["tr", "o", "0"]));
    let root = add(&mut ev, Command::Pipeline(l, r));
    let (children, status) = run(&mut ev, root, &[]);
    assert_eq!(externals(&children), vec!["echo foo", "tr o 0"]);
    assert_eq!(children[0].input, "inherit");
    assert_eq!(children[0].output, "piped");
    assert_eq!(children[1].input, "pipe 0");
    assert_eq!(children[1].pgid, Some(0));
    assert_eq!(children[1].output, "piped");
    assert_eq!(status, Ok(0));
}

#[test]
fn three_stage_pipeline_shares_the_head_group() {
    let mut ev = machine();
    let a = add(&mut ev, simple(&["cat", "f"]));
    let b = add(&mut ev, simple(&["sort"]));
    let c = add(&mut ev, simple(&["uniq"]));
    let ab = add(&mut ev, Command::Pipeline(a, b));
    let root = add(&mut ev, Command::Pipeline(ab, c));
    let (children, _) = run(&mut ev, root, &[]);
    assert_eq!(children[1].input, "pipe 0");
    assert_eq!(children[2].input, "pipe 1");
    assert_eq!(children[1].pgid, Some(0));
    assert_eq!(children[2].pgid, Some(0));
}

#[test]
fn msg_from_environment() {
    let mut ev = machine();
    ev.rt.env.set("MSG".to_string(), "hi".to_string());
    let root = add(&mut ev, simple(&["echo", "$MSG"]));
    let (children, _) = run(&mut ev, root, &[]);
    assert_eq!(externals(&children), vec!["echo hi"]);
    let root = add(&mut ev, simple(&["echo", "${MSG}"]));
    let (children, _) = run(&mut ev, root, &[]);
    assert_eq!(externals(&children), vec!["echo hi"]);
}

#[test]
fn for_loop_over_words() {
    let mut ev = machine();
    let body = add(&mut ev, simple(&["echo", "$x"]));
    let root = add(&mut ev, Command::For { name: "x".to_string(), wordlist: words(&["a b", "c"]), body });
    let (children, status) = run(&mut ev, root, &[]);
    assert_eq!(externals(&children), vec!["echo a", "echo b", "echo c"]);
    assert_eq!(status, Ok(0));
    assert_eq!(ev.rt.env.get(&"x".to_string()), Some("c".to_string()));
}

#[test]
fn function_definition_and_call() {
    let mut ev = machine();
    let body = add(&mut ev, simple(&["echo", "hi"]));
    let def = add(&mut ev, Command::Fn { fname: "greet".to_string(), body });
    let call = add(&mut ev, simple(&["greet"]));
    let root = add(&mut ev, Command::SeqList(def, Some(call)));
    let (children, status) = run(&mut ev, root, &[]);
    assert_eq!(externals(&children), vec!["echo hi"]);
    assert_eq!(status, Ok(0));
    assert_eq!(ev.rt.function(&"greet".to_string()), Some(body));
}

#[test]
fn reserved_function_name() {
    let mut ev = machine();
    let body = add(&mut ev, simple(&["echo", "hi"]));
    let root = add(&mut ev, Command::Fn { fname: "if".to_string(), body });
    let (_, status) = run(&mut ev, root, &[]);
    assert_eq!(status, Err(EvalError::ReservedFunctionName));
    assert_eq!(ev.rt.function(&"if".to_string()), None);
    let root = add(&mut ev, Command::Fn { fname: "while".to_string(), body });
    assert_eq!(run(&mut ev, root, &[]).1, Err(EvalError::ReservedFunctionName));
}

#[test]
fn write_redirect_create_new() {
    let mut ev = machine();
    let root = add(
        &mut ev,
        Command::Simple {
            assigns: vec![],
            redirects: vec![Redirect { n: None, file: "/tmp/out".to_string(), mode: RedirectMode::Write }],
            args: words(&["echo", "one"]),
        },
    );
    let (children, status) = run(&mut ev, root, &[]);
    assert_eq!(externals(&children), vec!["echo one"]);
    assert_eq!(children[0].output, "file /tmp/out");
    assert_eq!(status, Ok(0));
    let (_, status) = run(&mut ev, root, &["/tmp/out"]);
    assert_eq!(status, Err(EvalError::RedirectOpenFailure));
}

#[test]
fn last_redirect_wins_and_dup_is_refused() {
    let mut ev = machine();
    let r = |f: &str, mode| Redirect { n: Some(1), file: f.to_string(), mode };
    let root = add(
        &mut ev,
        Command::Simple {
            assigns: vec![],
            redirects: vec![r("a", RedirectMode::Write), r("b", RedirectMode::Read), r("c", RedirectMode::WriteAppend)],
            args: words(&["cat"]),
        },
    );
    let (children, _) = run(&mut ev, root, &[]);
    assert_eq!(children[0].input, "file b");
    assert_eq!(children[0].output, "file c");
    let root = add(
        &mut ev,
        Command::Simple { assigns: vec![], redirects: vec![r("x", RedirectMode::ReadDup)], args: words(&["cat"]) },
    );
    assert_eq!(run(&mut ev, root, &[]).1, Err(EvalError::NotImplemented));
}

#[test]
fn empty_command_fails() {
    let mut ev = machine();
    let root = add(&mut ev, simple(&[]));
    assert_eq!(run(&mut ev, root, &[]).1, Err(EvalError::EmptyCommand));
}

#[test]
fn builtin_cd_launches_nothing() {
    let mut ev = machine();
    let root = add(&mut ev, simple(&["cd", "/usr"]));
    let (children, status) = run(&mut ev, root, &[]);
    assert!(externals(&children).is_empty());
    assert_eq!(status, Ok(0));
    assert_eq!(ev.rt.working_dir, "/usr");
    let root = add(&mut ev, simple(&["cd"]));
    run(&mut ev, root, &[]);
    assert_eq!(ev.rt.working_dir, "/");
}

#[test]
fn cd_there_and_back() {
    let mut ev = machine();
    for dir in ["/x", "/y", "/x"] {
        let root = add(&mut ev, simple(&["cd", dir]));
        run(&mut ev, root, &[]);
    }
    assert_eq!(ev.rt.working_dir, "/x");
}

#[test]
fn subshell_changes_do_not_leak() {
    let mut ev = machine();
    let cd = add(&mut ev, simple(&["cd", "/elsewhere"]));
    let body = add(&mut ev, simple(&["echo", "in"]));
    let def = add(&mut ev, Command::Fn { fname: "inner".to_string(), body });
    let both = add(&mut ev, Command::SeqList(cd, Some(def)));
    let root = add(&mut ev, Command::Subshell(both));
    let (_, status) = run(&mut ev, root, &[]);
    assert_eq!(status, Ok(0));
    assert_eq!(ev.rt.working_dir, "/tmp");
    assert_eq!(ev.rt.function(&"inner".to_string()), None);
    assert!(ev.saved.is_empty());
}

#[test]
fn if_elif_else() {
    let mut ev = machine();
    let f = add(&mut ev, simple(&["false"]));
    let t = add(&mut ev, simple(&["true"]));
    let a = add(&mut ev, simple(&["echo", "a"]));
    let b = add(&mut ev, simple(&["echo", "b"]));
    let e = add(&mut ev, simple(&["echo", "e"]));
    let root = add(
        &mut ev,
        Command::If { conds: vec![Condition { cond: f, body: a }, Condition { cond: t, body: b }], else_part: Some(e) },
    );
    let (children, _) = run(&mut ev, root, &[]);
    assert_eq!(externals(&children), vec!["false", "true", "echo b"]);
    let root = add(&mut ev, Command::If { conds: vec![Condition { cond: f, body: a }], else_part: Some(e) });
    let (children, _) = run(&mut ev, root, &[]);
    assert_eq!(externals(&children), vec!["false", "echo e"]);
    assert_eq!(ev.add(Command::If { conds: vec![], else_part: None }), None);
}

#[test]
fn until_stops_on_success() {
    let mut ev = machine();
    let t = add(&mut ev, simple(&["true"]));
    let body = add(&mut ev, simple(&["echo", "never"]));
    let root = add(&mut ev, Command::Until { cond: t, body });
    let (children, status) = run(&mut ev, root, &[]);
    assert_eq!(externals(&children), vec!["true"]);
    assert_eq!(status, Ok(0));
    let f = add(&mut ev, simple(&["false"]));
    let root = add(&mut ev, Command::While { cond: f, body });
    let (children, _) = run(&mut ev, root, &[]);
    assert_eq!(externals(&children), vec!["false"]);
}

#[test]
fn case_runs_every_matching_arm() {
    let mut ev = machine();
    ev.rt.env.set("V".to_string(), "b".to_string());
    let one = add(&mut ev, simple(&["echo", "1"]));
    let two = add(&mut ev, simple(&["echo", "2"]));
    let three = add(&mut ev, simple(&["echo", "3"]));
    let root = add(
        &mut ev,
        Command::Case {
            word: "$V".to_string(),
            arms: vec![
                CaseArm { pattern: words(&["a", "b"]), body: one },
                CaseArm { pattern: words(&["c"]), body: two },
                CaseArm { pattern: words(&["b"]), body: three },
            ],
        },
    );
    let (children, _) = run(&mut ev, root, &[]);
    assert_eq!(externals(&children), vec!["echo 1", "echo 3"]);
}

#[test]
fn assigns_go_to_the_child_only() {
    let mut ev = machine();
    let root = add(
        &mut ev,
        Command::Simple {
            assigns: vec![Assign { var: "K".to_string(), val: "v".to_string() }],
            redirects: vec![],
            args: words(&["env"]),
        },
    );
    ev.start(root);
    match ev.step(Event::Proceed) {
        Action::Spawn { launch: Launch::External { envs, cwd, .. }, .. } => {
            assert_eq!(envs, vec![("K".to_string(), "v".to_string())]);
            assert_eq!(cwd, "/tmp");
        },
        _ => panic!("expected a launch"),
    }
    assert_eq!(ev.rt.env.get(&"K".to_string()), None);
}

#[test]
fn async_list_does_not_wait() {
    let mut ev = machine();
    let l = add(&mut ev, simple(&["sleep", "1"]));
    let r = add(&mut ev, simple(&["echo", "x"]));
    let root = add(&mut ev, Command::AsyncList(l, Some(r)));
    ev.start(root);
    assert!(matches!(ev.step(Event::Proceed), Action::Continue));
    assert!(matches!(ev.step(Event::Proceed), Action::Spawn { handle: 0, .. }));
    assert!(matches!(ev.step(Event::Started), Action::Continue));
    assert!(matches!(ev.step(Event::Proceed), Action::Spawn { handle: 1, .. }));
    assert!(matches!(ev.step(Event::Started), Action::Wait { handle: 1 }));
}

#[test]
fn exit_builtin_and_registered_builtin() {
    let mut builtins = default_builtins();
    builtins.push("history".to_string());
    let mut ev = Evaluator::new(vec![], Runtime::new("/".to_string(), "shrs".to_string()), builtins);
    let root = add(&mut ev, simple(&["exit"]));
    ev.start(root);
    assert!(matches!(ev.step(Event::Proceed), Action::Exit));
    let root = add(&mut ev, simple(&["history", "$0"]));
    let (children, _) = run(&mut ev, root, &[]);
    assert_eq!(children[0].program, "history");
    assert_eq!(children[0].args, vec!["shrs"]);
}

#[test]
fn empty_command_node_is_a_placeholder() {
    let mut ev = machine();
    let root = add(&mut ev, Command::Empty);
    let (children, status) = run(&mut ev, root, &[]);
    assert_eq!(children.len(), 1);
    assert_eq!(status, Ok(0));
}

#[test]
fn cd_to_a_missing_directory_keeps_the_directory() {
    let mut ev = machine();
    ev.rt.exit_status = 3;
    let root = add(&mut ev, simple(&["cd", "/missing/dir"]));
    let (_, status) = run(&mut ev, root, &[]);
    assert_eq!(status, Err(EvalError::NoSuchDirectory));
    assert_eq!(ev.rt.working_dir, "/tmp");
    assert_eq!(ev.rt.exit_status, 3);
}

#[test]
fn cd_asks_for_the_target() {
    let mut ev = machine();
    let root = add(&mut ev, simple(&["cd", "~/src"]));
    ev.rt.env.set("HOME".to_string(), "/home/me".to_string());
    ev.start(root);
    match ev.step(Event::Proceed) {
        Action::ChangeDir { path } => assert_eq!(path, "/home/me/src"),
        _ => panic!("expected a directory check"),
    }
    assert!(matches!(ev.step(Event::Started), Action::Spawn { handle: 0, launch: Launch::Placeholder { status: 0 } }));
    assert_eq!(ev.rt.working_dir, "/home/me/src");
}

#[test]
fn failed_launch_keeps_the_runtime() {
    let mut ev = machine();
    ev.rt.exit_status = 5;
    let root = add(&mut ev, simple(&["no-such-program"]));
    ev.start(root);
    assert!(matches!(ev.step(Event::Proceed), Action::Spawn { handle: 0, .. }));
    let a = ev.step(Event::Failed(EvalError::SpawnFailed));
    assert!(matches!(a, Action::Failed { error: EvalError::SpawnFailed }));
    assert_eq!(ev.rt.exit_status, 5);
    assert!(ev.frames.is_empty());
}

#[test]
fn configured_functions_are_callable() {
    let arena = vec![simple(&["echo", "hi"])];
    let config = ShellConfigBuilder::new()
        .with_functions(arena, vec![("greet".to_string(), 0)])
        .build();
    let rt = session_runtime("/".to_string(), config.env, config.functions);
    let mut ev = Evaluator::new(config.arena, rt, config.shell.builtins);
    let root = add(&mut ev, simple(&["greet"]));
    let (children, status) = run(&mut ev, root, &[]);
    assert_eq!(externals(&children), vec!["echo hi"]);
    assert_eq!(status, Ok(0));
}

#[test]
fn redefining_a_function_replaces_it() {
    let mut ev = machine();
    let one = add(&mut ev, simple(&["echo", "1"]));
    let two = add(&mut ev, simple(&["echo", "2"]));
    let d1 = add(&mut ev, Command::Fn { fname: "f".to_string(), body: one });
    let d2 = add(&mut ev, Command::Fn { fname: "f".to_string(), body: two });
    let call = add(&mut ev, simple(&["f"]));
    let tail = add(&mut ev, Command::SeqList(d2, Some(call)));
    let root = add(&mut ev, Command::SeqList(d1, Some(tail)));
    ev.rt.working_dir = "/w".to_string();
    let (children, _) = run(&mut ev, root, &[]);
    assert_eq!(externals(&children), vec!["echo 2"]);
    assert_eq!(ev.rt.working_dir, "/w");
}
