use shrs::expand::envsubst;
use shrs::runtime::Runtime;
use shrs::shell::Alias;

fn runtime() -> Runtime {
    let mut rt = Runtime::new("/".to_string(), "shrs".to_string());
    rt.env.set("HOME".to_string(), "/home/me".to_string());
    rt.env.set("EDITOR".to_string(), "vim".to_string());
    rt.env.set("SHELL".to_string(), "/bin/shrs".to_string());
    rt
}

#[test]
fn envsubst_test() {
    let rt = runtime();
    assert_eq!(envsubst(&rt, "$SHELL ${EDITOR}"), "/bin/shrs vim");
}

#[test]
fn special_parameters() {
    let mut rt = runtime();
    rt.exit_status = 42;
    rt.args = vec!["a".to_string(), "b".to_string()];
    assert_eq!(envsubst(&rt, "$? $# $0"), "42 2 shrs");
    rt.exit_status = -3;
    assert_eq!(envsubst(&rt, "[$?]"), "[-3]");
}

#[test]
fn unset_variables_are_empty() {
    let rt = runtime();
    assert_eq!(envsubst(&rt, "a$NOPE-b${NOPE}c"), "a-bc");
}

#[test]
fn longest_name_is_taken() {
    let mut rt = runtime();
    rt.env.set("A".to_string(), "x".to_string());
    rt.env.set("AB".to_string(), "y".to_string());
    assert_eq!(envsubst(&rt, "$A $AB $A_"), "x y ");
    assert_eq!(envsubst(&rt, "$A$AB"), "xy");
}

#[test]
fn tilde_everywhere() {
    let rt = runtime();
    assert_eq!(envsubst(&rt, "~/src"), "/home/me/src");
    assert_eq!(envsubst(&rt, "a~b"), "a/home/meb");
    let bare = Runtime::new("/".to_string(), "shrs".to_string());
    assert_eq!(envsubst(&bare, "~x"), "x");
}

#[test]
fn plain_words_unchanged() {
    let rt = runtime();
    assert_eq!(envsubst(&rt, "hello world {x}"), "hello world {x}");
    assert_eq!(envsubst(&rt, ""), "");
    let once = envsubst(&rt, "$EDITOR ~");
    assert_eq!(envsubst(&rt, &once), once);
}

#[test]
fn dollar_without_name_stays() {
    let rt = runtime();
    assert_eq!(envsubst(&rt, "cost: 5$ ${}"), "cost: 5$ ${}");
}

#[test]
fn msg_variable() {
    let mut rt = runtime();
    rt.env.set("MSG".to_string(), "hi".to_string());
    assert_eq!(envsubst(&rt, "$MSG"), "hi");
    assert_eq!(envsubst(&rt, "${MSG}"), "hi");
}

#[test]
fn alias_applies_once() {
    let mut a = Alias::new();
    a.set("l".to_string(), "ls".to_string());
    a.set("ls".to_string(), "ls -a".to_string());
    assert_eq!(a.expand_line(&"l".to_string()), "ls");
    assert_eq!(a.expand_line(&"ls".to_string()), "ls -a");
    assert_eq!(a.expand_line(&"cat".to_string()), "cat");
}

#[test]
fn expanding_twice_is_expanding_once() {
    let mut rt = runtime();
    rt.exit_status = 7;
    rt.env.set("A".to_string(), "x".to_string());
    let s = "$A-${EDITOR} $? $# $0 ~/d";
    let once = envsubst(&rt, s);
    assert_eq!(once, "x-vim 7 0 shrs /home/me/d");
    assert_eq!(envsubst(&rt, &once), once);
}
