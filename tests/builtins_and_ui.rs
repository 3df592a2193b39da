use pmsh::builtins::{builtin_of, collapse_tilde, handle_builtin, plan_cd, BuiltinKind, BuiltinResult};
use pmsh::executor::{resolve, Resolution};
use pmsh::functions::Functions;
use pmsh::parser::SimpleCommand;
use pmsh::repl::{execute_line, on_readline, LineEditor, NoOpEditor, ReadlineEvent, ReplStep};
use pmsh::ui::{expand_home, format_prompt_with, replace_str};

fn simple(name: &str, args: &[&str]) -> SimpleCommand {
    SimpleCommand {
        name: name.into(),
        args: args.iter().map(|a| a.to_string()).collect(),
        assignments: vec![],
    }
}

#[test]
fn builtin_names() {
    assert_eq!(builtin_of("exit"), Some(BuiltinKind::Exit));
    assert_eq!(builtin_of("history"), Some(BuiltinKind::History));
    assert_eq!(builtin_of("cd"), Some(BuiltinKind::Cd));
    assert_eq!(builtin_of("source"), Some(BuiltinKind::Source));
    assert_eq!(builtin_of("."), Some(BuiltinKind::Source));
    assert_eq!(builtin_of("ls"), None);
}

#[test]
fn builtin_dispatch() {
    assert!(matches!(handle_builtin(&simple("ls", &[])), Ok(BuiltinResult::NotHandled)));
    assert!(matches!(handle_builtin(&simple("cd", &["x"])), Ok(BuiltinResult::ParseArgs(BuiltinKind::Cd))));
    match handle_builtin(&simple("source", &["f"])) {
        Ok(BuiltinResult::SourceFile(p)) => assert_eq!(p, "f"),
        _ => panic!("expected a file to source"),
    }
    match handle_builtin(&simple("source", &[])) {
        Err(m) => assert_eq!(m, "source: expected 1 argument"),
        _ => panic!("expected an error"),
    }
}

#[test]
fn cd_targets() {
    let home = Some("/home/u".to_string());
    assert_eq!(plan_cd(&None, &home, &None), Ok(("/home/u".to_string(), false)));
    assert_eq!(plan_cd(&None, &None, &None), Ok(("/".to_string(), false)));
    assert_eq!(plan_cd(&Some("-".into()), &home, &Some("/old".into())), Ok(("/old".to_string(), true)));
    assert_eq!(plan_cd(&Some("-".into()), &home, &None), Err("cd: OLDPWD not set".to_string()));
    assert_eq!(plan_cd(&Some("~/x".into()), &home, &None), Ok(("/home/u/x".to_string(), false)));
    assert_eq!(plan_cd(&Some("rel".into()), &home, &None), Ok(("rel".to_string(), false)));
}

#[test]
fn test_collapse_tilde() {
    assert_eq!(collapse_tilde("~/test", Some("/h")), "/h/test");
    assert_eq!(collapse_tilde("a~b", Some("/h")), "a~b");
    assert_eq!(collapse_tilde("~/test", None), "~/test");
}

#[test]
fn test_expand_home() {
    assert_eq!(expand_home("/home/u/test", Some("/home/u")), "~/test");
    assert_eq!(expand_home("/etc", Some("/home/u")), "/etc");
    assert_eq!(expand_home("/home/u", None), "/home/u");
    assert_eq!(replace_str("aXbXXc", "X", "~"), "a~b~~c");
    assert_eq!(replace_str("aaa", "aa", "b"), "ba");
    assert_eq!(replace_str("abc", "", "z"), "abc");
}

#[test]
fn test_format_prompt_home() {
    let p = format_prompt_with("/home/bob/testdir", "bob", Some("/home/bob"));
    assert!(p.contains("~"));
    assert!(p.ends_with("$ "));
    assert_eq!(p, "bob:~/testdir$ ");
}

#[test]
fn test_format_prompt_cwd() {
    let p = format_prompt_with("/tmp/somewhere", "alice", Some("/home/alice"));
    assert!(p.contains("alice:"));
    assert_eq!(p, "alice:/tmp/somewhere$ ");
}

struct Recorder(Vec<String>);

impl LineEditor for Recorder {
    fn readline(&mut self, _prompt: &str) -> ReadlineEvent {
        ReadlineEvent::Eof
    }

    fn add_history_entry(&mut self, entry: &str) {
        self.0.push(entry.to_string());
    }
}

#[test]
fn lines_are_recorded_and_parsed() {
    let mut ed = Recorder(Vec::new());
    assert!(execute_line("echo hello | wc -w", &mut ed).is_ok());
    assert!(execute_line("echo 'open", &mut ed).is_err());
    assert_eq!(ed.0, vec!["echo hello | wc -w".to_string(), "echo 'open".to_string()]);
    let mut none = NoOpEditor;
    assert!(matches!(none.readline("$ "), ReadlineEvent::Eof));
    assert!(execute_line("", &mut none).is_ok());
}

#[test]
fn loop_decisions() {
    assert_eq!(on_readline(&ReadlineEvent::Line("x".into())), ReplStep::Run);
    assert_eq!(on_readline(&ReadlineEvent::Interrupted), ReplStep::Interrupted);
    assert_eq!(on_readline(&ReadlineEvent::Eof), ReplStep::SaveAndQuit);
    assert_eq!(on_readline(&ReadlineEvent::Other), ReplStep::Quit);
}

#[test]
fn lookup_order() {
    let mut functions = Functions::new();
    assert_eq!(resolve(&functions, &simple("cd", &["x"])), Resolution::Builtin(BuiltinKind::Cd));
    assert_eq!(resolve(&functions, &simple("ls", &[])), Resolution::External);
    assert_eq!(resolve(&functions, &simple("", &[])), Resolution::Assign);
    functions.set("cd".to_string(), vec![]);
    assert_eq!(resolve(&functions, &simple("cd", &["x"])), Resolution::Function);
}

#[test]
fn special_parameters_round_trip() {
    let vars = pmsh::variables::Variables::new();
    for s in ["$@", "$#", "$?", "$$", "$!", "$-", "a $@ b"] {
        assert_eq!(vars.expand(s), s);
    }
}
