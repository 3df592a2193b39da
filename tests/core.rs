use pmsh::colors::{green, red};
use pmsh::functions::Functions;
use pmsh::history::{HistoryManager, MAX_HISTORY_SIZE};
use pmsh::parser::{Command, SimpleCommand};
use pmsh::variables::Variables;

fn create_dummy_body(name: &str) -> Vec<Vec<Command>> {
    vec![vec![Command::Simple(SimpleCommand {
        name: name.to_string(),
        args: vec![],
        assignments: vec![],
    })]]
}

#[test]
fn test_red() {
    assert_eq!(red("test"), "\x1b[31mtest\x1b[0m");
}

#[test]
fn test_green() {
    assert_eq!(green("test"), "\x1b[32mtest\x1b[0m");
}

#[test]
fn other_colors() {
    assert_eq!(pmsh::colors::yellow("y"), "\x1b[33my\x1b[0m");
    assert_eq!(pmsh::colors::blue("b"), "\x1b[34mb\x1b[0m");
    assert_eq!(pmsh::colors::cyan(""), "\x1b[36m\x1b[0m");
}

#[test]
fn test_new() {
    let functions = Functions::new();
    assert!(functions.is_empty());
}

#[test]
fn test_set_and_get() {
    let mut functions = Functions::new();
    let body = create_dummy_body("echo");
    functions.set("foo".to_string(), body.clone());

    let retrieved = functions.get("foo");
    assert!(retrieved.is_some());
    assert_eq!(retrieved.unwrap(), &body);
}

#[test]
fn test_overwrite() {
    let mut functions = Functions::new();
    let body1 = create_dummy_body("echo1");
    let body2 = create_dummy_body("echo2");

    functions.set("foo".to_string(), body1);
    functions.set("foo".to_string(), body2.clone());

    let retrieved = functions.get("foo");
    assert!(retrieved.is_some());
    assert_eq!(retrieved.unwrap(), &body2);
    assert_eq!(functions.len(), 1);
}

#[test]
fn test_get_non_existent() {
    let functions = Functions::new();
    assert!(functions.get("bar").is_none());
}

#[test]
fn test_remove() {
    let mut functions = Functions::new();
    let body = create_dummy_body("echo");
    functions.set("foo".to_string(), body);

    assert!(functions.get("foo").is_some());
    functions.remove("foo");
    assert!(functions.get("foo").is_none());
}

#[test]
fn test_history_manager_max_size() {
    if let Ok(mgr) = HistoryManager::new(Some("/tmp".to_string())) {
        let mut history = Vec::new();

        for i in 0..=MAX_HISTORY_SIZE {
            let entry = format!("command_{}", i);
            mgr.add_entry(&entry, &mut history);
        }

        assert!(history.len() <= MAX_HISTORY_SIZE);
    }
}

#[test]
fn history_keeps_the_most_recent_entries() {
    let mgr = HistoryManager::new(Some("/home/u".to_string())).unwrap();
    assert_eq!(mgr.path(), "/home/u/.pmsh_history");
    let mut history = Vec::new();
    for i in 0..(MAX_HISTORY_SIZE + 5) {
        mgr.add_entry(&format!("c{}", i), &mut history);
    }
    assert_eq!(history.len(), MAX_HISTORY_SIZE);
    assert_eq!(history[0], "c5");
    assert_eq!(history[MAX_HISTORY_SIZE - 1], format!("c{}", MAX_HISTORY_SIZE + 4));
    assert_eq!(mgr.to_save(&history), history);
}

#[test]
fn history_manager_needs_a_home() {
    assert!(HistoryManager::new(None).is_err());
}

#[test]
fn test_variable_expansion() {
    let mut vars = Variables::new();
    vars.set("FOO".to_string(), "bar".to_string());
    vars.set("BAZ".to_string(), "qux".to_string());

    assert_eq!(vars.expand("hello $FOO"), "hello bar");
    assert_eq!(vars.expand("$FOO world"), "bar world");
    assert_eq!(vars.expand("$FOO$BAZ"), "barqux");
    assert_eq!(vars.expand("no vars"), "no vars");
    assert_eq!(vars.expand("$NONEXISTENT"), "");
    assert_eq!(vars.expand("$"), "$");
}

#[test]
fn expand_leaves_text_without_dollar() {
    let mut vars = Variables::new();
    vars.set("A".to_string(), "x".to_string());
    for s in ["", "plain", "a b  c", "A", "ünï cödé", "100%"] {
        assert_eq!(vars.expand(s), s);
    }
}

#[test]
fn expand_undefined_and_lone_dollar() {
    let vars = Variables::new();
    assert_eq!(vars.expand("$FOO"), "");
    assert_eq!(vars.expand("$"), "$");
    assert_eq!(vars.expand("a$ b"), "a$ b");
    assert_eq!(vars.expand("$-x"), "$-x");
}

#[test]
fn expand_positional_and_no_rescan() {
    let mut vars = Variables::new();
    vars.set_positional_args(vec!["one".to_string(), "two".to_string()]);
    vars.set("X".to_string(), "$Y".to_string());
    vars.set("Y".to_string(), "never".to_string());
    assert_eq!(vars.expand("$1-$2-$3"), "one-two-");
    assert_eq!(vars.expand("$12"), "one2");
    assert_eq!(vars.expand("$0"), "");
    assert_eq!(vars.expand("$X"), "$Y");
    assert_eq!(vars.expand("${X}"), "${X}");
    assert_eq!(vars.expand("$X_1."), ".");
}

#[test]
fn get_reads_positional_then_named() {
    let mut vars = Variables::new();
    vars.set_positional_args(vec!["first".to_string()]);
    vars.set("N".to_string(), "v".to_string());
    assert_eq!(vars.get("1").map(|s| s.as_str()), Some("first"));
    assert_eq!(vars.get("2"), None);
    assert_eq!(vars.get("0"), None);
    assert_eq!(vars.get("99999999999999999999999"), None);
    assert_eq!(vars.get("N").map(|s| s.as_str()), Some("v"));
    assert_eq!(vars.get("M"), None);
    assert_eq!(vars.get_positional_args(), vec!["first".to_string()]);
}

#[test]
fn variables_set_remove_and_env() {
    let mut vars = Variables::from_pairs(vec![
        ("A".to_string(), "1".to_string()),
        ("B".to_string(), "2".to_string()),
        ("A".to_string(), "3".to_string()),
    ]);
    assert_eq!(vars.get("A").map(|s| s.as_str()), Some("3"));
    vars.remove("B");
    vars.remove("missing");
    assert_eq!(vars.get("B"), None);
    let env = vars.to_env_vars();
    assert_eq!(env, vec![("A".to_string(), "3".to_string())]);
    let copy = vars.snapshot();
    assert_eq!(copy.get_named("A").map(|s| s.as_str()), Some("3"));
}

#[test]
fn numbers_outside_the_parameters_read_named_variables() {
    let mut vars = Variables::new();
    vars.set("0".to_string(), "x".to_string());
    vars.set("3".to_string(), "three".to_string());
    vars.set_positional_args(vec!["a".to_string()]);
    assert_eq!(vars.get("0").map(|s| s.as_str()), Some("x"));
    assert_eq!(vars.get("1").map(|s| s.as_str()), Some("a"));
    assert_eq!(vars.get("3").map(|s| s.as_str()), Some("three"));
    assert_eq!(vars.expand("$0$3"), "xthree");
}

#[test]
fn word_expansion_removes_quotes() {
    let mut vars = Variables::new();
    vars.set("V".to_string(), "v".to_string());
    assert_eq!(vars.expand_word("'$V'"), "$V");
    assert_eq!(vars.expand_word("\"$V\""), "v");
    assert_eq!(vars.expand_word("\\$V"), "$V");
    assert_eq!(vars.expand_word("\"a\\\"b\""), "a\"b");
    assert_eq!(vars.expand_word("pre$V'post'"), "prevpost");
}
