use pmsh::lexer::{tokenize, Token};
use pmsh::parser::{Command, ParseError, SimpleCommand};

fn simple(c: &Command) -> &SimpleCommand {
    match c {
        Command::Simple(s) => s,
        _ => panic!("Expected Simple command"),
    }
}

#[test]
fn test_parse_simple_command() {
    let cmd = SimpleCommand::parse("ls -la").unwrap();
    assert_eq!(cmd.name, "ls");
    assert_eq!(cmd.args, vec!["-la"]);
    assert!(cmd.assignments.is_empty());
}

#[test]
fn test_parse_empty_string() {
    assert!(SimpleCommand::parse("").is_none());
}

#[test]
fn test_parse_whitespace_only() {
    assert!(SimpleCommand::parse("   ").is_none());
}

#[test]
fn test_parse_pipeline_single_command() {
    let pipeline = Command::parse_pipeline("echo hello").unwrap();
    assert_eq!(pipeline.len(), 1);
    if let Command::Simple(cmd) = &pipeline[0] {
        assert_eq!(cmd.name, "echo");
        assert_eq!(cmd.args, vec!["hello"]);
    } else {
        panic!("Expected Simple command");
    }
}

#[test]
fn test_parse_pipeline_two_commands() {
    let pipeline = Command::parse_pipeline("echo hello | wc -c").unwrap();
    assert_eq!(pipeline.len(), 2);
    if let Command::Simple(cmd) = &pipeline[0] {
        assert_eq!(cmd.name, "echo");
        assert_eq!(cmd.args, vec!["hello"]);
    } else {
        panic!("Expected Simple command");
    }
    if let Command::Simple(cmd) = &pipeline[1] {
        assert_eq!(cmd.name, "wc");
        assert_eq!(cmd.args, vec!["-c"]);
    } else {
        panic!("Expected Simple command");
    }
}

#[test]
fn test_parse_pipeline_three_commands() {
    let pipeline = Command::parse_pipeline("cat file.txt | grep pattern | wc -l").unwrap();
    assert_eq!(pipeline.len(), 3);
    if let Command::Simple(cmd) = &pipeline[0] {
        assert_eq!(cmd.name, "cat");
        assert_eq!(cmd.args, vec!["file.txt"]);
    }
    if let Command::Simple(cmd) = &pipeline[1] {
        assert_eq!(cmd.name, "grep");
        assert_eq!(cmd.args, vec!["pattern"]);
    }
    if let Command::Simple(cmd) = &pipeline[2] {
        assert_eq!(cmd.name, "wc");
        assert_eq!(cmd.args, vec!["-l"]);
    }
}

#[test]
fn test_parse_pipeline_empty_string() {
    assert!(Command::parse_pipeline("").is_none());
}

#[test]
fn test_parse_pipeline_whitespace_only() {
    assert!(Command::parse_pipeline("   ").is_none());
}

#[test]
fn test_pipeline_vs_sequence_parsing() {
    let pipeline = Command::parse_pipeline("echo a | echo b").unwrap();
    let sequence = Command::parse_pipeline("echo a; echo b").unwrap();

    assert_eq!(pipeline.len(), 2);
    assert_eq!(sequence.len(), 1);

    if let Command::Simple(first_p) = &pipeline[0] {
        if let Command::Simple(first_s) = &sequence[0] {
            assert_eq!(first_p.name, first_s.name);
        }
    }
}

#[test]
fn arguments_keep_their_order() {
    let cmd = SimpleCommand::parse("cmd z 'a b' \"c\"d e\\ f y").unwrap();
    assert_eq!(cmd.name, "cmd");
    assert_eq!(cmd.args, vec!["z", "'a b'", "\"c\"d", "e\\ f", "y"]);
}

#[test]
fn quotes_keep_operators_as_text() {
    let cmd = SimpleCommand::parse("echo 'a|b;c' \"(x)\" \\&").unwrap();
    assert_eq!(cmd.args, vec!["'a|b;c'", "\"(x)\"", "\\&"]);
}

#[test]
fn assignments_before_the_name() {
    let cmd = SimpleCommand::parse("A=1 B=\"x y\" run C=2").unwrap();
    assert_eq!(cmd.name, "run");
    assert_eq!(
        cmd.assignments,
        vec![("A".to_string(), "1".to_string()), ("B".to_string(), "\"x y\"".to_string())]
    );
    assert_eq!(cmd.args, vec!["C=2"]);
    let bare = SimpleCommand::parse("VAR=val").unwrap();
    assert_eq!(bare.name, "");
    assert_eq!(bare.assignments, vec![("VAR".to_string(), "val".to_string())]);
    assert!(bare.args.is_empty());
}

#[test]
fn script_splits_on_separators() {
    let script = Command::parse_script("a 1; b 2\nc && d || e").unwrap();
    assert_eq!(script.len(), 5);
    let names: Vec<&str> = script.iter().map(|p| simple(&p[0]).name.as_str()).collect();
    assert_eq!(names, vec!["a", "b", "c", "d", "e"]);
}

#[test]
fn comments_are_skipped() {
    let script = Command::parse_script("# heading\necho a # trailing\necho b#c").unwrap();
    assert_eq!(script.len(), 2);
    assert_eq!(simple(&script[1][0]).args, vec!["b#c"]);
}

#[test]
fn subshells_nest() {
    let script = Command::parse_script("(echo a; (echo b))").unwrap();
    assert_eq!(script.len(), 1);
    match &script[0][0] {
        Command::Subshell(body) => {
            assert_eq!(body.len(), 2);
            assert_eq!(simple(&body[0][0]).args, vec!["a"]);
            match &body[1][0] {
                Command::Subshell(inner) => assert_eq!(simple(&inner[0][0]).args, vec!["b"]),
                _ => panic!("expected a nested subshell"),
            }
        }
        _ => panic!("expected a subshell"),
    }
}

#[test]
fn function_definitions_in_both_forms() {
    let script = Command::parse_script("greet() { echo Hello $1; }\nfunction other { a; b\n}").unwrap();
    assert_eq!(script.len(), 2);
    match &script[0][0] {
        Command::FunctionDef(name, body) => {
            assert_eq!(name, "greet");
            assert_eq!(body.len(), 1);
            assert_eq!(simple(&body[0][0]).args, vec!["Hello", "$1"]);
        }
        _ => panic!("expected a function definition"),
    }
    match &script[1][0] {
        Command::FunctionDef(name, body) => {
            assert_eq!(name, "other");
            assert_eq!(body.len(), 2);
        }
        _ => panic!("expected a function definition"),
    }
}

#[test]
fn multiline_function_script() {
    let script = Command::parse_script("\nmy_func() {\n    echo line1\n    echo line2\n}\nmy_func\n").unwrap();
    assert_eq!(script.len(), 2);
    assert_eq!(simple(&script[1][0]).name, "my_func");
}

#[test]
fn malformed_text_is_rejected() {
    assert_eq!(Command::parse_script("echo 'open"), Err(ParseError::Lexical(10)));
    assert_eq!(Command::parse_script("echo \"open"), Err(ParseError::Lexical(10)));
    assert_eq!(Command::parse_script("a & b"), Err(ParseError::Lexical(2)));
    assert_eq!(Command::parse_script("(echo a"), Err(ParseError::Syntax(3)));
    assert_eq!(Command::parse_script("echo a)"), Err(ParseError::Syntax(2)));
    assert_eq!(Command::parse_script("f() { echo"), Err(ParseError::Syntax(5)));
    assert_eq!(Command::parse_script("| a"), Err(ParseError::Syntax(0)));
    assert_eq!(Command::parse_script("a |"), Err(ParseError::Syntax(2)));
    assert!(Command::parse_pipeline("echo a; )").is_none());
    assert!(SimpleCommand::parse("a | b").is_none());
}

#[test]
fn empty_script_is_no_pipeline() {
    assert_eq!(Command::parse_script("  ;\n ; ").unwrap().len(), 0);
}

#[test]
fn tokens_of_operators() {
    let toks = tokenize("a|b||c&&d;(e)").unwrap();
    assert_eq!(toks.len(), 11);
    assert!(matches!(toks[1], Token::Pipe));
    assert!(matches!(toks[3], Token::Sep));
    assert!(matches!(toks[5], Token::Sep));
    assert!(matches!(toks[7], Token::Sep));
    assert!(matches!(toks[8], Token::LParen));
    assert!(matches!(toks[10], Token::RParen));
    match &toks[9] {
        Token::Word(w, bare) => {
            assert_eq!(w, "e");
            assert!(*bare);
        }
        _ => panic!("expected a word"),
    }
    match &tokenize("'q'").unwrap()[0] {
        Token::Word(w, bare) => {
            assert_eq!(w, "'q'");
            assert!(!*bare);
        }
        _ => panic!("expected a word"),
    }
}
