use pmsh::executor::{pipeline_status, Action, Event, ExitStatus, Executor, Launch, Shell};
use pmsh::history::HistoryManager;
use pmsh::parser::{Command, SimpleCommand};
use pmsh::variables::Variables;

fn shell_with(history: Vec<String>) -> Shell {
    let mgr = HistoryManager::new(Some("/home/u".to_string())).unwrap();
    Shell::new(Variables::new(), history, mgr)
}

fn cmd(name: &str, args: &[&str]) -> Command {
    Command::Simple(SimpleCommand {
        name: name.into(),
        args: args.iter().map(|a| a.to_string()).collect(),
        assignments: vec![],
    })
}

/// Runs `exec` to its end, answering each action with `respond`. Gives the
/// actions seen (as text) and the first error reported, if any.
fn drive(
    shell: &mut Shell,
    mut exec: Executor,
    respond: &mut dyn FnMut(&Action) -> Event,
) -> (Vec<String>, Result<(), String>) {
    let mut seen = Vec::new();
    let mut first_error: Option<String> = None;
    let mut ev = Event::Ack;
    for _ in 0..100_000 {
        let action = exec.step(shell, ev);
        match &action {
            Action::Continue => {
                ev = Event::Ack;
                continue;
            }
            Action::Finished(r) => {
                let result = match (first_error, r) {
                    (Some(e), _) => Err(e),
                    (None, r) => r.clone(),
                };
                return (seen, result);
            }
            Action::Exit(_) => {
                seen.push(format!("{:?}", action));
                return (seen, Ok(()));
            }
            Action::Report(m) => {
                if first_error.is_none() {
                    first_error = Some(m.clone());
                }
            }
            _ => {}
        }
        seen.push(format!("{:?}", action));
        ev = respond(&action);
    }
    panic!("the executor did not finish");
}

fn run_text(shell: &mut Shell, text: &str, respond: &mut dyn FnMut(&Action) -> Event) -> (Vec<String>, Result<(), String>) {
    let script = Command::parse_script(text).unwrap();
    drive(shell, Executor::new(script), respond)
}

fn ok_all(a: &Action) -> Event {
    match a {
        Action::Run(_) => Event::Status(ExitStatus::Exited(0)),
        Action::RunPipeline(s) => Event::Statuses(vec![ExitStatus::Exited(0); s.len()]),
        Action::Subshell(_) => Event::Status(ExitStatus::Exited(0)),
        Action::SaveHistory(_) => Event::Saved,
        _ => Event::Ack,
    }
}

fn var(shell: &Shell, k: &str) -> Option<String> {
    shell.vars.get(k).cloned()
}

#[test]
fn test_execute_echo() {
    let mut shell = shell_with(vec![]);
    let c = cmd("echo", &["hello"]);
    let mut ran = Vec::new();
    let (_, res) = drive(&mut shell, Executor::new(vec![vec![c]]), &mut |a| {
        if let Action::Run(s) = a {
            ran.push((s.program.clone(), s.args.clone()));
        }
        ok_all(a)
    });
    assert!(res.is_ok());
    assert_eq!(ran, vec![("echo".to_string(), vec!["hello".to_string()])]);
}

#[test]
fn test_execute_pipeline_single_command() {
    let mut shell = shell_with(vec![]);
    let pipeline = vec![cmd("echo", &["hello"])];
    let (seen, res) = drive(&mut shell, Executor::new(vec![pipeline]), &mut ok_all);
    assert!(res.is_ok());
    assert_eq!(seen.len(), 1);
    assert!(seen[0].starts_with("Run("));
}

#[test]
fn test_execute_pipeline_echo_to_wc() {
    let mut shell = shell_with(vec![]);
    let pipeline = vec![cmd("echo", &["hello", "world"]), cmd("wc", &["-w"])];
    let mut stages = Vec::new();
    let (_, res) = drive(&mut shell, Executor::new(vec![pipeline]), &mut |a| {
        if let Action::RunPipeline(s) = a {
            for st in s {
                stages.push((st.program.clone(), st.args.clone()));
            }
        }
        ok_all(a)
    });
    assert!(res.is_ok());
    assert_eq!(stages[0], ("echo".to_string(), vec!["hello".to_string(), "world".to_string()]));
    assert_eq!(stages[1], ("wc".to_string(), vec!["-w".to_string()]));
}

#[test]
fn test_execute_pipeline_empty() {
    let mut shell = shell_with(vec![]);
    let pipeline: Vec<Command> = vec![];
    let (seen, res) = drive(&mut shell, Executor::new(vec![pipeline]), &mut ok_all);
    assert!(res.is_ok());
    assert!(seen.is_empty());
}

#[test]
fn test_execute_pipeline_exit_status() {
    let mut shell = shell_with(vec![]);
    let statuses = |codes: Vec<i32>| move |a: &Action| match a {
        Action::RunPipeline(_) => Event::Statuses(codes.iter().map(|c| ExitStatus::Exited(*c)).collect()),
        other => ok_all(other),
    };

    let pipeline_success = vec![cmd("false", &[]), cmd("true", &[])];
    let (_, res) = drive(&mut shell, Executor::new(vec![pipeline_success]), &mut statuses(vec![1, 0]));
    assert!(res.is_ok());

    let pipeline_fail = vec![cmd("true", &[]), cmd("false", &[])];
    let (_, res) = drive(&mut shell, Executor::new(vec![pipeline_fail]), &mut statuses(vec![0, 1]));
    assert!(res.is_err());
}

#[test]
fn last_stage_alone_decides() {
    assert!(pipeline_status(&vec![ExitStatus::Exited(1), ExitStatus::Exited(0)]).is_ok());
    assert!(pipeline_status(&vec![ExitStatus::Exited(0), ExitStatus::Exited(1)]).is_err());
    assert!(pipeline_status(&vec![ExitStatus::Exited(0), ExitStatus::Signaled(9)]).is_err());
    assert!(pipeline_status(&vec![ExitStatus::Signaled(9), ExitStatus::Exited(0)]).is_ok());
    assert!(pipeline_status(&vec![]).is_ok());
}

#[test]
fn a_failed_start_kills_the_started_stages() {
    let mut launch = Launch::new(3);
    assert_eq!(launch.stage_io(0), (false, true));
    assert_eq!(launch.stage_io(1), (true, true));
    assert_eq!(launch.stage_io(2), (true, false));
    assert!(launch.on_spawn_failure().is_empty());
    launch.started_one();
    launch.started_one();
    assert_eq!(launch.on_spawn_failure(), vec![0, 1]);
}

#[test]
fn a_missing_program_is_not_a_nonzero_exit() {
    let mut shell = shell_with(vec![]);
    let (_, missing) = run_text(&mut shell, "nosuchprogram | wc -l", &mut |a| match a {
        Action::RunPipeline(_) => Event::Failed("Failed to start nosuchprogram: not found".into()),
        other => ok_all(other),
    });
    let (_, nonzero) = run_text(&mut shell, "true | false", &mut |a| match a {
        Action::RunPipeline(_) => Event::Statuses(vec![ExitStatus::Exited(0), ExitStatus::Exited(1)]),
        other => ok_all(other),
    });
    let missing = missing.unwrap_err();
    let nonzero = nonzero.unwrap_err();
    assert!(missing.contains("Failed to start"));
    assert_ne!(missing, nonzero);
}

#[test]
fn a_standalone_nonzero_exit_is_no_error() {
    let mut shell = shell_with(vec![]);
    let (_, res) = run_text(&mut shell, "false", &mut |a| match a {
        Action::Run(_) => Event::Status(ExitStatus::Exited(1)),
        other => ok_all(other),
    });
    assert!(res.is_ok());
    let (_, res) = run_text(&mut shell, "nosuch", &mut |a| match a {
        Action::Run(_) => Event::Failed("Failed to execute nosuch".into()),
        other => ok_all(other),
    });
    assert_eq!(res, Err("could not run: Failed to execute nosuch".to_string()));
}

#[test]
fn history_test_history_builtin_prints() {
    let mut shell = shell_with(vec!["a".into(), "b".into()]);
    let mut printed = Vec::new();
    let (_, res) = run_text(&mut shell, "history", &mut |a| match a {
        Action::ParseArgs(_, args) => {
            assert!(args.is_empty());
            Event::HistoryArgs
        }
        Action::PrintHistory(h) => {
            printed = h.clone();
            Event::Ack
        }
        other => ok_all(other),
    });
    assert!(res.is_ok());
    assert_eq!(printed, vec!["a".to_string(), "b".to_string()]);
}

#[test]
fn test_history_help() {
    let mut shell = shell_with(vec![]);
    let (seen, res) = run_text(&mut shell, "history -h", &mut |a| match a {
        Action::ParseArgs(_, args) => {
            assert_eq!(args, &vec!["-h".to_string()]);
            Event::ArgsHandled
        }
        other => ok_all(other),
    });
    assert!(res.is_ok());
    assert_eq!(seen.len(), 1);
}

#[test]
fn exit_saves_history_first() {
    let mut shell = shell_with(vec!["one".into(), "two".into()]);
    let mut saved = Vec::new();
    let (seen, res) = run_text(&mut shell, "exit", &mut |a| match a {
        Action::ParseArgs(_, _) => Event::ExitArgs(0),
        Action::SaveHistory(h) => {
            saved = h.clone();
            Event::Saved
        }
        other => ok_all(other),
    });
    assert!(res.is_ok());
    assert_eq!(saved, vec!["one".to_string(), "two".to_string()]);
    assert_eq!(seen.last().unwrap(), "Exit(0)");
}

#[test]
fn exit_fails_when_history_cannot_be_saved() {
    let mut shell = shell_with(vec!["one".into()]);
    let (seen, res) = run_text(&mut shell, "exit 3", &mut |a| match a {
        Action::ParseArgs(_, _) => Event::ExitArgs(3),
        Action::SaveHistory(_) => Event::Failed("Failed to write history file".into()),
        other => ok_all(other),
    });
    assert!(res.is_err());
    assert!(!seen.iter().any(|s| s.starts_with("Exit(")));
}

#[test]
fn cd_records_previous_directory_and_history() {
    let mut shell = shell_with(vec![]);
    let (seen, res) = run_text(&mut shell, "cd ~/work", &mut |a| match a {
        Action::ParseArgs(_, args) => Event::CdArgs(Some(args[0].clone()), Some("/home/u".into())),
        Action::ChangeDir(t, announce) => {
            assert_eq!(t, "/home/u/work");
            assert!(!announce);
            Event::DirChanged(Some("/start".into()))
        }
        other => ok_all(other),
    });
    assert!(res.is_ok());
    assert!(seen.iter().any(|s| s.starts_with("SaveHistory")));
    assert_eq!(shell.oldpwd, Some("/start".to_string()));
    assert_eq!(shell.history, vec!["cd /home/u/work".to_string()]);

    let (_, res) = run_text(&mut shell, "cd -", &mut |a| match a {
        Action::ParseArgs(_, args) => Event::CdArgs(Some(args[0].clone()), None),
        Action::ChangeDir(t, announce) => {
            assert_eq!(t, "/start");
            assert!(*announce);
            Event::DirChanged(Some("/home/u/work".into()))
        }
        other => ok_all(other),
    });
    assert!(res.is_ok());
    assert_eq!(shell.oldpwd, Some("/home/u/work".to_string()));
    assert_eq!(shell.history.len(), 2);
}

#[test]
fn cd_dash_without_previous_directory() {
    let mut shell = shell_with(vec![]);
    let (seen, res) = run_text(&mut shell, "cd -", &mut |a| match a {
        Action::ParseArgs(_, args) => Event::CdArgs(Some(args[0].clone()), Some("/home/u".into())),
        other => ok_all(other),
    });
    assert_eq!(res, Err("cd: OLDPWD not set".to_string()));
    assert!(!seen.iter().any(|s| s.starts_with("ChangeDir")));
    assert!(shell.history.is_empty());
    assert!(shell.oldpwd.is_none());
}

#[test]
fn cd_failure_changes_nothing() {
    let mut shell = shell_with(vec![]);
    let (_, res) = run_text(&mut shell, "cd /nope", &mut |a| match a {
        Action::ParseArgs(_, args) => Event::CdArgs(Some(args[0].clone()), None),
        Action::ChangeDir(_, _) => Event::Failed("cd: /nope: No such file or directory".into()),
        other => ok_all(other),
    });
    assert!(res.is_err());
    assert!(shell.history.is_empty());
    assert!(shell.oldpwd.is_none());
}

#[test]
fn function_call_restores_scope_on_success() {
    let mut shell = shell_with(vec![]);
    shell.vars.set_positional_args(vec!["p".into()]);
    let mut ran = Vec::new();
    let (_, res) = run_text(&mut shell, "f() { echo $1 $2 $T; }\nT=temp f a b", &mut |a| {
        if let Action::Run(s) = a {
            ran.push(s.args.clone());
            assert!(s.env.contains(&("T".to_string(), "temp".to_string())));
        }
        ok_all(a)
    });
    assert!(res.is_ok());
    assert_eq!(ran, vec![vec!["a".to_string(), "b".to_string(), "temp".to_string()]]);
    assert_eq!(var(&shell, "T"), None);
    assert_eq!(shell.vars.get_positional_args(), vec!["p".to_string()]);
}

#[test]
fn function_call_restores_scope_on_failure() {
    let mut shell = shell_with(vec![]);
    shell.vars.set("VAR".into(), "outer".into());
    shell.vars.set_positional_args(vec!["p".into()]);
    let mut ran = Vec::new();
    let (_, res) = run_text(
        &mut shell,
        "f() { echo $VAR; missing; echo never; }\nVAR=temp f x",
        &mut |a| match a {
            Action::Run(s) => {
                ran.push(s.program.clone());
                if s.program == "missing" {
                    Event::Failed("Failed to execute missing".into())
                } else {
                    Event::Status(ExitStatus::Exited(0))
                }
            }
            other => ok_all(other),
        },
    );
    assert_eq!(res, Err("could not run: Failed to execute missing".to_string()));
    assert_eq!(ran, vec!["echo".to_string(), "missing".to_string()]);
    assert_eq!(var(&shell, "VAR"), Some("outer".to_string()));
    assert_eq!(shell.vars.get_positional_args(), vec!["p".to_string()]);
}

#[test]
fn function_shadows_builtin() {
    let mut shell = shell_with(vec![]);
    let (seen, res) = run_text(&mut shell, "cd() { echo shadowed; }; cd /tmp", &mut ok_all);
    assert!(res.is_ok());
    assert!(!seen.iter().any(|s| s.starts_with("ParseArgs")));
    assert!(seen.iter().any(|s| s.contains("shadowed")));
}

#[test]
fn runaway_recursion_stops() {
    let mut shell = shell_with(vec![]);
    let (_, res) = run_text(&mut shell, "f() { f; }; f", &mut ok_all);
    assert_eq!(res, Err("maximum function nesting depth exceeded".to_string()));
    assert!(shell.vars.get_positional_args().is_empty());
}

#[test]
fn subshell_leaves_parent_variables() {
    let mut shell = shell_with(vec![]);
    let mut body = None;
    let (_, res) = run_text(&mut shell, "VAR=parent; (VAR=child; echo $VAR)", &mut |a| {
        if let Action::Subshell(b) = a {
            body = Some(b.clone());
        }
        ok_all(a)
    });
    assert!(res.is_ok());
    assert_eq!(var(&shell, "VAR"), Some("parent".to_string()));

    // What the forked copy runs.
    let mut child = shell_with(vec![]);
    child.vars.set("VAR".into(), "parent".into());
    let mut echoed = Vec::new();
    let (_, res) = drive(&mut child, Executor::isolated(body.unwrap()), &mut |a| {
        if let Action::Run(s) = a {
            echoed = s.args.clone();
        }
        ok_all(a)
    });
    assert!(res.is_ok());
    assert_eq!(echoed, vec!["child".to_string()]);
}

#[test]
fn nested_subshells_run_both_levels() {
    let mut shell = shell_with(vec![]);
    let mut outer = None;
    run_text(&mut shell, "(echo level1; (echo level2))", &mut |a| {
        if let Action::Subshell(b) = a {
            outer = Some(b.clone());
        }
        ok_all(a)
    });
    let mut child = shell_with(vec![]);
    let (seen, res) = drive(&mut child, Executor::isolated(outer.unwrap()), &mut ok_all);
    assert!(res.is_ok());
    assert!(seen[0].contains("level1"));
    assert!(seen[1].starts_with("Subshell"));
    assert!(seen[1].contains("level2"));
}

#[test]
fn isolated_run_stops_at_first_error() {
    let mut shell = shell_with(vec![]);
    let script = Command::parse_script("bad; echo after").unwrap();
    let (seen, res) = drive(&mut shell, Executor::isolated(script), &mut |a| match a {
        Action::Run(_) => Event::Failed("Failed to execute bad".into()),
        other => ok_all(other),
    });
    assert_eq!(res, Err("could not run: Failed to execute bad".to_string()));
    assert_eq!(seen.len(), 1);
}

#[test]
fn signaled_subshell_is_an_error() {
    let mut shell = shell_with(vec![]);
    let (_, res) = run_text(&mut shell, "(sleep 10)", &mut |a| match a {
        Action::Subshell(_) => Event::Status(ExitStatus::Signaled(9)),
        other => ok_all(other),
    });
    assert!(res.is_err());
}

#[test]
fn assignments_without_a_command_persist() {
    let mut shell = shell_with(vec![]);
    let (_, res) = run_text(&mut shell, "A=1; B=$A-x", &mut ok_all);
    assert!(res.is_ok());
    assert_eq!(var(&shell, "B"), Some("1-x".to_string()));
}

#[test]
fn command_assignments_are_temporary() {
    let mut shell = shell_with(vec![]);
    shell.vars.set("K".into(), "keep".into());
    let mut env = Vec::new();
    let (_, res) = run_text(&mut shell, "T=5 K=$K! env", &mut |a| {
        if let Action::Run(s) = a {
            env = s.env.clone();
        }
        ok_all(a)
    });
    assert!(res.is_ok());
    env.sort();
    assert_eq!(env, vec![("K".to_string(), "keep!".to_string()), ("T".to_string(), "5".to_string())]);
    assert_eq!(var(&shell, "T"), None);
    assert_eq!(var(&shell, "K"), Some("keep".to_string()));
}

#[test]
fn source_runs_in_the_current_scope() {
    let mut shell = shell_with(vec![]);
    shell.vars.set("F".into(), "script.sh".into());
    let mut echoed = Vec::new();
    let (_, res) = run_text(&mut shell, "source $F", &mut |a| match a {
        Action::ReadFile(p) => {
            assert_eq!(p, "script.sh");
            Event::FileText("X=1\necho $X".into())
        }
        Action::Run(s) => {
            echoed = s.args.clone();
            Event::Status(ExitStatus::Exited(0))
        }
        other => ok_all(other),
    });
    assert!(res.is_ok());
    assert_eq!(echoed, vec!["1".to_string()]);
    assert_eq!(var(&shell, "X"), Some("1".to_string()));
}

#[test]
fn source_needs_one_argument() {
    let mut shell = shell_with(vec![]);
    let (_, res) = run_text(&mut shell, ". a b", &mut ok_all);
    assert_eq!(res, Err(".: expected 1 argument".to_string()));
    let (_, res) = run_text(&mut shell, "source x", &mut |a| match a {
        Action::ReadFile(_) => Event::FileText("echo 'open".into()),
        other => ok_all(other),
    });
    assert!(res.is_err());
}

#[test]
fn pipelines_take_simple_commands_only() {
    let mut shell = shell_with(vec![]);
    let (_, res) = run_text(&mut shell, "(echo a) | wc", &mut ok_all);
    assert!(res.is_err());
}

#[test]
fn errors_do_not_stop_the_script() {
    let mut shell = shell_with(vec![]);
    let mut count = 0;
    let (seen, res) = run_text(&mut shell, "a; b", &mut |a| match a {
        Action::Run(_) => {
            count += 1;
            Event::Failed("Failed to execute".into())
        }
        other => ok_all(other),
    });
    assert!(res.is_err());
    assert_eq!(count, 2);
    assert_eq!(seen.iter().filter(|s| s.starts_with("Report")).count(), 2);
}

#[test]
fn quoting_controls_expansion() {
    let mut shell = shell_with(vec![]);
    shell.vars.set("H".into(), "/h".into());
    let mut args = Vec::new();
    let (_, res) = run_text(&mut shell, "echo '$H' \"$H\" \\$H $H'$H'\"x\"", &mut |a| {
        if let Action::Run(s) = a {
            args = s.args.clone();
        }
        ok_all(a)
    });
    assert!(res.is_ok());
    assert_eq!(args, vec!["$H".to_string(), "/h".to_string(), "$H".to_string(), "/h$Hx".to_string()]);
}

#[test]
fn quoted_assignment_values() {
    let mut shell = shell_with(vec![]);
    shell.vars.set("H".into(), "/h".into());
    let (_, res) = run_text(&mut shell, "A='$H x'; B=\"$H y\"", &mut ok_all);
    assert!(res.is_ok());
    assert_eq!(var(&shell, "A"), Some("$H x".to_string()));
    assert_eq!(var(&shell, "B"), Some("/h y".to_string()));
}

#[test]
fn pipeline_messages_tell_failures_apart() {
    let mut shell = shell_with(vec![]);
    let (_, nonzero) = run_text(&mut shell, "a | b", &mut |a| match a {
        Action::RunPipeline(_) => Event::Statuses(vec![ExitStatus::Exited(0), ExitStatus::Exited(2)]),
        other => ok_all(other),
    });
    assert_eq!(nonzero, Err("pipeline: the last command failed".to_string()));
    let (_, missing) = run_text(&mut shell, "a | b", &mut |a| match a {
        Action::RunPipeline(_) => Event::Failed("Failed to start a".into()),
        other => ok_all(other),
    });
    assert_eq!(missing, Err("could not run: Failed to start a".to_string()));
}
