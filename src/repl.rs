//! The read-eval-print loop's decisions; the loop itself, with the terminal
//! and the processes, belongs to the program around the library.
use vstd::prelude::*;
use crate::executor::{Action, Event, Executor};
use crate::parser::{parse_text, Command, ParseError};

verus! {

/// What reading a line gave.
#[derive(Debug)]
pub enum ReadlineEvent {
    Line(String),
    Interrupted,
    Eof,
    Other,
}

/// A source of input lines with a history of its own.
pub trait LineEditor {
    fn readline(&mut self, prompt: &str) -> ReadlineEvent;

    fn add_history_entry(&mut self, entry: &str);
}

/// Carries out the actions of an `Executor`.
pub trait ExecutorTrait {
    fn perform(&mut self, action: Action) -> Event;
}

/// An editor with no input: every read is the end of input.
pub struct NoOpEditor;

impl LineEditor for NoOpEditor {
    fn readline(&mut self, _prompt: &str) -> ReadlineEvent {
        ReadlineEvent::Eof
    }

    fn add_history_entry(&mut self, _entry: &str) {
    }
}

/// What the loop does after a read.
#[derive(Debug, PartialEq, Eq, Structural)]
pub enum ReplStep {
    /// Run the line.
    Run,
    /// Show that the line was abandoned, and read again.
    Interrupted,
    /// Save the history and leave.
    SaveAndQuit,
    /// Leave.
    Quit,
}

pub fn on_readline(ev: &ReadlineEvent) -> (r: ReplStep)
    ensures
        ev is Line ==> r == ReplStep::Run,
        ev is Interrupted ==> r == ReplStep::Interrupted,
        ev is Eof ==> r == ReplStep::SaveAndQuit,
        ev is Other ==> r == ReplStep::Quit,
{
    match ev {
        ReadlineEvent::Line(_) => ReplStep::Run,
        ReadlineEvent::Interrupted => ReplStep::Interrupted,
        ReadlineEvent::Eof => ReplStep::SaveAndQuit,
        ReadlineEvent::Other => ReplStep::Quit,
    }
}

/// Records `line` in the editor's history and parses it: an executor for
/// all its pipelines, or the parse error.
pub fn execute_line<L: LineEditor>(line: &str, editor: &mut L) -> (r: Result<Executor, ParseError>)
    ensures
        match r {
            Ok(e) => parse_text(line@) is Ok && e.wf() && e.script() == parse_text(line@)->Ok_0,
            Err(pe) => parse_text(line@) == Err::<Seq<Seq<crate::parser::CommandV>>, ParseError>(pe),
        },
{
    editor.add_history_entry(line);
    match Command::parse_script(line) {
        Ok(script) => Ok(Executor::new(script)),
        Err(e) => Err(e),
    }
}

} // verus!
