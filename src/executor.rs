//! The execution engine, as a state machine. The caller performs each
//! `Action` it returns (spawning processes, changing directory, reading
//! files) and hands back what happened as an `Event`; every decision is
//! taken here: lookup order (function, then builtin, then external
//! program), scoping of function calls, error propagation and pipeline
//! status.
use vstd::prelude::*;
use vstd::string::*;
use crate::builtins::{cd_target, handle_builtin, opt_str, plan_cd, BuiltinKind, BuiltinResult};
use crate::functions::Functions;
use crate::history::{capped, lines, HistoryManager};
use crate::parser::{
    command_view, duplicate_pipeline, duplicate_script, parse_text, pipeline_view, script_view, Command, CommandV,
    ParseError, SimpleCommand, SimpleCommandV,
};
use crate::scope::{restored, scope_of, CallScope, ScopeV};
use crate::text::clone_strings;
use crate::variables::{word_expansion, Quoting, Variables};

verus! {

/// How a child process ended.
#[derive(Clone, Copy, Debug, PartialEq, Eq, Structural)]
pub enum ExitStatus {
    /// It exited with this code.
    Exited(i32),
    /// A signal (this one) terminated it.
    Signaled(i32),
}

/// The overall result of a pipeline from the statuses of its stages: only
/// the last stage counts.
pub open spec fn pipeline_result(statuses: Seq<ExitStatus>) -> Result<(), Seq<char>> {
    if statuses.len() == 0 {
        Ok(())
    } else {
        match statuses.last() {
            ExitStatus::Exited(0) => Ok(()),
            ExitStatus::Exited(_) => Err(LAST_STAGE_FAILED@),
            ExitStatus::Signaled(_) => Err(LAST_STAGE_KILLED@),
        }
    }
}

pub fn pipeline_status(statuses: &Vec<ExitStatus>) -> (r: Result<(), String>)
    ensures
        match r {
            Ok(()) => pipeline_result(statuses@) == Ok::<(), Seq<char>>(()),
            Err(m) => pipeline_result(statuses@) == Err::<(), Seq<char>>(m@),
        },
        statuses@.len() > 0 ==> (r is Ok <==> statuses@.last() == ExitStatus::Exited(0)),
{
    if statuses.len() == 0 {
        return Ok(());
    }
    match statuses[statuses.len() - 1] {
        ExitStatus::Exited(0) => Ok(()),
        ExitStatus::Exited(_) => Err(String::from_str(LAST_STAGE_FAILED)),
        ExitStatus::Signaled(_) => Err(String::from_str(LAST_STAGE_KILLED)),
    }
}

/// Bookkeeping while the stages of a pipeline are started left to right.
pub struct Launch {
    total: usize,
    started: usize,
}

impl Launch {
    pub closed spec fn total(&self) -> nat {
        self.total as nat
    }

    pub closed spec fn started(&self) -> nat {
        self.started as nat
    }

    /// A pipeline of `total` stages, none started.
    pub fn new(total: usize) -> (r: Launch)
        ensures
            r.total() == total,
            r.started() == 0,
    {
        Launch { total, started: 0 }
    }

    /// Whether stage `i` reads the previous stage's output, and whether it
    /// writes into a pipe: every stage but the first reads a pipe, every
    /// stage but the last writes one.
    pub fn stage_io(&self, i: usize) -> (r: (bool, bool))
        requires
            i < self.total(),
        ensures
            r.0 == (i > 0),
            r.1 == (i + 1 < self.total()),
    {
        (i > 0, i + 1 < self.total)
    }

    /// Records that the next stage started.
    pub fn started_one(&mut self)
        requires
            old(self).started() < old(self).total(),
        ensures
            final(self).total() == old(self).total(),
            final(self).started() == old(self).started() + 1,
    {
        self.started = self.started + 1;
    }

    /// The stages to kill when the next one fails to start: every stage
    /// already started, so that none is left running.
    pub fn on_spawn_failure(&self) -> (r: Vec<usize>)
        ensures
            r@ == Seq::new(self.started(), |i: int| i as usize),
    {
        let mut r: Vec<usize> = Vec::new();
        let mut i: usize = 0;
        while i < self.started
            invariant
                i <= self.started,
                r@ == Seq::new(i as nat, |j: int| j as usize),
            decreases self.started - i,
        {
            r.push(i);
            i = i + 1;
            assert(r@ =~= Seq::new(i as nat, |j: int| j as usize));
        }
        r
    }
}

/// A program to start: its name, its arguments after expansion, and its
/// whole environment.
#[derive(Debug)]
pub struct Spawn {
    pub program: String,
    pub args: Vec<String>,
    pub env: Vec<(String, String)>,
}

/// What the caller is to do next.
#[derive(Debug)]
pub enum Action {
    /// Nothing outside: call `step` again with `Event::Ack`.
    Continue,
    /// Start this program with the shell's standard streams and wait for
    /// it; answer `Status`, or `Failed` when it cannot be started or
    /// waited for.
    Run(Spawn),
    /// Start these programs connected by pipes (see `Launch`) and wait for
    /// all; answer `Statuses`, or `Failed` when a stage cannot be started.
    RunPipeline(Vec<Spawn>),
    /// Run these pipelines in a copy of the shell (a forked process, with
    /// `Executor::isolated`) and wait for it; answer `Status` or `Failed`.
    Subshell(Vec<Vec<Command>>),
    /// Parse the arguments of this builtin; answer `CdArgs`, `ExitArgs`,
    /// `HistoryArgs`, or `ArgsHandled` when the parser already reported
    /// (help or a usage error).
    ParseArgs(BuiltinKind, Vec<String>),
    /// Make this the working directory, printing it when the flag is set;
    /// answer `DirChanged` with the directory left, or `Failed`.
    ChangeDir(String, bool),
    /// Print the history, one numbered line per entry from 1; answer `Ack`.
    PrintHistory(Vec<String>),
    /// Write these entries to the history file; answer `Saved` or `Failed`.
    SaveHistory(Vec<String>),
    /// Read this file; answer `FileText` or `Failed`.
    ReadFile(String),
    /// Print this error message; answer `Ack`.
    Report(String),
    /// The history is saved: end the process with this code.
    Exit(i32),
    /// The script has run to its end.
    Finished(Result<(), String>),
}

/// What came of the last action.
#[derive(Debug)]
pub enum Event {
    Ack,
    Status(ExitStatus),
    Statuses(Vec<ExitStatus>),
    Failed(String),
    /// `cd`'s argument, and the home directory.
    CdArgs(Option<String>, Option<String>),
    ExitArgs(i32),
    HistoryArgs,
    ArgsHandled,
    DirChanged(Option<String>),
    Saved,
    FileText(String),
}

/// The state that commands read and change.
pub struct Shell {
    pub vars: Variables,
    pub functions: Functions,
    /// The directory before the last successful `cd`.
    pub oldpwd: Option<String>,
    /// The command history.
    pub history: Vec<String>,
    pub history_mgr: HistoryManager,
}

impl Shell {
    pub open spec fn wf(&self) -> bool {
        self.vars.wf() && self.functions.wf()
    }

    pub fn new(vars: Variables, history: Vec<String>, history_mgr: HistoryManager) -> (r: Shell)
        requires
            vars.wf(),
        ensures
            r.wf(),
            r.vars.named() == vars.named(),
            r.oldpwd is None,
            r.history@ == history@,
    {
        Shell { vars, functions: Functions::new(), oldpwd: None, history, history_mgr }
    }
}

/// The most frames (function calls and sourced files) open at once.
pub const MAX_DEPTH: usize = 1000;

pub const DEPTH_EXCEEDED: &'static str = "maximum function nesting depth exceeded";

pub const PIPE_SIMPLE_ONLY: &'static str = "only simple commands can be joined by pipes";

pub const LAST_STAGE_FAILED: &'static str = "pipeline: the last command failed";

pub const LAST_STAGE_KILLED: &'static str = "pipeline: the last command was killed by a signal";

/// Put before the message of a program that could not be started or
/// waited for.
pub const NOT_STARTED: &'static str = "could not run: ";

pub const SUBSHELL_KILLED: &'static str = "subshell killed by a signal";

pub const SOURCE_LEXICAL: &'static str = "source: unterminated quote or stray '&'";

pub const SOURCE_SYNTAX: &'static str = "source: syntax error";

pub const UNEXPECTED_EVENT: &'static str = "internal error: unexpected event";

pub open spec fn succeeded() -> Option<Result<(), Seq<char>>> {
    Some(Ok(()))
}

pub open spec fn failed_with(m: Seq<char>) -> Option<Result<(), Seq<char>>> {
    Some(Err(m))
}

/// What the machine waits for.
#[derive(Clone, Copy, PartialEq, Eq, Structural)]
pub enum Wait {
    Nothing,
    External,
    Pipeline,
    Subshell,
    Args(BuiltinKind),
    ChangeDir,
    SaveThenContinue,
    SaveThenExit(i32),
    File,
    Report,
    Done,
}

struct Frame {
    body: Vec<Vec<Command>>,
    next: usize,
    scope: Option<CallScope>,
}

/// Runs a script: a stack of frames (the script, function bodies, sourced
/// files), each a list of pipelines run in order.
pub struct Executor {
    frames: Vec<Frame>,
    waiting: Wait,
    cd_target: String,
    pending: Option<Result<(), String>>,
    isolated: bool,
}

impl Executor {
    pub closed spec fn waiting(&self) -> Wait {
        self.waiting
    }

    /// The result of the pipeline that just ended, until it is handed to
    /// the frame that ran it.
    pub closed spec fn outcome(&self) -> Option<Result<(), Seq<char>>> {
        match self.pending {
            Some(Ok(())) => Some(Ok(())),
            Some(Err(m)) => Some(Err(m@)),
            None => None,
        }
    }

    /// Whether this runs a subshell's body.
    pub closed spec fn is_isolated(&self) -> bool {
        self.isolated
    }

    /// The directory that a pending `cd` goes to.
    pub closed spec fn cd_dir(&self) -> Seq<char> {
        self.cd_target@
    }

    /// The pipelines of frame `i`.
    pub closed spec fn frame_script(&self, i: int) -> Seq<Seq<CommandV>> {
        script_view(&self.frames@[i].body)
    }

    /// The pipeline that the innermost frame runs next, if any is left.
    pub closed spec fn next_pipeline(&self) -> Option<Seq<CommandV>> {
        if self.frames@.len() > 0 && self.frames@.last().next < self.frames@.last().body@.len() {
            Some(pipeline_view(&self.frames@.last().body@[self.frames@.last().next as int]))
        } else {
            None
        }
    }

    /// The number of open frames.
    pub closed spec fn depth(&self) -> nat {
        self.frames@.len()
    }

    /// What frame `i` (0 the outermost) saved when it was entered as a
    /// function call; `None` for a script or a sourced file.
    pub closed spec fn call_scope(&self, i: int) -> Option<ScopeV> {
        match self.frames@[i].scope {
            Some(s) => Some(s.view()),
            None => None,
        }
    }

    proof fn lemma_same_frames(a: Executor, b: Executor, c: Executor, va: Variables, vb: Variables)
        requires
            a.frames@ == b.frames@,
            frames_step(a, c, va, vb),
        ensures
            frames_step(b, c, va, vb),
    {
        assert forall|i: int| #[trigger] b.call_scope(i) == a.call_scope(i) by {}
    }

    /// The pipelines of the outermost frame.
    pub closed spec fn script(&self) -> Seq<Seq<crate::parser::CommandV>> {
        if self.frames@.len() > 0 {
            script_view(&self.frames@[0].body)
        } else {
            Seq::empty()
        }
    }

    pub closed spec fn wf(&self) -> bool {
        forall|i: int| 0 <= i < self.frames@.len() ==> match (#[trigger] self.frames@[i]).scope {
            Some(s) => s.wf(),
            None => true,
        }
    }

    /// Runs `script` in the caller's scope; errors are reported and the
    /// next pipeline runs.
    pub fn new(script: Vec<Vec<Command>>) -> (r: Executor)
        ensures
            r.wf(),
            r.waiting() == Wait::Nothing,
            r.script() == script_view(&script),
            r.depth() == 1,
            r.call_scope(0) is None,
            r.outcome() is None,
            !r.is_isolated(),
    {
        let mut frames: Vec<Frame> = Vec::new();
        frames.push(Frame { body: script, next: 0, scope: None });
        Executor { frames, waiting: Wait::Nothing, cd_target: String::new(), pending: None, isolated: false }
    }

    /// Runs the body of a subshell in a copy of the shell: it stops at the
    /// first failing pipeline and finishes with its error.
    pub fn isolated(script: Vec<Vec<Command>>) -> (r: Executor)
        ensures
            r.wf(),
            r.waiting() == Wait::Nothing,
            r.script() == script_view(&script),
            r.depth() == 1,
            r.call_scope(0) is None,
            r.outcome() is None,
            r.is_isolated(),
    {
        let mut e = Executor::new(script);
        e.isolated = true;
        e
    }
}

/// The pairs of `env` name distinct variables and spell out exactly `m`.
pub open spec fn lists(env: Seq<(String, String)>, m: Map<Seq<char>, Seq<char>>) -> bool {
    &&& forall|i: int, j: int|
        0 <= i < env.len() && 0 <= j < env.len() && i != j ==> (#[trigger] env[i]).0@
            != (#[trigger] env[j]).0@
    &&& forall|i: int| 0 <= i < env.len() ==> #[trigger] m.contains_key(env[i].0@) && m[env[i].0@] == env[i].1@
    &&& forall|k: Seq<char>| #[trigger] m.contains_key(k) ==> exists|i: int| 0 <= i < env.len() && (#[trigger] env[i]).0@ == k
}

/// The variables `base` with each of `pairs` set on top, every value
/// expanded against `vars`.
pub open spec fn overlay(
    base: Map<Seq<char>, Seq<char>>,
    vars: Variables,
    pairs: Seq<(Seq<char>, Seq<char>)>,
) -> Map<Seq<char>, Seq<char>>
    decreases pairs.len(),
{
    if pairs.len() == 0 {
        base
    } else {
        overlay(base, vars, pairs.drop_last()).insert(pairs.last().0, vars.word_value(pairs.last().1))
    }
}

/// The named variables after the assignments `pairs`, made one after the
/// other, each value expanded against the variables as they then are.
pub open spec fn assigned(
    named: Map<Seq<char>, Seq<char>>,
    positional: Seq<Seq<char>>,
    pairs: Seq<(Seq<char>, Seq<char>)>,
) -> Map<Seq<char>, Seq<char>>
    decreases pairs.len(),
{
    if pairs.len() == 0 {
        named
    } else {
        let m = assigned(named, positional, pairs.drop_last());
        m.insert(pairs.last().0, word_expansion(m, positional, pairs.last().1, Quoting::Plain))
    }
}

/// Each word expanded.
pub open spec fn expanded_args(vars: Variables, args: Seq<Seq<char>>) -> Seq<Seq<char>> {
    Seq::new(args.len(), |i: int| vars.word_value(args[i]))
}

/// The names that assignments set.
pub open spec fn assignment_names(pairs: Seq<(Seq<char>, Seq<char>)>) -> Set<Seq<char>> {
    Set::new(|k: Seq<char>| exists|i: int| 0 <= i < pairs.len() && (#[trigger] pairs[i]).0 == k)
}

/// `s` starts the program that the simple command `sc` names: its
/// arguments expanded, and the shell's variables with the command's own
/// assignments on top as its environment.
pub open spec fn spawn_matches(s: Spawn, vars: Variables, sc: SimpleCommandV) -> bool {
    &&& s.program@ == vars.word_value(sc.name)
    &&& s.args@.len() == sc.args.len()
    &&& forall|i: int| 0 <= i < sc.args.len() ==> (#[trigger] s.args@[i])@ == vars.word_value(sc.args[i])
    &&& lists(s.env@, overlay(vars.named(), vars, sc.assignments))
}

/// Each word of `args` expanded.
pub fn expand_args(vars: &Variables, args: &Vec<String>) -> (r: Vec<String>)
    requires
        vars.wf(),
    ensures
        r@.len() == args@.len(),
        forall|i: int| 0 <= i < args@.len() ==> (#[trigger] r@[i])@ == vars.word_value(args@[i]@),
{
    let mut r: Vec<String> = Vec::new();
    let mut i: usize = 0;
    while i < args.len()
        invariant
            vars.wf(),
            i <= args@.len(),
            r@.len() == i,
            forall|j: int| 0 <= j < i ==> (#[trigger] r@[j])@ == vars.word_value(args@[j]@),
        decreases args@.len() - i,
    {
        r.push(vars.expand_word(args[i].as_str()));
        i = i + 1;
    }
    r
}

/// Makes the assignments of `cmd` for good, in order.
pub fn assign_all(vars: &mut Variables, cmd: &SimpleCommand)
    requires
        old(vars).wf(),
    ensures
        final(vars).wf(),
        final(vars).positional() == old(vars).positional(),
        final(vars).named() == assigned(old(vars).named(), old(vars).positional(), cmd@.assignments),
{
    let ghost pairs = cmd@.assignments;
    let mut i: usize = 0;
    while i < cmd.assignments.len()
        invariant
            vars.wf(),
            pairs == cmd@.assignments,
            i <= pairs.len(),
            vars.positional() == old(vars).positional(),
            vars.named() == assigned(old(vars).named(), old(vars).positional(), pairs.subrange(0, i as int)),
        decreases pairs.len() - i,
    {
        let value = vars.expand_word(cmd.assignments[i].1.as_str());
        vars.set(cmd.assignments[i].0.clone(), value);
        i = i + 1;
        assert(pairs.subrange(0, i as int).drop_last() =~= pairs.subrange(0, i - 1));
    }
    assert(pairs.subrange(0, pairs.len() as int) =~= pairs);
}

/// The program that a simple command starts.
pub fn spawn_for(vars: &Variables, cmd: &SimpleCommand) -> (r: Spawn)
    requires
        vars.wf(),
    ensures
        spawn_matches(r, *vars, cmd@),
{
    let ghost pairs = cmd@.assignments;
    let mut env_vars = vars.snapshot();
    let mut i: usize = 0;
    while i < cmd.assignments.len()
        invariant
            vars.wf(),
            env_vars.wf(),
            pairs == cmd@.assignments,
            i <= pairs.len(),
            env_vars.named() == overlay(vars.named(), *vars, pairs.subrange(0, i as int)),
        decreases pairs.len() - i,
    {
        let value = vars.expand_word(cmd.assignments[i].1.as_str());
        env_vars.set(cmd.assignments[i].0.clone(), value);
        i = i + 1;
        assert(pairs.subrange(0, i as int).drop_last() =~= pairs.subrange(0, i - 1));
    }
    assert(pairs.subrange(0, pairs.len() as int) =~= pairs);
    let env = env_vars.to_env_vars();
    assert(lists(env@, env_vars.named()));
    let r = Spawn { program: vars.expand_word(cmd.name.as_str()), args: expand_args(vars, &cmd.args), env };
    r
}

/// The names that a command's assignments set.
fn assignment_keys(pairs: &Vec<(String, String)>) -> (r: Vec<String>)
    ensures
        r@.len() == pairs@.len(),
        forall|i: int| 0 <= i < pairs@.len() ==> (#[trigger] r@[i])@ == pairs@[i].0@,
{
    let mut r: Vec<String> = Vec::new();
    let mut i: usize = 0;
    while i < pairs.len()
        invariant
            i <= pairs@.len(),
            r@.len() == i,
            forall|j: int| 0 <= j < i ==> (#[trigger] r@[j])@ == pairs@[j].0@,
        decreases pairs@.len() - i,
    {
        r.push(pairs[i].0.clone());
        i = i + 1;
    }
    r
}

/// The frames below `n` keep what they saved.
pub open spec fn scopes_kept(a: Executor, b: Executor, n: int) -> bool {
    forall|i: int| 0 <= i < n ==> #[trigger] a.call_scope(i) == b.call_scope(i)
}

/// How one step may change the stack of frames and the variables: it opens
/// at most one frame, which saves the variables as they were; or closes at
/// most one, and when that was a function call, the variables come back to
/// what the call saved; the frames beneath are untouched.
pub open spec fn frames_step(a: Executor, b: Executor, va: Variables, vb: Variables) -> bool {
    &&& (b.depth() == a.depth() ==> scopes_kept(a, b, a.depth() as int))
    &&& (b.depth() == a.depth() + 1 ==> scopes_kept(a, b, a.depth() as int) && (b.call_scope(
        a.depth() as int,
    ) matches Some(sc) ==> exists|keys: Set<Seq<char>>| sc == scope_of(va.named(), va.positional(), keys)))
    &&& (b.depth() + 1 == a.depth() ==> scopes_kept(a, b, b.depth() as int) && match a.call_scope(
        b.depth() as int,
    ) {
        Some(sc) => vb.named() == restored(va.named(), sc) && vb.positional() == sc.args,
        None => vb == va,
    })
    &&& (b.depth() == a.depth() || b.depth() == a.depth() + 1 || b.depth() + 1 == a.depth())
}

/// The shell's state is as it was.
pub open spec fn unchanged(sa: Shell, sb: Shell) -> bool {
    sb.vars == sa.vars && sb.functions == sa.functions && sb.oldpwd == sa.oldpwd && sb.history
        == sa.history
}

/// Starting the simple command `sc` with `d` frames open, from shell `sa`:
/// the step's result `r`, the executor `b` and the shell `sb` after it.
pub open spec fn starts_simple(d: nat, b: Executor, sa: Shell, sb: Shell, sc: SimpleCommandV, r: Action) -> bool {
    match resolution(sa.functions.table(), sc.name) {
        Resolution::Assign => {
            &&& r is Continue
            &&& b.depth() == d
            &&& b.outcome() == succeeded()
            &&& sb.vars.named() == assigned(sa.vars.named(), sa.vars.positional(), sc.assignments)
            &&& sb.vars.positional() == sa.vars.positional()
            &&& sb.functions == sa.functions
        },
        Resolution::Function => {
            &&& r is Continue
            &&& sb.functions == sa.functions
            &&& if d >= MAX_DEPTH {
                b.depth() == d && b.outcome() == failed_with(DEPTH_EXCEEDED@) && sb.vars == sa.vars
            } else {
                let args = expanded_args(sa.vars, sc.args);
                &&& b.depth() == d + 1
                &&& b.outcome() is None
                &&& b.call_scope(d as int) == Some(
                    scope_of(sa.vars.named(), sa.vars.positional(), assignment_names(sc.assignments)),
                )
                &&& b.frame_script(d as int) == sa.functions.table()[sc.name]
                &&& sb.vars.positional() == args
                &&& sb.vars.named() == assigned(sa.vars.named(), args, sc.assignments)
            }
        },
        Resolution::Builtin(BuiltinKind::Source) => {
            &&& b.depth() == d
            &&& unchanged(sa, sb)
            &&& if sc.args.len() == 1 {
                r matches Action::ReadFile(path) && path@ == sa.vars.word_value(sc.args[0]) && b.waiting()
                    == Wait::File
            } else {
                r is Continue && b.outcome() == failed_with(sc.name + ": expected 1 argument"@)
            }
        },
        Resolution::Builtin(k) => {
            &&& b.depth() == d
            &&& unchanged(sa, sb)
            &&& b.waiting() == Wait::Args(k)
            &&& r matches Action::ParseArgs(k2, args) && k2 == k && args@.len() == sc.args.len() && forall|i: int|
                0 <= i < sc.args.len() ==> (#[trigger] args@[i])@ == sa.vars.word_value(sc.args[i])
        },
        Resolution::External => {
            &&& b.depth() == d
            &&& unchanged(sa, sb)
            &&& b.waiting() == Wait::External
            &&& r matches Action::Run(s) && spawn_matches(s, sa.vars, sc)
        },
    }
}

/// Starting the pipeline `p` with `d` frames open, from shell `sa`: the
/// step's result `r`, the executor `b` and the shell `sb` after it. An
/// empty pipeline succeeds; one command runs as itself (a subshell is handed
/// out whole, a definition installs its body); several stages must all be
/// simple commands and start as programs, builtins and functions aside.
pub open spec fn begins(d: nat, b: Executor, sa: Shell, sb: Shell, p: Seq<CommandV>, r: Action) -> bool {
    if p.len() == 0 {
        r is Continue && b.depth() == d && b.outcome() == succeeded() && unchanged(sa, sb)
    } else if p.len() == 1 {
        match p[0] {
            CommandV::Simple(sc) => starts_simple(d, b, sa, sb, sc, r),
            CommandV::Subshell(body) => {
                &&& r matches Action::Subshell(bd) && script_view(&bd) == body
                &&& b.waiting() == Wait::Subshell
                &&& b.depth() == d
                &&& unchanged(sa, sb)
            },
            CommandV::FunctionDef(name, body) => {
                &&& r is Continue
                &&& b.depth() == d
                &&& b.outcome() == succeeded()
                &&& sb.functions.table() == sa.functions.table().insert(name, body)
                &&& sb.vars == sa.vars
            },
        }
    } else if forall|i: int| 0 <= i < p.len() ==> (#[trigger] p[i]) is Simple {
        &&& r matches Action::RunPipeline(sp) && sp@.len() == p.len() && forall|i: int|
            0 <= i < p.len() ==> spawn_matches(#[trigger] sp@[i], sa.vars, p[i]->Simple_0)
        &&& b.waiting() == Wait::Pipeline
        &&& b.depth() == d
        &&& unchanged(sa, sb)
    } else {
        r is Continue && b.depth() == d && b.outcome() == failed_with(PIPE_SIMPLE_ONLY@) && unchanged(sa, sb)
    }
}

/// How a simple command is carried out.
#[derive(Clone, Copy, Debug, PartialEq, Eq, Structural)]
pub enum Resolution {
    /// No name: the assignments are made for good.
    Assign,
    /// A user-defined function.
    Function,
    /// A command handled inside the shell.
    Builtin(BuiltinKind),
    /// A program to start.
    External,
}

/// Lookup order for a command name: a function first, then a builtin, then
/// an external program; a command without a name only assigns.
pub open spec fn resolution(table: Map<Seq<char>, Seq<Seq<crate::parser::CommandV>>>, name: Seq<char>) -> Resolution {
    if name.len() == 0 {
        Resolution::Assign
    } else if table.contains_key(name) {
        Resolution::Function
    } else {
        match crate::builtins::builtin_named(name) {
            Some(k) => Resolution::Builtin(k),
            None => Resolution::External,
        }
    }
}

pub fn resolve(functions: &Functions, cmd: &SimpleCommand) -> (r: Resolution)
    requires
        functions.wf(),
    ensures
        r == resolution(functions.table(), cmd.name@),
{
    if cmd.name.as_str().unicode_len() == 0 {
        Resolution::Assign
    } else if functions.get(cmd.name.as_str()).is_some() {
        Resolution::Function
    } else {
        match crate::builtins::builtin_of(cmd.name.as_str()) {
            Some(k) => Resolution::Builtin(k),
            None => Resolution::External,
        }
    }
}

fn message(text: &str) -> (r: String)
    ensures
        r@ == text@,
{
    String::from_str(text)
}

impl Executor {
    fn unexpected() -> (r: String)
        ensures
            r@ == UNEXPECTED_EVENT@,
    {
        message(UNEXPECTED_EVENT)
    }

    /// Starts one command of a pipeline of length one.
    fn begin_command(&mut self, c: &Command, shell: &mut Shell) -> (r: Action)
        requires
            old(self).outcome() is None,
            old(self).wf(),
            old(shell).wf(),
        ensures
            final(self).wf(),
            final(shell).wf(),
            final(shell).oldpwd == old(shell).oldpwd,
            final(shell).history == old(shell).history,
            r is Subshell ==> final(shell).vars == old(shell).vars && final(shell).functions
                == old(shell).functions,
            !(r is ChangeDir) && !(r is Exit),
            final(self).depth() == old(self).depth() || final(self).depth() == old(self).depth() + 1,
            frames_step(*old(self), *final(self), old(shell).vars, final(shell).vars),
            final(self).is_isolated() == old(self).is_isolated(),
            begins(old(self).depth(), *final(self), *old(shell), *final(shell), seq![command_view(c)], r),
    {
        proof {
            assert(seq![command_view(c)][0] == command_view(c));
        }
        match c {
            Command::Simple(sc) => {
                let how = resolve(&shell.functions, sc);
                if how == Resolution::Assign {
                    assign_all(&mut shell.vars, sc);
                    self.pending = Some(Ok(()));
                    return Action::Continue;
                }
                if how == Resolution::Function {
                    let body = match shell.functions.get(sc.name.as_str()) {
                        Some(b) => duplicate_script(b),
                        None => Vec::new(),
                    };
                    if self.frames.len() >= MAX_DEPTH {
                        self.pending = Some(Err(message(DEPTH_EXCEEDED)));
                        return Action::Continue;
                    }
                    let args = expand_args(&shell.vars, &sc.args);
                    let keys = assignment_keys(&sc.assignments);
                    let scope = CallScope::enter(&shell.vars, &keys);
                    let ghost saved = scope.view();
                    proof {
                        let kv = keys@.map_values(|k: String| k@);
                        let ks = kv.to_set();
                        let names = assignment_names(sc@.assignments);
                        assert forall|k: Seq<char>| #[trigger] ks.contains(k) <==> names.contains(k) by {
                            if ks.contains(k) {
                                let i = choose|i: int| 0 <= i < kv.len() && #[trigger] kv[i] == k;
                                assert(sc@.assignments[i].0 == k);
                            }
                            if names.contains(k) {
                                let i = choose|i: int| 0 <= i < sc@.assignments.len() && (#[trigger] sc@.assignments[i]).0 == k;
                                assert(kv[i] == k);
                            }
                        }
                        assert(ks =~= names);
                    }
                    shell.vars.set_positional_args(args);
                    proof {
                        assert(shell.vars.positional() =~= expanded_args(old(shell).vars, sc@.args));
                    }
                    assign_all(&mut shell.vars, sc);
                    self.frames.push(Frame { body, next: 0, scope: Some(scope) });
                    assert(self.call_scope(old(self).depth() as int) == Some(saved));
                    assert(scopes_kept(*old(self), *self, old(self).depth() as int));
                    return Action::Continue;
                }
                match handle_builtin(sc) {
                    Ok(BuiltinResult::SourceFile(path)) => {
                        self.waiting = Wait::File;
                        Action::ReadFile(shell.vars.expand_word(path.as_str()))
                    },
                    Ok(BuiltinResult::ParseArgs(kind)) => {
                        self.waiting = Wait::Args(kind);
                        Action::ParseArgs(kind, expand_args(&shell.vars, &sc.args))
                    },
                    Ok(BuiltinResult::NotHandled) => {
                        self.waiting = Wait::External;
                        Action::Run(spawn_for(&shell.vars, sc))
                    },
                    Err(m) => {
                        self.pending = Some(Err(m));
                        Action::Continue
                    },
                }
            },
            Command::Subshell(ps) => {
                self.waiting = Wait::Subshell;
                Action::Subshell(duplicate_script(ps))
            },
            Command::FunctionDef(name, body) => {
                shell.functions.set(name.clone(), duplicate_script(body));
                self.pending = Some(Ok(()));
                Action::Continue
            },
        }
    }

    /// Starts a pipeline.
    fn begin(&mut self, p: Vec<Command>, shell: &mut Shell) -> (r: Action)
        requires
            old(self).outcome() is None,
            old(self).wf(),
            old(shell).wf(),
        ensures
            final(self).wf(),
            final(shell).wf(),
            final(shell).oldpwd == old(shell).oldpwd,
            final(shell).history == old(shell).history,
            r is Subshell ==> final(shell).vars == old(shell).vars && final(shell).functions
                == old(shell).functions,
            !(r is ChangeDir) && !(r is Exit),
            final(self).depth() == old(self).depth() || final(self).depth() == old(self).depth() + 1,
            frames_step(*old(self), *final(self), old(shell).vars, final(shell).vars),
            final(self).is_isolated() == old(self).is_isolated(),
            begins(old(self).depth(), *final(self), *old(shell), *final(shell), pipeline_view(&p), r),
    {
        if p.len() == 0 {
            self.pending = Some(Ok(()));
            return Action::Continue;
        }
        if p.len() == 1 {
            let r = self.begin_command(&p[0], shell);
            assert(pipeline_view(&p) =~= seq![command_view(&p[0])]);
            return r;
        }
        let mut spawns: Vec<Spawn> = Vec::new();
        let mut i: usize = 0;
        while i < p.len()
            invariant
                shell.wf(),
                self.wf(),
                shell == old(shell),
                self.frames@ == old(self).frames@,
                self.isolated == old(self).isolated,
                self.pending is None,
                p@.len() > 1,
                i <= p@.len(),
                spawns@.len() == i,
                forall|j: int| 0 <= j < i ==> (#[trigger] pipeline_view(&p)[j]) is Simple,
                forall|j: int| 0 <= j < i ==> spawn_matches(#[trigger] spawns@[j], shell.vars, pipeline_view(&p)[j]->Simple_0),
            decreases p@.len() - i,
        {
            match &p[i] {
                Command::Simple(sc) => {
                    spawns.push(spawn_for(&shell.vars, sc));
                },
                _ => {
                    let ghost pv = pipeline_view(&p);
                    assert(!(pv[i as int] is Simple));
                    assert(pv.len() > 1);
                    assert(!(forall|j: int| 0 <= j < pv.len() ==> (#[trigger] pv[j]) is Simple));
                    let m = message(PIPE_SIMPLE_ONLY);
                    assert(m@ == PIPE_SIMPLE_ONLY@);
                    self.pending = Some(Err(m));
                    assert(self.pending == Some(Err::<(), String>(m)));
                    assert(self.outcome() == Some(Err::<(), Seq<char>>(m@)));
                    return Action::Continue;
                },
            }
            i = i + 1;
        }
        self.waiting = Wait::Pipeline;
        Action::RunPipeline(spawns)
    }

    /// Takes what came of the last action, and returns the next one.
    pub fn step(&mut self, shell: &mut Shell, ev: Event) -> (r: Action)
        requires
            old(self).wf(),
            old(shell).wf(),
        ensures
            final(self).wf(),
            final(shell).wf(),
            // The previous directory and the history change only when a
            // directory change succeeded.
            (final(shell).oldpwd != old(shell).oldpwd || final(shell).history != old(shell).history)
                ==> old(self).waiting() == Wait::ChangeDir && ev is DirChanged,
            // Nothing that a subshell does reaches the shell.
            old(self).waiting() == Wait::Subshell ==> final(shell).vars == old(shell).vars
                && final(shell).functions == old(shell).functions,
            r is Subshell ==> final(shell).vars == old(shell).vars && final(shell).functions
                == old(shell).functions,
            // `cd` goes only where its plan says.
            r matches Action::ChangeDir(t, a) ==> (old(self).waiting() == Wait::Args(BuiltinKind::Cd)
                && (ev matches Event::CdArgs(d, h) && cd_target(
                opt_str(d),
                opt_str(h),
                opt_str(old(shell).oldpwd),
            ) == Ok::<(Seq<char>, bool), Seq<char>>((t@, a)))),
            final(self).is_isolated() == old(self).is_isolated(),
            // With nothing awaited and no result to hand on, the innermost
            // frame's next pipeline starts ...
            (old(self).waiting() == Wait::Nothing && old(self).outcome() is None
                && old(self).next_pipeline() is Some) ==> begins(
                old(self).depth(),
                *final(self),
                *old(shell),
                *final(shell),
                old(self).next_pipeline()->Some_0,
                r,
            ),
            // ... or, when it has run them all, the frame closes; the last
            // one finishes the run.
            (old(self).waiting() == Wait::Nothing && old(self).outcome() is None
                && old(self).next_pipeline() is None) ==> (if old(self).depth() <= 1 {
                r matches Action::Finished(Ok(()))
            } else {
                final(self).depth() + 1 == old(self).depth() && final(self).outcome() == succeeded()
                    && r is Continue
            }),
            // A failing pipeline ends the function call that ran it, and the
            // caller sees the same error; elsewhere the error is reported,
            // or ends the run of a subshell's body.
            old(self).waiting() == Wait::Nothing ==> (old(self).outcome() matches Some(Err(m)) ==> (
            if old(self).depth() == 0 {
                (r matches Action::Finished(Err(m2)) && m2@ == m)
            } else if old(self).call_scope(old(self).depth() - 1) is Some {
                final(self).depth() + 1 == old(self).depth() && final(self).outcome() == failed_with(m)
            } else if old(self).is_isolated() {
                (r matches Action::Finished(Err(m2)) && m2@ == m)
            } else {
                (r matches Action::Report(m2) && m2@ == m) && final(self).depth() == old(self).depth()
            })),
            // A program that ran succeeded whatever its exit code; one that
            // could not be started or waited for failed.
            old(self).waiting() == Wait::External ==> ((ev is Status ==> final(self).outcome()
                == succeeded()) && (ev matches Event::Failed(m) ==> final(self).outcome()
                == failed_with(NOT_STARTED@ + m@))),
            // A pipeline's result is its last stage's.
            old(self).waiting() == Wait::Pipeline ==> ((ev matches Event::Statuses(v)
                ==> final(self).outcome() == Some(pipeline_result(v@))) && (ev matches Event::Failed(m)
                ==> final(self).outcome() == failed_with(NOT_STARTED@ + m@))),
            // A subshell failed when it could not run or a signal ended it.
            old(self).waiting() == Wait::Subshell ==> ((ev matches Event::Status(st)
                ==> final(self).outcome() == if st is Exited {
                succeeded()
            } else {
                failed_with(SUBSHELL_KILLED@)
            }) && (ev matches Event::Failed(m) ==> final(self).outcome() == failed_with(NOT_STARTED@ + m@))),
            // `cd`: a target that cannot be planned is an error; else the
            // directory change is asked for.
            old(self).waiting() == Wait::Args(BuiltinKind::Cd) ==> (ev matches Event::CdArgs(d, h) ==> (
            match cd_target(opt_str(d), opt_str(h), opt_str(old(shell).oldpwd)) {
                Ok(p) => (r matches Action::ChangeDir(t, a) && t@ == p.0 && a == p.1) && final(self).cd_dir()
                    == p.0 && final(self).waiting() == Wait::ChangeDir,
                Err(m) => r is Continue && final(self).outcome() == failed_with(m),
            })),
            // A directory change that happened is recorded: the directory
            // left, and a history entry, which is then saved.
            old(self).waiting() == Wait::ChangeDir ==> (ev matches Event::DirChanged(p) ==> (
            final(shell).oldpwd == p && lines(final(shell).history@) == capped(
                lines(old(shell).history@).push("cd "@ + old(self).cd_dir()),
            ) && (r matches Action::SaveHistory(h) && lines(h@) == capped(lines(final(shell).history@)))
                && final(self).waiting() == Wait::SaveThenContinue)),
            old(self).waiting() == Wait::ChangeDir ==> (ev matches Event::Failed(m) ==> final(self).outcome()
                == failed_with(m@)),
            old(self).waiting() == Wait::SaveThenContinue ==> ((ev is Saved ==> final(self).outcome()
                == succeeded()) && (ev matches Event::Failed(m) ==> final(self).outcome() == failed_with(
                m@,
            ))),
            // `exit n` saves the history first, then ends with `n`; a failed
            // save is an error and nothing ends.
            old(self).waiting() == Wait::Args(BuiltinKind::Exit) ==> (ev matches Event::ExitArgs(n) ==> (
            (r matches Action::SaveHistory(h) && lines(h@) == capped(lines(old(shell).history@)))
                && final(self).waiting() == Wait::SaveThenExit(n))),
            old(self).waiting() matches Wait::SaveThenExit(n) ==> ((ev is Saved ==> (r matches Action::Exit(
                c,
            ) && c == n)) && (ev matches Event::Failed(m) ==> r is Continue && final(self).outcome()
                == failed_with(m@))),
            (old(self).waiting() == Wait::Args(BuiltinKind::History) && ev is HistoryArgs) ==> (
            r matches Action::PrintHistory(h) && lines(h@) == lines(old(shell).history@)),
            (old(self).waiting() is Args && ev is ArgsHandled) ==> final(self).outcome() == succeeded(),
            // `source`: the file's pipelines run in a new frame that saves
            // nothing, so they act on the caller's variables.
            old(self).waiting() == Wait::File ==> (ev matches Event::FileText(t) ==> (
            match parse_text(t@) {
                Ok(script) => if old(self).depth() < MAX_DEPTH {
                    final(self).depth() == old(self).depth() + 1 && final(self).call_scope(
                        old(self).depth() as int,
                    ) is None && final(self).frame_script(old(self).depth() as int) == script
                        && final(self).outcome() is None
                } else {
                    final(self).outcome() == failed_with(DEPTH_EXCEEDED@)
                },
                Err(ParseError::Lexical(_)) => final(self).outcome() == failed_with(SOURCE_LEXICAL@),
                Err(ParseError::Syntax(_)) => final(self).outcome() == failed_with(SOURCE_SYNTAX@),
            })),
            old(self).waiting() == Wait::File ==> (ev matches Event::Failed(m) ==> final(self).outcome()
                == failed_with(m@)),
            // Frames open and close one at a time; closing a function call
            // restores what it saved.
            frames_step(*old(self), *final(self), old(shell).vars, final(shell).vars),
            // The shell ends only once the history is saved.
            r matches Action::Exit(code) ==> (old(self).waiting() == Wait::SaveThenExit(code)
                && ev is Saved),
    {
        let waiting = self.waiting;
        self.waiting = Wait::Nothing;
        match waiting {
            Wait::Nothing | Wait::Report => {},
            Wait::Done => {
                self.waiting = Wait::Done;
                return Action::Finished(Ok(()));
            },
            Wait::External => {
                self.pending = Some(
                    match ev {
                        Event::Status(_) => Ok(()),
                        Event::Failed(m) => Err(message(NOT_STARTED).concat(m.as_str())),
                        _ => Err(Self::unexpected()),
                    },
                );
                return Action::Continue;
            },
            Wait::Pipeline => {
                self.pending = Some(
                    match ev {
                        Event::Statuses(v) => pipeline_status(&v),
                        Event::Failed(m) => Err(message(NOT_STARTED).concat(m.as_str())),
                        _ => Err(Self::unexpected()),
                    },
                );
                return Action::Continue;
            },
            Wait::Subshell => {
                self.pending = Some(
                    match ev {
                        Event::Status(ExitStatus::Exited(_)) => Ok(()),
                        Event::Status(ExitStatus::Signaled(_)) => Err(message(SUBSHELL_KILLED)),
                        Event::Failed(m) => Err(message(NOT_STARTED).concat(m.as_str())),
                        _ => Err(Self::unexpected()),
                    },
                );
                return Action::Continue;
            },
            Wait::Args(kind) => {
                let res = match ev {
                    Event::CdArgs(d, h) => {
                        if kind == BuiltinKind::Cd {
                            match plan_cd(&d, &h, &shell.oldpwd) {
                                Ok((target, announce)) => {
                                    self.cd_target = target.clone();
                                    self.waiting = Wait::ChangeDir;
                                    return Action::ChangeDir(target, announce);
                                },
                                Err(m) => Err(m),
                            }
                        } else {
                            Err(Self::unexpected())
                        }
                    },
                    Event::ExitArgs(code) => {
                        if kind == BuiltinKind::Exit {
                            self.waiting = Wait::SaveThenExit(code);
                            return Action::SaveHistory(shell.history_mgr.to_save(&shell.history));
                        } else {
                            Err(Self::unexpected())
                        }
                    },
                    Event::HistoryArgs => {
                        if kind == BuiltinKind::History {
                            self.pending = Some(Ok(()));
                            self.waiting = Wait::Report;
                            return Action::PrintHistory(clone_strings(&shell.history));
                        } else {
                            Err(Self::unexpected())
                        }
                    },
                    Event::ArgsHandled => Ok(()),
                    _ => Err(Self::unexpected()),
                };
                self.pending = Some(res);
                return Action::Continue;
            },
            Wait::ChangeDir => {
                match ev {
                    Event::DirChanged(previous) => {
                        shell.oldpwd = previous;
                        let entry = message("cd ").concat(self.cd_target.as_str());
                        shell.history_mgr.add_entry(entry.as_str(), &mut shell.history);
                        self.waiting = Wait::SaveThenContinue;
                        return Action::SaveHistory(shell.history_mgr.to_save(&shell.history));
                    },
                    Event::Failed(m) => {
                        self.pending = Some(Err(m));
                    },
                    _ => {
                        self.pending = Some(Err(Self::unexpected()));
                    },
                }
                return Action::Continue;
            },
            Wait::SaveThenContinue => {
                self.pending = Some(
                    match ev {
                        Event::Saved => Ok(()),
                        Event::Failed(m) => Err(m),
                        _ => Err(Self::unexpected()),
                    },
                );
                return Action::Continue;
            },
            Wait::SaveThenExit(code) => {
                match ev {
                    Event::Saved => {
                        self.waiting = Wait::Done;
                        return Action::Exit(code);
                    },
                    Event::Failed(m) => {
                        self.pending = Some(Err(m));
                    },
                    _ => {
                        self.pending = Some(Err(Self::unexpected()));
                    },
                }
                return Action::Continue;
            },
            Wait::File => {
                let res = match ev {
                    Event::FileText(text) => match Command::parse_script(text.as_str()) {
                        Ok(script) => {
                            if self.frames.len() < MAX_DEPTH {
                                self.frames.push(Frame { body: script, next: 0, scope: None });
                                self.pending = None;
                                return Action::Continue;
                            }
                            Err(message(DEPTH_EXCEEDED))
                        },
                        Err(ParseError::Lexical(_)) => Err(message(SOURCE_LEXICAL)),
                        Err(ParseError::Syntax(_)) => Err(message(SOURCE_SYNTAX)),
                    },
                    Event::Failed(m) => Err(m),
                    _ => Err(Self::unexpected()),
                };
                self.pending = Some(res);
                return Action::Continue;
            },
        }
        // Hand a finished pipeline's result to the frame that ran it.
        match self.pending.take() {
            Some(Err(m)) => {
                if self.frames.len() == 0 {
                    self.waiting = Wait::Done;
                    return Action::Finished(Err(m));
                }
                let top = self.frames.pop().unwrap();
                match top.scope {
                    Some(scope) => {
                        // A failing function body stops; its caller sees
                        // the error.
                        scope.restore(&mut shell.vars);
                        self.pending = Some(Err(m));
                        return Action::Continue;
                    },
                    None => {
                        self.frames.push(top);
                        if self.isolated {
                            self.waiting = Wait::Done;
                            return Action::Finished(Err(m));
                        }
                        self.waiting = Wait::Report;
                        return Action::Report(m);
                    },
                }
            },
            _ => {},
        }
        // Run the next pipeline of the innermost frame, or close it.
        if self.frames.len() == 0 {
            self.waiting = Wait::Done;
            return Action::Finished(Ok(()));
        }
        let ghost before = *self;
        assert(before.frames@ == old(self).frames@);
        let mut top = self.frames.pop().unwrap();
        if top.next < top.body.len() {
            let p = duplicate_pipeline(&top.body[top.next]);
            top.next = top.next + 1;
            self.frames.push(top);
            assert(self.frames@ =~= before.frames@.update(before.frames@.len() - 1, self.frames@.last()));
            assert(scopes_kept(before, *self, before.depth() as int));
            let ghost mid = *self;
            let r = self.begin(p, shell);
            proof {
                if scopes_kept(mid, *self, mid.depth() as int) {
                    assert(scopes_kept(before, *self, before.depth() as int));
                }
            }
            assert(frames_step(before, *self, old(shell).vars, shell.vars));
            proof {
                Self::lemma_same_frames(before, *old(self), *self, old(shell).vars, shell.vars);
            }
            r
        } else {
            assert(before.call_scope(self.depth() as int) == match top.scope {
                Some(s) => Some(s.view()),
                None => None,
            });
            assert(scopes_kept(before, *self, self.depth() as int));
            match top.scope {
                Some(scope) => scope.restore(&mut shell.vars),
                None => {},
            }
            if self.frames.len() == 0 {
                self.waiting = Wait::Done;
                return Action::Finished(Ok(()));
            }
            self.pending = Some(Ok(()));
            assert(frames_step(before, *self, old(shell).vars, shell.vars));
            proof {
                Self::lemma_same_frames(before, *old(self), *self, old(shell).vars, shell.vars);
            }
            Action::Continue
        }
    }
}

} // verus!
