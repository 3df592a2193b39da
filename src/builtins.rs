//! Commands handled inside the shell: `cd`, `exit`, `history`, `source`
//! (also spelled `.`).
use vstd::prelude::*;
use vstd::string::*;
use crate::parser::SimpleCommand;
use crate::text::str_eq;

verus! {

#[derive(Clone, Copy, Debug, PartialEq, Eq, Structural)]
pub enum BuiltinKind {
    Exit,
    History,
    Cd,
    Source,
}

/// The builtin that a command name names, if any.
pub open spec fn builtin_named(name: Seq<char>) -> Option<BuiltinKind> {
    if name == "exit"@ {
        Some(BuiltinKind::Exit)
    } else if name == "history"@ {
        Some(BuiltinKind::History)
    } else if name == "cd"@ {
        Some(BuiltinKind::Cd)
    } else if name == "source"@ || name == "."@ {
        Some(BuiltinKind::Source)
    } else {
        None
    }
}

pub fn builtin_of(name: &str) -> (r: Option<BuiltinKind>)
    ensures
        r == builtin_named(name@),
{
    if str_eq(name, "exit") {
        Some(BuiltinKind::Exit)
    } else if str_eq(name, "history") {
        Some(BuiltinKind::History)
    } else if str_eq(name, "cd") {
        Some(BuiltinKind::Cd)
    } else if str_eq(name, "source") || str_eq(name, ".") {
        Some(BuiltinKind::Source)
    } else {
        None
    }
}

/// What a simple command is, as far as builtins go.
#[derive(Debug)]
pub enum BuiltinResult {
    /// `source path`: the file to read and run in the current scope.
    SourceFile(String),
    /// A builtin whose arguments go to its argument parser next.
    ParseArgs(BuiltinKind),
    /// Not a builtin: an external program.
    NotHandled,
}

/// Recognizes a builtin. `source` (or `.`) takes exactly one argument and
/// is an error otherwise.
pub fn handle_builtin(cmd: &SimpleCommand) -> (r: Result<BuiltinResult, String>)
    ensures
        match builtin_named(cmd.name@) {
            None => r matches Ok(BuiltinResult::NotHandled),
            Some(BuiltinKind::Source) => if cmd.args@.len() == 1 {
                r matches Ok(BuiltinResult::SourceFile(p)) && p@ == cmd.args@[0]@
            } else {
                r matches Err(m) && m@ == cmd.name@ + ": expected 1 argument"@
            },
            Some(k) => r matches Ok(BuiltinResult::ParseArgs(k2)) && k2 == k,
        },
{
    match builtin_of(cmd.name.as_str()) {
        None => Ok(BuiltinResult::NotHandled),
        Some(BuiltinKind::Source) => {
            if cmd.args.len() == 1 {
                Ok(BuiltinResult::SourceFile(cmd.args[0].clone()))
            } else {
                Err(cmd.name.clone().concat(": expected 1 argument"))
            }
        },
        Some(k) => Ok(BuiltinResult::ParseArgs(k)),
    }
}

/// `path` with a leading `~` replaced by the home directory.
pub open spec fn tilde_collapsed(path: Seq<char>, home: Option<Seq<char>>) -> Seq<char> {
    if path.len() > 0 && path[0] == '~' && home is Some {
        home->Some_0 + path.drop_first()
    } else {
        path
    }
}

pub fn collapse_tilde(path: &str, home: Option<&str>) -> (r: String)
    ensures
        r@ == tilde_collapsed(path@, match home {
            Some(h) => Some(h@),
            None => None,
        }),
{
    let n = path.unicode_len();
    match home {
        Some(h) => {
            if n > 0 && path.get_char(0) == '~' {
                let rest = path.substring_char(1, n);
                assert(rest@ =~= path@.drop_first());
                String::from_str(h).concat(rest)
            } else {
                String::from_str(path)
            }
        },
        None => String::from_str(path),
    }
}

pub open spec fn opt_str(o: Option<String>) -> Option<Seq<char>> {
    match o {
        Some(s) => Some(s@),
        None => None,
    }
}

/// Where `cd` goes and whether it announces the new directory: with no
/// argument, the home directory (`/` without one); with `-`, the previous
/// directory, an error when none was recorded; else the argument with a
/// leading `~` replaced by the home directory.
pub open spec fn cd_target(
    dir: Option<Seq<char>>,
    home: Option<Seq<char>>,
    oldpwd: Option<Seq<char>>,
) -> Result<(Seq<char>, bool), Seq<char>> {
    match dir {
        None => match home {
            Some(h) => Ok((h, false)),
            None => Ok(("/"@, false)),
        },
        Some(d) => if d == "-"@ {
            match oldpwd {
                Some(p) => Ok((p, true)),
                None => Err("cd: OLDPWD not set"@),
            }
        } else {
            Ok((tilde_collapsed(d, home), false))
        },
    }
}

pub fn plan_cd(dir: &Option<String>, home: &Option<String>, oldpwd: &Option<String>) -> (r: Result<
    (String, bool),
    String,
>)
    ensures
        match r {
            Ok(p) => cd_target(opt_str(*dir), opt_str(*home), opt_str(*oldpwd)) == Ok::<
                (Seq<char>, bool),
                Seq<char>,
            >((p.0@, p.1)),
            Err(m) => cd_target(opt_str(*dir), opt_str(*home), opt_str(*oldpwd)) == Err::<
                (Seq<char>, bool),
                Seq<char>,
            >(m@),
        },
{
    match dir {
        None => match home {
            Some(h) => Ok((h.clone(), false)),
            None => Ok((String::from_str("/"), false)),
        },
        Some(d) => {
            if str_eq(d.as_str(), "-") {
                match oldpwd {
                    Some(p) => Ok((p.clone(), true)),
                    None => Err(String::from_str("cd: OLDPWD not set")),
                }
            } else {
                let h = match home {
                    Some(h) => Some(h.as_str()),
                    None => None,
                };
                Ok((collapse_tilde(d.as_str(), h), false))
            }
        },
    }
}

} // verus!
