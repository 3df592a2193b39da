//! ANSI color escape sequences used for the prompt and error messages.
use vstd::prelude::*;
use vstd::string::*;

verus! {

pub const RESET: &'static str = "\x1b[0m";

pub const RED: &'static str = "\x1b[31m";

pub const GREEN: &'static str = "\x1b[32m";

pub const YELLOW: &'static str = "\x1b[33m";

pub const BLUE: &'static str = "\x1b[34m";

pub const MAGENTA: &'static str = "\x1b[35m";

pub const CYAN: &'static str = "\x1b[36m";

pub const WHITE: &'static str = "\x1b[37m";

/// The text `s` framed by the escape sequence `code` and the reset sequence.
pub open spec fn painted(code: Seq<char>, s: Seq<char>) -> Seq<char> {
    code + s + RESET@
}

fn paint(code: &str, s: &str) -> (r: String)
    ensures
        r@ == painted(code@, s@),
{
    let out = String::from_str(code);
    let out = out.concat(s);
    out.concat(RESET)
}

pub fn red(s: &str) -> (r: String)
    ensures
        r@ == painted(RED@, s@),
{
    paint(RED, s)
}

pub fn green(s: &str) -> (r: String)
    ensures
        r@ == painted(GREEN@, s@),
{
    paint(GREEN, s)
}

pub fn yellow(s: &str) -> (r: String)
    ensures
        r@ == painted(YELLOW@, s@),
{
    paint(YELLOW, s)
}

pub fn blue(s: &str) -> (r: String)
    ensures
        r@ == painted(BLUE@, s@),
{
    paint(BLUE, s)
}

pub fn cyan(s: &str) -> (r: String)
    ensures
        r@ == painted(CYAN@, s@),
{
    paint(CYAN, s)
}

} // verus!
