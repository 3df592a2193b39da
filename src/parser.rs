//! The command grammar: a script is a list of pipelines separated by `;`,
//! newlines, `&&` or `||`; a pipeline is a list of commands joined by `|`;
//! a command is a simple command, a parenthesized subshell, or a function
//! definition (`name() { ... }` or `function name { ... }`).
use vstd::prelude::*;
use vstd::string::*;
use crate::lexer::{lex, tokenize, tokens_view, Token, TokenV};
use crate::text::{chars_of, clone_strings, is_digit, is_digit_exec, is_name_char, is_name_char_exec, str_eq, string_of};
use crate::variables::{lemma_name_run, name_run};

verus! {


/// A command name with its argument words and the `NAME=value` assignments
/// written before it. An empty name with assignments is a bare assignment.
#[derive(Debug, PartialEq)]
pub struct SimpleCommand {
    pub name: String,
    pub args: Vec<String>,
    pub assignments: Vec<(String, String)>,
}

/// One stage of a pipeline.
#[derive(Debug, PartialEq)]
pub enum Command {
    Simple(SimpleCommand),
    Subshell(Vec<Vec<Command>>),
    FunctionDef(String, Vec<Vec<Command>>),
}

pub ghost struct SimpleCommandV {
    pub name: Seq<char>,
    pub args: Seq<Seq<char>>,
    pub assignments: Seq<(Seq<char>, Seq<char>)>,
}

pub ghost enum CommandV {
    Simple(SimpleCommandV),
    Subshell(Seq<Seq<CommandV>>),
    FunctionDef(Seq<char>, Seq<Seq<CommandV>>),
}

impl View for SimpleCommand {
    type V = SimpleCommandV;

    open spec fn view(&self) -> SimpleCommandV {
        SimpleCommandV {
            name: self.name@,
            args: self.args@.map_values(|a: String| a@),
            assignments: self.assignments@.map_values(|p: (String, String)| (p.0@, p.1@)),
        }
    }
}

pub open spec fn command_view(c: &Command) -> CommandV
    decreases c,
{
    match c {
        Command::Simple(s) => CommandV::Simple(s@),
        Command::Subshell(ps) => CommandV::Subshell(script_view(ps)),
        Command::FunctionDef(n, ps) => CommandV::FunctionDef(n@, script_view(ps)),
    }
}

pub open spec fn script_view(ps: &Vec<Vec<Command>>) -> Seq<Seq<CommandV>>
    decreases ps,
{
    Seq::new(
        ps.len() as nat,
        |i: int|
            if 0 <= i < ps.len() {
                pipeline_view(&ps[i])
            } else {
                Seq::empty()
            },
    )
}

pub open spec fn pipeline_view(p: &Vec<Command>) -> Seq<CommandV>
    decreases p,
{
    Seq::new(
        p.len() as nat,
        |i: int|
            if 0 <= i < p.len() {
                command_view(&p[i])
            } else {
                CommandV::Subshell(Seq::empty())
            },
    )
}


fn copy_pairs(v: &Vec<(String, String)>) -> (r: Vec<(String, String)>)
    ensures
        r@.map_values(|a: (String, String)| (a.0@, a.1@)) == v@.map_values(
            |a: (String, String)| (a.0@, a.1@),
        ),
{
    let mut r: Vec<(String, String)> = Vec::new();
    let mut i: usize = 0;
    while i < v.len()
        invariant
            i <= v@.len(),
            r@.map_values(|a: (String, String)| (a.0@, a.1@)) == v@.subrange(0, i as int).map_values(
                |a: (String, String)| (a.0@, a.1@),
            ),
        decreases v@.len() - i,
    {
        push_pair(&mut r, (v[i].0.clone(), v[i].1.clone()));
        i = i + 1;
        assert(v@.subrange(0, i as int).map_values(|a: (String, String)| (a.0@, a.1@)) =~= v@.subrange(
            0,
            i - 1,
        ).map_values(|a: (String, String)| (a.0@, a.1@)).push((v@[i - 1].0@, v@[i - 1].1@)));
    }
    assert(v@.subrange(0, v@.len() as int) =~= v@);
    r
}

impl Clone for SimpleCommand {
    fn clone(&self) -> (r: Self)
        ensures
            r@ == self@,
    {
        let r = SimpleCommand {
            name: self.name.clone(),
            args: clone_strings(&self.args),
            assignments: copy_pairs(&self.assignments),
        };
        assert(r@ =~= self@);
        r
    }
}

impl Command {
    /// A copy of this command, nested pipelines included.
    pub fn duplicate(&self) -> (r: Command)
        ensures
            command_view(&r) == command_view(self),
        decreases self,
    {
        match self {
            Command::Simple(s) => Command::Simple(s.clone()),
            Command::Subshell(ps) => Command::Subshell(duplicate_script(ps)),
            Command::FunctionDef(n, ps) => Command::FunctionDef(n.clone(), duplicate_script(ps)),
        }
    }
}

impl Clone for Command {
    fn clone(&self) -> (r: Self)
        ensures
            command_view(&r) == command_view(self),
    {
        self.duplicate()
    }
}

/// A copy of a pipeline.
pub fn duplicate_pipeline(p: &Vec<Command>) -> (r: Vec<Command>)
    ensures
        pipeline_view(&r) == pipeline_view(p),
    decreases p,
{
    let mut r: Vec<Command> = Vec::new();
    let mut i: usize = 0;
    while i < p.len()
        invariant
            i <= p@.len(),
            pipeline_view(&r) == pipeline_view(p).subrange(0, i as int),
        decreases p@.len() - i,
    {
        proof {
            vstd::std_specs::vec::axiom_vec_index_decreases(*p, i as int);
        }
        let c = p[i].duplicate();
        push_command(&mut r, c);
        i = i + 1;
        assert(pipeline_view(&r) =~= pipeline_view(p).subrange(0, i as int));
    }
    assert(pipeline_view(p).subrange(0, p@.len() as int) =~= pipeline_view(p));
    r
}

/// A copy of a list of pipelines.
pub fn duplicate_script(s: &Vec<Vec<Command>>) -> (r: Vec<Vec<Command>>)
    ensures
        script_view(&r) == script_view(s),
    decreases s,
{
    let mut r: Vec<Vec<Command>> = Vec::new();
    let mut i: usize = 0;
    while i < s.len()
        invariant
            i <= s@.len(),
            script_view(&r) == script_view(s).subrange(0, i as int),
        decreases s@.len() - i,
    {
        proof {
            vstd::std_specs::vec::axiom_vec_index_decreases(*s, i as int);
        }
        let p = duplicate_pipeline(&s[i]);
        push_pipeline(&mut r, p);
        i = i + 1;
        assert(script_view(&r) =~= script_view(s).subrange(0, i as int));
    }
    assert(script_view(s).subrange(0, s@.len() as int) =~= script_view(s));
    r
}

pub open spec fn empty_simple() -> SimpleCommandV {
    SimpleCommandV { name: Seq::empty(), args: Seq::empty(), assignments: Seq::empty() }
}

pub open spec fn brace_open() -> TokenV {
    TokenV::Word(seq!['{'], true)
}

pub open spec fn brace_close() -> TokenV {
    TokenV::Word(seq!['}'], true)
}

pub open spec fn keyword_function() -> TokenV {
    TokenV::Word(seq!['f', 'u', 'n', 'c', 't', 'i', 'o', 'n'], true)
}

/// A token that closes a subshell or a function body.
pub open spec fn is_closer(t: TokenV) -> bool {
    t == TokenV::RParen || t == brace_close()
}

/// A word `NAME=value` where `NAME` is a variable name.
pub open spec fn is_assignment(w: Seq<char>) -> bool {
    let n = name_run(w) as int;
    0 < n < w.len() && w[n] == '=' && !is_digit(w[0])
}

/// The name and the value of an assignment word.
pub open spec fn split_assignment(w: Seq<char>) -> (Seq<char>, Seq<char>) {
    let n = name_run(w) as int;
    (w.subrange(0, n), w.subrange(n + 1, w.len() as int))
}

/// Whether `t` can continue a simple command (`named`: its name is known).
pub open spec fn continues_simple(t: TokenV, named: bool) -> bool {
    t is Word && !is_closer(t) && (named || t != brace_open())
}

/// The words of a simple command from token `i` on: leading assignments,
/// then the name, then the arguments, in the order written; and the
/// position after them.
pub open spec fn parse_simple(t: Seq<TokenV>, i: int, acc: SimpleCommandV, named: bool) -> (
    SimpleCommandV,
    int,
)
    decreases t.len() - i,
{
    if 0 <= i < t.len() && continues_simple(t[i], named) {
        let w = t[i]->Word_0;
        if !named && is_assignment(w) {
            parse_simple(
                t,
                i + 1,
                SimpleCommandV { assignments: acc.assignments.push(split_assignment(w)), ..acc },
                false,
            )
        } else if !named {
            parse_simple(t, i + 1, SimpleCommandV { name: w, ..acc }, true)
        } else {
            parse_simple(t, i + 1, SimpleCommandV { args: acc.args.push(w), ..acc }, true)
        }
    } else {
        (acc, i)
    }
}

/// The body of a `{ ... }` or `( ... )` starting at token `i`, closed at the
/// returned position by `closer`.
pub open spec fn parse_block(t: Seq<TokenV>, i: int, closer: TokenV) -> Result<
    (Seq<Seq<CommandV>>, int),
    int,
>
    decreases t.len() - i, 8int,
{
    if i < 0 || i > t.len() {
        Err(i)
    } else {
        match parse_list(t, i, Seq::empty()) {
            Ok(r) => if 0 <= r.1 < t.len() && t[r.1] == closer {
                Ok((r.0, r.1 + 1))
            } else {
                Err(r.1)
            },
            Err(e) => Err(e),
        }
    }
}

/// The command at token `i` and the position after it.
pub open spec fn parse_command(t: Seq<TokenV>, i: int) -> Result<(CommandV, int), int>
    decreases t.len() - i, 5int,
{
    if i < 0 || i >= t.len() {
        Err(i)
    } else if t[i] == TokenV::LParen {
        match parse_block(t, i + 1, TokenV::RParen) {
            Ok(r) => Ok((CommandV::Subshell(r.0), r.1)),
            Err(e) => Err(e),
        }
    } else if t[i] == keyword_function() && i + 2 < t.len() && t[i + 1] is Word && t[i + 2]
        == brace_open() {
        match parse_block(t, i + 3, brace_close()) {
            Ok(r) => Ok((CommandV::FunctionDef(t[i + 1]->Word_0, r.0), r.1)),
            Err(e) => Err(e),
        }
    } else if t[i] is Word && i + 3 < t.len() && t[i + 1] == TokenV::LParen && t[i + 2]
        == TokenV::RParen && t[i + 3] == brace_open() {
        match parse_block(t, i + 4, brace_close()) {
            Ok(r) => Ok((CommandV::FunctionDef(t[i]->Word_0, r.0), r.1)),
            Err(e) => Err(e),
        }
    } else if continues_simple(t[i], false) {
        let r = parse_simple(t, i, empty_simple(), false);
        Ok((CommandV::Simple(r.0), r.1))
    } else {
        Err(i)
    }
}

/// The commands of a pipeline from token `i` on, after those in `acc`.
pub open spec fn parse_pipeline(t: Seq<TokenV>, i: int, acc: Seq<CommandV>) -> Result<
    (Seq<CommandV>, int),
    int,
>
    decreases t.len() - i, 6int,
{
    if i < 0 || i > t.len() {
        Err(i)
    } else {
        match parse_command(t, i) {
            Ok(r) => if i < r.1 < t.len() && t[r.1] == TokenV::Pipe {
                parse_pipeline(t, r.1 + 1, acc.push(r.0))
            } else if i < r.1 <= t.len() {
                Ok((acc.push(r.0), r.1))
            } else {
                Err(r.1)
            },
            Err(e) => Err(e),
        }
    }
}

/// Where a pipeline may end.
pub open spec fn ends_pipeline(t: Seq<TokenV>, j: int) -> bool {
    j == t.len() || (0 <= j < t.len() && (t[j] == TokenV::Sep || is_closer(t[j])))
}

/// The pipelines from token `i` up to the end or to a closing token, after
/// those in `acc`, and the position where they stop.
pub open spec fn parse_list(t: Seq<TokenV>, i: int, acc: Seq<Seq<CommandV>>) -> Result<
    (Seq<Seq<CommandV>>, int),
    int,
>
    decreases t.len() - i, 7int,
{
    if i < 0 || i > t.len() {
        Err(i)
    } else if i == t.len() || is_closer(t[i]) {
        Ok((acc, i))
    } else if t[i] == TokenV::Sep {
        parse_list(t, i + 1, acc)
    } else {
        match parse_pipeline(t, i, Seq::empty()) {
            Ok(r) => if i < r.1 <= t.len() && ends_pipeline(t, r.1) {
                parse_list(t, r.1, acc.push(r.0))
            } else {
                Err(r.1)
            },
            Err(e) => Err(e),
        }
    }
}

/// The script that the whole token sequence spells, or the index of the
/// first token that does not fit the grammar.
pub open spec fn parse_tokens(t: Seq<TokenV>) -> Result<Seq<Seq<CommandV>>, int> {
    match parse_list(t, 0, Seq::empty()) {
        Ok(r) => if r.1 == t.len() {
            Ok(r.0)
        } else {
            Err(r.1)
        },
        Err(e) => Err(e),
    }
}

/// Why a text is not a script.
#[derive(Clone, Copy, Debug, PartialEq, Eq, Structural)]
pub enum ParseError {
    /// An unterminated quote or escape, or a lone `&`, at this character.
    Lexical(usize),
    /// A token that the grammar does not allow here (an unmatched
    /// parenthesis or brace, a missing command), by index among the tokens.
    Syntax(usize),
}

/// The script that the text `s` spells, or why it is none.
pub open spec fn parse_text(s: Seq<char>) -> Result<Seq<Seq<CommandV>>, ParseError> {
    match lex(s) {
        Ok(t) => match parse_tokens(t) {
            Ok(p) => Ok(p),
            Err(j) => Err(ParseError::Syntax(j as usize)),
        },
        Err(p) => Err(ParseError::Lexical(p as usize)),
    }
}

fn is_word_of(t: &Token, c: char) -> (r: bool)
    ensures
        r == (t@ == TokenV::Word(seq![c], true)),
{
    match t {
        Token::Word(w, bare) => {
            if *bare && w.as_str().unicode_len() == 1 && w.as_str().get_char(0) == c {
                assert(w@ =~= seq![c]);
                true
            } else {
                assert(w@.len() == 1 && *bare ==> w@[0] != c);
                false
            }
        },
        _ => false,
    }
}

fn is_function_keyword(t: &Token) -> (r: bool)
    ensures
        r == (t@ == keyword_function()),
{
    match t {
        Token::Word(w, bare) => {
            proof {
                reveal_strlit("function");
                assert("function"@ =~= seq!['f', 'u', 'n', 'c', 't', 'i', 'o', 'n']);
            }
            *bare && str_eq(w.as_str(), "function")
        },
        _ => false,
    }
}

fn is_closer_exec(t: &Token) -> (r: bool)
    ensures
        r == is_closer(t@),
{
    match t {
        Token::RParen => true,
        _ => is_word_of(t, '}'),
    }
}

fn continues_simple_exec(t: &Token, named: bool) -> (r: bool)
    ensures
        r == continues_simple(t@, named),
{
    match t {
        Token::Word(_, _) => !is_closer_exec(t) && (named || !is_word_of(t, '{')),
        _ => false,
    }
}

/// Splits an assignment word into its name and value.
fn assignment_parts(w: &String) -> (r: Option<(String, String)>)
    ensures
        match r {
            Some(p) => is_assignment(w@) && split_assignment(w@) == (p.0@, p.1@),
            None => !is_assignment(w@),
        },
{
    let cs = chars_of(w.as_str());
    let n = cs.len();
    let mut j: usize = 0;
    while j < n && is_name_char_exec(cs[j])
        invariant
            j <= n,
            n == cs@.len(),
            forall|k: int| 0 <= k < j ==> is_name_char(#[trigger] cs@[k]),
        decreases n - j,
    {
        j = j + 1;
    }
    proof {
        lemma_name_run(cs@, 0, j as int);
        assert(cs@.subrange(0, n as int) =~= cs@);
    }
    if 0 < j && j < n && cs[j] == '=' && !is_digit_exec(cs[0]) {
        Some((string_of(&cs, 0, j), string_of(&cs, j + 1, n)))
    } else {
        None
    }
}

fn push_string(v: &mut Vec<String>, s: String)
    ensures
        final(v)@.map_values(|a: String| a@) == old(v)@.map_values(|a: String| a@).push(s@),
{
    v.push(s);
    assert(v@.map_values(|a: String| a@) =~= old(v)@.map_values(|a: String| a@).push(s@));
}

fn push_pair(v: &mut Vec<(String, String)>, p: (String, String))
    ensures
        final(v)@.map_values(|a: (String, String)| (a.0@, a.1@)) == old(v)@.map_values(
            |a: (String, String)| (a.0@, a.1@),
        ).push((p.0@, p.1@)),
{
    let ghost pv = (p.0@, p.1@);
    v.push(p);
    assert(v@.map_values(|a: (String, String)| (a.0@, a.1@)) =~= old(v)@.map_values(
        |a: (String, String)| (a.0@, a.1@),
    ).push(pv));
}

fn push_command(v: &mut Vec<Command>, c: Command)
    ensures
        pipeline_view(final(v)) == pipeline_view(old(v)).push(command_view(&c)),
{
    let ghost cv = command_view(&c);
    v.push(c);
    assert(pipeline_view(v) =~= pipeline_view(old(v)).push(cv));
}

fn push_pipeline(v: &mut Vec<Vec<Command>>, p: Vec<Command>)
    ensures
        script_view(final(v)) == script_view(old(v)).push(pipeline_view(&p)),
{
    let ghost pv = pipeline_view(&p);
    v.push(p);
    assert(script_view(v) =~= script_view(old(v)).push(pv));
}

fn simple_at(t: &Vec<Token>, i0: usize) -> (r: (SimpleCommand, usize))
    requires
        i0 <= t@.len(),
    ensures
        (r.0@, r.1 as int) == parse_simple(tokens_view(t@), i0 as int, empty_simple(), false),
{
    let ghost tv = tokens_view(t@);
    let mut acc = SimpleCommand { name: String::new(), args: Vec::new(), assignments: Vec::new() };
    let mut named = false;
    let mut i = i0;
    proof {
        assert(acc.args@.map_values(|a: String| a@) =~= Seq::<Seq<char>>::empty());
        assert(acc.assignments@.map_values(|a: (String, String)| (a.0@, a.1@)) =~= Seq::<
            (Seq<char>, Seq<char>),
        >::empty());
        assert(acc.name@ =~= Seq::<char>::empty());
    }
    while i < t.len() && continues_simple_exec(&t[i], named)
        invariant
            tv == tokens_view(t@),
            i0 <= i <= t@.len(),
            parse_simple(tv, i as int, acc@, named) == parse_simple(
                tv,
                i0 as int,
                empty_simple(),
                false,
            ),
        decreases t@.len() - i,
    {
        match &t[i] {
            Token::Word(w, _) => {
                let ghost before = acc@;
                if !named {
                    match assignment_parts(w) {
                        Some(p) => {
                            push_pair(&mut acc.assignments, p);
                            assert(acc@ =~= SimpleCommandV {
                                assignments: before.assignments.push(split_assignment(w@)),
                                ..before
                            });
                        },
                        None => {
                            acc.name = w.clone();
                            named = true;
                            assert(acc@ =~= SimpleCommandV { name: w@, ..before });
                        },
                    }
                } else {
                    push_string(&mut acc.args, w.clone());
                    assert(acc@ =~= SimpleCommandV { args: before.args.push(w@), ..before });
                }
            },
            _ => {},
        }
        i = i + 1;
    }
    (acc, i)
}

pub open spec fn block_view(r: Result<(Vec<Vec<Command>>, usize), usize>) -> Result<
    (Seq<Seq<CommandV>>, int),
    int,
> {
    match r {
        Ok(p) => Ok((script_view(&p.0), p.1 as int)),
        Err(e) => Err(e as int),
    }
}

fn block_at(t: &Vec<Token>, i: usize, closer: &Token) -> (r: Result<(Vec<Vec<Command>>, usize), usize>)
    requires
        i <= t@.len(),
    ensures
        block_view(r) == parse_block(tokens_view(t@), i as int, closer@),
    decreases t@.len() - i, 8int,
{
    match list_at(t, i) {
        Ok((body, j)) => {
            if j < t.len() && same_token(&t[j], closer) {
                Ok((body, j + 1))
            } else {
                Err(j)
            }
        },
        Err(e) => Err(e),
    }
}

fn same_token(a: &Token, b: &Token) -> (r: bool)
    ensures
        r == (a@ == b@),
{
    match (a, b) {
        (Token::Word(x, p), Token::Word(y, q)) => *p == *q && str_eq(x.as_str(), y.as_str()),
        (Token::Pipe, Token::Pipe) => true,
        (Token::Sep, Token::Sep) => true,
        (Token::LParen, Token::LParen) => true,
        (Token::RParen, Token::RParen) => true,
        _ => false,
    }
}

pub open spec fn command_res_view(r: Result<(Command, usize), usize>) -> Result<(CommandV, int), int> {
    match r {
        Ok(p) => Ok((command_view(&p.0), p.1 as int)),
        Err(e) => Err(e as int),
    }
}

fn word_text(t: &Token) -> (r: String)
    requires
        t@ is Word,
    ensures
        r@ == t@->Word_0,
{
    match t {
        Token::Word(w, _) => w.clone(),
        _ => String::new(),
    }
}

fn command_at(t: &Vec<Token>, i: usize) -> (r: Result<(Command, usize), usize>)
    requires
        i <= t@.len(),
    ensures
        command_res_view(r) == parse_command(tokens_view(t@), i as int),
    decreases t@.len() - i, 5int,
{
    let ghost tv = tokens_view(t@);
    if i >= t.len() {
        return Err(i);
    }
    let is_word = match &t[i] {
        Token::Word(_, _) => true,
        _ => false,
    };
    let lbrace = Token::Word(String::from_str("{"), true);
    let rbrace = Token::Word(String::from_str("}"), true);
    proof {
        reveal_strlit("{");
        reveal_strlit("}");
        assert("{"@ =~= seq!['{']);
        assert("}"@ =~= seq!['}']);
    }
    if same_token(&t[i], &Token::LParen) {
        match block_at(t, i + 1, &Token::RParen) {
            Ok((body, j)) => Ok((Command::Subshell(body), j)),
            Err(e) => Err(e),
        }
    } else if is_function_keyword(&t[i]) && t.len() - i > 2 && match &t[i + 1] {
        Token::Word(_, _) => true,
        _ => false,
    } && same_token(&t[i + 2], &lbrace) {
        match block_at(t, i + 3, &rbrace) {
            Ok((body, j)) => Ok((Command::FunctionDef(word_text(&t[i + 1]), body), j)),
            Err(e) => Err(e),
        }
    } else if is_word && t.len() - i > 3 && same_token(&t[i + 1], &Token::LParen) && same_token(
        &t[i + 2],
        &Token::RParen,
    ) && same_token(&t[i + 3], &lbrace) {
        match block_at(t, i + 4, &rbrace) {
            Ok((body, j)) => Ok((Command::FunctionDef(word_text(&t[i]), body), j)),
            Err(e) => Err(e),
        }
    } else if continues_simple_exec(&t[i], false) {
        let (c, j) = simple_at(t, i);
        Ok((Command::Simple(c), j))
    } else {
        Err(i)
    }
}

pub open spec fn pipeline_res_view(r: Result<(Vec<Command>, usize), usize>) -> Result<
    (Seq<CommandV>, int),
    int,
> {
    match r {
        Ok(p) => Ok((pipeline_view(&p.0), p.1 as int)),
        Err(e) => Err(e as int),
    }
}

fn pipeline_at(t: &Vec<Token>, i0: usize) -> (r: Result<(Vec<Command>, usize), usize>)
    requires
        i0 <= t@.len(),
    ensures
        pipeline_res_view(r) == parse_pipeline(tokens_view(t@), i0 as int, Seq::empty()),
    decreases t@.len() - i0, 6int,
{
    let ghost tv = tokens_view(t@);
    let mut acc: Vec<Command> = Vec::new();
    let mut i = i0;
    proof {
        assert(pipeline_view(&acc) =~= Seq::<CommandV>::empty());
    }
    loop
        invariant
            tv == tokens_view(t@),
            i0 <= i <= t@.len(),
            parse_pipeline(tv, i as int, pipeline_view(&acc)) == parse_pipeline(
                tv,
                i0 as int,
                Seq::empty(),
            ),
        decreases t@.len() - i,
    {
        match command_at(t, i) {
            Ok((c, j)) => {
                if i < j && j < t.len() && same_token(&t[j], &Token::Pipe) {
                    push_command(&mut acc, c);
                    i = j + 1;
                } else if i < j && j <= t.len() {
                    push_command(&mut acc, c);
                    return Ok((acc, j));
                } else {
                    return Err(j);
                }
            },
            Err(e) => {
                return Err(e);
            },
        }
    }
}

fn list_at(t: &Vec<Token>, i0: usize) -> (r: Result<(Vec<Vec<Command>>, usize), usize>)
    requires
        i0 <= t@.len(),
    ensures
        block_view(r) == parse_list(tokens_view(t@), i0 as int, Seq::empty()),
    decreases t@.len() - i0, 7int,
{
    let ghost tv = tokens_view(t@);
    let mut acc: Vec<Vec<Command>> = Vec::new();
    let mut i = i0;
    proof {
        assert(script_view(&acc) =~= Seq::<Seq<CommandV>>::empty());
    }
    loop
        invariant
            tv == tokens_view(t@),
            i0 <= i <= t@.len(),
            parse_list(tv, i as int, script_view(&acc)) == parse_list(tv, i0 as int, Seq::empty()),
        decreases t@.len() - i,
    {
        if i == t.len() || is_closer_exec(&t[i]) {
            return Ok((acc, i));
        }
        if same_token(&t[i], &Token::Sep) {
            i = i + 1;
        } else {
            match pipeline_at(t, i) {
                Ok((p, j)) => {
                    if i < j && j <= t.len() && (j == t.len() || same_token(&t[j], &Token::Sep)
                        || is_closer_exec(&t[j])) {
                        push_pipeline(&mut acc, p);
                        i = j;
                    } else {
                        return Err(j);
                    }
                },
                Err(e) => {
                    return Err(e);
                },
            }
        }
    }
}

pub open spec fn script_res_view(r: Result<Vec<Vec<Command>>, ParseError>) -> Result<
    Seq<Seq<CommandV>>,
    ParseError,
> {
    match r {
        Ok(p) => Ok(script_view(&p)),
        Err(e) => Err(e),
    }
}

impl Command {
    /// Parses a script: every pipeline of `input`, in order. Nothing is
    /// returned but the error when any part of the text does not parse.
    pub fn parse_script(input: &str) -> (r: Result<Vec<Vec<Command>>, ParseError>)
        ensures
            script_res_view(r) == parse_text(input@),
    {
        match tokenize(input) {
            Err(p) => Err(ParseError::Lexical(p)),
            Ok(toks) => match list_at(&toks, 0) {
                Ok((script, j)) => {
                    if j == toks.len() {
                        Ok(script)
                    } else {
                        Err(ParseError::Syntax(j))
                    }
                },
                Err(j) => Err(ParseError::Syntax(j)),
            },
        }
    }

    /// The first pipeline of `input`, when the whole text parses and holds
    /// at least one.
    pub fn parse_pipeline(input: &str) -> (r: Option<Vec<Command>>)
        ensures
            match r {
                Some(p) => parse_text(input@) is Ok && parse_text(input@)->Ok_0.len() > 0
                    && pipeline_view(&p) == parse_text(input@)->Ok_0[0],
                None => !(parse_text(input@) is Ok && parse_text(input@)->Ok_0.len() > 0),
            },
    {
        match Command::parse_script(input) {
            Ok(mut script) => {
                if script.len() == 0 {
                    None
                } else {
                    let ghost sv = script_view(&script);
                    let first = script.swap_remove(0);
                    assert(pipeline_view(&first) == sv[0]);
                    Some(first)
                }
            },
            Err(_) => None,
        }
    }
}

impl SimpleCommand {
    /// The simple command that `input` consists of: `None` unless the text
    /// parses as one pipeline of one simple command.
    pub fn parse(input: &str) -> (r: Option<SimpleCommand>)
        ensures
            match r {
                Some(c) => parse_text(input@) == Ok::<Seq<Seq<CommandV>>, ParseError>(
                    seq![seq![CommandV::Simple(c@)]],
                ),
                None => !(exists|c: SimpleCommandV| parse_text(input@)
                    == Ok::<Seq<Seq<CommandV>>, ParseError>(seq![seq![CommandV::Simple(c)]])),
            },
    {
        match Command::parse_script(input) {
            Ok(mut script) => {
                let ghost sv = script_view(&script);
                if script.len() == 1 && script[0].len() == 1 {
                    let mut p = script.swap_remove(0);
                    assert(pipeline_view(&p) == sv[0]);
                    let ghost pv = pipeline_view(&p);
                    let c = p.swap_remove(0);
                    assert(command_view(&c) == pv[0]);
                    match c {
                        Command::Simple(s) => {
                            assert(sv[0] =~= seq![CommandV::Simple(s@)]);
                            assert(sv =~= seq![seq![CommandV::Simple(s@)]]);
                            Some(s)
                        },
                        _ => {
                            assert(!(sv[0][0] is Simple));
                            None
                        },
                    }
                } else {
                    assert(sv.len() != 1 || sv[0].len() != 1);
                    None
                }
            },
            Err(_) => None,
        }
    }
}

/// The texts of a sequence of word tokens.
pub open spec fn word_texts(t: Seq<TokenV>) -> Seq<Seq<char>> {
    t.map_values(|x: TokenV| x->Word_0)
}

/// Word tokens that are neither `{` nor `}` standing alone.
pub open spec fn plain_words(t: Seq<TokenV>) -> bool {
    forall|k: int|
        0 <= k < t.len() ==> (#[trigger] t[k]) is Word && t[k] != brace_open() && t[k]
            != brace_close()
}

proof fn lemma_arguments_in_order(t: Seq<TokenV>, i: int, acc: SimpleCommandV)
    requires
        0 <= i <= t.len(),
        plain_words(t),
    ensures
        parse_simple(t, i, acc, true) == (
            SimpleCommandV { args: acc.args + word_texts(t).subrange(i, t.len() as int), ..acc },
            t.len() as int,
        ),
    decreases t.len() - i,
{
    if i < t.len() {
        let next = SimpleCommandV { args: acc.args.push(t[i]->Word_0), ..acc };
        lemma_arguments_in_order(t, i + 1, next);
        assert(acc.args + word_texts(t).subrange(i, t.len() as int) =~= next.args + word_texts(
            t,
        ).subrange(i + 1, t.len() as int));
    } else {
        assert(acc.args + word_texts(t).subrange(i, t.len() as int) =~= acc.args);
    }
}

/// Text that scans into plain words alone, the first of them no
/// assignment, parses as one simple command: the first word is its name and
/// the others are its arguments, in the order in which they were written.
pub proof fn lemma_words_keep_order(s: Seq<char>, t: Seq<TokenV>)
    requires
        lex(s) == Ok::<Seq<TokenV>, int>(t),
        t.len() > 0,
        plain_words(t),
        !is_assignment(t[0]->Word_0),
    ensures
        parse_text(s) == Ok::<Seq<Seq<CommandV>>, ParseError>(
            seq![
                seq![
                    CommandV::Simple(
                        SimpleCommandV {
                            name: word_texts(t)[0],
                            args: word_texts(t).drop_first(),
                            assignments: Seq::empty(),
                        },
                    ),
                ],
            ],
        ),
{
    let named = SimpleCommandV { name: t[0]->Word_0, ..empty_simple() };
    lemma_arguments_in_order(t, 1, named);
    assert(Seq::<Seq<char>>::empty() + word_texts(t).subrange(1, t.len() as int) =~= word_texts(
        t,
    ).drop_first());
    assert(t[0] != keyword_function() || t[2] != brace_open() || t.len() <= 2);
    let c = CommandV::Simple(
        SimpleCommandV {
            name: word_texts(t)[0],
            args: word_texts(t).drop_first(),
            assignments: Seq::empty(),
        },
    );
    assert(parse_command(t, 0) == Ok::<(CommandV, int), int>((c, t.len() as int)));
    assert(parse_pipeline(t, 0, Seq::empty()) == Ok::<(Seq<CommandV>, int), int>(
        (seq![c], t.len() as int),
    )) by {
        assert(Seq::<CommandV>::empty().push(c) =~= seq![c]);
    }
    assert(parse_list(t, t.len() as int, seq![seq![c]]) == Ok::<(Seq<Seq<CommandV>>, int), int>(
        (seq![seq![c]], t.len() as int),
    ));
    assert(Seq::<Seq<CommandV>>::empty().push(seq![c]) =~= seq![seq![c]]);
}

/// The assignments that a run of assignment words spells.
pub open spec fn assignments_of(t: Seq<TokenV>) -> Seq<(Seq<char>, Seq<char>)> {
    t.map_values(|x: TokenV| split_assignment(x->Word_0))
}

proof fn lemma_simple_named(t: Seq<TokenV>, i: int, acc: SimpleCommandV)
    requires
        0 <= i <= t.len(),
    ensures
        ({
            let (r, j) = parse_simple(t, i, acc, true);
            &&& i <= j <= t.len()
            &&& forall|k: int| i <= k < j ==> (#[trigger] t[k]) is Word
            &&& r == SimpleCommandV { args: acc.args + word_texts(t.subrange(i, j)), ..acc }
        }),
    decreases t.len() - i,
{
    if i < t.len() && continues_simple(t[i], true) {
        let next = SimpleCommandV { args: acc.args.push(t[i]->Word_0), ..acc };
        lemma_simple_named(t, i + 1, next);
        let j = parse_simple(t, i, acc, true).1;
        assert(acc.args + word_texts(t.subrange(i, j)) =~= next.args + word_texts(t.subrange(i + 1, j)));
    } else {
        assert(acc.args + word_texts(t.subrange(i, i)) =~= acc.args);
    }
}

proof fn lemma_simple_unnamed(t: Seq<TokenV>, i: int, acc: SimpleCommandV)
    requires
        0 <= i <= t.len(),
    ensures
        ({
            let (r, j) = parse_simple(t, i, acc, false);
            exists|k: int|
                {
                    &&& i <= k <= j <= t.len()
                    &&& forall|m: int| i <= m < j ==> (#[trigger] t[m]) is Word
                    &&& r.assignments == acc.assignments + assignments_of(t.subrange(i, k))
                    &&& if k < j {
                        r.name == t[k]->Word_0 && r.args == acc.args + word_texts(t.subrange(k + 1, j))
                    } else {
                        r.name == acc.name && r.args == acc.args
                    }
                }
        }),
    decreases t.len() - i,
{
    let (r, j) = parse_simple(t, i, acc, false);
    if i < t.len() && continues_simple(t[i], false) {
        let w = t[i]->Word_0;
        if is_assignment(w) {
            let next = SimpleCommandV { assignments: acc.assignments.push(split_assignment(w)), ..acc };
            lemma_simple_unnamed(t, i + 1, next);
            let k = choose|k: int|
                {
                    &&& i + 1 <= k <= j <= t.len()
                    &&& forall|m: int| i + 1 <= m < j ==> (#[trigger] t[m]) is Word
                    &&& r.assignments == next.assignments + assignments_of(t.subrange(i + 1, k))
                    &&& if k < j {
                        r.name == t[k]->Word_0 && r.args == next.args + word_texts(t.subrange(k + 1, j))
                    } else {
                        r.name == next.name && r.args == next.args
                    }
                };
            assert(acc.assignments + assignments_of(t.subrange(i, k)) =~= next.assignments
                + assignments_of(t.subrange(i + 1, k)));
            assert(forall|m: int| i <= m < j ==> (#[trigger] t[m]) is Word);
        } else {
            let next = SimpleCommandV { name: w, ..acc };
            lemma_simple_named(t, i + 1, next);
            assert(acc.assignments + assignments_of(t.subrange(i, i)) =~= acc.assignments);
            assert(forall|m: int| i <= m < j ==> (#[trigger] t[m]) is Word);
            assert(r.args == acc.args + word_texts(t.subrange(i + 1, j)));
        }
    } else {
        assert(acc.assignments + assignments_of(t.subrange(i, i)) =~= acc.assignments);
    }
}

/// Wherever a simple command stands in a parsed script (the grammar reads
/// every simple command with `parse_simple`), it is a run of word tokens
/// read in order: first its assignment words, then its name, then its
/// arguments, each argument the next word to the right.
pub proof fn lemma_simple_command_words(t: Seq<TokenV>, i: int)
    requires
        0 <= i <= t.len(),
    ensures
        ({
            let (r, j) = parse_simple(t, i, empty_simple(), false);
            exists|k: int|
                {
                    &&& i <= k <= j <= t.len()
                    &&& forall|m: int| i <= m < j ==> (#[trigger] t[m]) is Word
                    &&& r.assignments == assignments_of(t.subrange(i, k))
                    &&& if k < j {
                        r.name == t[k]->Word_0 && r.args == word_texts(t.subrange(k + 1, j))
                    } else {
                        r.name.len() == 0 && r.args.len() == 0
                    }
                }
        }),
{
    lemma_simple_unnamed(t, i, empty_simple());
    let (r, j) = parse_simple(t, i, empty_simple(), false);
    let k = choose|k: int|
        {
            &&& i <= k <= j <= t.len()
            &&& forall|m: int| i <= m < j ==> (#[trigger] t[m]) is Word
            &&& r.assignments == empty_simple().assignments + assignments_of(t.subrange(i, k))
            &&& if k < j {
                r.name == t[k]->Word_0 && r.args == empty_simple().args + word_texts(t.subrange(k + 1, j))
            } else {
                r.name == empty_simple().name && r.args == empty_simple().args
            }
        };
    assert(empty_simple().assignments + assignments_of(t.subrange(i, k)) =~= assignments_of(t.subrange(i, k)));
    if k < j {
        assert(empty_simple().args + word_texts(t.subrange(k + 1, j)) =~= word_texts(t.subrange(k + 1, j)));
    }
}

} // verus!
