//! Splitting command text into words and operators.
use vstd::prelude::*;
use crate::text::{chars_of, push_char};

verus! {

/// A token of command text.
pub enum Token {
    /// A word as written, quotes and escapes included (they are removed when
    /// the word is expanded); `true` when no part of it was quoted or
    /// escaped (only such a word can be a reserved word).
    Word(String, bool),
    /// `|`
    Pipe,
    /// `;`, a newline, `&&` or `||`: statements run one after the other.
    Sep,
    /// `(`
    LParen,
    /// `)`
    RParen,
}

pub ghost enum TokenV {
    Word(Seq<char>, bool),
    Pipe,
    Sep,
    LParen,
    RParen,
}

impl View for Token {
    type V = TokenV;

    open spec fn view(&self) -> TokenV {
        match self {
            Token::Word(w, bare) => TokenV::Word(w@, *bare),
            Token::Pipe => TokenV::Pipe,
            Token::Sep => TokenV::Sep,
            Token::LParen => TokenV::LParen,
            Token::RParen => TokenV::RParen,
        }
    }
}

/// Where the scanner stands with respect to quoting.
#[derive(PartialEq, Eq, Structural, Clone, Copy)]
pub enum LexMode {
    Plain,
    Single,
    Double,
    Escape,
    DoubleEscape,
    Comment,
}

/// What the scanner has gathered so far.
pub ghost struct LexState {
    pub toks: Seq<TokenV>,
    pub word: Seq<char>,
    pub in_word: bool,
    pub bare: bool,
    pub mode: LexMode,
}

pub open spec fn initial_state() -> LexState {
    LexState { toks: Seq::empty(), word: Seq::empty(), in_word: false, bare: true, mode: LexMode::Plain }
}

/// Ends the word being gathered, if any.
pub open spec fn flush(st: LexState) -> LexState {
    if st.in_word {
        LexState {
            toks: st.toks.push(TokenV::Word(st.word, st.bare)),
            word: Seq::empty(),
            in_word: false,
            bare: true,
            mode: st.mode,
        }
    } else {
        st
    }
}

/// Adds `c` to the word being gathered; `quoted` marks the word as quoted.
pub open spec fn add_char(st: LexState, c: char, quoted: bool, mode: LexMode) -> LexState {
    LexState {
        toks: st.toks,
        word: st.word.push(c),
        in_word: true,
        bare: st.bare && !quoted,
        mode,
    }
}

/// Starts a quoted part of a word.
pub open spec fn open_quote(st: LexState, c: char, mode: LexMode) -> LexState {
    LexState { toks: st.toks, word: st.word.push(c), in_word: true, bare: false, mode }
}

pub open spec fn set_mode(st: LexState, mode: LexMode) -> LexState {
    LexState { toks: st.toks, word: st.word, in_word: st.in_word, bare: st.bare, mode }
}

/// Ends the current word and appends the operator `t`.
pub open spec fn operator(st: LexState, t: TokenV) -> LexState {
    let f = flush(st);
    LexState { toks: f.toks.push(t), word: f.word, in_word: f.in_word, bare: f.bare, mode: f.mode }
}

pub open spec fn is_blank(c: char) -> bool {
    c == ' ' || c == '\t' || c == '\r'
}

/// The tokens of `s[i..]` scanned from state `st`, or the position of the
/// first character that cannot be scanned (for an unterminated quote or
/// escape, the end of the text).
pub open spec fn lex_from(s: Seq<char>, i: int, st: LexState) -> Result<Seq<TokenV>, int>
    decreases s.len() - i,
{
    if i < 0 || i >= s.len() {
        if st.mode == LexMode::Plain || st.mode == LexMode::Comment {
            Ok(flush(st).toks)
        } else {
            Err(s.len() as int)
        }
    } else {
        let c = s[i];
        match st.mode {
            LexMode::Single => {
                if c == '\'' {
                    lex_from(s, i + 1, add_char(st, c, true, LexMode::Plain))
                } else {
                    lex_from(s, i + 1, add_char(st, c, true, LexMode::Single))
                }
            },
            LexMode::Double => {
                if c == '"' {
                    lex_from(s, i + 1, add_char(st, c, true, LexMode::Plain))
                } else if c == '\\' {
                    lex_from(s, i + 1, add_char(st, c, true, LexMode::DoubleEscape))
                } else {
                    lex_from(s, i + 1, add_char(st, c, true, LexMode::Double))
                }
            },
            LexMode::DoubleEscape => lex_from(s, i + 1, add_char(st, c, true, LexMode::Double)),
            LexMode::Escape => lex_from(s, i + 1, add_char(st, c, true, LexMode::Plain)),
            LexMode::Comment => {
                if c == '\n' {
                    lex_from(s, i + 1, operator(set_mode(st, LexMode::Plain), TokenV::Sep))
                } else {
                    lex_from(s, i + 1, st)
                }
            },
            LexMode::Plain => {
                if is_blank(c) {
                    lex_from(s, i + 1, flush(st))
                } else if c == '\n' || c == ';' {
                    lex_from(s, i + 1, operator(st, TokenV::Sep))
                } else if c == '|' {
                    if i + 1 < s.len() && s[i + 1] == '|' {
                        lex_from(s, i + 2, operator(st, TokenV::Sep))
                    } else {
                        lex_from(s, i + 1, operator(st, TokenV::Pipe))
                    }
                } else if c == '&' {
                    if i + 1 < s.len() && s[i + 1] == '&' {
                        lex_from(s, i + 2, operator(st, TokenV::Sep))
                    } else {
                        Err(i)
                    }
                } else if c == '(' {
                    lex_from(s, i + 1, operator(st, TokenV::LParen))
                } else if c == ')' {
                    lex_from(s, i + 1, operator(st, TokenV::RParen))
                } else if c == '\'' {
                    lex_from(s, i + 1, open_quote(st, c, LexMode::Single))
                } else if c == '"' {
                    lex_from(s, i + 1, open_quote(st, c, LexMode::Double))
                } else if c == '\\' {
                    lex_from(s, i + 1, open_quote(st, c, LexMode::Escape))
                } else if c == '#' && !st.in_word {
                    lex_from(s, i + 1, set_mode(st, LexMode::Comment))
                } else {
                    lex_from(s, i + 1, add_char(st, c, false, LexMode::Plain))
                }
            },
        }
    }
}

/// The tokens of `s`.
pub open spec fn lex(s: Seq<char>) -> Result<Seq<TokenV>, int> {
    lex_from(s, 0, initial_state())
}

pub open spec fn tokens_view(v: Seq<Token>) -> Seq<TokenV> {
    v.map_values(|t: Token| t@)
}

fn push_token(toks: &mut Vec<Token>, t: Token)
    ensures
        tokens_view(final(toks)@) == tokens_view(old(toks)@).push(t@),
{
    toks.push(t);
    assert(tokens_view(toks@) =~= tokens_view(old(toks)@).push(t@));
}

/// Scans `input` into tokens; on failure, the position (in characters) of
/// the first character that cannot be scanned.
pub fn tokenize(input: &str) -> (r: Result<Vec<Token>, usize>)
    ensures
        match r {
            Ok(toks) => lex(input@) == Ok::<Seq<TokenV>, int>(tokens_view(toks@)),
            Err(p) => lex(input@) == Err::<Seq<TokenV>, int>(p as int),
        },
{
    let cs = chars_of(input);
    let n = cs.len();
    let mut toks: Vec<Token> = Vec::new();
    let mut word = String::new();
    let mut in_word = false;
    let mut bare = true;
    let mut mode = LexMode::Plain;
    let mut i: usize = 0;
    proof {
        assert(tokens_view(toks@) =~= Seq::<TokenV>::empty());
        assert(word@ =~= Seq::<char>::empty());
    }
    while i < n
        invariant
            n == cs@.len(),
            cs@ == input@,
            i <= n,
            lex_from(
                cs@,
                i as int,
                LexState { toks: tokens_view(toks@), word: word@, in_word, bare, mode },
            ) == lex(input@),
        decreases n - i,
    {
        let ghost st = LexState { toks: tokens_view(toks@), word: word@, in_word, bare, mode };
        let c = cs[i];
        let mut step: usize = 1;
        // Which operator, if any, ends the current word: 1 `Sep`, 2 `Pipe`,
        // 3 `(`, 4 `)`.
        let mut op: u8 = 0;
        match mode {
            LexMode::Single => {
                push_char(&mut word, c);
                in_word = true;
                bare = false;
                if c == '\'' {
                    mode = LexMode::Plain;
                }
            },
            LexMode::Double => {
                push_char(&mut word, c);
                in_word = true;
                bare = false;
                if c == '"' {
                    mode = LexMode::Plain;
                } else if c == '\\' {
                    mode = LexMode::DoubleEscape;
                }
            },
            LexMode::DoubleEscape => {
                push_char(&mut word, c);
                in_word = true;
                bare = false;
                mode = LexMode::Double;
            },
            LexMode::Escape => {
                push_char(&mut word, c);
                in_word = true;
                bare = false;
                mode = LexMode::Plain;
            },
            LexMode::Comment => {
                if c == '\n' {
                    mode = LexMode::Plain;
                    op = 1;
                }
            },
            LexMode::Plain => {
                if c == ' ' || c == '\t' || c == '\r' {
                    if in_word {
                        push_token(&mut toks, Token::Word(word, bare));
                        word = String::new();
                        in_word = false;
                        bare = true;
                    }
                } else if c == '\n' || c == ';' {
                    op = 1;
                } else if c == '|' {
                    if i + 1 < n && cs[i + 1] == '|' {
                        op = 1;
                        step = 2;
                    } else {
                        op = 2;
                    }
                } else if c == '&' {
                    if i + 1 < n && cs[i + 1] == '&' {
                        op = 1;
                        step = 2;
                    } else {
                        return Err(i);
                    }
                } else if c == '(' {
                    op = 3;
                } else if c == ')' {
                    op = 4;
                } else if c == '\'' {
                    push_char(&mut word, c);
                    in_word = true;
                    bare = false;
                    mode = LexMode::Single;
                } else if c == '"' {
                    push_char(&mut word, c);
                    in_word = true;
                    bare = false;
                    mode = LexMode::Double;
                } else if c == '\\' {
                    push_char(&mut word, c);
                    in_word = true;
                    bare = false;
                    mode = LexMode::Escape;
                } else if c == '#' && !in_word {
                    mode = LexMode::Comment;
                } else {
                    push_char(&mut word, c);
                    in_word = true;
                }
            },
        }
        if op != 0 {
            if in_word {
                push_token(&mut toks, Token::Word(word, bare));
                word = String::new();
                in_word = false;
                bare = true;
            }
            if op == 1 {
                push_token(&mut toks, Token::Sep);
            } else if op == 2 {
                push_token(&mut toks, Token::Pipe);
            } else if op == 3 {
                push_token(&mut toks, Token::LParen);
            } else {
                push_token(&mut toks, Token::RParen);
            }
        }
        i = i + step;
    }
    if mode == LexMode::Plain || mode == LexMode::Comment {
        if in_word {
            push_token(&mut toks, Token::Word(word, bare));
        }
        Ok(toks)
    } else {
        Err(n)
    }
}

} // verus!
