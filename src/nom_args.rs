//! Commands, their arguments, parse errors, and the parser's driver.
use vstd::prelude::*;
use crate::grammar::{
    ArgView, CommandView, ErrorView, further, fold_error, parse_loop, spec_parse, spec_ident,
    lemma_ident_bounds, lemma_spaces_bounds, lemma_key_value_bounds, lemma_value_bounds,
};
use crate::scan::{expect_ident, expect_spaces, expect_rest, expect_key_value, expect_value};
use crate::text::{chars_of, push_char, debug_text, text_debug};

verus! {

/// An argument: positional, or a keyword with its value.
#[derive(Debug, PartialEq, Eq)]
pub enum Arg {
    Pos(String),
    Kw(String, String),
}

impl View for Arg {
    type V = ArgView;

    open spec fn view(&self) -> ArgView {
        match self {
            Arg::Pos(v) => ArgView::Pos(v@),
            Arg::Kw(k, v) => ArgView::Kw(k@, v@),
        }
    }
}

/// A parsed command line: the name, the arguments in input order, and the
/// rest region (empty where the line has none).
#[derive(Debug, PartialEq, Eq)]
pub struct Command {
    pub name: String,
    pub args: Vec<Arg>,
    pub rest: String,
}

pub open spec fn args_view(args: Seq<Arg>) -> Seq<ArgView> {
    args.map_values(|a: Arg| a@)
}

impl View for Command {
    type V = CommandView;

    open spec fn view(&self) -> CommandView {
        CommandView { name: self.name@, args: args_view(self.args@), rest: self.rest@ }
    }
}

impl Command {
    pub fn new(name: String, args: Vec<Arg>, rest: String) -> (r: Self)
        ensures
            r.name == name,
            r.args == args,
            r.rest == rest,
    {
        Self { name, args, rest }
    }

    /// The reply sent when no handler answers to this command's name.
    pub fn unknown_reply(&self) -> (r: String)
        ensures
            r@ == "```\nCommand "@ + text_debug(self.name@) + " does not exist\n```"@,
    {
        let mut r = String::from_str("```\nCommand ");
        let shown = debug_text(self.name.as_str());
        r.append(shown.as_str());
        r.append(" does not exist\n```");
        r
    }
}

/// The decimal digit for `d`.
pub open spec fn digit(d: nat) -> char {
    if d == 0 {
        '0'
    } else if d == 1 {
        '1'
    } else if d == 2 {
        '2'
    } else if d == 3 {
        '3'
    } else if d == 4 {
        '4'
    } else if d == 5 {
        '5'
    } else if d == 6 {
        '6'
    } else if d == 7 {
        '7'
    } else if d == 8 {
        '8'
    } else {
        '9'
    }
}

/// `n` written in decimal, without leading zeros.
pub open spec fn decimal(n: nat) -> Seq<char>
    decreases n,
{
    if n < 10 {
        seq![digit(n)]
    } else {
        decimal(n / 10).push(digit(n % 10))
    }
}

fn digit_char(d: usize) -> (r: char)
    requires
        d < 10,
    ensures
        r == digit(d as nat),
{
    if d == 0 {
        '0'
    } else if d == 1 {
        '1'
    } else if d == 2 {
        '2'
    } else if d == 3 {
        '3'
    } else if d == 4 {
        '4'
    } else if d == 5 {
        '5'
    } else if d == 6 {
        '6'
    } else if d == 7 {
        '7'
    } else if d == 8 {
        '8'
    } else {
        '9'
    }
}

/// `n` written in decimal.
fn decimal_text(n: usize) -> (r: String)
    ensures
        r@ == decimal(n as nat),
    decreases n,
{
    if n < 10 {
        let mut r = String::new();
        push_char(&mut r, digit_char(n));
        r
    } else {
        let mut r = decimal_text(n / 10);
        push_char(&mut r, digit_char(n % 10));
        r
    }
}

/// Why a line does not parse, and the character position where that was
/// found.
#[derive(Debug, PartialEq, Eq)]
pub struct ParseError {
    loc: usize,
    why: String,
}

impl View for ParseError {
    type V = ErrorView;

    closed spec fn view(&self) -> ErrorView {
        ErrorView { loc: self.loc as int, why: self.why@ }
    }
}

impl ParseError {
    pub fn new(loc: usize, why: String) -> (r: Self)
        ensures
            r@ == (ErrorView { loc: loc as int, why: why@ }),
    {
        Self { loc, why }
    }

    /// Keeps the error that made more progress; on a tie, `other`.
    pub fn max_by_loc(self, other: Self) -> (r: Self)
        ensures
            r@ == further(self@, other@),
            r == self || r == other,
    {
        if self.loc > other.loc {
            self
        } else {
            other
        }
    }

    pub fn loc(&self) -> (r: usize)
        ensures
            r as int == self@.loc,
    {
        self.loc
    }

    pub fn why(&self) -> (r: &String)
        ensures
            r@ == self@.why,
    {
        &self.why
    }

    /// The error as a sentence: its position, then what went wrong.
    pub fn message(&self) -> (r: String)
        ensures
            r@ == "At position "@ + decimal(self@.loc as nat) + " after prefix: "@ + self@.why,
    {
        let mut r = String::from_str("At position ");
        let digits = decimal_text(self.loc);
        r.append(digits.as_str());
        r.append(" after prefix: ");
        r.append(self.why.as_str());
        r
    }

    /// The reply sent for a line that does not parse: the message in a
    /// code block.
    pub fn reply(&self) -> (r: String)
        ensures
            r@ == "```\n"@ + "At position "@ + decimal(self@.loc as nat) + " after prefix: "@
                + self@.why + "\n```"@,
    {
        let mut r = String::from_str("```\n");
        let m = self.message();
        r.append(m.as_str());
        r.append("\n```");
        r
    }
}

pub open spec fn best_view(best: Option<ParseError>) -> Option<ErrorView> {
    match best {
        Some(m) => Some(m@),
        None => None,
    }
}

fn fold_best(best: Option<ParseError>, e: ParseError) -> (r: ParseError)
    ensures
        r@ == fold_error(best_view(best), e@),
{
    match best {
        Some(m) => m.max_by_loc(e),
        None => e,
    }
}

/// Parses one command line (with any prefix already removed).
pub fn parse(s: &str) -> (r: Result<Command, ParseError>)
    ensures
        match r {
            Ok(c) => spec_parse(s@) == Ok::<CommandView, ErrorView>(c@),
            Err(e) => spec_parse(s@) == Err::<CommandView, ErrorView>(e@),
        },
{
    let cs = chars_of(s);
    proof {
        lemma_ident_bounds(cs@, 0);
    }
    let (name, mut i) = match expect_ident(&cs, 0) {
        Ok(x) => x,
        Err(e) => return Err(e),
    };
    let ghost start = i as int;
    let mut args: Vec<Arg> = Vec::new();
    let mut best: Option<ParseError> = None;
    assert(args_view(args@) =~= Seq::<ArgView>::empty());
    loop
        invariant
            0 <= i <= cs@.len(),
            cs@ == s@,
            spec_ident(cs@, 0) == Ok::<(Seq<char>, int), ErrorView>((name@, start)),
            0 <= start <= cs@.len(),
            parse_loop(cs@, start, Seq::empty(), None) == parse_loop(
                cs@,
                i as int,
                args_view(args@),
                best_view(best),
            ),
        decreases cs@.len() - i,
    {
        if let Ok(rest) = expect_rest(&cs, i) {
            return Ok(Command::new(name, args, rest));
        }
        proof {
            lemma_spaces_bounds(cs@, i as int);
        }
        let j = match expect_spaces(&cs, i) {
            Ok(j) => j,
            Err(e) => return Err(fold_best(best, e)),
        };
        if let Ok(rest) = expect_rest(&cs, j) {
            return Ok(Command::new(name, args, rest));
        }
        proof {
            lemma_key_value_bounds(cs@, j as int);
            lemma_value_bounds(cs@, j as int);
        }
        match expect_key_value(&cs, j) {
            Ok((k, v, e)) => {
                let ghost before = args@;
                args.push(Arg::Kw(k, v));
                assert(args_view(args@) =~= args_view(before).push(ArgView::Kw(k@, v@)));
                i = e;
            },
            Err(e1) => match expect_value(&cs, j) {
                Ok((v, e)) => {
                    best = Some(fold_best(best, e1));
                    let ghost before = args@;
                    args.push(Arg::Pos(v));
                    assert(args_view(args@) =~= args_view(before).push(ArgView::Pos(v@)));
                    i = e;
                },
                Err(e2) => return Err(fold_best(best, e1).max_by_loc(e2)),
            },
        }
    }
}

} // verus!
