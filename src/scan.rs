//! The scanners: each reads one piece of the grammar from a position of
//! the input and returns what it read with the position after it.
use vstd::prelude::*;
use crate::grammar::{
    ErrorView, fail, unsupported_message, invalid_naked_message, is_ident_char, is_naked_char,
    naked_escapable, ident_end, space_end, spec_ident, spec_spaces, spec_rest, quoted_body,
    naked_body, spec_quoted, spec_naked, spec_string, value_more, spec_value, spec_key_value,
    lemma_string_bounds, lemma_ident_bounds,
};
use crate::nom_args::ParseError;
use crate::laws::{ends_naked, law_naked_ends_at_structure};
use crate::text::{is_whitespace, push_char, debug_char, collect_range};

verus! {

/// What a scanner's result says, over views.
pub open spec fn text_result(r: Result<(String, usize), ParseError>) -> Result<
    (Seq<char>, int),
    ErrorView,
> {
    match r {
        Ok((t, j)) => Ok((t@, j as int)),
        Err(e) => Err(e@),
    }
}

fn error(loc: usize, why: &str) -> (r: ParseError)
    ensures
        r@ == fail(loc as int, why@),
{
    ParseError::new(loc, String::from_str(why))
}

fn unsupported_escape(loc: usize, d: char) -> (r: ParseError)
    ensures
        r@ == fail(loc as int, unsupported_message(d)),
{
    let mut why = String::from_str("unsupported escape sequence \\");
    push_char(&mut why, d);
    ParseError::new(loc, why)
}

fn invalid_naked(loc: usize, c: char) -> (r: ParseError)
    ensures
        r@ == fail(loc as int, invalid_naked_message(c)),
{
    let mut why = String::from_str("invalid character to appear in a naked string (");
    let shown = debug_char(c);
    why.append(shown.as_str());
    why.append(")");
    ParseError::new(loc, why)
}

fn ident_char(c: char) -> (r: bool)
    ensures
        r == is_ident_char(c),
{
    ('0' <= c && c <= '9') || ('A' <= c && c <= 'Z') || ('a' <= c && c <= 'z') || c == '_'
        || c == '-'
}

fn naked_char(c: char) -> (r: bool)
    ensures
        r == is_naked_char(c),
{
    !is_whitespace(c) && c != '=' && c != '\'' && c != '"' && c != '/' && c != '\\'
}

fn escapable_in_naked(d: char) -> (r: bool)
    ensures
        r == naked_escapable(d),
{
    is_whitespace(d) || d == '=' || d == '\'' || d == '"' || d == '/' || d == '\\'
}

/// A non-empty run of identifier characters.
pub(crate) fn expect_ident(s: &Vec<char>, start: usize) -> (r: Result<(String, usize), ParseError>)
    requires
        start <= s@.len(),
    ensures
        text_result(r) == spec_ident(s@, start as int),
{
    let mut i: usize = start;
    while i < s.len() && ident_char(s[i])
        invariant
            start <= i <= s@.len(),
            ident_end(s@, start as int) == ident_end(s@, i as int),
        decreases s@.len() - i,
    {
        i = i + 1;
    }
    if i == start {
        Err(error(start, "expected an identifier, which begins with [0-9A-Za-z_-]"))
    } else {
        Ok((collect_range(s, start, i), i))
    }
}

/// A non-empty run of whitespace; the position after it.
pub(crate) fn expect_spaces(s: &Vec<char>, start: usize) -> (r: Result<usize, ParseError>)
    requires
        start <= s@.len(),
    ensures
        match r {
            Ok(j) => spec_spaces(s@, start as int) == Ok::<int, ErrorView>(j as int),
            Err(e) => spec_spaces(s@, start as int) == Err::<int, ErrorView>(e@),
        },
{
    let mut i: usize = start;
    while i < s.len() && is_whitespace(s[i])
        invariant
            start <= i <= s@.len(),
            space_end(s@, start as int) == space_end(s@, i as int),
        decreases s@.len() - i,
    {
        i = i + 1;
    }
    if i == start {
        Err(error(start, "expected whitespace"))
    } else {
        Ok(i)
    }
}

/// The rest region: empty at the end of input, else all after a `/`.
pub(crate) fn expect_rest(s: &Vec<char>, start: usize) -> (r: Result<String, ParseError>)
    requires
        start <= s@.len(),
    ensures
        match r {
            Ok(t) => spec_rest(s@, start as int) == Ok::<Seq<char>, ErrorView>(t@),
            Err(e) => spec_rest(s@, start as int) == Err::<Seq<char>, ErrorView>(e@),
        },
{
    if start >= s.len() {
        Ok(String::new())
    } else if s[start] == '/' {
        Ok(collect_range(s, start + 1, s.len()))
    } else {
        Err(error(start, "expected a <rest> region beginning with '/'"))
    }
}

/// A quoted string at `start`.
fn expect_quoted_string(s: &Vec<char>, start: usize) -> (r: Result<(String, usize), ParseError>)
    requires
        start <= s@.len(),
    ensures
        text_result(r) == spec_quoted(s@, start as int),
{
    if start >= s.len() {
        return Err(error(start, "missing string"));
    }
    let q = s[start];
    if q != '\'' && q != '"' {
        return Err(error(start, "quoted string does not begin with quote"));
    }
    let n = s.len();
    let mut i: usize = start + 1;
    let mut buf = String::new();
    loop
        invariant
            start < i <= s@.len(),
            n == s@.len(),
            q == s@[start as int],
            spec_quoted(s@, start as int) == quoted_body(s@, q, i as int, buf@),
        decreases s@.len() - i,
    {
        if i >= n {
            return Err(error(n, "unterminated quoted string"));
        }
        let c = s[i];
        if c == q {
            return Ok((buf, i + 1));
        } else if c != '\\' {
            push_char(&mut buf, c);
            i = i + 1;
        } else if i + 1 >= s.len() {
            return Err(error(i + 1, "unterminated quoted string"));
        } else {
            let d = s[i + 1];
            if d == '\'' || d == '"' || d == '\\' {
                push_char(&mut buf, d);
            } else if d == 'n' {
                push_char(&mut buf, '\n');
            } else if d == 't' {
                push_char(&mut buf, '\t');
            } else if is_whitespace(d) || d == '=' || d == '/' {
                return Err(
                    error(i + 2, "\\(whitespace), \\=, and \\/ are only available in naked strings"),
                );
            } else {
                return Err(unsupported_escape(i + 2, d));
            }
            i = i + 2;
        }
    }
}

/// A non-empty naked string at `start`; it ends at the end of input or
/// before an unescaped whitespace, `=`, quote or `/`.
fn expect_naked_string(s: &Vec<char>, start: usize) -> (r: Result<(String, usize), ParseError>)
    requires
        start <= s@.len(),
    ensures
        text_result(r) == spec_naked(s@, start as int),
        r matches Ok((_, j)) ==> (j == s@.len() || ends_naked(s@[j as int])),
{
    if start >= s.len() {
        return Err(error(start, "missing string"));
    }
    proof {
        law_naked_ends_at_structure(s@, start as int);
    }
    let c0 = s[start];
    if !naked_char(c0) && c0 != '\\' {
        return Err(invalid_naked(start, c0));
    }
    let mut i: usize = start;
    let mut buf = String::new();
    while i < s.len()
        invariant
            start <= i <= s@.len(),
            spec_naked(s@, start as int) == naked_body(s@, i as int, buf@),
        decreases s@.len() - i,
    {
        let c = s[i];
        if naked_char(c) {
            push_char(&mut buf, c);
            i = i + 1;
        } else if c == '\\' {
            if i + 1 >= s.len() {
                return Err(error(i + 1, "missing operand after escape character '\\'"));
            }
            let d = s[i + 1];
            if escapable_in_naked(d) {
                push_char(&mut buf, d);
                i = i + 2;
            } else if d == 'n' || d == 't' {
                return Err(error(i + 2, "\\n and \\t are only available in quoted strings"));
            } else {
                return Err(unsupported_escape(i + 2, d));
            }
        } else {
            return Ok((buf, i));
        }
    }
    Ok((buf, i))
}

/// One string literal, quoted or naked.
fn expect_string(s: &Vec<char>, start: usize) -> (r: Result<(String, usize), ParseError>)
    requires
        start <= s@.len(),
    ensures
        text_result(r) == spec_string(s@, start as int),
{
    if start >= s.len() {
        return Err(error(start, "missing string"));
    }
    let first = s[start];
    if first == '\'' || first == '"' {
        expect_quoted_string(s, start)
    } else {
        expect_naked_string(s, start)
    }
}

/// A value: one or more adjacent literals, concatenated.
pub(crate) fn expect_value(s: &Vec<char>, start: usize) -> (r: Result<(String, usize), ParseError>)
    requires
        start <= s@.len(),
    ensures
        text_result(r) == spec_value(s@, start as int),
{
    proof {
        lemma_string_bounds(s@, start as int);
    }
    let (mut buf, mut i) = match expect_string(s, start) {
        Ok(x) => x,
        Err(e) => return Err(e),
    };
    let ghost first = i as int;
    loop
        invariant
            start < first <= i <= s@.len(),
            spec_string(s@, start as int) matches Ok((t, j)) && j == first && value_more(
                s@,
                first,
                t,
            ) == value_more(s@, i as int, buf@),
        decreases s@.len() - i,
    {
        proof {
            lemma_string_bounds(s@, i as int);
        }
        match expect_string(s, i) {
            Ok((t, j)) => {
                buf.append(t.as_str());
                i = j;
            },
            Err(_) => return Ok((buf, i)),
        }
    }
}

/// A `key=value` pair.
pub(crate) fn expect_key_value(s: &Vec<char>, start: usize) -> (r: Result<
    (String, String, usize),
    ParseError,
>)
    requires
        start <= s@.len(),
    ensures
        match r {
            Ok((k, v, j)) => spec_key_value(s@, start as int) == Ok::<
                (Seq<char>, Seq<char>, int),
                ErrorView,
            >((k@, v@, j as int)),
            Err(e) => spec_key_value(s@, start as int) == Err::<
                (Seq<char>, Seq<char>, int),
                ErrorView,
            >(e@),
        },
{
    proof {
        lemma_ident_bounds(s@, start as int);
    }
    let (k, j) = match expect_ident(s, start) {
        Ok(x) => x,
        Err(e) => return Err(e),
    };
    if j < s.len() && s[j] == '=' {
        match expect_value(s, j + 1) {
            Ok((v, e)) => Ok((k, v, e)),
            Err(e) => Err(e),
        }
    } else {
        Err(error(j, "expected '=' for key-value pair"))
    }
}

} // verus!
