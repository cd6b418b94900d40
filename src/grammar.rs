//! The command-line grammar as spec functions over a sequence of characters.
//!
//! Positions are character indices into the whole input, and an error's
//! location is the position at which it was detected.
use vstd::prelude::*;
use crate::text::{white_space, char_debug};

verus! {

/// A parse failure: where it was detected and what went wrong.
pub struct ErrorView {
    pub loc: int,
    pub why: Seq<char>,
}

/// One argument of a command.
pub enum ArgView {
    Pos(Seq<char>),
    Kw(Seq<char>, Seq<char>),
}

/// A parsed command line.
pub struct CommandView {
    pub name: Seq<char>,
    pub args: Seq<ArgView>,
    pub rest: Seq<char>,
}

pub open spec fn fail(loc: int, why: Seq<char>) -> ErrorView {
    ErrorView { loc, why }
}

pub open spec fn ident_message() -> Seq<char> {
    "expected an identifier, which begins with [0-9A-Za-z_-]"@
}

pub open spec fn spaces_message() -> Seq<char> {
    "expected whitespace"@
}

pub open spec fn rest_message() -> Seq<char> {
    "expected a <rest> region beginning with '/'"@
}

pub open spec fn equals_message() -> Seq<char> {
    "expected '=' for key-value pair"@
}

pub open spec fn missing_string_message() -> Seq<char> {
    "missing string"@
}

pub open spec fn not_quoted_message() -> Seq<char> {
    "quoted string does not begin with quote"@
}

pub open spec fn unterminated_message() -> Seq<char> {
    "unterminated quoted string"@
}

pub open spec fn naked_only_message() -> Seq<char> {
    "\\(whitespace), \\=, and \\/ are only available in naked strings"@
}

pub open spec fn quoted_only_message() -> Seq<char> {
    "\\n and \\t are only available in quoted strings"@
}

pub open spec fn missing_operand_message() -> Seq<char> {
    "missing operand after escape character '\\'"@
}

pub open spec fn unsupported_message(d: char) -> Seq<char> {
    "unsupported escape sequence \\"@.push(d)
}

pub open spec fn invalid_naked_message(c: char) -> Seq<char> {
    "invalid character to appear in a naked string ("@ + char_debug(c) + ")"@
}

/// The error that made more progress; on a tie, the second one.
pub open spec fn further(a: ErrorView, b: ErrorView) -> ErrorView {
    if a.loc > b.loc {
        a
    } else {
        b
    }
}

/// Folds `e` into the best error found so far, if any.
pub open spec fn fold_error(best: Option<ErrorView>, e: ErrorView) -> ErrorView {
    match best {
        Some(m) => further(m, e),
        None => e,
    }
}

/// Whether `c` may appear in a command name or a keyword argument's key.
pub open spec fn is_ident_char(c: char) -> bool {
    ('0' <= c && c <= '9') || ('A' <= c && c <= 'Z') || ('a' <= c && c <= 'z') || c == '_'
        || c == '-'
}

/// Whether `c` stands for itself in a naked string.
pub open spec fn is_naked_char(c: char) -> bool {
    !white_space(c) && c != '=' && c != '\'' && c != '"' && c != '/' && c != '\\'
}

/// Whether `\` followed by `d` in a naked string stands for `d`.
pub open spec fn naked_escapable(d: char) -> bool {
    white_space(d) || d == '=' || d == '\'' || d == '"' || d == '/' || d == '\\'
}

pub open spec fn is_quote(c: char) -> bool {
    c == '\'' || c == '"'
}

/// End of the longest run of identifier characters from `i`.
pub open spec fn ident_end(s: Seq<char>, i: int) -> int
    decreases s.len() - i,
{
    if 0 <= i < s.len() && is_ident_char(s[i]) {
        ident_end(s, i + 1)
    } else {
        i
    }
}

/// End of the longest run of whitespace from `i`.
pub open spec fn space_end(s: Seq<char>, i: int) -> int
    decreases s.len() - i,
{
    if 0 <= i < s.len() && white_space(s[i]) {
        space_end(s, i + 1)
    } else {
        i
    }
}

/// A non-empty identifier at `i`, and the position after it.
pub open spec fn spec_ident(s: Seq<char>, i: int) -> Result<(Seq<char>, int), ErrorView> {
    let e = ident_end(s, i);
    if e == i {
        Err(fail(i, ident_message()))
    } else {
        Ok((s.subrange(i, e), e))
    }
}

/// A non-empty run of whitespace at `i`; the position after it.
pub open spec fn spec_spaces(s: Seq<char>, i: int) -> Result<int, ErrorView> {
    let e = space_end(s, i);
    if e == i {
        Err(fail(i, spaces_message()))
    } else {
        Ok(e)
    }
}

/// The rest region at `i`: nothing at the end of input, else everything
/// after a `/`.
pub open spec fn spec_rest(s: Seq<char>, i: int) -> Result<Seq<char>, ErrorView> {
    if i >= s.len() {
        Ok(Seq::empty())
    } else if s[i] == '/' {
        Ok(s.subrange(i + 1, s.len() as int))
    } else {
        Err(fail(i, rest_message()))
    }
}

/// The body of a string quoted by `q`, from `i`, after `acc` was read.
pub open spec fn quoted_body(s: Seq<char>, q: char, i: int, acc: Seq<char>) -> Result<
    (Seq<char>, int),
    ErrorView,
>
    decreases s.len() - i,
{
    if i >= s.len() {
        Err(fail(s.len() as int, unterminated_message()))
    } else if s[i] == q {
        Ok((acc, i + 1))
    } else if s[i] != '\\' {
        quoted_body(s, q, i + 1, acc.push(s[i]))
    } else if i + 1 >= s.len() {
        Err(fail(i + 1, unterminated_message()))
    } else {
        let d = s[i + 1];
        if d == '\'' || d == '"' || d == '\\' {
            quoted_body(s, q, i + 2, acc.push(d))
        } else if d == 'n' {
            quoted_body(s, q, i + 2, acc.push('\n'))
        } else if d == 't' {
            quoted_body(s, q, i + 2, acc.push('\t'))
        } else if white_space(d) || d == '=' || d == '/' {
            Err(fail(i + 2, naked_only_message()))
        } else {
            Err(fail(i + 2, unsupported_message(d)))
        }
    }
}

/// The rest of a naked string from `i`, after `acc` was read.
pub open spec fn naked_body(s: Seq<char>, i: int, acc: Seq<char>) -> Result<
    (Seq<char>, int),
    ErrorView,
>
    decreases s.len() - i,
{
    if i < 0 || i >= s.len() {
        Ok((acc, i))
    } else if is_naked_char(s[i]) {
        naked_body(s, i + 1, acc.push(s[i]))
    } else if s[i] == '\\' {
        if i + 1 >= s.len() {
            Err(fail(i + 1, missing_operand_message()))
        } else if naked_escapable(s[i + 1]) {
            naked_body(s, i + 2, acc.push(s[i + 1]))
        } else if s[i + 1] == 'n' || s[i + 1] == 't' {
            Err(fail(i + 2, quoted_only_message()))
        } else {
            Err(fail(i + 2, unsupported_message(s[i + 1])))
        }
    } else {
        Ok((acc, i))
    }
}

/// A quoted string at `i`, which must start with a quote.
pub open spec fn spec_quoted(s: Seq<char>, i: int) -> Result<(Seq<char>, int), ErrorView> {
    if i >= s.len() {
        Err(fail(i, missing_string_message()))
    } else if !is_quote(s[i]) {
        Err(fail(i, not_quoted_message()))
    } else {
        quoted_body(s, s[i], i + 1, Seq::empty())
    }
}

/// A non-empty naked string at `i`, which must not start with a structural
/// character.
pub open spec fn spec_naked(s: Seq<char>, i: int) -> Result<(Seq<char>, int), ErrorView> {
    if i >= s.len() {
        Err(fail(i, missing_string_message()))
    } else if 0 <= i && !is_naked_char(s[i]) && s[i] != '\\' {
        Err(fail(i, invalid_naked_message(s[i])))
    } else {
        naked_body(s, i, Seq::empty())
    }
}

/// One string literal at `i`, quoted or naked.
pub open spec fn spec_string(s: Seq<char>, i: int) -> Result<(Seq<char>, int), ErrorView> {
    if i >= s.len() {
        Err(fail(i, missing_string_message()))
    } else if is_quote(s[i]) {
        spec_quoted(s, i)
    } else {
        spec_naked(s, i)
    }
}

/// Appends to `acc` the literals that follow at `i`, up to the first that
/// does not scan.
pub open spec fn value_more(s: Seq<char>, i: int, acc: Seq<char>) -> (Seq<char>, int)
    decreases s.len() - i,
    when 0 <= i <= s.len()
    via value_more_decreases
{
    match spec_string(s, i) {
        Ok((t, j)) => value_more(s, j, acc + t),
        Err(_) => (acc, i),
    }
}

#[via_fn]
proof fn value_more_decreases(s: Seq<char>, i: int, acc: Seq<char>) {
    lemma_string_bounds(s, i);
}

/// A value at `i`: one or more adjacent literals, concatenated.
pub open spec fn spec_value(s: Seq<char>, i: int) -> Result<(Seq<char>, int), ErrorView> {
    match spec_string(s, i) {
        Err(e) => Err(e),
        Ok((t, j)) => Ok(value_more(s, j, t)),
    }
}

/// A `key=value` pair at `i`.
pub open spec fn spec_key_value(s: Seq<char>, i: int) -> Result<
    (Seq<char>, Seq<char>, int),
    ErrorView,
> {
    match spec_ident(s, i) {
        Err(e) => Err(e),
        Ok((k, j)) => if j < s.len() && s[j] == '=' {
            match spec_value(s, j + 1) {
                Err(e) => Err(e),
                Ok((v, e)) => Ok((k, v, e)),
            }
        } else {
            Err(fail(j, equals_message()))
        },
    }
}

/// The arguments and rest region from `i`, after `args` were read and with
/// `best` the furthest error of an alternative given up so far.
pub open spec fn parse_loop(
    s: Seq<char>,
    i: int,
    args: Seq<ArgView>,
    best: Option<ErrorView>,
) -> Result<(Seq<ArgView>, Seq<char>), ErrorView>
    decreases s.len() - i,
    when 0 <= i <= s.len()
    via parse_loop_decreases
{
    match spec_rest(s, i) {
        Ok(r) => Ok((args, r)),
        Err(_) => match spec_spaces(s, i) {
            Err(e) => Err(fold_error(best, e)),
            Ok(j) => match spec_rest(s, j) {
                Ok(r) => Ok((args, r)),
                Err(_) => match spec_key_value(s, j) {
                    Ok((k, v, e)) => parse_loop(s, e, args.push(ArgView::Kw(k, v)), best),
                    Err(e1) => match spec_value(s, j) {
                        Ok((v, e)) => parse_loop(
                            s,
                            e,
                            args.push(ArgView::Pos(v)),
                            Some(fold_error(best, e1)),
                        ),
                        Err(e2) => Err(further(fold_error(best, e1), e2)),
                    },
                },
            },
        },
    }
}

#[via_fn]
proof fn parse_loop_decreases(
    s: Seq<char>,
    i: int,
    args: Seq<ArgView>,
    best: Option<ErrorView>,
) {
    lemma_spaces_bounds(s, i);
    if let Ok(j) = spec_spaces(s, i) {
        lemma_key_value_bounds(s, j);
        lemma_value_bounds(s, j);
    }
}

/// A whole command line.
pub open spec fn spec_parse(s: Seq<char>) -> Result<CommandView, ErrorView> {
    match spec_ident(s, 0) {
        Err(e) => Err(e),
        Ok((name, i)) => match parse_loop(s, i, Seq::empty(), None) {
            Err(e) => Err(e),
            Ok((args, rest)) => Ok(CommandView { name, args, rest }),
        },
    }
}

pub proof fn lemma_ident_end_bounds(s: Seq<char>, i: int)
    requires
        0 <= i <= s.len(),
    ensures
        i <= ident_end(s, i) <= s.len(),
    decreases s.len() - i,
{
    if i < s.len() && is_ident_char(s[i]) {
        lemma_ident_end_bounds(s, i + 1);
    }
}

pub proof fn lemma_space_end_bounds(s: Seq<char>, i: int)
    requires
        0 <= i <= s.len(),
    ensures
        i <= space_end(s, i) <= s.len(),
    decreases s.len() - i,
{
    if i < s.len() && white_space(s[i]) {
        lemma_space_end_bounds(s, i + 1);
    }
}

pub proof fn lemma_ident_bounds(s: Seq<char>, i: int)
    requires
        0 <= i <= s.len(),
    ensures
        spec_ident(s, i) matches Ok((_, j)) ==> i < j <= s.len(),
{
    lemma_ident_end_bounds(s, i);
}

pub proof fn lemma_spaces_bounds(s: Seq<char>, i: int)
    ensures
        0 <= i <= s.len() ==> (spec_spaces(s, i) matches Ok(j) ==> i < j <= s.len()),
{
    if 0 <= i <= s.len() {
        lemma_space_end_bounds(s, i);
    }
}

pub proof fn lemma_quoted_body_bounds(s: Seq<char>, q: char, i: int, acc: Seq<char>)
    requires
        0 <= i,
    ensures
        quoted_body(s, q, i, acc) matches Ok((_, j)) ==> i < j <= s.len(),
    decreases s.len() - i,
{
    if i < s.len() && s[i] != q {
        if s[i] != '\\' {
            lemma_quoted_body_bounds(s, q, i + 1, acc.push(s[i]));
        } else if i + 1 < s.len() {
            let d = s[i + 1];
            lemma_quoted_body_bounds(s, q, i + 2, acc.push(d));
            lemma_quoted_body_bounds(s, q, i + 2, acc.push('\n'));
            lemma_quoted_body_bounds(s, q, i + 2, acc.push('\t'));
        }
    }
}

pub proof fn lemma_naked_body_bounds(s: Seq<char>, i: int, acc: Seq<char>)
    requires
        0 <= i <= s.len(),
    ensures
        naked_body(s, i, acc) matches Ok((_, j)) ==> i <= j <= s.len(),
    decreases s.len() - i,
{
    if i < s.len() {
        if is_naked_char(s[i]) {
            lemma_naked_body_bounds(s, i + 1, acc.push(s[i]));
        } else if s[i] == '\\' && i + 1 < s.len() {
            lemma_naked_body_bounds(s, i + 2, acc.push(s[i + 1]));
        }
    }
}

pub proof fn lemma_string_bounds(s: Seq<char>, i: int)
    ensures
        0 <= i <= s.len() ==> (spec_string(s, i) matches Ok((_, j)) ==> i < j <= s.len()),
{
    if 0 <= i < s.len() {
        if is_quote(s[i]) {
            lemma_quoted_body_bounds(s, s[i], i + 1, Seq::empty());
        } else if is_naked_char(s[i]) {
            lemma_naked_body_bounds(s, i + 1, Seq::empty().push(s[i]));
        } else if s[i] == '\\' && i + 1 < s.len() {
            lemma_naked_body_bounds(s, i + 2, Seq::empty().push(s[i + 1]));
        }
    }
}

pub proof fn lemma_value_more_bounds(s: Seq<char>, i: int, acc: Seq<char>)
    requires
        0 <= i <= s.len(),
    ensures
        i <= value_more(s, i, acc).1 <= s.len(),
    decreases s.len() - i,
{
    lemma_string_bounds(s, i);
    if let Ok((t, j)) = spec_string(s, i) {
        lemma_value_more_bounds(s, j, acc + t);
    }
}

pub proof fn lemma_value_bounds(s: Seq<char>, i: int)
    ensures
        0 <= i <= s.len() ==> (spec_value(s, i) matches Ok((_, j)) ==> i < j <= s.len()),
{
    if 0 <= i <= s.len() {
        lemma_string_bounds(s, i);
        if let Ok((t, j)) = spec_string(s, i) {
            lemma_value_more_bounds(s, j, t);
        }
    }
}

pub proof fn lemma_key_value_bounds(s: Seq<char>, i: int)
    ensures
        0 <= i <= s.len() ==> (spec_key_value(s, i) matches Ok((_, _, j)) ==> i < j <= s.len()),
{
    if 0 <= i <= s.len() {
        lemma_ident_bounds(s, i);
        if let Ok((k, j)) = spec_ident(s, i) {
            lemma_value_bounds(s, j + 1);
        }
    }
}

} // verus!
