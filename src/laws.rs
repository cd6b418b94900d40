//! Properties of the grammar that relate several of its parts, proved over
//! the spec functions that the parser's contracts use.
use vstd::prelude::*;
use crate::grammar::{
    ErrorView, ArgView, CommandView, fail, fold_error, naked_only_message,
    is_ident_char, is_naked_char, naked_escapable, is_quote, ident_end, space_end,
    spec_spaces, spec_rest, quoted_body, naked_body, spec_quoted, spec_naked, spec_string,
    value_more, spec_value, spec_key_value, parse_loop, spec_parse, lemma_string_bounds,
};
use crate::text::white_space;

verus! {

/// Whether a naked string ends before `c`: an unescaped whitespace, `=`,
/// quote or `/`.
pub open spec fn ends_naked(c: char) -> bool {
    !is_naked_char(c) && c != '\\'
}

/// `v` written as a naked string: each whitespace, `=`, quote, `/` and `\`
/// preceded by `\`.
pub open spec fn escape_naked(v: Seq<char>) -> Seq<char>
    decreases v.len(),
{
    if v.len() == 0 {
        Seq::empty()
    } else if naked_escapable(v[0]) {
        seq!['\\', v[0]] + escape_naked(v.drop_first())
    } else {
        seq![v[0]] + escape_naked(v.drop_first())
    }
}

/// `v` written as the body of a quoted string: newline and tab as `\n` and
/// `\t`, quotes and `\` preceded by `\`.
pub open spec fn escape_quoted(v: Seq<char>) -> Seq<char>
    decreases v.len(),
{
    if v.len() == 0 {
        Seq::empty()
    } else if v[0] == '\n' {
        seq!['\\', 'n'] + escape_quoted(v.drop_first())
    } else if v[0] == '\t' {
        seq!['\\', 't'] + escape_quoted(v.drop_first())
    } else if v[0] == '\'' || v[0] == '"' || v[0] == '\\' {
        seq!['\\', v[0]] + escape_quoted(v.drop_first())
    } else {
        seq![v[0]] + escape_quoted(v.drop_first())
    }
}

proof fn lemma_ident_run(s: Seq<char>, i: int, e: int)
    requires
        0 <= i <= e <= s.len(),
        forall|k: int| i <= k < e ==> is_ident_char(#[trigger] s[k]),
        e == s.len() || !is_ident_char(s[e]),
    ensures
        ident_end(s, i) == e,
    decreases e - i,
{
    if i < e {
        lemma_ident_run(s, i + 1, e);
    }
}

proof fn lemma_space_run(s: Seq<char>, i: int, e: int)
    requires
        0 <= i <= e <= s.len(),
        forall|k: int| i <= k < e ==> white_space(#[trigger] s[k]),
        e == s.len() || !white_space(s[e]),
    ensures
        space_end(s, i) == e,
    decreases e - i,
{
    if i < e {
        lemma_space_run(s, i + 1, e);
    }
}

/// A line made of a command name, optional whitespace, `/` and any text
/// parses to that name, no arguments, and exactly the text after the `/`.
pub proof fn law_name_then_rest(name: Seq<char>, ws: Seq<char>, rest: Seq<char>)
    requires
        name.len() > 0,
        forall|k: int| 0 <= k < name.len() ==> is_ident_char(#[trigger] name[k]),
        forall|k: int| 0 <= k < ws.len() ==> white_space(#[trigger] ws[k]),
    ensures
        spec_parse(name + ws + seq!['/'] + rest) == Ok::<CommandView, ErrorView>(
            CommandView { name, args: Seq::empty(), rest },
        ),
{
    let s = name + ws + seq!['/'] + rest;
    let n = name.len() as int;
    let w = ws.len() as int;
    assert(s[n + w] == '/');
    assert forall|k: int| 0 <= k < n implies is_ident_char(#[trigger] s[k]) by {
        assert(s[k] == name[k]);
    }
    assert forall|k: int| n <= k < n + w implies white_space(#[trigger] s[k]) by {
        assert(s[k] == ws[k - n]);
    }
    if w > 0 {
        assert(white_space(s[n]));
    }
    lemma_ident_run(s, 0, n);
    assert(s.subrange(0, n) =~= name);
    assert(s.subrange(n + w + 1, s.len() as int) =~= rest);
    if w > 0 {
        lemma_space_run(s, n, n + w);
    }
}

/// A line that is only a command name parses to that name, no arguments
/// and an empty rest region.
pub proof fn law_bare_name(name: Seq<char>)
    requires
        name.len() > 0,
        forall|k: int| 0 <= k < name.len() ==> is_ident_char(#[trigger] name[k]),
    ensures
        spec_parse(name) == Ok::<CommandView, ErrorView>(
            CommandView { name, args: Seq::empty(), rest: Seq::empty() },
        ),
{
    lemma_ident_run(name, 0, name.len() as int);
    assert(name.subrange(0, name.len() as int) =~= name);
}

/// A naked string ends only at the end of input or before an unescaped
/// whitespace, `=`, quote or `/`, none of which it holds unescaped.
pub proof fn law_naked_ends_at_structure(s: Seq<char>, i: int)
    requires
        0 <= i < s.len(),
    ensures
        spec_naked(s, i) matches Ok((_, j)) ==> (j == s.len() || ends_naked(s[j])),
{
    lemma_naked_body_ends(s, i, Seq::empty());
}

proof fn lemma_naked_body_ends(s: Seq<char>, i: int, acc: Seq<char>)
    requires
        0 <= i <= s.len(),
    ensures
        naked_body(s, i, acc) matches Ok((_, j)) ==> (j == s.len() || ends_naked(s[j])),
    decreases s.len() - i,
{
    if i < s.len() {
        if is_naked_char(s[i]) {
            lemma_naked_body_ends(s, i + 1, acc.push(s[i]));
        } else if s[i] == '\\' && i + 1 < s.len() {
            lemma_naked_body_ends(s, i + 2, acc.push(s[i + 1]));
        }
    }
}

proof fn lemma_naked_body_escaped(s: Seq<char>, i: int, v: Seq<char>, acc: Seq<char>)
    requires
        0 <= i,
        i + escape_naked(v).len() <= s.len(),
        s.subrange(i, i + escape_naked(v).len()) == escape_naked(v),
        i + escape_naked(v).len() == s.len() || ends_naked(s[i + escape_naked(v).len()]),
    ensures
        naked_body(s, i, acc) == Ok::<(Seq<char>, int), ErrorView>(
            (acc + v, i + escape_naked(v).len()),
        ),
    decreases v.len(),
{
    let e = escape_naked(v);
    if v.len() == 0 {
        assert(acc + v =~= acc);
    } else {
        let c = v[0];
        let t = v.drop_first();
        let et = escape_naked(t);
        let m: int = if naked_escapable(c) { 2 } else { 1 };
        assert(e.len() == m + et.len());
        assert(s[i] == e[0]);
        assert(s.subrange(i + m, i + m + et.len()) =~= et) by {
            assert forall|k: int| 0 <= k < et.len() implies s[i + m + k] == et[k] by {
                assert(s.subrange(i, i + e.len())[m + k] == e[m + k]);
            }
        }
        if naked_escapable(c) {
            assert(s[i + 1] == e[1]);
        }
        lemma_naked_body_escaped(s, i + m, t, acc.push(c));
        assert(acc.push(c) + t =~= acc + v);
    }
}

/// Writing any non-empty text as a naked string, with `\` before each
/// whitespace, `=`, quote, `/` and `\`, and following it by the end of
/// input or a character that ends a naked string, reads back that text.
pub proof fn law_naked_escapes_read_back(v: Seq<char>, tail: Seq<char>)
    requires
        v.len() > 0,
        tail.len() == 0 || ends_naked(tail[0]),
    ensures
        spec_naked(escape_naked(v) + tail, 0) == Ok::<(Seq<char>, int), ErrorView>(
            (v, escape_naked(v).len() as int),
        ),
{
    let e = escape_naked(v);
    let s = e + tail;
    assert(s.subrange(0, e.len() as int) =~= e);
    if tail.len() > 0 {
        assert(s[e.len() as int] == tail[0]);
    }
    lemma_naked_body_escaped(s, 0, v, Seq::empty());
    assert(Seq::<char>::empty() + v =~= v);
    assert(s[0] == e[0]);
}

proof fn lemma_quoted_body_escaped(s: Seq<char>, q: char, i: int, v: Seq<char>, acc: Seq<char>)
    requires
        0 <= i,
        is_quote(q),
        i + escape_quoted(v).len() < s.len(),
        s.subrange(i, i + escape_quoted(v).len()) == escape_quoted(v),
        s[i + escape_quoted(v).len()] == q,
    ensures
        quoted_body(s, q, i, acc) == Ok::<(Seq<char>, int), ErrorView>(
            (acc + v, i + escape_quoted(v).len() + 1),
        ),
    decreases v.len(),
{
    let e = escape_quoted(v);
    if v.len() == 0 {
        assert(acc + v =~= acc);
    } else {
        let c = v[0];
        let t = v.drop_first();
        let et = escape_quoted(t);
        let m: int = if c == '\n' || c == '\t' || c == '\'' || c == '"' || c == '\\' {
            2
        } else {
            1
        };
        assert(e.len() == m + et.len());
        assert(s[i] == e[0]);
        assert(s.subrange(i + m, i + m + et.len()) =~= et) by {
            assert forall|k: int| 0 <= k < et.len() implies s[i + m + k] == et[k] by {
                assert(s.subrange(i, i + e.len())[m + k] == e[m + k]);
            }
        }
        if m == 2 {
            assert(s[i + 1] == e[1]);
        }
        lemma_quoted_body_escaped(s, q, i + m, t, acc.push(c));
        assert(acc.push(c) + t =~= acc + v);
    }
}

/// Any text written between quotes, with newline and tab as `\n` and `\t`
/// and `\` before each quote and `\`, reads back as that text.
pub proof fn law_quoted_escapes_read_back(q: char, v: Seq<char>, tail: Seq<char>)
    requires
        is_quote(q),
    ensures
        spec_quoted(seq![q] + escape_quoted(v) + seq![q] + tail, 0) == Ok::<
            (Seq<char>, int),
            ErrorView,
        >((v, escape_quoted(v).len() + 2 as int)),
{
    let e = escape_quoted(v);
    let el = e.len() as int;
    let s = seq![q] + e + seq![q] + tail;
    assert(s.subrange(1, 1 + el) =~= e);
    assert(s[1 + el] == q);
    lemma_quoted_body_escaped(s, q, 1, v, Seq::empty());
    assert(Seq::<char>::empty() + v =~= v);
}

proof fn lemma_quoted_body_escaped_space(
    s: Seq<char>,
    q: char,
    i: int,
    v: Seq<char>,
    acc: Seq<char>,
)
    requires
        0 <= i,
        is_quote(q),
        i + escape_quoted(v).len() + 1 < s.len(),
        s.subrange(i, i + escape_quoted(v).len()) == escape_quoted(v),
        s[i + escape_quoted(v).len()] == '\\',
        s[i + escape_quoted(v).len() + 1] == ' ',
    ensures
        quoted_body(s, q, i, acc) == Err::<(Seq<char>, int), ErrorView>(
            fail(i + escape_quoted(v).len() + 2, naked_only_message()),
        ),
    decreases v.len(),
{
    let e = escape_quoted(v);
    if v.len() > 0 {
        let c = v[0];
        let t = v.drop_first();
        let et = escape_quoted(t);
        let m: int = if c == '\n' || c == '\t' || c == '\'' || c == '"' || c == '\\' {
            2
        } else {
            1
        };
        assert(e.len() == m + et.len());
        assert(s[i] == e[0]);
        assert(s.subrange(i + m, i + m + et.len()) =~= et) by {
            assert forall|k: int| 0 <= k < et.len() implies s[i + m + k] == et[k] by {
                assert(s.subrange(i, i + e.len())[m + k] == e[m + k]);
            }
        }
        if m == 2 {
            assert(s[i + 1] == e[1]);
        }
        lemma_quoted_body_escaped_space(s, q, i + m, t, acc.push(c));
    }
}

/// In a quoted string, `\` followed by a space is rejected, at the
/// position after the space.
pub proof fn law_quoted_rejects_escaped_space(q: char, v: Seq<char>, tail: Seq<char>)
    requires
        is_quote(q),
    ensures
        spec_quoted(seq![q] + escape_quoted(v) + seq!['\\', ' '] + tail, 0) == Err::<
            (Seq<char>, int),
            ErrorView,
        >(fail(escape_quoted(v).len() + 3 as int, naked_only_message())),
{
    let e = escape_quoted(v);
    let el = e.len() as int;
    let s = seq![q] + e + seq!['\\', ' '] + tail;
    assert(s.subrange(1, 1 + el) =~= e);
    assert(s[1 + el] == '\\');
    assert(s[2 + el] == ' ');
    lemma_quoted_body_escaped_space(s, q, 1, v, Seq::empty());
}

proof fn lemma_value_more_acc(s: Seq<char>, i: int, acc: Seq<char>)
    requires
        0 <= i <= s.len(),
    ensures
        value_more(s, i, acc) == (acc + value_more(s, i, Seq::empty()).0, value_more(
            s,
            i,
            Seq::empty(),
        ).1),
    decreases s.len() - i,
{
    lemma_string_bounds(s, i);
    if let Ok((t, j)) = spec_string(s, i) {
        lemma_value_more_acc(s, j, acc + t);
        lemma_value_more_acc(s, j, Seq::empty() + t);
        assert(Seq::<char>::empty() + t =~= t);
        lemma_value_more_acc(s, j, t);
        assert(acc + t + value_more(s, j, Seq::empty()).0 =~= acc + (t + value_more(
            s,
            j,
            Seq::empty(),
        ).0));
    } else {
        assert(acc + Seq::<char>::empty() =~= acc);
    }
}

/// A literal followed, with nothing between, by a value forms one value:
/// the literal's text followed by that value's.
pub proof fn law_adjacent_literals_merge(s: Seq<char>, i: int)
    requires
        0 <= i <= s.len(),
    ensures
        spec_string(s, i) matches Ok((t, j)) ==> (spec_value(s, j) matches Ok((v, k))
            ==> spec_value(s, i) == Ok::<(Seq<char>, int), ErrorView>((t + v, k))),
{
    lemma_string_bounds(s, i);
    if let Ok((t, j)) = spec_string(s, i) {
        lemma_string_bounds(s, j);
        if let Ok((t2, j2)) = spec_string(s, j) {
            lemma_string_bounds(s, j2);
            lemma_value_more_acc(s, j2, t2);
            lemma_value_more_acc(s, j, t);
            lemma_value_more_acc(s, j2, t + t2);
            assert(t + t2 + value_more(s, j2, Seq::empty()).0 =~= t + (t2 + value_more(
                s,
                j2,
                Seq::empty(),
            ).0));
        }
    }
}

/// Where an argument reads neither as `key=value` nor as a bare value, the
/// line fails with the error that made more progress among the earlier
/// given-up alternatives, the key-value attempt and the bare-value attempt;
/// on a tie the later one, so the bare-value error wins over the key-value
/// error at the same position.
pub proof fn law_failed_argument_reports_furthest(
    s: Seq<char>,
    i: int,
    args: Seq<ArgView>,
    best: Option<ErrorView>,
)
    requires
        0 <= i <= s.len(),
        spec_rest(s, i) is Err,
        spec_spaces(s, i) is Ok,
        spec_rest(s, spec_spaces(s, i)->Ok_0) is Err,
        spec_key_value(s, spec_spaces(s, i)->Ok_0) is Err,
        spec_value(s, spec_spaces(s, i)->Ok_0) is Err,
    ensures
        ({
            let j = spec_spaces(s, i)->Ok_0;
            let e1 = fold_error(best, spec_key_value(s, j)->Err_0);
            let e2 = spec_value(s, j)->Err_0;
            &&& e1.loc > e2.loc ==> parse_loop(s, i, args, best) == Err::<
                (Seq<ArgView>, Seq<char>),
                ErrorView,
            >(e1)
            &&& e1.loc <= e2.loc ==> parse_loop(s, i, args, best) == Err::<
                (Seq<ArgView>, Seq<char>),
                ErrorView,
            >(e2)
        }),
{
}

} // verus!
