//! The echo command: options and flags that choose how the rest region is
//! transformed before it is sent back.
use vstd::prelude::*;
use vstd::seq_lib::lemma_sorted_unique;
use crate::grammar::ArgView;
use crate::nom_args::{Arg, args_view};
use crate::text::{
    char_debug, text_debug, char_le, text_le, texts_view, chars_of, debug_char, debug_text,
    sort_chars, sort_texts, reverse_vec, collect_range, push_char, lemma_char_le_total,
    lemma_text_le_total,
};

verus! {

pub const HELP_STR: &'static str = "## Examples
Let nombot say hello world
```
nom/echo/Hello, world!
```
Let nombot say aehmttw
```
nom/echo sorted=1/matthew
```
Let nombot say world hello on two lines
```
nom/echo reversed=1 scope=line/Hello,
world!
```
Short hands are supported, and empty lines are ignored when using line scope
```
nom/echo -srl/
Bananas
Apples
Cherries
```
## Usage
Print help (this message)
```
nom/echo help
```
Echo-back the rest-field, transformed according to options
```
nom/echo [-sSrRlc] sorted=[0|1] reversed=[0|1] scope=[char|line]
```";

/// Replies to the `echo` command.
pub struct EchoHandler;

/// What the transformation works on.
#[derive(Clone, Copy, Debug)]
pub enum Scope {
    Lines,
    Characters,
}

/// The options set so far; each may be set once.
#[derive(Clone, Copy, Debug)]
pub struct EchoOptions {
    pub sorted: Option<bool>,
    pub reversed: Option<bool>,
    pub scope: Option<Scope>,
}

/// What the arguments ask for.
pub enum PlanView {
    Echo(bool, bool, Scope),
    Help,
    Error(Seq<char>),
}

pub open spec fn unset() -> EchoOptions {
    EchoOptions { sorted: None, reversed: None, scope: None }
}

pub open spec fn twice_message(name: Seq<char>) -> Seq<char> {
    "the '"@ + name + "' option is set multiple times"@
}

pub open spec fn unknown_flag_message(c: char) -> Seq<char> {
    "unrecognized flag shorthand "@ + char_debug(c) + "; available shorthands: sSrRlc"@
}

pub open spec fn positional_message() -> Seq<char> {
    "does not accept non-flag positional arguments; use the rest-field instead."@
}

pub open spec fn boolean_message(name: Seq<char>) -> Seq<char> {
    "the '"@ + name + "' option is boolean (0 or 1)"@
}

pub open spec fn scope_value_message() -> Seq<char> {
    "the 'scope' option has value 'char' or 'line'"@
}

pub open spec fn unknown_option_message(k: Seq<char>) -> Seq<char> {
    "unrecognized option "@ + text_debug(k) + "; available options: sorted, reversed"@
}

/// Applies the shorthand flags `cs` to the options `o`.
pub open spec fn read_flags(cs: Seq<char>, o: EchoOptions) -> Result<EchoOptions, Seq<char>>
    decreases cs.len(),
{
    if cs.len() == 0 {
        Ok(o)
    } else {
        let c = cs[0];
        if c == 's' || c == 'S' {
            if o.sorted is Some {
                Err(twice_message("sorted"@))
            } else {
                read_flags(
                    cs.drop_first(),
                    EchoOptions { sorted: Some(c == 's'), reversed: o.reversed, scope: o.scope },
                )
            }
        } else if c == 'r' || c == 'R' {
            if o.reversed is Some {
                Err(twice_message("reversed"@))
            } else {
                read_flags(
                    cs.drop_first(),
                    EchoOptions { sorted: o.sorted, reversed: Some(c == 'r'), scope: o.scope },
                )
            }
        } else if c == 'l' || c == 'c' {
            if o.scope is Some {
                Err(twice_message("scope"@))
            } else {
                read_flags(
                    cs.drop_first(),
                    EchoOptions {
                        sorted: o.sorted,
                        reversed: o.reversed,
                        scope: Some(if c == 'c' { Scope::Characters } else { Scope::Lines }),
                    },
                )
            }
        } else {
            Err(unknown_flag_message(c))
        }
    }
}

/// Reads the arguments in turn, from the options `o`.
pub open spec fn read_echo_args(args: Seq<ArgView>, o: EchoOptions) -> PlanView
    decreases args.len(),
{
    if args.len() == 0 {
        PlanView::Echo(
            o.sorted.unwrap_or(false),
            o.reversed.unwrap_or(false),
            o.scope.unwrap_or(Scope::Characters),
        )
    } else {
        match args[0] {
            ArgView::Pos(s) => if s.len() >= 1 && s[0] == '-' {
                match read_flags(s.drop_first(), o) {
                    Ok(o2) => read_echo_args(args.drop_first(), o2),
                    Err(m) => PlanView::Error(m),
                }
            } else if s == "help"@ {
                PlanView::Help
            } else {
                PlanView::Error(positional_message())
            },
            ArgView::Kw(k, v) => if k == "sorted"@ {
                if o.sorted is Some {
                    PlanView::Error(twice_message("sorted"@))
                } else if v == "1"@ || v == "0"@ {
                    read_echo_args(
                        args.drop_first(),
                        EchoOptions { sorted: Some(v == "1"@), reversed: o.reversed, scope: o.scope },
                    )
                } else {
                    PlanView::Error(boolean_message("sorted"@))
                }
            } else if k == "reversed"@ {
                if o.reversed is Some {
                    PlanView::Error(twice_message("reversed"@))
                } else if v == "1"@ || v == "0"@ {
                    read_echo_args(
                        args.drop_first(),
                        EchoOptions { sorted: o.sorted, reversed: Some(v == "1"@), scope: o.scope },
                    )
                } else {
                    PlanView::Error(boolean_message("reversed"@))
                }
            } else if k == "scope"@ {
                if o.scope is Some {
                    PlanView::Error(twice_message("scope"@))
                } else if v == "char"@ || v == "line"@ {
                    read_echo_args(
                        args.drop_first(),
                        EchoOptions {
                            sorted: o.sorted,
                            reversed: o.reversed,
                            scope: Some(if v == "char"@ { Scope::Characters } else { Scope::Lines }),
                        },
                    )
                } else {
                    PlanView::Error(scope_value_message())
                }
            } else {
                PlanView::Error(unknown_option_message(k))
            },
        }
    }
}

/// The non-empty lines of `s`, where `cur` was read of the current line.
pub open spec fn nonempty_lines(s: Seq<char>, cur: Seq<char>) -> Seq<Seq<char>>
    decreases s.len(),
{
    if s.len() == 0 {
        if cur.len() > 0 {
            seq![cur]
        } else {
            Seq::empty()
        }
    } else if s[0] == '\n' {
        (if cur.len() > 0 {
            seq![cur]
        } else {
            Seq::empty()
        }) + nonempty_lines(s.drop_first(), Seq::empty())
    } else {
        nonempty_lines(s.drop_first(), cur.push(s[0]))
    }
}

/// The lines joined with newlines between them.
pub open spec fn join_lines(ls: Seq<Seq<char>>) -> Seq<char>
    decreases ls.len(),
{
    if ls.len() == 0 {
        Seq::empty()
    } else if ls.len() == 1 {
        ls[0]
    } else {
        join_lines(ls.drop_last()) + seq!['\n'] + ls.last()
    }
}

/// The rest region transformed: sorted first, then reversed, by character
/// or by non-empty line.
pub open spec fn transform(sorted: bool, reversed: bool, scope: Scope, rest: Seq<char>) -> Seq<char> {
    match scope {
        Scope::Characters => {
            let s = if sorted {
                rest.sort_by(char_le())
            } else {
                rest
            };
            if reversed {
                s.reverse()
            } else {
                s
            }
        },
        Scope::Lines => {
            let ls = nonempty_lines(rest, Seq::empty());
            let ls = if sorted {
                ls.sort_by(text_le())
            } else {
                ls
            };
            join_lines(
                if reversed {
                    ls.reverse()
                } else {
                    ls
                },
            )
        },
    }
}

/// What is sent for an echo reply: the bot does not echo its own echo
/// commands, nor send an empty message.
pub open spec fn deliver(from_self: bool, reply: Seq<char>) -> Seq<char> {
    if from_self && "nom/echo"@.is_prefix_of(reply) {
        "nombot refuses to `nom/echo`-bomb this channel. :/"@
    } else if reply.len() == 0 {
        "nombot cannot send an empty message. :/"@
    } else {
        reply
    }
}

/// The message sent in answer to `echo`; `from_self` tells whether the
/// bot itself wrote the command.
pub open spec fn echo_reply(args: Seq<ArgView>, rest: Seq<char>, from_self: bool) -> Seq<char> {
    match read_echo_args(args, unset()) {
        PlanView::Error(why) => "```echo: "@ + why + "```"@,
        PlanView::Help => HELP_STR@,
        PlanView::Echo(sorted, reversed, scope) => deliver(
            from_self,
            transform(sorted, reversed, scope, rest),
        ),
    }
}

/// What the arguments ask for.
pub enum EchoPlan {
    Echo { sorted: bool, reversed: bool, scope: Scope },
    Help,
    Error { why: String },
}

impl View for EchoPlan {
    type V = PlanView;

    open spec fn view(&self) -> PlanView {
        match self {
            EchoPlan::Echo { sorted, reversed, scope } => PlanView::Echo(*sorted, *reversed, *scope),
            EchoPlan::Help => PlanView::Help,
            EchoPlan::Error { why } => PlanView::Error(why@),
        }
    }
}

/// Whether the characters `a` spell `lit`.
fn text_is(a: &Vec<char>, lit: &str) -> (r: bool)
    ensures
        r == (a@ == lit@),
{
    let b = chars_of(lit);
    if a.len() != b.len() {
        return false;
    }
    let mut i: usize = 0;
    while i < a.len()
        invariant
            i <= a@.len(),
            a@.len() == b@.len(),
            b@ == lit@,
            forall|j: int| 0 <= j < i ==> a@[j] == b@[j],
        decreases a@.len() - i,
    {
        if a[i] != b[i] {
            return false;
        }
        i = i + 1;
    }
    assert(a@ =~= b@);
    true
}

/// Whether the characters `a` begin with `lit`.
fn starts_with_text(a: &Vec<char>, lit: &str) -> (r: bool)
    ensures
        r == lit@.is_prefix_of(a@),
{
    let b = chars_of(lit);
    if a.len() < b.len() {
        return false;
    }
    let mut i: usize = 0;
    while i < b.len()
        invariant
            i <= b@.len() <= a@.len(),
            b@ == lit@,
            forall|j: int| 0 <= j < i ==> a@[j] == b@[j],
        decreases b@.len() - i,
    {
        if a[i] != b[i] {
            assert(a@.subrange(0, b@.len() as int)[i as int] != b@[i as int]);
            return false;
        }
        i = i + 1;
    }
    assert(b@ =~= a@.subrange(0, b@.len() as int));
    true
}

fn twice(name: &str) -> (r: String)
    ensures
        r@ == twice_message(name@),
{
    let mut r = String::from_str("the '");
    r.append(name);
    r.append("' option is set multiple times");
    r
}

fn not_boolean(name: &str) -> (r: String)
    ensures
        r@ == boolean_message(name@),
{
    let mut r = String::from_str("the '");
    r.append(name);
    r.append("' option is boolean (0 or 1)");
    r
}

/// Applies the shorthand flags `cs[1..]` to the options `o`.
fn apply_flags(cs: &Vec<char>, given: EchoOptions) -> (r: Result<EchoOptions, String>)
    requires
        cs@.len() >= 1,
    ensures
        match r {
            Ok(o2) => read_flags(cs@.drop_first(), given) == Ok::<EchoOptions, Seq<char>>(o2),
            Err(m) => read_flags(cs@.drop_first(), given) == Err::<EchoOptions, Seq<char>>(m@),
        },
{
    let ghost whole = read_flags(cs@.drop_first(), given);
    let mut o = given;
    let mut i: usize = 1;
    assert(cs@.subrange(1, cs@.len() as int) =~= cs@.drop_first());
    while i < cs.len()
        invariant
            1 <= i <= cs@.len(),
            whole == read_flags(cs@.drop_first(), given),
            whole == read_flags(cs@.subrange(i as int, cs@.len() as int), o),
        decreases cs@.len() - i,
    {
        let c = cs[i];
        assert(cs@.subrange(i as int, cs@.len() as int)[0] == c);
        assert(cs@.subrange(i as int, cs@.len() as int).drop_first() =~= cs@.subrange(
            i + 1,
            cs@.len() as int,
        ));
        if c == 's' || c == 'S' {
            if o.sorted.is_some() {
                return Err(twice("sorted"));
            }
            o = EchoOptions { sorted: Some(c == 's'), reversed: o.reversed, scope: o.scope };
        } else if c == 'r' || c == 'R' {
            if o.reversed.is_some() {
                return Err(twice("reversed"));
            }
            o = EchoOptions { sorted: o.sorted, reversed: Some(c == 'r'), scope: o.scope };
        } else if c == 'l' || c == 'c' {
            if o.scope.is_some() {
                return Err(twice("scope"));
            }
            let scope = if c == 'c' {
                Scope::Characters
            } else {
                Scope::Lines
            };
            o = EchoOptions { sorted: o.sorted, reversed: o.reversed, scope: Some(scope) };
        } else {
            let mut m = String::from_str("unrecognized flag shorthand ");
            let shown = debug_char(c);
            m.append(shown.as_str());
            m.append("; available shorthands: sSrRlc");
            return Err(m);
        }
        i = i + 1;
    }
    Ok(o)
}

/// The value of a boolean option: `Some` for "1" or "0".
fn boolean_value(v: &Vec<char>) -> (r: Option<bool>)
    ensures
        r == (if v@ == "1"@ {
            Some(true)
        } else if v@ == "0"@ {
            Some(false)
        } else {
            None::<bool>
        }),
{
    if text_is(v, "1") {
        Some(true)
    } else if text_is(v, "0") {
        Some(false)
    } else {
        None
    }
}

/// The non-empty lines of `cs`.
fn split_lines(cs: &Vec<char>) -> (r: Vec<Vec<char>>)
    ensures
        texts_view(r@) == nonempty_lines(cs@, Seq::empty()),
{
    let mut done: Vec<Vec<char>> = Vec::new();
    let mut cur: Vec<char> = Vec::new();
    let mut i: usize = 0;
    assert(cs@.subrange(0, cs@.len() as int) =~= cs@);
    assert(texts_view(done@) =~= Seq::<Seq<char>>::empty());
    while i < cs.len()
        invariant
            i <= cs@.len(),
            nonempty_lines(cs@, Seq::empty()) == texts_view(done@) + nonempty_lines(
                cs@.subrange(i as int, cs@.len() as int),
                cur@,
            ),
        decreases cs@.len() - i,
    {
        let c = cs[i];
        let ghost tail = cs@.subrange(i as int, cs@.len() as int);
        assert(tail[0] == c);
        assert(tail.drop_first() =~= cs@.subrange(i + 1, cs@.len() as int));
        if c == '\n' {
            let ghost before = texts_view(done@);
            if cur.len() > 0 {
                let ghost line = cur@;
                done.push(cur);
                assert(texts_view(done@) =~= before + seq![line]);
                assert(before + (seq![line] + nonempty_lines(tail.drop_first(), Seq::empty()))
                    =~= before + seq![line] + nonempty_lines(tail.drop_first(), Seq::empty()));
            } else {
                assert(Seq::<Seq<char>>::empty() + nonempty_lines(tail.drop_first(), Seq::empty())
                    =~= nonempty_lines(tail.drop_first(), Seq::empty()));
            }
            cur = Vec::new();
        } else {
            cur.push(c);
        }
        i = i + 1;
    }
    if cur.len() > 0 {
        let ghost before = texts_view(done@);
        let ghost line = cur@;
        done.push(cur);
        assert(texts_view(done@) =~= before + seq![line]);
    } else {
        assert(texts_view(done@) + Seq::<Seq<char>>::empty() =~= texts_view(done@));
    }
    done
}

/// The lines joined with newlines between them.
pub(crate) fn join(ls: &Vec<Vec<char>>) -> (r: String)
    ensures
        r@ == join_lines(texts_view(ls@)),
{
    let ghost all = texts_view(ls@);
    let mut r = String::new();
    let mut k: usize = 0;
    while k < ls.len()
        invariant
            k <= ls@.len(),
            all == texts_view(ls@),
            r@ == join_lines(all.subrange(0, k as int)),
        decreases ls@.len() - k,
    {
        assert(all.subrange(0, k + 1).drop_last() =~= all.subrange(0, k as int));
        assert(all.subrange(0, k + 1).last() == ls@[k as int]@);
        if k > 0 {
            push_char(&mut r, '\n');
        }
        let line = collect_range(&ls[k], 0, ls[k].len());
        assert(ls@[k as int]@.subrange(0, ls@[k as int]@.len() as int) =~= ls@[k as int]@);
        if k == 0 {
            assert(r@ =~= Seq::<char>::empty());
            assert(Seq::<char>::empty() + line@ =~= line@);
        }
        r.append(line.as_str());
        k = k + 1;
    }
    assert(all.subrange(0, all.len() as int) =~= all);
    r
}

/// The rest region transformed as the options ask.
fn transform_text(sorted: bool, reversed: bool, scope: Scope, rest: &String) -> (r: String)
    ensures
        r@ == transform(sorted, reversed, scope, rest@),
{
    let mut cs = chars_of(rest.as_str());
    match scope {
        Scope::Characters => {
            if sorted {
                let ghost before = cs@;
                sort_chars(&mut cs);
                proof {
                    lemma_char_le_total();
                    before.lemma_sort_by_ensures(char_le());
                    lemma_sorted_unique(cs@, before.sort_by(char_le()), char_le());
                }
            }
            if reversed {
                cs = reverse_vec(cs);
            }
            collect_range(&cs, 0, cs.len())
        },
        Scope::Lines => {
            let mut ls = split_lines(&cs);
            if sorted {
                let ghost before = texts_view(ls@);
                sort_texts(&mut ls);
                proof {
                    lemma_text_le_total();
                    before.lemma_sort_by_ensures(text_le());
                    lemma_sorted_unique(texts_view(ls@), before.sort_by(text_le()), text_le());
                }
            }
            if reversed {
                let ghost before = ls@;
                ls = reverse_vec(ls);
                assert(texts_view(ls@) =~= texts_view(before).reverse());
            }
            join(&ls)
        },
    }
}

/// What is sent for a transformed echo: see `deliver`.
fn deliver_text(from_self: bool, reply: String) -> (r: String)
    ensures
        r@ == deliver(from_self, reply@),
{
    let cs = chars_of(reply.as_str());
    if from_self && starts_with_text(&cs, "nom/echo") {
        String::from_str("nombot refuses to `nom/echo`-bomb this channel. :/")
    } else if cs.len() == 0 {
        String::from_str("nombot cannot send an empty message. :/")
    } else {
        reply
    }
}

impl EchoHandler {
    pub fn whatis(&self, name: &str) -> (r: String)
        ensures
            r@ == "Echo-back the rest-field"@,
    {
        String::from_str("Echo-back the rest-field")
    }

    /// The command names this handler answers to.
    pub fn register(&self) -> (r: Vec<&'static str>)
        ensures
            r@.len() == 1,
            r@[0]@ == "echo"@,
    {
        let mut r = Vec::new();
        r.push("echo");
        r
    }

    /// Reads the arguments of `echo` into what they ask for.
    pub fn plan(args: &Vec<Arg>) -> (r: EchoPlan)
        ensures
            r@ == read_echo_args(args_view(args@), unset()),
    {
        let ghost all = args_view(args@);
        let mut o = EchoOptions { sorted: None, reversed: None, scope: None };
        let mut k: usize = 0;
        assert(all.subrange(0, all.len() as int) =~= all);
        while k < args.len()
            invariant
                k <= args@.len(),
                all == args_view(args@),
                read_echo_args(all, unset()) == read_echo_args(
                    all.subrange(k as int, all.len() as int),
                    o,
                ),
            decreases args@.len() - k,
        {
            assert(all.subrange(k as int, all.len() as int).drop_first() =~= all.subrange(
                k + 1,
                all.len() as int,
            ));
            assert(all.subrange(k as int, all.len() as int)[0] == args@[k as int]@);
            match &args[k] {
                Arg::Pos(s) => {
                    let cs = chars_of(s.as_str());
                    if cs.len() >= 1 && cs[0] == '-' {
                        match apply_flags(&cs, o) {
                            Ok(o2) => {
                                o = o2;
                            },
                            Err(why) => return EchoPlan::Error { why },
                        }
                    } else if text_is(&cs, "help") {
                        return EchoPlan::Help;
                    } else {
                        return EchoPlan::Error {
                            why: String::from_str(
                                "does not accept non-flag positional arguments; use the rest-field instead.",
                            ),
                        };
                    }
                },
                Arg::Kw(k_text, v_text) => {
                    let kc = chars_of(k_text.as_str());
                    let vc = chars_of(v_text.as_str());
                    if text_is(&kc, "sorted") {
                        if o.sorted.is_some() {
                            return EchoPlan::Error { why: twice("sorted") };
                        }
                        match boolean_value(&vc) {
                            Some(b) => {
                                o = EchoOptions { sorted: Some(b), reversed: o.reversed, scope: o.scope };
                            },
                            None => return EchoPlan::Error { why: not_boolean("sorted") },
                        }
                    } else if text_is(&kc, "reversed") {
                        if o.reversed.is_some() {
                            return EchoPlan::Error { why: twice("reversed") };
                        }
                        match boolean_value(&vc) {
                            Some(b) => {
                                o = EchoOptions { sorted: o.sorted, reversed: Some(b), scope: o.scope };
                            },
                            None => return EchoPlan::Error { why: not_boolean("reversed") },
                        }
                    } else if text_is(&kc, "scope") {
                        if o.scope.is_some() {
                            return EchoPlan::Error { why: twice("scope") };
                        }
                        if text_is(&vc, "char") {
                            o = EchoOptions {
                                sorted: o.sorted,
                                reversed: o.reversed,
                                scope: Some(Scope::Characters),
                            };
                        } else if text_is(&vc, "line") {
                            o = EchoOptions {
                                sorted: o.sorted,
                                reversed: o.reversed,
                                scope: Some(Scope::Lines),
                            };
                        } else {
                            return EchoPlan::Error {
                                why: String::from_str("the 'scope' option has value 'char' or 'line'"),
                            };
                        }
                    } else {
                        let mut why = String::from_str("unrecognized option ");
                        let shown = debug_text(k_text.as_str());
                        why.append(shown.as_str());
                        why.append("; available options: sorted, reversed");
                        return EchoPlan::Error { why };
                    }
                },
            }
            k = k + 1;
        }
        let sorted = match o.sorted {
            Some(b) => b,
            None => false,
        };
        let reversed = match o.reversed {
            Some(b) => b,
            None => false,
        };
        let scope = match o.scope {
            Some(s) => s,
            None => Scope::Characters,
        };
        EchoPlan::Echo { sorted, reversed, scope }
    }

    /// The message sent in answer to `echo`; `from_self` tells whether the
    /// bot itself wrote the command.
    pub fn reply(&self, args: &Vec<Arg>, rest: &String, from_self: bool) -> (r: String)
        ensures
            r@ == echo_reply(args_view(args@), rest@, from_self),
    {
        match Self::plan(args) {
            EchoPlan::Error { why } => {
                let mut r = String::from_str("```echo: ");
                r.append(why.as_str());
                r.append("```");
                r
            },
            EchoPlan::Help => String::from_str(HELP_STR),
            EchoPlan::Echo { sorted, reversed, scope } => deliver_text(
                from_self,
                transform_text(sorted, reversed, scope, rest),
            ),
        }
    }
}

} // verus!
