//! The enthusiasm meter: `!` raises it, `.` lowers it.
use vstd::prelude::*;
use crate::grammar::ArgView;
use crate::nom_args::{Arg, args_view};
use crate::text::{char_debug, chars_of, debug_char};

verus! {

/// Replies to the `nom` command.
pub struct NomHandler;

/// What reading the arguments' marks came to.
pub enum MarksView {
    Counts(nat, nat),
    Conflict,
    Unrecognized(char),
    Keyword,
}

/// Reads the marks of `cs`, starting from `ups` raises and `downs`
/// lowerings; raises stop at three and lowerings at two.
pub open spec fn read_marks(cs: Seq<char>, ups: nat, downs: nat) -> MarksView
    decreases cs.len(),
{
    if cs.len() == 0 {
        MarksView::Counts(ups, downs)
    } else if cs[0] == '!' {
        if downs != 0 {
            MarksView::Conflict
        } else {
            read_marks(cs.drop_first(), if ups < 3 { ups + 1 } else { 3 }, downs)
        }
    } else if cs[0] == '.' {
        if ups != 0 {
            MarksView::Conflict
        } else {
            read_marks(cs.drop_first(), ups, if downs < 2 { downs + 1 } else { 2 })
        }
    } else {
        MarksView::Unrecognized(cs[0])
    }
}

/// Reads the marks of every argument in turn; keyword arguments are refused.
pub open spec fn read_args(args: Seq<ArgView>, ups: nat, downs: nat) -> MarksView
    decreases args.len(),
{
    if args.len() == 0 {
        MarksView::Counts(ups, downs)
    } else {
        match args[0] {
            ArgView::Kw(_, _) => MarksView::Keyword,
            ArgView::Pos(s) => match read_marks(s, ups, downs) {
                MarksView::Counts(u, d) => read_args(args.drop_first(), u, d),
                other => other,
            },
        }
    }
}

pub open spec fn level_text(level: int) -> Seq<char> {
    if level == 0 {
        "."@
    } else if level == 1 {
        "nom."@
    } else if level == 2 {
        "nommers"@
    } else if level == 3 {
        "nommers!"@
    } else if level == 4 {
        "NOMMERS!!!"@
    } else {
        "nom-mers~\nnom-mers~\nnom-nom-nom-mers~\nnom-mers~\nnom-mers~\nnom-nom-nom-mers~"@
    }
}

/// The reply to `nom` with these arguments and rest region.
pub open spec fn nom_reply(args: Seq<ArgView>, rest: Seq<char>) -> Seq<char> {
    if rest.len() != 0 {
        "```\nnom: does not accept a rest-field\n```"@
    } else {
        match read_args(args, 0, 0) {
            MarksView::Counts(u, d) => level_text(2 - d + u),
            MarksView::Conflict => "```\nnom: cannot have both `!`s and `.`s\n```"@,
            MarksView::Unrecognized(c) => "```\nnom: unrecognized character "@ + char_debug(c)
                + "\n```"@,
            MarksView::Keyword => "```\nnom: does not accept keyword arguments\n```"@,
        }
    }
}

/// The counts of raises and lowerings read so far, or why reading stopped.
enum Marks {
    Counts(u32, u32),
    Conflict,
    Unrecognized(char),
    Keyword,
}

spec fn marks_view(m: Marks) -> MarksView {
    match m {
        Marks::Counts(u, d) => MarksView::Counts(u as nat, d as nat),
        Marks::Conflict => MarksView::Conflict,
        Marks::Unrecognized(c) => MarksView::Unrecognized(c),
        Marks::Keyword => MarksView::Keyword,
    }
}

fn count_marks(s: &String, from_ups: u32, from_downs: u32) -> (r: Marks)
    requires
        from_ups <= 3,
        from_downs <= 2,
    ensures
        marks_view(r) == read_marks(s@, from_ups as nat, from_downs as nat),
        r matches Marks::Counts(u, d) ==> u <= 3 && d <= 2,
{
    let cs = chars_of(s.as_str());
    let ghost whole = read_marks(s@, from_ups as nat, from_downs as nat);
    let mut ups = from_ups;
    let mut downs = from_downs;
    let mut i: usize = 0;
    assert(cs@.subrange(0, cs@.len() as int) =~= cs@);
    while i < cs.len()
        invariant
            i <= cs@.len(),
            ups <= 3,
            downs <= 2,
            cs@ == s@,
            whole == read_marks(s@, from_ups as nat, from_downs as nat),
            whole == read_marks(cs@.subrange(i as int, cs@.len() as int), ups as nat, downs as nat),
        decreases cs@.len() - i,
    {
        let c = cs[i];
        assert(cs@.subrange(i as int, cs@.len() as int)[0] == c);
        assert(cs@.subrange(i as int, cs@.len() as int).drop_first() =~= cs@.subrange(
            i + 1,
            cs@.len() as int,
        ));
        if c == '!' {
            if downs != 0 {
                return Marks::Conflict;
            }
            if ups < 3 {
                ups = ups + 1;
            }
        } else if c == '.' {
            if ups != 0 {
                return Marks::Conflict;
            }
            if downs < 2 {
                downs = downs + 1;
            }
        } else {
            return Marks::Unrecognized(c);
        }
        i = i + 1;
    }
    Marks::Counts(ups, downs)
}

fn count_args(args: &Vec<Arg>) -> (r: Marks)
    ensures
        marks_view(r) == read_args(args_view(args@), 0, 0),
        r matches Marks::Counts(u, d) ==> u <= 3 && d <= 2,
{
    let ghost all = args_view(args@);
    let mut ups: u32 = 0;
    let mut downs: u32 = 0;
    let mut k: usize = 0;
    assert(all.subrange(0, all.len() as int) =~= all);
    while k < args.len()
        invariant
            k <= args@.len(),
            all == args_view(args@),
            ups <= 3,
            downs <= 2,
            read_args(all, 0, 0) == read_args(
                all.subrange(k as int, all.len() as int),
                ups as nat,
                downs as nat,
            ),
        decreases args@.len() - k,
    {
        assert(all.subrange(k as int, all.len() as int).drop_first() =~= all.subrange(
            k + 1,
            all.len() as int,
        ));
        assert(all.subrange(k as int, all.len() as int)[0] == args@[k as int]@);
        match &args[k] {
            Arg::Kw(_, _) => return Marks::Keyword,
            Arg::Pos(s) => match count_marks(s, ups, downs) {
                Marks::Counts(u, d) => {
                    ups = u;
                    downs = d;
                },
                other => return other,
            },
        }
        k = k + 1;
    }
    Marks::Counts(ups, downs)
}

impl NomHandler {
    pub fn whatis(&self, name: &str) -> (r: String)
        ensures
            r@ == "Nommers. ('!' for more enthusiasm, '.' for less)"@,
    {
        String::from_str("Nommers. ('!' for more enthusiasm, '.' for less)")
    }

    /// The command names this handler answers to.
    pub fn register(&self) -> (r: Vec<&'static str>)
        ensures
            r@.len() == 1,
            r@[0]@ == "nom"@,
    {
        let mut r = Vec::new();
        r.push("nom");
        r
    }

    /// The reply to `nom` with these arguments and rest region.
    pub fn reply(&self, args: &Vec<Arg>, rest: &String) -> (r: String)
        ensures
            r@ == nom_reply(args_view(args@), rest@),
    {
        if rest.as_str().unicode_len() != 0 {
            return String::from_str("```\nnom: does not accept a rest-field\n```");
        }
        match count_args(args) {
            Marks::Counts(u, d) => {
                let level = 2 + u - d;
                if level == 0 {
                    String::from_str(".")
                } else if level == 1 {
                    String::from_str("nom.")
                } else if level == 2 {
                    String::from_str("nommers")
                } else if level == 3 {
                    String::from_str("nommers!")
                } else if level == 4 {
                    String::from_str("NOMMERS!!!")
                } else {
                    String::from_str(
                        "nom-mers~\nnom-mers~\nnom-nom-nom-mers~\nnom-mers~\nnom-mers~\nnom-nom-nom-mers~",
                    )
                }
            },
            Marks::Conflict => String::from_str("```\nnom: cannot have both `!`s and `.`s\n```"),
            Marks::Unrecognized(c) => {
                let mut r = String::from_str("```\nnom: unrecognized character ");
                let shown = debug_char(c);
                r.append(shown.as_str());
                r.append("\n```");
                r
            },
            Marks::Keyword => String::from_str("```\nnom: does not accept keyword arguments\n```"),
        }
    }
}

} // verus!
