//! The help command: a listing of every command name with its description.
use vstd::prelude::*;
use vstd::seq_lib::lemma_sorted_unique;
use vstd::utf8::encode_utf8;
use crate::grammar::ArgView;
use crate::nom_args::{Arg, args_view};
use crate::echo::{join_lines, join};
use crate::text::{push_char, text_le, texts_view, chars_of, sort_texts, collect_range, lemma_text_le_total};

verus! {

/// Replies to the `help` command and its alias `h`.
pub struct HelpHandler;

/// The length of `s` in UTF-8 bytes.
pub open spec fn byte_len(s: Seq<char>) -> int {
    encode_utf8(s).len() as int
}

/// `s` followed by spaces up to a length of `n` UTF-8 bytes.
pub open spec fn pad(s: Seq<char>, n: int) -> Seq<char> {
    if byte_len(s) < n {
        s + Seq::new((n - byte_len(s)) as nat, |i: int| ' ')
    } else {
        s
    }
}

/// `s` followed by spaces up to a length of `n` UTF-8 bytes.
pub fn right_pad(s: &str, n: usize) -> (r: String)
    ensures
        r@ == pad(s@, n as int),
{
    let mut r = String::from_str(s);
    let m = s.as_bytes_vec().len();
    if m >= n {
        return r;
    }
    let mut i: usize = m;
    assert(r@ =~= s@ + Seq::new(0, |j: int| ' '));
    while i < n
        invariant
            m == byte_len(s@),
            m <= i <= n,
            r@ == s@ + Seq::new((i - m) as nat, |j: int| ' '),
        decreases n - i,
    {
        push_char(&mut r, ' ');
        i = i + 1;
        assert(r@ =~= s@ + Seq::new((i - m) as nat, |j: int| ' '));
    }
    r
}

/// The views of (name, description) pairs.
pub open spec fn entries_view(entries: Seq<(String, String)>) -> Seq<(Seq<char>, Seq<char>)> {
    entries.map_values(|e: (String, String)| (e.0@, e.1@))
}

/// The description given for `k` first among `entries`; empty if none.
pub open spec fn describe(entries: Seq<(Seq<char>, Seq<char>)>, k: Seq<char>) -> Seq<char>
    decreases entries.len(),
{
    if entries.len() == 0 {
        Seq::empty()
    } else if entries[0].0 == k {
        entries[0].1
    } else {
        describe(entries.drop_first(), k)
    }
}

/// The UTF-8 length of the longest of `keys`; zero if there are none.
pub open spec fn widest(keys: Seq<Seq<char>>) -> int
    decreases keys.len(),
{
    if keys.len() == 0 {
        0
    } else {
        let w = widest(keys.drop_last());
        if byte_len(keys.last()) > w {
            byte_len(keys.last())
        } else {
            w
        }
    }
}

/// The names of `entries`, in lexicographic order.
pub open spec fn sorted_names(entries: Seq<(Seq<char>, Seq<char>)>) -> Seq<Seq<char>> {
    entries.map_values(|e: (Seq<char>, Seq<char>)| e.0).sort_by(text_le())
}

/// One line per name: the name padded to the widest, then its description.
pub open spec fn listing_lines(entries: Seq<(Seq<char>, Seq<char>)>) -> Seq<Seq<char>> {
    let names = sorted_names(entries);
    names.map_values(
        |k: Seq<char>| pad(k, widest(names)) + " - "@ + describe(entries, k),
    )
}

/// The reply to `help`, given each command's name and description.
pub open spec fn help_reply(
    args: Seq<ArgView>,
    rest: Seq<char>,
    entries: Seq<(Seq<char>, Seq<char>)>,
) -> Seq<char> {
    if args.len() != 0 {
        "```\nhelp: does not accept arguments (yet)\n```"@
    } else if rest.len() != 0 {
        "```\nhelp: does not accept a rest-field\n```"@
    } else if entries.len() == 0 {
        "There is no help. (???)"@
    } else {
        "```\n"@ + join_lines(listing_lines(entries)) + "\n```"@
    }
}

/// Whether `a` and `b` hold the same characters.
fn same_chars(a: &Vec<char>, b: &Vec<char>) -> (r: bool)
    ensures
        r == (a@ == b@),
{
    if a.len() != b.len() {
        return false;
    }
    let mut i: usize = 0;
    while i < a.len()
        invariant
            i <= a@.len(),
            a@.len() == b@.len(),
            forall|j: int| 0 <= j < i ==> a@[j] == b@[j],
        decreases a@.len() - i,
    {
        if a[i] != b[i] {
            return false;
        }
        i = i + 1;
    }
    assert(a@ =~= b@);
    true
}

/// The description that `entries` gives first for `k`.
fn lookup(entries: &Vec<(String, String)>, k: &Vec<char>) -> (r: String)
    ensures
        r@ == describe(entries_view(entries@), k@),
{
    let ghost all = entries_view(entries@);
    let mut i: usize = 0;
    assert(all.subrange(0, all.len() as int) =~= all);
    while i < entries.len()
        invariant
            i <= entries@.len(),
            all == entries_view(entries@),
            describe(all, k@) == describe(all.subrange(i as int, all.len() as int), k@),
        decreases entries@.len() - i,
    {
        let ghost tail = all.subrange(i as int, all.len() as int);
        assert(tail[0] == (entries@[i as int].0@, entries@[i as int].1@));
        assert(tail.drop_first() =~= all.subrange(i + 1, all.len() as int));
        let name = chars_of(entries[i].0.as_str());
        if same_chars(&name, k) {
            return entries[i].1.clone();
        }
        i = i + 1;
    }
    String::new()
}

/// Appends the characters of `s` to `v`.
fn extend_chars(v: &mut Vec<char>, s: &str)
    ensures
        final(v)@ == old(v)@ + s@,
{
    let cs = chars_of(s);
    let mut i: usize = 0;
    while i < cs.len()
        invariant
            i <= cs@.len(),
            cs@ == s@,
            v@ == old(v)@ + cs@.subrange(0, i as int),
        decreases cs@.len() - i,
    {
        v.push(cs[i]);
        i = i + 1;
        assert(v@ =~= old(v)@ + cs@.subrange(0, i as int));
    }
    assert(cs@.subrange(0, cs@.len() as int) =~= cs@);
}

/// The names of `entries`, in lexicographic order.
fn names_in_order(entries: &Vec<(String, String)>) -> (r: Vec<Vec<char>>)
    ensures
        texts_view(r@) == sorted_names(entries_view(entries@)),
{
    let ghost names = entries_view(entries@).map_values(|e: (Seq<char>, Seq<char>)| e.0);
    let mut keys: Vec<Vec<char>> = Vec::new();
    let mut i: usize = 0;
    while i < entries.len()
        invariant
            i <= entries@.len(),
            names == entries_view(entries@).map_values(|e: (Seq<char>, Seq<char>)| e.0),
            texts_view(keys@) == names.subrange(0, i as int),
        decreases entries@.len() - i,
    {
        let key = chars_of(entries[i].0.as_str());
        assert(key@ == names[i as int]);
        let ghost before = keys@;
        keys.push(key);
        assert(texts_view(keys@) =~= texts_view(before).push(names[i as int]));
        assert(names.subrange(0, i as int).push(names[i as int]) =~= names.subrange(0, i + 1));
        i = i + 1;
    }
    assert(names.subrange(0, names.len() as int) =~= names);
    sort_texts(&mut keys);
    proof {
        lemma_text_le_total();
        names.lemma_sort_by_ensures(text_le());
        lemma_sorted_unique(texts_view(keys@), names.sort_by(text_le()), text_le());
    }
    keys
}

impl HelpHandler {
    pub fn whatis(&self, name: &str) -> (r: String)
        ensures
            r@ == (if name@ == "h"@ {
                "Alias of `help`"@
            } else {
                "Print all existing commands"@
            }),
    {
        let cs = chars_of(name);
        let h = chars_of("h");
        if same_chars(&cs, &h) {
            String::from_str("Alias of `help`")
        } else {
            String::from_str("Print all existing commands")
        }
    }

    /// The command names this handler answers to.
    pub fn register(&self) -> (r: Vec<&'static str>)
        ensures
            r@.len() == 2,
            r@[0]@ == "help"@,
            r@[1]@ == "h"@,
    {
        let mut r = Vec::new();
        r.push("help");
        r.push("h");
        r
    }

    /// The reply to `help`, given each command's name and description.
    pub fn reply(&self, args: &Vec<Arg>, rest: &String, entries: &Vec<(String, String)>) -> (r:
        String)
        ensures
            r@ == help_reply(args_view(args@), rest@, entries_view(entries@)),
    {
        if args.len() != 0 {
            return String::from_str("```\nhelp: does not accept arguments (yet)\n```");
        }
        if rest.as_str().unicode_len() != 0 {
            return String::from_str("```\nhelp: does not accept a rest-field\n```");
        }
        if entries.len() == 0 {
            return String::from_str("There is no help. (???)");
        }
        let names = names_in_order(entries);
        let ghost nv = texts_view(names@);
        let mut width: usize = 0;
        let mut i: usize = 0;
        while i < names.len()
            invariant
                i <= names@.len(),
                nv == texts_view(names@),
                width as int == widest(nv.subrange(0, i as int)),
            decreases names@.len() - i,
        {
            assert(nv.subrange(0, i + 1).drop_last() =~= nv.subrange(0, i as int));
            let name = collect_range(&names[i], 0, names[i].len());
            assert(names@[i as int]@.subrange(0, names@[i as int]@.len() as int) =~= names@[i as int]@);
            let size = name.as_str().as_bytes_vec().len();
            if size > width {
                width = size;
            }
            i = i + 1;
        }
        assert(nv.subrange(0, nv.len() as int) =~= nv);
        let ghost want = listing_lines(entries_view(entries@));
        let mut lines: Vec<Vec<char>> = Vec::new();
        let mut k: usize = 0;
        while k < names.len()
            invariant
                k <= names@.len(),
                nv == texts_view(names@),
                width as int == widest(nv),
                want == listing_lines(entries_view(entries@)),
                nv == sorted_names(entries_view(entries@)),
                texts_view(lines@) == want.subrange(0, k as int),
            decreases names@.len() - k,
        {
            let name = collect_range(&names[k], 0, names[k].len());
            assert(names@[k as int]@.subrange(0, names@[k as int]@.len() as int) =~= names@[k as int]@);
            let padded = right_pad(name.as_str(), width);
            let mut line = chars_of(padded.as_str());
            extend_chars(&mut line, " - ");
            let d = lookup(entries, &names[k]);
            extend_chars(&mut line, d.as_str());
            assert(want[k as int] == pad(nv[k as int], widest(nv)) + " - "@ + describe(
                entries_view(entries@),
                nv[k as int],
            ));
            assert(line@ == want[k as int]);
            let ghost before = lines@;
            let ghost lv = line@;
            lines.push(line);
            assert(texts_view(lines@) =~= texts_view(before).push(lv));
            assert(want.subrange(0, k as int).push(want[k as int]) =~= want.subrange(0, k + 1));
            k = k + 1;
        }
        assert(want.subrange(0, want.len() as int) =~= want);
        let mut r = String::from_str("```\n");
        let body = join(&lines);
        r.append(body.as_str());
        r.append("\n```");
        r
    }
}

} // verus!
