use nombot::echo::{EchoHandler, HELP_STR};
use nombot::help::{right_pad, HelpHandler};
use nombot::nom::NomHandler;
use nombot::nom_args::{parse, Arg};

fn nom(line: &str) -> String {
    let c = parse(line).unwrap();
    NomHandler.reply(&c.args, &c.rest)
}

fn echo(line: &str, from_self: bool) -> String {
    let c = parse(line).unwrap();
    EchoHandler.reply(&c.args, &c.rest, from_self)
}

#[test]
fn nom_levels() {
    assert_eq!(nom("nom"), "nommers");
    assert_eq!(nom("nom !"), "nommers!");
    assert_eq!(nom("nom !!"), "NOMMERS!!!");
    assert_eq!(
        nom("nom !!! !"),
        "nom-mers~\nnom-mers~\nnom-nom-nom-mers~\nnom-mers~\nnom-mers~\nnom-nom-nom-mers~"
    );
    assert_eq!(nom("nom ."), "nom.");
    assert_eq!(nom("nom ...."), ".");
}

#[test]
fn nom_refusals() {
    assert_eq!(nom("nom !."), "```\nnom: cannot have both `!`s and `.`s\n```");
    assert_eq!(nom("nom . !"), "```\nnom: cannot have both `!`s and `.`s\n```");
    assert_eq!(nom("nom !x"), "```\nnom: unrecognized character 'x'\n```");
    assert_eq!(nom("nom a=1"), "```\nnom: does not accept keyword arguments\n```");
    assert_eq!(nom("nom/hi"), "```\nnom: does not accept a rest-field\n```");
}

#[test]
fn echo_plain_and_sorted() {
    assert_eq!(echo("echo/Hello, world!", false), "Hello, world!");
    assert_eq!(echo("echo sorted=1/matthew", false), "aehmttw");
    assert_eq!(echo("echo -sr/matthew", false), "wttmhea");
    assert_eq!(echo("echo -R reversed=1/abc", false), "```echo: the 'reversed' option is set multiple times```");
    assert_eq!(echo("echo reversed=1/abc", false), "cba");
}

#[test]
fn echo_lines() {
    assert_eq!(echo("echo reversed=1 scope=line/Hello,\nworld!", false), "world!\nHello,");
    assert_eq!(
        echo("echo -srl/\nBananas\nApples\n\nCherries", false),
        "Cherries\nBananas\nApples"
    );
    assert_eq!(echo("echo -l/\nb\n\na\n", false), "b\na");
}

#[test]
fn echo_errors() {
    assert_eq!(
        echo("echo -x/abc", false),
        "```echo: unrecognized flag shorthand 'x'; available shorthands: sSrRlc```"
    );
    assert_eq!(
        echo("echo foo=1/abc", false),
        "```echo: unrecognized option \"foo\"; available options: sorted, reversed```"
    );
    assert_eq!(
        echo("echo -s sorted=1/abc", false),
        "```echo: the 'sorted' option is set multiple times```"
    );
    assert_eq!(echo("echo sorted=2/abc", false), "```echo: the 'sorted' option is boolean (0 or 1)```");
    assert_eq!(
        echo("echo scope=word/abc", false),
        "```echo: the 'scope' option has value 'char' or 'line'```"
    );
    assert_eq!(
        echo("echo hello/abc", false),
        "```echo: does not accept non-flag positional arguments; use the rest-field instead.```"
    );
}

#[test]
fn echo_help_and_guards() {
    assert_eq!(echo("echo help", false), HELP_STR);
    assert_eq!(echo("echo/", false), "nombot cannot send an empty message. :/");
    assert_eq!(
        echo("echo/nom/echo again", true),
        "nombot refuses to `nom/echo`-bomb this channel. :/"
    );
    assert_eq!(echo("echo/nom/echo again", false), "nom/echo again");
}

#[test]
fn right_pad_fills_to_width() {
    assert_eq!(right_pad("ab", 4), "ab  ");
    assert_eq!(right_pad("abcd", 2), "abcd");
    assert_eq!(right_pad("", 0), "");
}

#[test]
fn help_listing() {
    let entries = vec![
        ("nom".to_string(), "N".to_string()),
        ("h".to_string(), "H".to_string()),
        ("echo".to_string(), "E".to_string()),
    ];
    assert_eq!(
        HelpHandler.reply(&vec![], &String::new(), &entries),
        "```\necho - E\nh    - H\nnom  - N\n```"
    );
    assert_eq!(HelpHandler.reply(&vec![], &String::new(), &vec![]), "There is no help. (???)");
    assert_eq!(
        HelpHandler.reply(&vec![Arg::Pos("x".into())], &String::new(), &entries),
        "```\nhelp: does not accept arguments (yet)\n```"
    );
    assert_eq!(
        HelpHandler.reply(&vec![], &"r".to_string(), &entries),
        "```\nhelp: does not accept a rest-field\n```"
    );
}

#[test]
fn handler_names_and_descriptions() {
    assert_eq!(HelpHandler.register(), vec!["help", "h"]);
    assert_eq!(HelpHandler.whatis("h"), "Alias of `help`");
    assert_eq!(HelpHandler.whatis("help"), "Print all existing commands");
    assert_eq!(EchoHandler.register(), vec!["echo"]);
    assert_eq!(NomHandler.register(), vec!["nom"]);
    assert_eq!(EchoHandler.whatis("echo"), "Echo-back the rest-field");
}

#[test]
fn right_pad_counts_bytes() {
    assert_eq!(right_pad("\u{e9}", 3), "\u{e9} ");
    assert_eq!(right_pad("\u{e9}", 2), "\u{e9}");
}

#[test]
fn help_listing_pads_by_bytes() {
    let entries = vec![
        ("\u{e9}".to_string(), "E".to_string()),
        ("abc".to_string(), "A".to_string()),
    ];
    assert_eq!(
        HelpHandler.reply(&vec![], &String::new(), &entries),
        "```\nabc - A\n\u{e9}  - E\n```"
    );
}
