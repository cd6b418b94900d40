use nombot::nom_args::{parse, Arg, Command, ParseError};

fn pos(v: &str) -> Arg {
    Arg::Pos(v.into())
}

fn kw(k: &str, v: &str) -> Arg {
    Arg::Kw(k.into(), v.into())
}

fn err(loc: usize, why: &str) -> ParseError {
    ParseError::new(loc, why.into())
}

#[test]
fn test_parse() {
    assert_eq!(
        parse("nom"),
        Ok(Command::new("nom".into(), vec![], "".into())),
    );
    assert_eq!(
        parse("clac -e/7 7 / 11 12 + +"),
        Ok(Command::new("clac".into(), vec![Arg::Pos("-e".into())], "7 7 / 11 12 + +".into())),
    );
    assert_eq!(
        parse("echo hello, world!"),
        Ok(Command::new(
            "echo".into(),
            vec![Arg::Pos("hello,".into()), Arg::Pos("world!".into())],
            "".into()
        )),
    );
    assert_eq!(
        parse("uwuify kaomoji-when=never/Euthanize me, sensei!"),
        Ok(Command::new(
            "uwuify".into(),
            vec![Arg::Kw("kaomoji-when".into(), "never".into())],
            "Euthanize me, sensei!".into()
        )),
    );
}

#[test]
fn empty_line_wants_an_identifier() {
    assert_eq!(
        parse(""),
        Err(err(0, "expected an identifier, which begins with [0-9A-Za-z_-]")),
    );
}

#[test]
fn naked_unsupported_escape() {
    assert_eq!(parse("cmd \\q"), Err(err(6, "unsupported escape sequence \\q")));
}

#[test]
fn name_then_spaces_then_rest() {
    assert_eq!(
        parse("cmd  \t/x y /z"),
        Ok(Command::new("cmd".into(), vec![], "x y /z".into())),
    );
    assert_eq!(parse("cmd/"), Ok(Command::new("cmd".into(), vec![], "".into())));
}

#[test]
fn trailing_whitespace_gives_empty_rest() {
    assert_eq!(parse("cmd a   "), Ok(Command::new("cmd".into(), vec![pos("a")], "".into())));
}

#[test]
fn naked_escapes_reproduce_structural_characters() {
    assert_eq!(
        parse("e a\\ b\\=c\\/d\\'e\\\"f\\\\g"),
        Ok(Command::new("e".into(), vec![pos("a b=c/d'e\"f\\g")], "".into())),
    );
}

#[test]
fn naked_rejects_newline_escape() {
    assert_eq!(
        parse("e a\\n"),
        Err(err(5, "\\n and \\t are only available in quoted strings")),
    );
}

#[test]
fn naked_missing_operand() {
    assert_eq!(parse("e a\\"), Err(err(4, "missing operand after escape character '\\'")));
}

#[test]
fn quoted_escapes() {
    assert_eq!(
        parse("e 'a\\nb\\tc\\'d\\\"e\\\\f' \"x y\""),
        Ok(Command::new("e".into(), vec![pos("a\nb\tc'd\"e\\f"), pos("x y")], "".into())),
    );
}

#[test]
fn quoted_rejects_escaped_space() {
    assert_eq!(
        parse("e 'a\\ b'"),
        Err(err(6, "\\(whitespace), \\=, and \\/ are only available in naked strings")),
    );
}

#[test]
fn quoted_unsupported_escape() {
    assert_eq!(parse("e \"\\q\""), Err(err(5, "unsupported escape sequence \\q")));
}

#[test]
fn unterminated_quote_is_an_error() {
    assert_eq!(parse("e 'abc"), Err(err(6, "unterminated quoted string")));
    assert_eq!(parse("e 'abc\\"), Err(err(7, "unterminated quoted string")));
}

#[test]
fn adjacent_literals_merge() {
    assert_eq!(
        parse("e \"ab\"cd'ef'"),
        Ok(Command::new("e".into(), vec![pos("abcdef")], "".into())),
    );
    assert_eq!(
        parse("e k=\"a b\"c/r"),
        Ok(Command::new("e".into(), vec![kw("k", "a bc")], "r".into())),
    );
}

#[test]
fn mixed_arguments_and_rest() {
    assert_eq!(
        parse("cmd a=1 b \"c d\"/r"),
        Ok(Command::new("cmd".into(), vec![kw("a", "1"), pos("b"), pos("c d")], "r".into())),
    );
}

#[test]
fn tie_prefers_bare_value_error() {
    assert_eq!(
        parse("e =x"),
        Err(err(2, "invalid character to appear in a naked string ('=')")),
    );
}

#[test]
fn further_bare_value_error_wins() {
    assert_eq!(parse("e k\\q"), Err(err(5, "unsupported escape sequence \\q")));
}

#[test]
fn given_up_key_value_error_is_remembered() {
    assert_eq!(parse("e k=\\q"), Err(err(6, "unsupported escape sequence \\q")));
}

#[test]
fn missing_separator() {
    assert_eq!(parse("cmd'a'"), Err(err(3, "expected whitespace")));
}

#[test]
fn offsets_count_characters() {
    assert_eq!(parse("e 'é\\q'"), Err(err(6, "unsupported escape sequence \\q")));
}

#[test]
fn unicode_whitespace_separates() {
    assert_eq!(
        parse("e\u{3000}x\u{a0}y"),
        Ok(Command::new("e".into(), vec![pos("x"), pos("y")], "".into())),
    );
}

#[test]
fn max_by_loc_keeps_further_error() {
    assert_eq!(err(4, "a").max_by_loc(err(3, "b")), err(4, "a"));
    assert_eq!(err(3, "a").max_by_loc(err(4, "b")), err(4, "b"));
    assert_eq!(err(3, "a").max_by_loc(err(3, "b")), err(3, "b"));
}

#[test]
fn error_accessors() {
    let e = err(7, "why");
    assert_eq!(e.loc(), 7);
    assert_eq!(e.why(), "why");
}

#[test]
fn error_message_and_reply() {
    assert_eq!(err(12, "why").message(), "At position 12 after prefix: why");
    assert_eq!(err(0, "x").message(), "At position 0 after prefix: x");
    assert_eq!(
        parse("").unwrap_err().reply(),
        "```\nAt position 0 after prefix: expected an identifier, which begins with [0-9A-Za-z_-]\n```"
    );
}

#[test]
fn unknown_command_reply() {
    let c = parse("frob x").unwrap();
    assert_eq!(c.unknown_reply(), "```\nCommand \"frob\" does not exist\n```");
}
