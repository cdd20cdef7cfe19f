use minilang::grammar::{hint, pattern, row};
use minilang::lexer::Lexer;
use minilang::parser::{Parser, Rule};
use minilang::text::{colorize, digit_count, push_repeated};

#[test]
fn colorize_wraps_in_escape_sequences() {
    assert_eq!(colorize("info", 34), "\x1b[34minfo\x1b[0m");
    assert_eq!(colorize("", 0), "\x1b[0m\x1b[0m");
}

#[test]
fn hint_sets_one_slot_off() {
    assert_eq!(hint(Rule::SetAssign, 3), "set {name} = \x1b[7m{expr}\x1b[0m ;");
    assert_eq!(hint(Rule::Call, 0), "\x1b[7m{name}\x1b[0m ( {arguments} )");
    assert_eq!(hint(Rule::Block, 9), "[ {statements} ]");
}

#[test]
fn patterns_have_their_lengths() {
    assert_eq!(pattern(Rule::FunDef).len(), 10);
    assert_eq!(pattern(Rule::UseAlias), vec!["use", "{pacakge}", "as", "{alias}", ";"]);
    assert_eq!(pattern(Rule::Name), vec!["{identifier}"]);
}

#[test]
fn rows_are_counted_from_one() {
    let src = "first\nsecond\n\nfourth";
    assert_eq!(row(src, 0), "");
    assert_eq!(row(src, 1), "first");
    assert_eq!(row(src, 2), "second");
    assert_eq!(row(src, 3), "");
    assert_eq!(row(src, 4), "fourth");
    assert_eq!(row(src, 5), "");
    assert_eq!(row("\u{e9}t\u{e9}\n\u{4e2d}\u{6587}", 1), "\u{e9}t\u{e9}");
    assert_eq!(row("\u{e9}t\u{e9}\n\u{4e2d}\u{6587}", 2), "\u{4e2d}\u{6587}");
    assert_eq!(row("\u{e9}", 1).chars().count(), 1);
}

#[test]
fn digits_and_repeats() {
    assert_eq!(digit_count(0), 1);
    assert_eq!(digit_count(9), 1);
    assert_eq!(digit_count(10), 2);
    assert_eq!(digit_count(12345), 5);
    let mut s = String::from("a");
    push_repeated(&mut s, '~', 3);
    push_repeated(&mut s, ' ', 0);
    assert_eq!(s, "a~~~");
}

#[test]
fn syntactic_diagnostic_has_four_lines() {
    let source = "set x = 1;\nset yy 12;";
    let mut p = Parser::init(Lexer::init("demo.src".to_string(), source.to_string())).unwrap();
    let _ = p.scan_for_statements();
    assert_eq!(p.reports.len(), 2);
    let text = p.reports[0].render("demo.src", source);
    let expected = [
        "\x1b[31merror\x1b[0m:\x1b[36mparser\x1b[0m --> \x1b[4mdemo.src\x1b[1m[2:8]\x1b[0m\x1b[0m",
        "2 | set yy 12;",
        "  |        ^~ expected assign, got number",
        "  | \x1b[34minfo\x1b[0m: set {name} \x1b[7m=\x1b[0m {expr} ;",
    ]
    .join("\n");
    assert_eq!(text, expected);
    assert_eq!(p.reports[0].area("demo.src"), "\x1b[4mdemo.src\x1b[1m[2:8]\x1b[0m\x1b[0m");
}

#[test]
fn diagnostics_list_lexical_reports_first() {
    let source = "set x = 1..2 3";
    let mut p = Parser::init(Lexer::init("demo.src".to_string(), source.to_string())).unwrap();
    let _ = p.scan_for_statements();
    let lines = p.diagnostics();
    assert_eq!(lines.len(), 2);
    assert_eq!(
        lines[0],
        "error[L04]: Invalid numerical format too many '.' found demo.src[1:11]"
    );
    assert!(lines[1].contains("expected semi, got number"));
    assert_eq!(lines[1].lines().count(), 4);
    assert_eq!(p.fmt(Rule::Array, 1), "[ \x1b[7m{expression}\x1b[0m ]");
}
