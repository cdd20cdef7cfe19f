use minilang::lexer::{quote, LexErrorKind, LexReport, Lexed, Lexer};
use minilang::text::push_decimal;
use minilang::token::{Class, Token};

fn lex(source: &str) -> Result<Lexed, Vec<LexReport>> {
    Lexer::init("demo.src".to_string(), source.to_string()).tokenize()
}

fn shape(tokens: &[Token]) -> Vec<(Class, String, usize, usize)> {
    tokens.iter().map(|t| (t.class, t.value.clone(), t.index[0], t.index[1])).collect()
}

fn entry(class: Class, text: &str, line: usize, column: usize) -> (Class, String, usize, usize) {
    (class, text.to_string(), line, column)
}

#[test]
fn tokenizes_a_set_statement() {
    let lexed = lex("set x = 5;").unwrap();
    assert!(lexed.reports.is_empty());
    assert_eq!(
        shape(&lexed.tokens),
        vec![
            entry(Class::Keyword, "set", 1, 1),
            entry(Class::Identifier, "x", 1, 5),
            entry(Class::Assign, "=", 1, 7),
            entry(Class::Number, "5", 1, 9),
            entry(Class::Semi, ";", 1, 10),
            entry(Class::Eof, "\0", 1, 11),
        ]
    );
}

#[test]
fn unterminated_string_gives_up() {
    let reports = lex("\"abc").unwrap_err();
    assert_eq!(reports.len(), 1);
    assert_eq!(reports[0].kind, LexErrorKind::Unterminated);
    assert_eq!(
        reports[0].render("demo.src"),
        "error[L03]: Unterminated string or comment  demo.src[1:5]"
    );
}

#[test]
fn unterminated_string_after_tokens_yields_no_tokens() {
    let reports = lex("set x = \"abc").unwrap_err();
    assert_eq!(reports.len(), 1);
    assert_eq!(reports[0].kind, LexErrorKind::Unterminated);
    assert_eq!((reports[0].line, reports[0].column), (1, 13));
}

#[test]
fn one_decimal_point_is_a_number() {
    let lexed = lex("1.5").unwrap();
    assert!(lexed.reports.is_empty());
    assert_eq!(
        shape(&lexed.tokens),
        vec![entry(Class::Number, "1.5", 1, 1), entry(Class::Eof, "\0", 1, 4)]
    );
}

#[test]
fn later_decimal_points_are_reported_and_left_out() {
    let lexed = lex("1.2.3.4").unwrap();
    assert_eq!(
        shape(&lexed.tokens),
        vec![entry(Class::Number, "1.234", 1, 1), entry(Class::Eof, "\0", 1, 8)]
    );
    assert_eq!(lexed.reports.len(), 2);
    assert_eq!(lexed.reports[0].kind, LexErrorKind::InvalidNumber);
    assert_eq!((lexed.reports[0].line, lexed.reports[0].column), (1, 4));
    assert_eq!((lexed.reports[1].line, lexed.reports[1].column), (1, 6));
    assert_eq!(
        lexed.reports[0].render("demo.src"),
        "error[L04]: Invalid numerical format too many '.' found demo.src[1:4]"
    );
}

#[test]
fn words_are_classified() {
    let lexed = lex("fun set var if use yeild true false name x1").unwrap();
    let classes: Vec<Class> = lexed.tokens.iter().map(|t| t.class).collect();
    assert_eq!(
        classes,
        vec![
            Class::Keyword,
            Class::Keyword,
            Class::Keyword,
            Class::Keyword,
            Class::Keyword,
            Class::Keyword,
            Class::Boolean,
            Class::Boolean,
            Class::Identifier,
            Class::Identifier,
            Class::Eof,
        ]
    );
    assert_eq!(lexed.tokens[9].value, "x1");
}

#[test]
fn punctuation_maps_one_to_one() {
    let lexed = lex("[]{}().,:;+*/&|").unwrap();
    let classes: Vec<Class> = lexed.tokens.iter().map(|t| t.class).collect();
    assert_eq!(
        classes,
        vec![
            Class::LeftBrace,
            Class::RightBrace,
            Class::LeftBrack,
            Class::RightBrack,
            Class::LeftParen,
            Class::RightParen,
            Class::Dot,
            Class::Comma,
            Class::Colon,
            Class::Semi,
            Class::Operator,
            Class::Operator,
            Class::Operator,
            Class::Logic,
            Class::Logic,
            Class::Eof,
        ]
    );
    assert_eq!(lexed.tokens[3].value, "}");
    assert_eq!(lexed.tokens[3].index, [1, 4]);
}

#[test]
fn pairs_are_joined() {
    let lexed = lex("-> - <= < >= > != ! == =").unwrap();
    assert_eq!(
        shape(&lexed.tokens),
        vec![
            entry(Class::Arrow, "->", 1, 1),
            entry(Class::Operator, "-", 1, 4),
            entry(Class::Comparator, "<=", 1, 6),
            entry(Class::Comparator, "<", 1, 9),
            entry(Class::Comparator, ">=", 1, 11),
            entry(Class::Comparator, ">", 1, 14),
            entry(Class::Comparator, "!=", 1, 16),
            entry(Class::Bang, "!", 1, 19),
            entry(Class::Comparator, "==", 1, 21),
            entry(Class::Assign, "=", 1, 24),
            entry(Class::Eof, "\0", 1, 25),
        ]
    );
}

#[test]
fn a_pair_at_the_end_of_the_text_stays_single() {
    let lexed = lex("<").unwrap();
    assert_eq!(
        shape(&lexed.tokens),
        vec![entry(Class::Comparator, "<", 1, 1), entry(Class::Eof, "\0", 1, 2)]
    );
}

#[test]
fn string_escapes_are_resolved() {
    let lexed = lex("\"a\\n\\t\\\\\\\"b\"").unwrap();
    assert!(lexed.reports.is_empty());
    assert_eq!(lexed.tokens.len(), 2);
    assert_eq!(lexed.tokens[0].class, Class::String);
    assert_eq!(lexed.tokens[0].value, "a\n\t\\\"b");
    assert_eq!(lexed.tokens[0].index, [1, 1]);
}

#[test]
fn unknown_escape_is_reported_and_skipped() {
    let lexed = lex("\"a\\qb\" x").unwrap();
    assert_eq!(lexed.tokens[0].value, "ab");
    assert_eq!(lexed.tokens[1].value, "x");
    assert_eq!(lexed.reports.len(), 1);
    assert_eq!(lexed.reports[0].kind, LexErrorKind::InvalidEscape);
    assert_eq!(
        lexed.reports[0].render("demo.src"),
        "error[L06]: Invalid escape sequence '\\q' is not valid demo.src[1:4]"
    );
}

#[test]
fn backslash_at_the_end_is_reported_before_giving_up() {
    let reports = lex("\"a\\").unwrap_err();
    assert_eq!(reports.len(), 2);
    assert_eq!(reports[0].kind, LexErrorKind::InvalidEscape);
    assert_eq!(reports[1].kind, LexErrorKind::Unterminated);
}

#[test]
fn invalid_character_is_reported_and_passed() {
    let lexed = lex("x @ y").unwrap();
    assert_eq!(
        shape(&lexed.tokens),
        vec![
            entry(Class::Identifier, "x", 1, 1),
            entry(Class::Identifier, "y", 1, 5),
            entry(Class::Eof, "\0", 1, 6),
        ]
    );
    assert_eq!(lexed.reports.len(), 1);
    assert_eq!(lexed.reports[0].kind, LexErrorKind::InvalidCharacter);
    assert_eq!(
        lexed.reports[0].render("demo.src"),
        "error[L01]: Invalid character found '@' demo.src[1:3]"
    );
}

#[test]
fn newline_starts_the_next_line_in_column_one() {
    let lexed = lex("set a\nvar b\n\n  c").unwrap();
    assert_eq!(
        shape(&lexed.tokens),
        vec![
            entry(Class::Keyword, "set", 1, 1),
            entry(Class::Identifier, "a", 1, 5),
            entry(Class::Keyword, "var", 2, 1),
            entry(Class::Identifier, "b", 2, 5),
            entry(Class::Identifier, "c", 4, 3),
            entry(Class::Eof, "\0", 4, 4),
        ]
    );
}

#[test]
fn string_over_two_lines_keeps_its_start() {
    let lexed = lex("\"a\nb\" c").unwrap();
    assert_eq!(
        shape(&lexed.tokens),
        vec![
            entry(Class::String, "a\nb", 1, 1),
            entry(Class::Identifier, "c", 2, 4),
            entry(Class::Eof, "\0", 2, 5),
        ]
    );
}

#[test]
fn empty_text_is_the_sentinel_alone() {
    let lexed = lex("").unwrap();
    assert_eq!(shape(&lexed.tokens), vec![entry(Class::Eof, "\0", 1, 1)]);
    assert!(lexed.reports.is_empty());
}

#[test]
fn tokenizing_twice_gives_the_same() {
    let a = lex("if x(1) >= 2 [ set y = \"s\"; ]").unwrap();
    let b = lex("if x(1) >= 2 [ set y = \"s\"; ]").unwrap();
    assert_eq!(shape(&a.tokens), shape(&b.tokens));
    assert_eq!(a.tokens.last().unwrap().class, Class::Eof);
}

#[test]
fn class_names_are_kebab_case() {
    assert_eq!(Class::LeftBrace.name(), "left-brace");
    assert_eq!(Class::Identifier.name(), "identifier");
    assert_eq!(Class::Eof.name(), "eof");
    assert_eq!(Class::RightParen.name(), "right-paren");
}

#[test]
fn token_renders_place_and_whole() {
    let t = Token::new(Class::Keyword, "set".to_string(), [12, 3]);
    assert_eq!(t.index(), "\x1b[1m[12:3]\x1b[0m");
    let c = t.clone();
    assert_eq!((c.class, c.value.as_str(), c.index), (Class::Keyword, "set", [12, 3]));
    assert_eq!(t.to_string(), "{ class: keyword, value: set, index: [12, 3] }");
    let d = t.duplicate();
    assert_eq!((d.class, d.value.as_str(), d.index), (Class::Keyword, "set", [12, 3]));
}

#[test]
fn decimal_numerals() {
    let mut s = String::from("n=");
    push_decimal(&mut s, 0);
    s.push(',');
    push_decimal(&mut s, 7);
    s.push(',');
    push_decimal(&mut s, 10);
    s.push(',');
    push_decimal(&mut s, 4096);
    assert_eq!(s, "n=0,7,10,4096");
}

#[test]
fn error_codes_and_messages() {
    assert_eq!(LexErrorKind::InvalidCharacter.number(), 1);
    assert_eq!(LexErrorKind::UnexpectedEof.number(), 2);
    assert_eq!(LexErrorKind::Unterminated.number(), 3);
    assert_eq!(LexErrorKind::InvalidNumber.number(), 4);
    assert_eq!(LexErrorKind::UnclosedBrackets.number(), 5);
    assert_eq!(LexErrorKind::InvalidEscape.number(), 6);
    assert_eq!(LexErrorKind::UnexpectedEof.text(), "Unexpected EOF");
    assert_eq!(LexErrorKind::UnclosedBrackets.text(), "Unclosed brackets");
}

#[test]
fn every_byte_is_quoted_as_a_character_literal() {
    for b in 0u8..=255 {
        assert_eq!(quote(b), format!("{:?}", b as char), "byte {}", b);
    }
    assert_eq!(quote(9), "'\\t'");
    assert_eq!(quote(39), "'\\''");
    assert_eq!(quote(34), "'\"'");
    assert_eq!(quote(1), "'\\u{1}'");
    assert_eq!(quote(127), "'\\u{7f}'");
    assert_eq!(quote(64), "'@'");
}

#[test]
fn invalid_tab_is_reported_in_escaped_form() {
    let lexed = lex("x\ty").unwrap();
    assert_eq!(lexed.reports.len(), 1);
    assert_eq!(lexed.reports[0].kind, LexErrorKind::InvalidCharacter);
    assert_eq!(
        lexed.reports[0].render("demo.src"),
        "error[L01]: Invalid character found '\\t' demo.src[1:2]"
    );
    let other = lex("#\r").unwrap();
    assert_eq!(other.reports.len(), 2);
    assert_eq!(other.reports[0].detail, "'#'");
    assert_eq!(other.reports[1].detail, "'\\r'");
}
