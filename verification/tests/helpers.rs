use minilang::token::{Class, Token};
use minilang::util::{split_chars, Colorize, Is, Split};

#[test]
fn token_is_class_text_or_both() {
    let t = Token::new(Class::Keyword, "set".to_string(), [1, 1]);
    assert!(t.is(Class::Keyword));
    assert!(!t.is(Class::Identifier));
    assert!(t.is("set"));
    assert!(!t.is("var"));
    assert!(t.is(("set", Class::Keyword)));
    assert!(!t.is(("set", Class::Identifier)));
    assert!(!t.is(("var", Class::Keyword)));
}

#[test]
fn values_are_set_off_by_their_text() {
    assert_eq!("error".colorize(31), "\x1b[31merror\x1b[0m");
    assert_eq!(String::from("x").colorize(4), "\x1b[4mx\x1b[0m");
    assert_eq!(12usize.colorize(36), "\x1b[36m12\x1b[0m");
    assert_eq!(Class::LeftParen.colorize(33), "\x1b[33mleft-paren\x1b[0m");
}

#[test]
fn split_keeps_empty_parts() {
    let parts = String::from("a,b,,c").split(',');
    assert_eq!(parts, vec!["a", "b", "", "c"]);
    assert_eq!(String::new().split(','), vec![""]);
    assert_eq!(String::from(",").split(','), vec!["", ""]);
    assert_eq!(split_chars("one\ntwo\n", '\n'), vec!["one", "two", ""]);
    assert_eq!(split_chars("h\u{e9}llo w\u{f6}rld", ' '), vec!["h\u{e9}llo", "w\u{f6}rld"]);
}
