//! The token model: a class, the literal text and the place where it starts.

use vstd::prelude::*;
use crate::text::{colored, colorize, decimal, push_decimal};

verus! {

/// The lexical category of a token.
#[derive(Clone, Copy, Debug, PartialEq, Eq, Structural)]
pub enum Class {
    Identifier,
    Keyword,
    String,
    Number,
    Boolean,
    LeftBrace,
    RightBrace,
    LeftBrack,
    RightBrack,
    LeftParen,
    RightParen,
    Dot,
    Comma,
    Semi,
    Colon,
    Operator,
    Comparator,
    Assign,
    Arrow,
    Logic,
    Eof,
    Bang,
}

/// What a hyphenated, lower-case rendering makes of a name written in camel
/// case. The rendering is done by `lorust::kebab_case`.
pub uninterp spec fn kebab_case_text(s: Seq<char>) -> Seq<char>;

/// Calls `lorust::kebab_case`, which trims, hyphenates word boundaries and
/// lower-cases its argument; the result depends on the argument alone.
#[verifier::external_body]
fn kebab(s: String) -> (r: String)
    ensures
        r@ == kebab_case_text(s@),
{
    lorust::kebab_case(s)
}

impl Class {
    /// The class's name as it is written in the source of this enum.
    pub open spec fn variant_name(self) -> Seq<char> {
        match self {
            Class::Identifier => "Identifier"@,
            Class::Keyword => "Keyword"@,
            Class::String => "String"@,
            Class::Number => "Number"@,
            Class::Boolean => "Boolean"@,
            Class::LeftBrace => "LeftBrace"@,
            Class::RightBrace => "RightBrace"@,
            Class::LeftBrack => "LeftBrack"@,
            Class::RightBrack => "RightBrack"@,
            Class::LeftParen => "LeftParen"@,
            Class::RightParen => "RightParen"@,
            Class::Dot => "Dot"@,
            Class::Comma => "Comma"@,
            Class::Semi => "Semi"@,
            Class::Colon => "Colon"@,
            Class::Operator => "Operator"@,
            Class::Comparator => "Comparator"@,
            Class::Assign => "Assign"@,
            Class::Arrow => "Arrow"@,
            Class::Logic => "Logic"@,
            Class::Eof => "Eof"@,
            Class::Bang => "Bang"@,
        }
    }

    /// The name shown in diagnostics: the variant's name in kebab case.
    pub open spec fn display(self) -> Seq<char> {
        kebab_case_text(self.variant_name())
    }

    fn variant(self) -> (r: &'static str)
        ensures
            r@ == self.variant_name(),
    {
        match self {
            Class::Identifier => "Identifier",
            Class::Keyword => "Keyword",
            Class::String => "String",
            Class::Number => "Number",
            Class::Boolean => "Boolean",
            Class::LeftBrace => "LeftBrace",
            Class::RightBrace => "RightBrace",
            Class::LeftBrack => "LeftBrack",
            Class::RightBrack => "RightBrack",
            Class::LeftParen => "LeftParen",
            Class::RightParen => "RightParen",
            Class::Dot => "Dot",
            Class::Comma => "Comma",
            Class::Semi => "Semi",
            Class::Colon => "Colon",
            Class::Operator => "Operator",
            Class::Comparator => "Comparator",
            Class::Assign => "Assign",
            Class::Arrow => "Arrow",
            Class::Logic => "Logic",
            Class::Eof => "Eof",
            Class::Bang => "Bang",
        }
    }

    /// The name shown in diagnostics, such as `left-brace`.
    pub fn name(self) -> (r: String)
        ensures
            r@ == self.display(),
    {
        kebab(crate::text::owned(self.variant()))
    }
}

/// A token as a mathematical value.
pub struct TokenView {
    pub class: Class,
    pub text: Seq<char>,
    pub line: nat,
    pub column: nat,
}

/// The smallest classified unit of source text. `index` holds the line and
/// the column, both counted from 1, at which the token starts.
#[derive(Clone, Debug)]
pub struct Token {
    pub class: Class,
    pub value: String,
    pub index: [usize; 2],
}

impl View for Token {
    type V = TokenView;

    open spec fn view(&self) -> TokenView {
        TokenView {
            class: self.class,
            text: self.value@,
            line: self.index@[0] as nat,
            column: self.index@[1] as nat,
        }
    }
}

impl Token {
    /// A token of the given class and text that starts at the given place.
    pub fn new(class: Class, value: String, index: [usize; 2]) -> (t: Token)
        ensures
            t.class == class,
            t.value == value,
            t.index == index,
    {
        Token { class, value, index }
    }

    /// A copy with the same class, text and place.
    pub fn duplicate(&self) -> (t: Token)
        ensures
            t@ == self@,
            t.index == self.index,
    {
        Token { class: self.class, value: self.value.clone(), index: self.index }
    }

    /// The place of a token in the form `[line:column]`.
    pub open spec fn place(t: TokenView) -> Seq<char> {
        seq!['['] + decimal(t.line) + seq![':'] + decimal(t.column) + seq![']']
    }

    /// The whole token in the form `{ class: .., value: .., index: [l, c] }`.
    pub open spec fn rendering(t: TokenView) -> Seq<char> {
        "{ class: "@ + t.class.display() + ", value: "@ + t.text + ", index: ["@ + decimal(
            t.line,
        ) + ", "@ + decimal(t.column) + "] }"@
    }

    /// The place of the token, set off for a terminal.
    pub fn index(&self) -> (r: String)
        ensures
            r@ == colored(Self::place(self@), 1),
    {
        let mut r = String::new();
        r.push('[');
        push_decimal(&mut r, self.index[0]);
        r.push(':');
        push_decimal(&mut r, self.index[1]);
        r.push(']');
        assert(r@ =~= Self::place(self@));
        colorize(r.as_str(), 1)
    }

    /// The whole token as text, with the class by its shown name.
    pub fn to_string(&self) -> (r: String)
        ensures
            r@ == Self::rendering(self@),
    {
        let mut r = String::new();
        r.push_str("{ class: ");
        let name = self.class.name();
        r.push_str(name.as_str());
        r.push_str(", value: ");
        r.push_str(self.value.as_str());
        r.push_str(", index: [");
        push_decimal(&mut r, self.index[0]);
        r.push_str(", ");
        push_decimal(&mut r, self.index[1]);
        r.push_str("] }");
        assert(r@ =~= Self::rendering(self@));
        r
    }
}

} // verus!
