//! Small helpers on tokens and text: comparing a token with a class or a
//! text, setting text off for a terminal, and splitting text at a character.

use vstd::prelude::*;
use vstd::std_specs::iter::IteratorSpec;
use vstd::string::next_post;
use crate::text::{colored, decimal, push_decimal, text_is};
use crate::token::{Class, Token};

verus! {

broadcast use vstd::string::group_string_axioms;

/// Text that can be set off for a terminal.
pub trait Colorize {
    /// The text as it is shown.
    spec fn shown(&self) -> Seq<char>;

    /// The text between the escape sequences of the style `num`.
    fn colorize(&self, num: u8) -> (r: String)
        ensures
            r@ == colored(self.shown(), num as nat),
    ;
}

impl Colorize for str {
    open spec fn shown(&self) -> Seq<char> {
        self@
    }

    fn colorize(&self, num: u8) -> (r: String) {
        crate::text::colorize(self, num)
    }
}

impl Colorize for String {
    open spec fn shown(&self) -> Seq<char> {
        self@
    }

    fn colorize(&self, num: u8) -> (r: String) {
        crate::text::colorize(self.as_str(), num)
    }
}

impl Colorize for usize {
    open spec fn shown(&self) -> Seq<char> {
        decimal(*self as nat)
    }

    fn colorize(&self, num: u8) -> (r: String) {
        let mut text = String::new();
        push_decimal(&mut text, *self);
        assert(text@ =~= decimal(*self as nat));
        crate::text::colorize(text.as_str(), num)
    }
}

impl Colorize for Class {
    open spec fn shown(&self) -> Seq<char> {
        self.display()
    }

    fn colorize(&self, num: u8) -> (r: String) {
        crate::text::colorize(self.name().as_str(), num)
    }
}

/// A test of a value against a pattern of type `X`.
pub trait Is<X> {
    /// What the test decides.
    spec fn matches_with(&self, rhs: X) -> bool;

    fn is(&self, rhs: X) -> (r: bool)
        ensures
            r == self.matches_with(rhs),
    ;
}

impl<'a> Is<(&'a str, Class)> for Token {
    /// The token has the class and the text.
    open spec fn matches_with(&self, rhs: (&'a str, Class)) -> bool {
        self.class == rhs.1 && self.value@ == rhs.0@
    }

    fn is(&self, rhs: (&'a str, Class)) -> (r: bool) {
        self.class == rhs.1 && text_is(&self.value, rhs.0)
    }
}

impl<'a> Is<&'a str> for Token {
    /// The token has the text.
    open spec fn matches_with(&self, rhs: &'a str) -> bool {
        self.value@ == rhs@
    }

    fn is(&self, rhs: &'a str) -> (r: bool) {
        text_is(&self.value, rhs)
    }
}

impl Is<Class> for Token {
    /// The token has the class.
    open spec fn matches_with(&self, rhs: Class) -> bool {
        self.class == rhs
    }

    fn is(&self, rhs: Class) -> (r: bool) {
        self.class == rhs
    }
}

/// The parts of `s` from character `i` on, after the finished parts `parts`
/// and the characters `part` of the part that is being read.
pub open spec fn split_from(
    s: Seq<char>,
    i: int,
    sep: char,
    parts: Seq<Seq<char>>,
    part: Seq<char>,
) -> Seq<Seq<char>>
    decreases s.len() - i,
{
    if !(0 <= i < s.len()) {
        parts.push(part)
    } else if s[i] == sep {
        split_from(s, i + 1, sep, parts.push(part), Seq::empty())
    } else {
        split_from(s, i + 1, sep, parts, part.push(s[i]))
    }
}

/// The parts of `s` between the occurrences of `sep`: one more than there are
/// occurrences, empty parts included.
pub open spec fn split_text(s: Seq<char>, sep: char) -> Seq<Seq<char>> {
    split_from(s, 0, sep, Seq::empty(), Seq::empty())
}

pub open spec fn string_views(v: Seq<String>) -> Seq<Seq<char>> {
    v.map_values(|s: String| s@)
}

/// Text that can be split at a character.
pub trait Split {
    /// The text that is split.
    spec fn whole(&self) -> Seq<char>;

    fn split(&self, seq: char) -> (r: Vec<String>)
        ensures
            string_views(r@) == split_text(self.whole(), seq),
    ;
}

/// Splits the text at every occurrence of `sep`.
pub fn split_chars(text: &str, sep: char) -> (r: Vec<String>)
    ensures
        string_views(r@) == split_text(text@, sep),
{
    let mut array: Vec<String> = Vec::new();
    let mut value = String::new();
    let mut rest = text.chars();
    let ghost mut i: int = 0;
    assert(string_views(array@) =~= Seq::empty());
    assert(rest.remaining() =~= text@.subrange(0, text@.len() as int));
    loop
        invariant_except_break
            0 <= i <= text@.len(),
            rest.remaining() == text@.subrange(i, text@.len() as int),
            split_from(text@, i, sep, string_views(array@), value@) == split_text(text@, sep),
        ensures
            string_views(array@).push(value@) == split_text(text@, sep),
        decreases text@.len() - i,
    {
        let ghost before = rest;
        let next = rest.next();
        assert(next_post(&before, &rest, next));
        match next {
            Some(c) => {
                assert(c == text@[i]);
                assert(rest.remaining() =~= text@.subrange(i + 1, text@.len() as int));
                if c == sep {
                    let ghost parts = string_views(array@);
                    array.push(value);
                    assert(string_views(array@) =~= parts.push(value@));
                    value = String::new();
                } else {
                    value.push(c);
                }
                proof {
                    i = i + 1;
                }
            },
            None => {
                assert(i == text@.len());
                break ;
            },
        }
    }
    let ghost parts = string_views(array@);
    array.push(value);
    assert(string_views(array@) =~= parts.push(value@));
    array
}

impl Split for String {
    open spec fn whole(&self) -> Seq<char> {
        self@
    }

    fn split(&self, seq: char) -> (r: Vec<String>) {
        split_chars(self.as_str(), seq)
    }
}

} // verus!
