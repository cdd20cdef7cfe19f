//! The tokenizer: a single forward pass over the bytes of the source text.
//!
//! Every byte stands for the character with the same number. What the pass
//! yields is defined by `tokenization`, a function of the bytes alone.

use vstd::prelude::*;
use crate::text::{decimal, owned, push_decimal, text_is};
use crate::token::{Class, Token, TokenView};

verus! {

pub const NEWLINE: u8 = 10;
pub const SPACE: u8 = 32;
pub const BANG: u8 = 33;
pub const QUOTE: u8 = 34;
pub const MINUS: u8 = 45;
pub const DOT: u8 = 46;
pub const LESS: u8 = 60;
pub const EQUALS: u8 = 61;
pub const GREATER: u8 = 62;
pub const BACKSLASH: u8 = 92;

/// The six kinds of lexical error, in the order of their codes 1 to 6.
#[derive(Clone, Copy, Debug, PartialEq, Eq, Structural)]
pub enum LexErrorKind {
    InvalidCharacter,
    UnexpectedEof,
    Unterminated,
    InvalidNumber,
    UnclosedBrackets,
    InvalidEscape,
}

/// A lexical diagnostic as a mathematical value.
pub struct LexReportView {
    pub kind: LexErrorKind,
    pub detail: Seq<char>,
    pub line: nat,
    pub column: nat,
}

/// A lexical diagnostic: its kind, a detail and the place it refers to.
#[derive(Debug)]
pub struct LexReport {
    pub kind: LexErrorKind,
    pub detail: String,
    pub line: usize,
    pub column: usize,
}

impl View for LexReport {
    type V = LexReportView;

    open spec fn view(&self) -> LexReportView {
        LexReportView {
            kind: self.kind,
            detail: self.detail@,
            line: self.line as nat,
            column: self.column as nat,
        }
    }
}

impl LexErrorKind {
    /// The number in the error code.
    pub open spec fn code(self) -> nat {
        match self {
            LexErrorKind::InvalidCharacter => 1,
            LexErrorKind::UnexpectedEof => 2,
            LexErrorKind::Unterminated => 3,
            LexErrorKind::InvalidNumber => 4,
            LexErrorKind::UnclosedBrackets => 5,
            LexErrorKind::InvalidEscape => 6,
        }
    }

    /// The fixed message of the kind.
    pub open spec fn message(self) -> Seq<char> {
        match self {
            LexErrorKind::InvalidCharacter => "Invalid character found"@,
            LexErrorKind::UnexpectedEof => "Unexpected EOF"@,
            LexErrorKind::Unterminated => "Unterminated string or comment"@,
            LexErrorKind::InvalidNumber => "Invalid numerical format"@,
            LexErrorKind::UnclosedBrackets => "Unclosed brackets"@,
            LexErrorKind::InvalidEscape => "Invalid escape sequence"@,
        }
    }

    /// The number in the error code.
    pub fn number(self) -> (n: usize)
        ensures
            n == self.code(),
    {
        match self {
            LexErrorKind::InvalidCharacter => 1,
            LexErrorKind::UnexpectedEof => 2,
            LexErrorKind::Unterminated => 3,
            LexErrorKind::InvalidNumber => 4,
            LexErrorKind::UnclosedBrackets => 5,
            LexErrorKind::InvalidEscape => 6,
        }
    }

    /// The fixed message of the kind.
    pub fn text(self) -> (m: &'static str)
        ensures
            m@ == self.message(),
    {
        match self {
            LexErrorKind::InvalidCharacter => "Invalid character found",
            LexErrorKind::UnexpectedEof => "Unexpected EOF",
            LexErrorKind::Unterminated => "Unterminated string or comment",
            LexErrorKind::InvalidNumber => "Invalid numerical format",
            LexErrorKind::UnclosedBrackets => "Unclosed brackets",
            LexErrorKind::InvalidEscape => "Invalid escape sequence",
        }
    }
}

impl LexReport {
    /// The one-line form `error[L0c]: message detail file[line:column]`.
    pub open spec fn line_of(r: LexReportView, file: Seq<char>) -> Seq<char> {
        "error[L0"@ + decimal(r.kind.code()) + "]: "@ + r.kind.message() + seq![' '] + r.detail
            + seq![' '] + file + seq!['['] + decimal(r.line) + seq![':'] + decimal(r.column)
            + seq![']']
    }

    /// Renders the diagnostic for the file of the given display name.
    pub fn render(&self, file: &str) -> (r: String)
        ensures
            r@ == Self::line_of(self@, file@),
    {
        let mut r = String::new();
        r.push_str("error[L0");
        push_decimal(&mut r, self.kind.number());
        r.push_str("]: ");
        r.push_str(self.kind.text());
        r.push(' ');
        r.push_str(self.detail.as_str());
        r.push(' ');
        r.push_str(file);
        r.push('[');
        push_decimal(&mut r, self.line);
        r.push(':');
        push_decimal(&mut r, self.column);
        r.push(']');
        assert(r@ =~= Self::line_of(self@, file@));
        r
    }
}

/// Whether the byte stands for a letter.
pub open spec fn is_alpha(b: u8) -> bool {
    (65 <= b <= 90) || (97 <= b <= 122) || b == 0xAA || b == 0xB5 || b == 0xBA || (0xC0 <= b
        <= 0xD6) || (0xD8 <= b <= 0xF6) || 0xF8 <= b
}

/// Whether the byte stands for a numeric character.
pub open spec fn is_digit(b: u8) -> bool {
    (48 <= b <= 57) || b == 0xB2 || b == 0xB3 || b == 0xB9 || (0xBC <= b <= 0xBE)
}

pub open spec fn is_alnum(b: u8) -> bool {
    is_alpha(b) || is_digit(b)
}

fn alpha(b: u8) -> (r: bool)
    ensures
        r == is_alpha(b),
{
    (65 <= b && b <= 90) || (97 <= b && b <= 122) || b == 0xAA || b == 0xB5 || b == 0xBA || (0xC0
        <= b && b <= 0xD6) || (0xD8 <= b && b <= 0xF6) || 0xF8 <= b
}

fn digit(b: u8) -> (r: bool)
    ensures
        r == is_digit(b),
{
    (48 <= b && b <= 57) || b == 0xB2 || b == 0xB3 || b == 0xB9 || (0xBC <= b && b <= 0xBE)
}

/// The byte at `i`, or 0 where the text has none.
pub open spec fn at(s: Seq<u8>, i: int) -> u8 {
    if 0 <= i < s.len() {
        s[i]
    } else {
        0
    }
}

/// Line and column of the byte at `i`, both counted from 1: a newline ends
/// its line, and the byte after it stands in column 1 of the next.
pub open spec fn position_at(s: Seq<u8>, i: int) -> (int, int)
    decreases i,
{
    if i <= 0 {
        (1, 1)
    } else {
        let p = position_at(s, i - 1);
        if at(s, i - 1) == NEWLINE {
            (p.0 + 1, 1)
        } else {
            (p.0, p.1 + 1)
        }
    }
}

/// The characters that a run of bytes stands for.
pub open spec fn chars_of(s: Seq<u8>) -> Seq<char> {
    Seq::new(s.len(), |k: int| s[k] as char)
}

pub open spec fn tok(class: Class, text: Seq<char>, place: (int, int)) -> TokenView {
    TokenView { class, text, line: place.0 as nat, column: place.1 as nat }
}

pub open spec fn rep(kind: LexErrorKind, detail: Seq<char>, place: (int, int)) -> LexReportView {
    LexReportView { kind, detail, line: place.0 as nat, column: place.1 as nat }
}

/// Where the run of letters and digits that holds `i` ends.
pub open spec fn word_end(s: Seq<u8>, i: int) -> int
    decreases s.len() - i,
{
    if 0 <= i < s.len() && is_alnum(s[i]) {
        word_end(s, i + 1)
    } else {
        i
    }
}

/// The class of a word: reserved, a truth value, or a name.
pub open spec fn word_class(text: Seq<char>) -> Class {
    if text == "fun"@ || text == "set"@ || text == "var"@ || text == "if"@ || text == "use"@
        || text == "yeild"@ {
        Class::Keyword
    } else if text == "true"@ || text == "false"@ {
        Class::Boolean
    } else {
        Class::Identifier
    }
}

/// What scanning a number or a string yields.
pub struct Run {
    pub next: int,
    pub text: Seq<char>,
    pub reports: Seq<LexReportView>,
    pub closed: bool,
}

/// A number from `i` on: digits and the first `.` make up the text; every
/// later `.` is reported and left out.
pub open spec fn number_scan(
    s: Seq<u8>,
    i: int,
    seen_dot: bool,
    text: Seq<char>,
    reports: Seq<LexReportView>,
) -> Run
    decreases s.len() - i,
{
    if 0 <= i < s.len() && is_digit(s[i]) {
        number_scan(s, i + 1, seen_dot, text.push(s[i] as char), reports)
    } else if 0 <= i < s.len() && s[i] == DOT {
        if seen_dot {
            number_scan(
                s,
                i + 1,
                true,
                text,
                reports.push(
                    rep(LexErrorKind::InvalidNumber, "too many '.' found"@, position_at(s, i)),
                ),
            )
        } else {
            number_scan(s, i + 1, true, text.push('.'), reports)
        }
    } else {
        Run { next: i, text, reports, closed: true }
    }
}

/// The detail of a report on an escape that is not supported.
pub open spec fn escape_detail(b: u8) -> Seq<char> {
    "'\\"@ + seq![b as char] + "' is not valid"@
}

/// The character that a supported escape stands for.
pub open spec fn escape_of(b: u8) -> Option<char> {
    if b == 110 {
        Some('\n')
    } else if b == 116 {
        Some('\t')
    } else if b == BACKSLASH {
        Some('\\')
    } else if b == QUOTE {
        Some('"')
    } else {
        None
    }
}

/// The inside of a string literal from `i` on, up to the closing quote. An
/// escape that is not supported is reported and skipped; where the text ends
/// first, the run is not closed and its last report says so.
pub open spec fn string_scan(
    s: Seq<u8>,
    i: int,
    text: Seq<char>,
    reports: Seq<LexReportView>,
) -> Run
    decreases s.len() - i,
{
    if !(0 <= i < s.len()) || s[i] == 0 {
        Run {
            next: i,
            text,
            reports: reports.push(rep(LexErrorKind::Unterminated, ""@, position_at(s, i))),
            closed: false,
        }
    } else if s[i] == QUOTE {
        Run { next: i + 1, text, reports, closed: true }
    } else if s[i] == BACKSLASH {
        let e = at(s, i + 1);
        if escape_of(e).is_some() {
            string_scan(s, i + 2, text.push(escape_of(e).unwrap()), reports)
        } else {
            let noted = reports.push(
                rep(LexErrorKind::InvalidEscape, escape_detail(e), position_at(s, i + 1)),
            );
            if i + 1 < s.len() {
                string_scan(s, i + 2, text, noted)
            } else {
                string_scan(s, i + 1, text, noted)
            }
        }
    } else {
        string_scan(s, i + 1, text.push(s[i] as char), reports)
    }
}

/// The class of a byte that is a token by itself.
pub open spec fn punct_class(b: u8) -> Option<Class> {
    if b == 91 {
        Some(Class::LeftBrace)
    } else if b == 123 {
        Some(Class::LeftBrack)
    } else if b == 40 {
        Some(Class::LeftParen)
    } else if b == 93 {
        Some(Class::RightBrace)
    } else if b == 125 {
        Some(Class::RightBrack)
    } else if b == 41 {
        Some(Class::RightParen)
    } else if b == DOT {
        Some(Class::Dot)
    } else if b == 44 {
        Some(Class::Comma)
    } else if b == 58 {
        Some(Class::Colon)
    } else if b == 59 {
        Some(Class::Semi)
    } else if b == 43 || b == 42 || b == 47 {
        Some(Class::Operator)
    } else if b == 38 || b == 124 {
        Some(Class::Logic)
    } else {
        None
    }
}

/// Whether the byte may start a token of two characters.
pub open spec fn starts_pair(b: u8) -> bool {
    b == LESS || b == GREATER || b == MINUS || b == BANG || b == EQUALS
}

/// The character that makes a pair of the byte `b`.
pub open spec fn partner(b: u8) -> u8 {
    if b == MINUS {
        GREATER
    } else {
        EQUALS
    }
}

/// The class of the token that `b` starts, alone or with its partner.
pub open spec fn pair_class(b: u8, paired: bool) -> Class {
    if b == MINUS {
        if paired {
            Class::Arrow
        } else {
            Class::Operator
        }
    } else if b == BANG {
        if paired {
            Class::Comparator
        } else {
            Class::Bang
        }
    } else if b == EQUALS {
        if paired {
            Class::Comparator
        } else {
            Class::Assign
        }
    } else {
        Class::Comparator
    }
}

/// Whether the character that the byte stands for is shown as it is: it is
/// neither a control character nor a space or hyphen that leaves no mark.
pub open spec fn is_printable(b: u8) -> bool {
    (32 <= b < 127) || (161 <= b && b != 173)
}

/// The character of a hexadecimal digit, in lower case.
pub open spec fn hex_digit(d: int) -> char {
    if d < 10 {
        ((48 + d) as u8) as char
    } else {
        ((87 + d) as u8) as char
    }
}

/// The hexadecimal numeral of a byte, without a leading zero.
pub open spec fn hex(b: u8) -> Seq<char> {
    if b < 16 {
        seq![hex_digit(b as int)]
    } else {
        seq![hex_digit(b as int / 16), hex_digit(b as int % 16)]
    }
}

/// The character that the byte stands for as a character literal shows it:
/// with a backslash before a quote, a backslash and the characters that have
/// a letter of their own, and as `\u{..}` where it would leave no mark.
pub open spec fn escaped(b: u8) -> Seq<char> {
    if b == 0 {
        seq!['\\', '0']
    } else if b == 9 {
        seq!['\\', 't']
    } else if b == 10 {
        seq!['\\', 'n']
    } else if b == 13 {
        seq!['\\', 'r']
    } else if b == 39 {
        seq!['\\', '\'']
    } else if b == 92 {
        seq!['\\', '\\']
    } else if is_printable(b) {
        seq![b as char]
    } else {
        seq!['\\', 'u', '{'] + hex(b) + seq!['}']
    }
}

/// The detail of a report on a character that starts no token: the
/// character as a character literal, between single quotes.
pub open spec fn quoted(b: u8) -> Seq<char> {
    seq!['\''] + escaped(b) + seq!['\'']
}

/// What one step of the scan yields.
pub struct Scan {
    pub tokens: Seq<TokenView>,
    pub reports: Seq<LexReportView>,
    pub next: int,
    pub fatal: bool,
}

/// One step of the scan, at a byte `i` of the text that is not 0.
pub open spec fn step(s: Seq<u8>, i: int) -> Scan
    recommends
        0 <= i < s.len(),
{
    let b = s[i];
    let here = position_at(s, i);
    if is_alpha(b) {
        let end = word_end(s, i);
        let text = chars_of(s.subrange(i, end));
        Scan {
            tokens: seq![tok(word_class(text), text, here)],
            reports: Seq::empty(),
            next: end,
            fatal: false,
        }
    } else if is_digit(b) {
        let n = number_scan(s, i, false, Seq::empty(), Seq::empty());
        Scan {
            tokens: seq![tok(Class::Number, n.text, here)],
            reports: n.reports,
            next: n.next,
            fatal: false,
        }
    } else if b == QUOTE {
        let q = string_scan(s, i + 1, Seq::empty(), Seq::empty());
        if q.closed {
            Scan {
                tokens: seq![tok(Class::String, q.text, here)],
                reports: q.reports,
                next: q.next,
                fatal: false,
            }
        } else {
            Scan { tokens: Seq::empty(), reports: q.reports, next: q.next, fatal: true }
        }
    } else if punct_class(b).is_some() {
        Scan {
            tokens: seq![tok(punct_class(b).unwrap(), seq![b as char], here)],
            reports: Seq::empty(),
            next: i + 1,
            fatal: false,
        }
    } else if starts_pair(b) {
        if at(s, i + 1) == partner(b) {
            Scan {
                tokens: seq![tok(pair_class(b, true), seq![b as char, partner(b) as char], here)],
                reports: Seq::empty(),
                next: i + 2,
                fatal: false,
            }
        } else {
            Scan {
                tokens: seq![tok(pair_class(b, false), seq![b as char], here)],
                reports: Seq::empty(),
                next: i + 1,
                fatal: false,
            }
        }
    } else if b == SPACE || b == NEWLINE {
        Scan { tokens: Seq::empty(), reports: Seq::empty(), next: i + 1, fatal: false }
    } else {
        Scan {
            tokens: Seq::empty(),
            reports: seq![rep(LexErrorKind::InvalidCharacter, quoted(b), here)],
            next: i + 1,
            fatal: false,
        }
    }
}

/// What a whole scan yields: the tokens, the reports in the order in which
/// they arose, and whether the scan was given up.
pub struct Outcome {
    pub tokens: Seq<TokenView>,
    pub reports: Seq<LexReportView>,
    pub fatal: bool,
}

/// Whether the text ends at `i`: there is no byte, or the byte is 0.
pub open spec fn ends_at(s: Seq<u8>, i: int) -> bool {
    at(s, i) == 0
}

/// The end-of-input token, placed where the text ends.
pub open spec fn eof_token(s: Seq<u8>, i: int) -> TokenView {
    tok(Class::Eof, seq!['\0'], position_at(s, i))
}

/// The scan from byte `i` on, after `tokens` and `reports`. Every step ends
/// beyond its start and inside the text (`lemma_step_advances`), so a scan is
/// given up only where a step says so.
pub open spec fn scan_from(
    s: Seq<u8>,
    i: int,
    tokens: Seq<TokenView>,
    reports: Seq<LexReportView>,
) -> Outcome
    decreases s.len() - i,
{
    if ends_at(s, i) {
        Outcome { tokens: tokens.push(eof_token(s, i)), reports, fatal: false }
    } else {
        let st = step(s, i);
        if st.fatal || st.next <= i || st.next > s.len() {
            Outcome { tokens: tokens + st.tokens, reports: reports + st.reports, fatal: true }
        } else {
            scan_from(s, st.next, tokens + st.tokens, reports + st.reports)
        }
    }
}

/// The tokens and reports of a source text.
pub open spec fn tokenization(s: Seq<u8>) -> Outcome {
    scan_from(s, 0, Seq::empty(), Seq::empty())
}

pub open spec fn token_views(v: Seq<Token>) -> Seq<TokenView> {
    v.map_values(|t: Token| t@)
}

pub open spec fn report_views(v: Seq<LexReport>) -> Seq<LexReportView> {
    v.map_values(|r: LexReport| r@)
}


/// A run of letters and digits ends inside the text, and beyond a letter or
/// digit that it starts at.
pub proof fn lemma_word_end_bounds(s: Seq<u8>, i: int)
    requires
        0 <= i <= s.len(),
    ensures
        i <= word_end(s, i) <= s.len(),
        0 <= i < s.len() && is_alnum(s[i]) ==> i < word_end(s, i),
    decreases s.len() - i,
{
    if i < s.len() && is_alnum(s[i]) {
        lemma_word_end_bounds(s, i + 1);
    }
}

/// A number's scan ends inside the text, and beyond a digit it starts at.
pub proof fn lemma_number_scan_bounds(
    s: Seq<u8>,
    i: int,
    seen_dot: bool,
    text: Seq<char>,
    reports: Seq<LexReportView>,
)
    requires
        0 <= i <= s.len(),
    ensures
        i <= number_scan(s, i, seen_dot, text, reports).next <= s.len(),
        0 <= i < s.len() && is_digit(s[i]) ==> i < number_scan(s, i, seen_dot, text, reports).next,
    decreases s.len() - i,
{
    if i < s.len() && is_digit(s[i]) {
        lemma_number_scan_bounds(s, i + 1, seen_dot, text.push(s[i] as char), reports);
    } else if i < s.len() && s[i] == DOT {
        if seen_dot {
            lemma_number_scan_bounds(
                s,
                i + 1,
                true,
                text,
                reports.push(
                    rep(LexErrorKind::InvalidNumber, "too many '.' found"@, position_at(s, i)),
                ),
            );
        } else {
            lemma_number_scan_bounds(s, i + 1, true, text.push('.'), reports);
        }
    }
}

/// A string's scan ends inside the text and never before its start.
pub proof fn lemma_string_scan_bounds(
    s: Seq<u8>,
    i: int,
    text: Seq<char>,
    reports: Seq<LexReportView>,
)
    requires
        0 <= i <= s.len(),
    ensures
        i <= string_scan(s, i, text, reports).next <= s.len(),
    decreases s.len() - i,
{
    if !(i < s.len()) || s[i] == 0 {
    } else if s[i] == QUOTE {
    } else if s[i] == BACKSLASH {
        let e = at(s, i + 1);
        if escape_of(e).is_some() {
            lemma_string_scan_bounds(s, i + 2, text.push(escape_of(e).unwrap()), reports);
        } else {
            let noted = reports.push(
                rep(LexErrorKind::InvalidEscape, escape_detail(e), position_at(s, i + 1)),
            );
            if i + 1 < s.len() {
                lemma_string_scan_bounds(s, i + 2, text, noted);
            } else {
                lemma_string_scan_bounds(s, i + 1, text, noted);
            }
        }
    } else {
        lemma_string_scan_bounds(s, i + 1, text.push(s[i] as char), reports);
    }
}

/// Forward progress: every step of the scan ends beyond the byte it started
/// at and inside the text, so a scan of a text takes at most as many steps as
/// the text has bytes.
pub proof fn lemma_step_advances(s: Seq<u8>, i: int)
    requires
        0 <= i < s.len(),
        s[i] != 0,
    ensures
        i < step(s, i).next <= s.len(),
{
    lemma_word_end_bounds(s, i);
    lemma_number_scan_bounds(s, i, false, Seq::empty(), Seq::empty());
    lemma_string_scan_bounds(s, i + 1, Seq::empty(), Seq::empty());
}

/// A scan that was not given up ends in the end-of-input token, and one that
/// was given up ends in the report of a string that was left open.
pub proof fn lemma_scan_ends(
    s: Seq<u8>,
    i: int,
    tokens: Seq<TokenView>,
    reports: Seq<LexReportView>,
)
    requires
        0 <= i <= s.len(),
    ensures
        ({
            let out = scan_from(s, i, tokens, reports);
            &&& !out.fatal ==> out.tokens.len() > tokens.len() && out.tokens.last().class
                == Class::Eof
            &&& out.fatal ==> out.reports.len() > reports.len() && out.reports.last().kind
                == LexErrorKind::Unterminated && out.tokens.len() >= tokens.len()
        }),
    decreases s.len() - i,
{
    if !ends_at(s, i) {
        let st = step(s, i);
        lemma_step_advances(s, i);
        lemma_string_scan_ends(s, i + 1, Seq::empty(), Seq::empty());
        if !st.fatal {
            lemma_scan_ends(s, st.next, tokens + st.tokens, reports + st.reports);
        } else {
            let all = reports + st.reports;
            assert(all.last() == st.reports.last());
        }
    }
}

/// A string that is left open is reported last.
pub proof fn lemma_string_scan_ends(
    s: Seq<u8>,
    i: int,
    text: Seq<char>,
    reports: Seq<LexReportView>,
)
    requires
        0 <= i <= s.len(),
    ensures
        ({
            let q = string_scan(s, i, text, reports);
            !q.closed ==> q.reports.len() > 0 && q.reports.last().kind
                == LexErrorKind::Unterminated
        }),
    decreases s.len() - i,
{
    if !(i < s.len()) || s[i] == 0 {
    } else if s[i] == QUOTE {
    } else if s[i] == BACKSLASH {
        let e = at(s, i + 1);
        if escape_of(e).is_some() {
            lemma_string_scan_ends(s, i + 2, text.push(escape_of(e).unwrap()), reports);
        } else {
            let noted = reports.push(
                rep(LexErrorKind::InvalidEscape, escape_detail(e), position_at(s, i + 1)),
            );
            if i + 1 < s.len() {
                lemma_string_scan_ends(s, i + 2, text, noted);
            } else {
                lemma_string_scan_ends(s, i + 1, text, noted);
            }
        }
    } else {
        lemma_string_scan_ends(s, i + 1, text.push(s[i] as char), reports);
    }
}

/// The cursor of a scan with what it has gathered.
struct Scanner {
    index: usize,
    line: usize,
    column: usize,
    tokens: Vec<Token>,
    reports: Vec<LexReport>,
}

impl Scanner {
    spec fn wf(&self, s: Seq<u8>) -> bool {
        &&& self.index <= s.len()
        &&& s.len() < usize::MAX
        &&& (self.line as int, self.column as int) == position_at(s, self.index as int)
        &&& 1 <= self.line <= self.index + 1
        &&& 1 <= self.column <= self.index + 1
    }

    spec fn toks(&self) -> Seq<TokenView> {
        token_views(self.tokens@)
    }

    spec fn reps(&self) -> Seq<LexReportView> {
        report_views(self.reports@)
    }

    spec fn same_place(&self, other: &Scanner) -> bool {
        self.index == other.index && self.line == other.line && self.column == other.column
    }

    /// Moves over one byte of the text.
    fn advance(&mut self, src: &[u8])
        requires
            old(self).wf(src@),
            old(self).index < src@.len(),
        ensures
            final(self).wf(src@),
            final(self).index == old(self).index + 1,
            final(self).tokens == old(self).tokens,
            final(self).reports == old(self).reports,
    {
        if src[self.index] == NEWLINE {
            self.line = self.line + 1;
            self.column = 1;
        } else {
            self.column = self.column + 1;
        }
        self.index = self.index + 1;
    }

    fn emit(&mut self, class: Class, value: String, line: usize, column: usize)
        ensures
            final(self).toks() == old(self).toks().push(
                TokenView { class, text: value@, line: line as nat, column: column as nat },
            ),
            final(self).reports == old(self).reports,
            final(self).same_place(old(self)),
    {
        self.tokens.push(Token::new(class, value, [line, column]));
        assert(self.toks() =~= old(self).toks().push(
            TokenView { class, text: value@, line: line as nat, column: column as nat },
        ));
    }

    fn report(&mut self, kind: LexErrorKind, detail: String)
        ensures
            final(self).reps() == old(self).reps().push(
                LexReportView {
                    kind,
                    detail: detail@,
                    line: old(self).line as nat,
                    column: old(self).column as nat,
                },
            ),
            final(self).tokens == old(self).tokens,
            final(self).same_place(old(self)),
    {
        let line = self.line;
        let column = self.column;
        self.reports.push(LexReport { kind, detail, line, column });
        assert(self.reps() =~= old(self).reps().push(
            LexReportView {
                kind,
                detail: detail@,
                line: old(self).line as nat,
                column: old(self).column as nat,
            },
        ));
    }

    fn scan_word(&mut self, src: &[u8])
        requires
            old(self).wf(src@),
            old(self).index < src@.len(),
            is_alpha(src@[old(self).index as int]),
        ensures
            final(self).wf(src@),
            final(self).index == word_end(src@, old(self).index as int),
            old(self).index < final(self).index <= src@.len(),
            final(self).reports == old(self).reports,
            ({
                let i = old(self).index as int;
                let text = chars_of(src@.subrange(i, word_end(src@, i)));
                final(self).toks() == old(self).toks().push(
                    tok(word_class(text), text, position_at(src@, i)),
                )
            }),
    {
        let start = self.index;
        let line = self.line;
        let column = self.column;
        let mut value = String::new();
        while self.index < src.len() && (alpha(src[self.index]) || digit(src[self.index]))
            invariant
                self.wf(src@),
                start <= self.index <= src@.len(),
                start < src@.len(),
                is_alpha(src@[start as int]),
                word_end(src@, self.index as int) == word_end(src@, start as int),
                value@ == chars_of(src@.subrange(start as int, self.index as int)),
                self.tokens == old(self).tokens,
                self.reports == old(self).reports,
            decreases src@.len() - self.index,
        {
            value.push(src[self.index] as char);
            self.advance(src);
            assert(value@ =~= chars_of(src@.subrange(start as int, self.index as int)));
        }
        let class = classify(&value);
        self.emit(class, value, line, column);
    }

    fn scan_number(&mut self, src: &[u8])
        requires
            old(self).wf(src@),
            old(self).index < src@.len(),
            is_digit(src@[old(self).index as int]),
        ensures
            final(self).wf(src@),
            old(self).index < final(self).index <= src@.len(),
            ({
                let i = old(self).index as int;
                let n = number_scan(src@, i, false, Seq::empty(), Seq::empty());
                &&& final(self).index == n.next
                &&& final(self).toks() == old(self).toks().push(
                    tok(Class::Number, n.text, position_at(src@, i)),
                )
                &&& final(self).reps() == old(self).reps() + n.reports
            }),
    {
        let start = self.index;
        let line = self.line;
        let column = self.column;
        let mut value = String::new();
        let mut seen = false;
        let ghost mut noted: Seq<LexReportView> = Seq::empty();
        assert(self.reps() =~= old(self).reps() + noted);
        while self.index < src.len() && (digit(src[self.index]) || src[self.index] == DOT)
            invariant
                self.wf(src@),
                start <= self.index <= src@.len(),
                start < src@.len(),
                is_digit(src@[start as int]),
                number_scan(src@, self.index as int, seen, value@, noted) == number_scan(
                    src@,
                    start as int,
                    false,
                    Seq::empty(),
                    Seq::empty(),
                ),
                self.reps() == old(self).reps() + noted,
                self.tokens == old(self).tokens,
            decreases src@.len() - self.index,
        {
            let b = src[self.index];
            if b == DOT {
                if seen {
                    self.report(LexErrorKind::InvalidNumber, owned("too many '.' found"));
                    proof {
                        noted = noted.push(
                            rep(
                                LexErrorKind::InvalidNumber,
                                "too many '.' found"@,
                                position_at(src@, self.index as int),
                            ),
                        );
                        assert(self.reps() =~= old(self).reps() + noted);
                    }
                } else {
                    value.push('.');
                    seen = true;
                }
            } else {
                value.push(b as char);
            }
            self.advance(src);
        }
        self.emit(Class::Number, value, line, column);
    }

    fn scan_string(&mut self, src: &[u8]) -> (closed: bool)
        requires
            old(self).wf(src@),
            old(self).index < src@.len(),
            src@[old(self).index as int] == QUOTE,
        ensures
            final(self).wf(src@),
            old(self).index < final(self).index <= src@.len(),
            ({
                let i = old(self).index as int;
                let q = string_scan(src@, i + 1, Seq::empty(), Seq::empty());
                &&& closed == q.closed
                &&& final(self).index == q.next
                &&& final(self).toks() == if q.closed {
                    old(self).toks().push(tok(Class::String, q.text, position_at(src@, i)))
                } else {
                    old(self).toks()
                }
                &&& final(self).reps() == old(self).reps() + q.reports
            }),
    {
        let start = self.index;
        let line = self.line;
        let column = self.column;
        let mut value = String::new();
        let ghost mut noted: Seq<LexReportView> = Seq::empty();
        assert(self.reps() =~= old(self).reps() + noted);
        self.advance(src);
        while self.index < src.len() && src[self.index] != 0 && src[self.index] != QUOTE
            invariant
                self.wf(src@),
                start < self.index <= src@.len(),
                string_scan(src@, self.index as int, value@, noted) == string_scan(
                    src@,
                    start + 1,
                    Seq::empty(),
                    Seq::empty(),
                ),
                self.reps() == old(self).reps() + noted,
                self.tokens == old(self).tokens,
            decreases src@.len() - self.index,
        {
            let b = src[self.index];
            if b == BACKSLASH {
                self.advance(src);
                let e: u8 = if self.index < src.len() {
                    src[self.index]
                } else {
                    0
                };
                match escape(e) {
                    Some(c) => {
                        value.push(c);
                    },
                    None => {
                        self.report(LexErrorKind::InvalidEscape, escape_text(e));
                        proof {
                            noted = noted.push(
                                rep(
                                    LexErrorKind::InvalidEscape,
                                    escape_detail(e),
                                    position_at(src@, self.index as int),
                                ),
                            );
                            assert(self.reps() =~= old(self).reps() + noted);
                        }
                    },
                }
                if self.index < src.len() {
                    self.advance(src);
                }
            } else {
                value.push(b as char);
                self.advance(src);
            }
        }
        if self.index < src.len() && src[self.index] == QUOTE {
            self.advance(src);
            self.emit(Class::String, value, line, column);
            true
        } else {
            self.report(LexErrorKind::Unterminated, String::new());
            proof {
                assert(""@ =~= Seq::<char>::empty()) by {
                    reveal_strlit("");
                }
                assert(self.reps() =~= old(self).reps() + string_scan(
                    src@,
                    start + 1,
                    Seq::empty(),
                    Seq::empty(),
                ).reports);
            }
            false
        }
    }

    /// One step of the scan: the token, reports or skip that the current byte
    /// calls for. The result says whether the scan has to be given up.
    fn scan(&mut self, src: &[u8]) -> (fatal: bool)
        requires
            old(self).wf(src@),
            old(self).index < src@.len(),
            src@[old(self).index as int] != 0,
        ensures
            final(self).wf(src@),
            old(self).index < final(self).index <= src@.len(),
            ({
                let st = step(src@, old(self).index as int);
                &&& fatal == st.fatal
                &&& final(self).index == st.next
                &&& final(self).toks() == old(self).toks() + st.tokens
                &&& final(self).reps() == old(self).reps() + st.reports
            }),
    {
        let ghost st = step(src@, self.index as int);
        let b = src[self.index];
        let line = self.line;
        let column = self.column;
        if alpha(b) {
            self.scan_word(src);
            assert(self.toks() =~= old(self).toks() + st.tokens);
            assert(self.reps() =~= old(self).reps() + st.reports);
            false
        } else if digit(b) {
            self.scan_number(src);
            assert(self.toks() =~= old(self).toks() + st.tokens);
            false
        } else if b == QUOTE {
            let closed = self.scan_string(src);
            assert(self.toks() =~= old(self).toks() + st.tokens);
            !closed
        } else if let Some(class) = punct(b) {
            let mut value = String::new();
            value.push(b as char);
            self.advance(src);
            self.emit(class, value, line, column);
            assert(value@ =~= seq![b as char]);
            assert(self.toks() =~= old(self).toks() + st.tokens);
            assert(self.reps() =~= old(self).reps() + st.reports);
            false
        } else if b == LESS || b == GREATER || b == MINUS || b == BANG || b == EQUALS {
            let other: u8 = if b == MINUS {
                GREATER
            } else {
                EQUALS
            };
            let mut value = String::new();
            value.push(b as char);
            self.advance(src);
            let paired = self.index < src.len() && src[self.index] == other;
            if paired {
                value.push(other as char);
                self.advance(src);
                assert(value@ =~= seq![b as char, other as char]);
            } else {
                assert(value@ =~= seq![b as char]);
            }
            self.emit(pair(b, paired), value, line, column);
            assert(self.toks() =~= old(self).toks() + st.tokens);
            assert(self.reps() =~= old(self).reps() + st.reports);
            false
        } else if b == SPACE || b == NEWLINE {
            self.advance(src);
            assert(self.toks() =~= old(self).toks() + st.tokens);
            assert(self.reps() =~= old(self).reps() + st.reports);
            false
        } else {
            self.report(LexErrorKind::InvalidCharacter, quote(b));
            self.advance(src);
            assert(self.toks() =~= old(self).toks() + st.tokens);
            assert(self.reps() =~= old(self).reps() + st.reports);
            false
        }
    }
}

fn classify(value: &String) -> (c: Class)
    ensures
        c == word_class(value@),
{
    if text_is(value, "fun") || text_is(value, "set") || text_is(value, "var") || text_is(value, "if") || text_is(
        value,
        "use",
    ) || text_is(value, "yeild") {
        Class::Keyword
    } else if text_is(value, "true") || text_is(value, "false") {
        Class::Boolean
    } else {
        Class::Identifier
    }
}

fn hex_char(d: u8) -> (c: char)
    requires
        d < 16,
    ensures
        c == hex_digit(d as int),
{
    if d < 10 {
        (48u8 + d) as char
    } else {
        (87u8 + d) as char
    }
}

/// The character that the byte stands for as a character literal, between
/// single quotes.
pub fn quote(b: u8) -> (r: String)
    ensures
        r@ == quoted(b),
{
    let mut r = String::new();
    r.push('\'');
    if b == 0 {
        r.push('\\');
        r.push('0');
    } else if b == 9 {
        r.push('\\');
        r.push('t');
    } else if b == 10 {
        r.push('\\');
        r.push('n');
    } else if b == 13 {
        r.push('\\');
        r.push('r');
    } else if b == 39 {
        r.push('\\');
        r.push('\'');
    } else if b == 92 {
        r.push('\\');
        r.push('\\');
    } else if (32 <= b && b < 127) || (161 <= b && b != 173) {
        r.push(b as char);
    } else {
        r.push('\\');
        r.push('u');
        r.push('{');
        if b >= 16 {
            r.push(hex_char(b / 16));
        }
        r.push(hex_char(b % 16));
        r.push('}');
    }
    r.push('\'');
    assert(r@ =~= quoted(b));
    r
}

fn escape(b: u8) -> (r: Option<char>)
    ensures
        r == escape_of(b),
{
    if b == 110 {
        Some('\n')
    } else if b == 116 {
        Some('\t')
    } else if b == BACKSLASH {
        Some('\\')
    } else if b == QUOTE {
        Some('"')
    } else {
        None
    }
}

fn escape_text(b: u8) -> (r: String)
    ensures
        r@ == escape_detail(b),
{
    let mut r = String::new();
    r.push_str("'\\");
    r.push(b as char);
    r.push_str("' is not valid");
    assert(r@ =~= escape_detail(b));
    r
}

fn punct(b: u8) -> (r: Option<Class>)
    ensures
        r == punct_class(b),
{
    if b == 91 {
        Some(Class::LeftBrace)
    } else if b == 123 {
        Some(Class::LeftBrack)
    } else if b == 40 {
        Some(Class::LeftParen)
    } else if b == 93 {
        Some(Class::RightBrace)
    } else if b == 125 {
        Some(Class::RightBrack)
    } else if b == 41 {
        Some(Class::RightParen)
    } else if b == DOT {
        Some(Class::Dot)
    } else if b == 44 {
        Some(Class::Comma)
    } else if b == 58 {
        Some(Class::Colon)
    } else if b == 59 {
        Some(Class::Semi)
    } else if b == 43 || b == 42 || b == 47 {
        Some(Class::Operator)
    } else if b == 38 || b == 124 {
        Some(Class::Logic)
    } else {
        None
    }
}

fn pair(b: u8, paired: bool) -> (c: Class)
    ensures
        c == pair_class(b, paired),
{
    if b == MINUS {
        if paired {
            Class::Arrow
        } else {
            Class::Operator
        }
    } else if b == BANG {
        if paired {
            Class::Comparator
        } else {
            Class::Bang
        }
    } else if b == EQUALS {
        if paired {
            Class::Comparator
        } else {
            Class::Assign
        }
    } else {
        Class::Comparator
    }
}

/// The tokens of a text that was scanned to its end, with the reports on what
/// was found malformed on the way.
#[derive(Debug)]
pub struct Lexed {
    pub tokens: Vec<Token>,
    pub reports: Vec<LexReport>,
}

/// A source text with the name under which diagnostics show it.
#[derive(Debug)]
pub struct Lexer {
    pub filename: String,
    pub source: String,
}

impl Lexer {
    /// A lexer over the text `source`, shown in diagnostics as `filename`.
    pub fn init(filename: String, source: String) -> (l: Lexer)
        ensures
            l.filename == filename,
            l.source == source,
    {
        Lexer { filename, source }
    }

    /// The bytes of the source text.
    pub open spec fn bytes(&self) -> Seq<u8> {
        vstd::utf8::encode_utf8(self.source@)
    }

    /// Scans the whole text. The result is `tokenization` of its bytes: `Ok`
    /// with tokens and reports where the scan reached the end of the text,
    /// `Err` with the reports, the last of which names the string that was
    /// left open, where it was given up.
    pub fn tokenize(self) -> (r: Result<Lexed, Vec<LexReport>>)
        requires
            self.bytes().len() < usize::MAX,
        ensures
            ({
                let out = tokenization(self.bytes());
                match r {
                    Ok(l) => !out.fatal && token_views(l.tokens@) == out.tokens && report_views(
                        l.reports@,
                    ) == out.reports,
                    Err(e) => out.fatal && report_views(e@) == out.reports,
                }
            }),
    {
        let src = self.source.as_str().as_bytes();
        let mut sc = Scanner { index: 0, line: 1, column: 1, tokens: Vec::new(), reports: Vec::new() };
        assert(sc.toks() =~= Seq::empty());
        assert(sc.reps() =~= Seq::empty());
        while sc.index < src.len() && src[sc.index] != 0
            invariant
                sc.wf(src@),
                src@ == self.bytes(),
                scan_from(src@, sc.index as int, sc.toks(), sc.reps()) == tokenization(src@),
            decreases src@.len() - sc.index,
        {
            let ghost before = scan_from(src@, sc.index as int, sc.toks(), sc.reps());
            let fatal = sc.scan(src);
            if fatal {
                assert(before.fatal && before.reports == sc.reps());
                return Err(sc.reports);
            }
        }
        let mut value = String::new();
        value.push('\0');
        assert(value@ =~= seq!['\0']);
        let line = sc.line;
        let column = sc.column;
        sc.emit(Class::Eof, value, line, column);
        Ok(Lexed { tokens: sc.tokens, reports: sc.reports })
    }
}

} // verus!
