//! The grammar table and the rendering of syntactic diagnostics. The table
//! holds one pattern per syntax form; it is shown to the reader and does not
//! drive the parser.

use vstd::prelude::*;
use vstd::string::StrSliceExecFns;
use crate::lexer::LexReport;
use crate::parser::{ParseReport, ParseReportView, Parser, Rule};
use crate::text::{colored, colorize, decimal, digit_count, push_decimal, push_repeated, repeated};
use crate::token::Token;
use crate::util::{split_chars, split_text, string_views};

verus! {

/// The pattern of a syntax form: symbols and named places, in order.
pub open spec fn syntax(rule: Rule) -> Seq<Seq<char>> {
    match rule {
        Rule::FunDef => seq![
            "fun"@,
            "{name}"@,
            "("@,
            "{args}"@,
            ")"@,
            "->"@,
            "{yeild-type}"@,
            "["@,
            "..."@,
            "]"@,
        ],
        Rule::IfStatement => seq!["if"@, "{boolean-expr}"@, "["@, "..."@, "]"@],
        Rule::SetAssign => seq!["set"@, "{name}"@, "="@, "{expr}"@, ";"@],
        Rule::VarAssign => seq!["var"@, "{name}"@, "="@, "{expr}"@, ";"@],
        Rule::UsePackage => seq!["use"@, "{pacakge}"@, ";"@],
        Rule::UseValue => seq!["use"@, "{pacakge}"@, ":"@, "{value}"@, ";"@],
        Rule::UseAlias => seq!["use"@, "{pacakge}"@, "as"@, "{alias}"@, ";"@],
        Rule::Block => seq!["["@, "{statements}"@, "]"@],
        Rule::StringLiteral => seq!["{string}"@],
        Rule::NumberLiteral => seq!["{number}"@],
        Rule::Name => seq!["{identifier}"@],
        Rule::Array => seq!["["@, "{expression}"@, "]"@],
        Rule::Comparison => seq!["{expression}"@, "{comparator}"@, "{expression}"@],
        Rule::Arguments => seq!["("@, "{arguments}"@, ")"@],
        Rule::Call => seq!["{name}"@, "("@, "{arguments}"@, ")"@],
    }
}

pub open spec fn texts(v: Seq<&'static str>) -> Seq<Seq<char>> {
    v.map_values(|s: &'static str| s@)
}

/// The pattern of a syntax form.
pub fn pattern(rule: Rule) -> (r: Vec<&'static str>)
    ensures
        texts(r@) == syntax(rule),
{
    let r = match rule {
        Rule::FunDef => vec!["fun", "{name}", "(", "{args}", ")", "->", "{yeild-type}", "[", "...", "]"],
        Rule::IfStatement => vec!["if", "{boolean-expr}", "[", "...", "]"],
        Rule::SetAssign => vec!["set", "{name}", "=", "{expr}", ";"],
        Rule::VarAssign => vec!["var", "{name}", "=", "{expr}", ";"],
        Rule::UsePackage => vec!["use", "{pacakge}", ";"],
        Rule::UseValue => vec!["use", "{pacakge}", ":", "{value}", ";"],
        Rule::UseAlias => vec!["use", "{pacakge}", "as", "{alias}", ";"],
        Rule::Block => vec!["[", "{statements}", "]"],
        Rule::StringLiteral => vec!["{string}"],
        Rule::NumberLiteral => vec!["{number}"],
        Rule::Name => vec!["{identifier}"],
        Rule::Array => vec!["[", "{expression}", "]"],
        Rule::Comparison => vec!["{expression}", "{comparator}", "{expression}"],
        Rule::Arguments => vec!["(", "{arguments}", ")"],
        Rule::Call => vec!["{name}", "(", "{arguments}", ")"],
    };
    assert(texts(r@) =~= syntax(rule));
    r
}

/// The first `n` parts of a pattern, a space between each two, the part at
/// `slot` set off from the others.
pub open spec fn joined(parts: Seq<Seq<char>>, slot: nat, n: nat) -> Seq<char>
    decreases n,
{
    if n == 0 {
        Seq::empty()
    } else {
        let k = (n - 1) as nat;
        let gap: Seq<char> = if k > 0 {
            seq![' ']
        } else {
            Seq::empty()
        };
        let part = if k == slot {
            colored(parts[k as int], 7)
        } else {
            parts[k as int]
        };
        joined(parts, slot, k) + gap + part
    }
}

/// The pattern of a rule on one line with one slot set off.
pub open spec fn hint_text(rule: Rule, slot: nat) -> Seq<char> {
    joined(syntax(rule), slot, syntax(rule).len())
}

/// Renders the pattern of a rule with the slot at `slot` set off. A slot
/// beyond the pattern sets nothing off.
pub fn hint(rule: Rule, slot: usize) -> (r: String)
    ensures
        r@ == hint_text(rule, slot as nat),
{
    let parts = pattern(rule);
    let mut r = String::new();
    let mut k: usize = 0;
    while k < parts.len()
        invariant
            k <= parts@.len(),
            texts(parts@) == syntax(rule),
            r@ == joined(syntax(rule), slot as nat, k as nat),
        decreases parts@.len() - k,
    {
        let ghost before = r@;
        if k > 0 {
            r.push(' ');
        }
        assert(texts(parts@)[k as int] == parts@[k as int]@);
        if k == slot {
            let c = colorize(parts[k], 7);
            r.push_str(c.as_str());
        } else {
            r.push_str(parts[k]);
        }
        k = k + 1;
        assert(r@ =~= joined(syntax(rule), slot as nat, k as nat));
    }
    r
}

/// The row with the given number, counted from 1, among the rows of a text;
/// empty where there is no such row.
pub open spec fn row_of(rows: Seq<Seq<char>>, number: nat) -> Seq<char> {
    if 1 <= number <= rows.len() {
        rows[number - 1]
    } else {
        Seq::empty()
    }
}

/// The row of the source with the given number, counted from 1, without its
/// newline: the part of that number where the text is split at every newline.
pub open spec fn row_text(s: Seq<char>, number: nat) -> Seq<char> {
    row_of(split_text(s, '\n'), number)
}

/// The row with the given number, counted from 1, among the rows of a text.
pub fn pick_row(rows: &Vec<String>, number: usize) -> (r: String)
    ensures
        r@ == row_of(string_views(rows@), number as nat),
{
    if 1 <= number && number <= rows.len() {
        assert(string_views(rows@)[number - 1] == rows@[number - 1]@);
        rows[number - 1].clone()
    } else {
        String::new()
    }
}

/// The row of the source with the given number, counted from 1.
pub fn row(source: &str, number: usize) -> (r: String)
    ensures
        r@ == row_text(source@, number as nat),
{
    let rows = split_chars(source, '\n');
    pick_row(&rows, number)
}

/// The place of a diagnostic as the header shows it: the file's name and the
/// token's place, each set off.
pub open spec fn area_text(file: Seq<char>, r: ParseReportView) -> Seq<char> {
    colored(file + colored(Token::place(r.token), 1), 4)
}

/// One less than `n`, and 0 for 0.
pub open spec fn less_one(n: nat) -> nat {
    if n > 0 {
        (n - 1) as nat
    } else {
        0
    }
}

/// The four lines of a syntactic diagnostic: the header with the place, the
/// row of the source behind its number, a caret under the token's first
/// character with a tilde under each further one and the message behind
/// them, and the pattern of the rule with the slot set off.
pub open spec fn block_text(r: ParseReportView, file: Seq<char>, row: Seq<char>) -> Seq<char> {
    let pad = repeated(' ', decimal(r.token.line).len());
    let under = repeated(' ', less_one(r.token.column)) + seq!['^'] + repeated(
        '~',
        less_one(r.token.text.len()),
    );
    colored("error"@, 31) + seq![':'] + colored("parser"@, 36) + " --> "@ + area_text(file, r)
        + seq!['\n'] + decimal(r.token.line) + " | "@ + row + seq!['\n'] + pad + " | "@ + under
        + seq![' '] + r.message + seq!['\n'] + pad + " | "@ + colored("info"@, 34) + ": "@
        + hint_text(r.rule, r.slot)
}

impl ParseReport {
    /// The place of the diagnostic as the header shows it.
    pub fn area(&self, file: &str) -> (r: String)
        ensures
            r@ == area_text(file@, self@),
    {
        let shown = self.token.index();
        let mut inner = String::new();
        inner.push_str(file);
        inner.push_str(shown.as_str());
        assert(inner@ =~= file@ + colored(Token::place(self.token@), 1));
        colorize(inner.as_str(), 4)
    }

    /// Renders the diagnostic against the text of the source it is about.
    pub fn render(&self, file: &str, source: &str) -> (r: String)
        ensures
            r@ == block_text(self@, file@, row_text(source@, self@.token.line)),
    {
        let rows = split_chars(source, '\n');
        self.render_among(file, &rows)
    }

    /// Renders the diagnostic against the rows of the source it is about.
    pub fn render_among(&self, file: &str, rows: &Vec<String>) -> (r: String)
        ensures
            r@ == block_text(self@, file@, row_of(string_views(rows@), self@.token.line)),
    {
        let line = self.token.index[0];
        let column = self.token.index[1];
        let width = self.token.value.as_str().unicode_len();
        let pad = digit_count(line);
        let mut r = String::new();
        r.push_str(colorize("error", 31).as_str());
        r.push(':');
        r.push_str(colorize("parser", 36).as_str());
        r.push_str(" --> ");
        r.push_str(self.area(file).as_str());
        r.push('\n');
        push_decimal(&mut r, line);
        r.push_str(" | ");
        r.push_str(pick_row(rows, line).as_str());
        r.push('\n');
        push_repeated(&mut r, ' ', pad);
        r.push_str(" | ");
        push_repeated(&mut r, ' ', if column > 0 { column - 1 } else { 0 });
        r.push('^');
        push_repeated(&mut r, '~', if width > 0 { width - 1 } else { 0 });
        r.push(' ');
        r.push_str(self.message.as_str());
        r.push('\n');
        push_repeated(&mut r, ' ', pad);
        r.push_str(" | ");
        r.push_str(colorize("info", 34).as_str());
        r.push_str(": ");
        r.push_str(hint(self.rule, self.slot).as_str());
        assert(r@ =~= block_text(
            self@,
            file@,
            row_of(string_views(rows@), self@.token.line),
        ));
        r
    }
}

impl Parser {
    /// The pattern of a rule on one line with one slot set off.
    pub fn fmt(&self, rule: Rule, slot: usize) -> (r: String)
        ensures
            r@ == hint_text(rule, slot as nat),
    {
        hint(rule, slot)
    }

    /// The file's name and the place of the token under the cursor, set off
    /// as in the header of a diagnostic.
    pub fn area(&self) -> (r: String)
        requires
            self.wf(),
        ensures
            r@ == colored(self.filename@ + colored(Token::place(self.here()), 1), 4),
    {
        let shown = self.tokens[self.index].index();
        let mut inner = String::new();
        inner.push_str(self.filename.as_str());
        inner.push_str(shown.as_str());
        assert(inner@ =~= self.filename@ + colored(Token::place(self.here()), 1));
        colorize(inner.as_str(), 4)
    }

    /// Every diagnostic as text: the lexical ones first, each on one line,
    /// then the syntactic ones, each in four lines, in the order in which
    /// they arose.
    pub fn diagnostics(&self) -> (out: Vec<String>)
        ensures
            out@.len() == self.lexical@.len() + self.reports@.len(),
            forall|k: int|
                0 <= k < self.lexical@.len() ==> (#[trigger] out@[k])@ == LexReport::line_of(
                    self.lexical@[k]@,
                    self.filename@,
                ),
            forall|k: int|
                0 <= k < self.reports@.len() ==> (#[trigger] out@[self.lexical@.len() + k])@
                    == block_text(
                    self.reports@[k]@,
                    self.filename@,
                    row_text(self.source@, self.reports@[k]@.token.line),
                ),
    {
        let rows = split_chars(self.source.as_str(), '\n');
        let mut out: Vec<String> = Vec::new();
        let mut i: usize = 0;
        while i < self.lexical.len()
            invariant
                i <= self.lexical@.len(),
                out@.len() == i,
                forall|k: int|
                    0 <= k < i ==> (#[trigger] out@[k])@ == LexReport::line_of(
                        self.lexical@[k]@,
                        self.filename@,
                    ),
            decreases self.lexical@.len() - i,
        {
            out.push(self.lexical[i].render(self.filename.as_str()));
            i = i + 1;
        }
        let mut j: usize = 0;
        while j < self.reports.len()
            invariant
                j <= self.reports@.len(),
                string_views(rows@) == split_text(self.source@, '\n'),
                out@.len() == self.lexical@.len() + j,
                forall|k: int|
                    0 <= k < self.lexical@.len() ==> (#[trigger] out@[k])@ == LexReport::line_of(
                        self.lexical@[k]@,
                        self.filename@,
                    ),
                forall|k: int|
                    0 <= k < j ==> (#[trigger] out@[self.lexical@.len() + k])@ == block_text(
                        self.reports@[k]@,
                        self.filename@,
                        row_text(self.source@, self.reports@[k]@.token.line),
                    ),
            decreases self.reports@.len() - j,
        {
            out.push(self.reports[j].render_among(self.filename.as_str(), &rows));
            j = j + 1;
        }
        out
    }
}

} // verus!
