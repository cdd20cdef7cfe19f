//! The recursive-descent parser: a cursor over the tokens that builds
//! statements and expressions and notes what it found out of place.

use vstd::prelude::*;
use crate::ast::{
    expr_clean, expr_within, exprs_clean, exprs_within, stmt_clean, stmt_within, stmts_clean,
    stmts_within, Expression, Statement,
};
use crate::lexer::{token_views, LexReport, Lexer};
use crate::ast::{expr_model, expr_models, lemma_models, stmt_model, stmt_models, ExprModel};
use crate::syntax::{
    args_at, array_at, assign_at, block_at, block_items, boolean_at, call_at, expr_at, if_at,
    items_at, primary_at, program, stmt_at, stmts_at, Parsed,
};
use crate::text::{owned, text_is};
use crate::token::{Class, Token, TokenView};

verus! {

/// The syntax forms that a diagnostic can point into.
#[derive(Clone, Copy, Debug, PartialEq, Eq, Structural)]
pub enum Rule {
    FunDef,
    IfStatement,
    SetAssign,
    VarAssign,
    UsePackage,
    UseValue,
    UseAlias,
    Block,
    StringLiteral,
    NumberLiteral,
    Name,
    Array,
    Comparison,
    Arguments,
    Call,
}

/// A syntactic diagnostic as a mathematical value.
pub struct ParseReportView {
    pub message: Seq<char>,
    pub token: TokenView,
    pub rule: Rule,
    pub slot: nat,
}

/// A syntactic diagnostic: what was expected, the token it was found at, and
/// the slot of the syntax form that the token should have filled.
#[derive(Debug)]
pub struct ParseReport {
    pub message: String,
    pub token: Token,
    pub rule: Rule,
    pub slot: usize,
}

impl View for ParseReport {
    type V = ParseReportView;

    open spec fn view(&self) -> ParseReportView {
        ParseReportView {
            message: self.message@,
            token: self.token@,
            rule: self.rule,
            slot: self.slot as nat,
        }
    }
}

pub open spec fn parse_views(v: Seq<ParseReport>) -> Seq<ParseReportView> {
    v.map_values(|r: ParseReport| r@)
}

/// The message on a token of another class than the one that was due.
pub open spec fn mismatch(want: Class, got: Class) -> Seq<char> {
    "expected "@ + want.display() + ", got "@ + got.display()
}

/// The message on a token that starts no expression.
pub open spec fn no_expression(got: Class) -> Seq<char> {
    "expected expression, found "@ + got.display()
}

/// The message on an element that no comma parts from the one before.
pub open spec fn no_comma(got: Class) -> Seq<char> {
    "expected ',' before another expression but found "@ + got.display()
}

/// The message on a keyword whose statement is not supported.
pub open spec fn unsupported(word: Seq<char>) -> Seq<char> {
    "unsupported construct '"@ + word + seq!['\'']
}

/// The syntax form that a keyword without a statement of its own belongs to.
pub open spec fn keyword_rule(word: Seq<char>) -> Rule {
    if word == "use"@ {
        Rule::UsePackage
    } else {
        Rule::FunDef
    }
}

/// The slot of that form in which the keyword stands.
pub open spec fn keyword_slot(word: Seq<char>) -> nat {
    if word == "yeild"@ {
        6
    } else {
        0
    }
}

pub open spec fn is_literal(c: Class) -> bool {
    c == Class::String || c == Class::Number || c == Class::Boolean
}

/// A cursor over a token sequence that ends in the end-of-input token.
#[derive(Debug)]
pub struct Parser {
    pub tokens: Vec<Token>,
    pub index: usize,
    pub filename: String,
    pub source: String,
    pub reports: Vec<ParseReport>,
    pub lexical: Vec<LexReport>,
}

impl Parser {
    /// The sequence is not empty, its last token is the end-of-input token,
    /// and the cursor stands on a token.
    pub open spec fn wf(&self) -> bool {
        &&& self.tokens@.len() >= 1
        &&& self.tokens@[self.tokens@.len() - 1].class == Class::Eof
        &&& self.index < self.tokens@.len()
    }

    pub open spec fn stream(&self) -> Seq<TokenView> {
        token_views(self.tokens@)
    }

    pub open spec fn reps(&self) -> Seq<ParseReportView> {
        parse_views(self.reports@)
    }

    /// The token under the cursor.
    pub open spec fn here(&self) -> TokenView {
        self.stream()[self.index as int]
    }

    /// The index of the token at `offset` from the cursor, or of the last
    /// token where there is none.
    pub open spec fn clamped(&self, offset: int) -> int {
        if 0 <= self.index + offset < self.tokens@.len() {
            self.index + offset
        } else {
            self.tokens@.len() - 1
        }
    }

    /// Where the cursor stands after one move: on the next token, or still on
    /// the last.
    pub open spec fn after(&self) -> int {
        if self.index + 1 < self.tokens@.len() {
            self.index + 1
        } else {
            self.index as int
        }
    }

    /// How many tokens lie between the cursor and the last token.
    pub open spec fn left(&self) -> int {
        self.tokens@.len() - 1 - self.index
    }

    /// The parser `self` has come from `before` by reading on: the tokens and
    /// the text are the same, the cursor has not gone back, and the reports
    /// of `before` are the first of `self`.
    pub open spec fn follows(&self, before: &Parser) -> bool {
        &&& self.wf()
        &&& self.tokens == before.tokens
        &&& self.filename == before.filename
        &&& self.source == before.source
        &&& self.lexical == before.lexical
        &&& before.index <= self.index
        &&& before.reps().len() <= self.reps().len()
        &&& self.reps().subrange(0, before.reps().len() as int) == before.reps()
    }

    /// Tokenizes the lexer's text and places a cursor on the first token. The
    /// result is `Err` with the lexical reports exactly where the scan was
    /// given up.
    pub fn init(lexer: Lexer) -> (r: Result<Parser, Vec<LexReport>>)
        requires
            lexer.bytes().len() < usize::MAX,
        ensures
            ({
                let out = crate::lexer::tokenization(lexer.bytes());
                match r {
                    Ok(p) => {
                        &&& !out.fatal
                        &&& p.wf()
                        &&& p.index == 0
                        &&& p.stream() == out.tokens
                        &&& crate::lexer::report_views(p.lexical@) == out.reports
                        &&& p.reps() == Seq::<ParseReportView>::empty()
                        &&& p.filename == lexer.filename
                        &&& p.source == lexer.source
                    },
                    Err(e) => out.fatal && crate::lexer::report_views(e@) == out.reports,
                }
            }),
    {
        let filename = lexer.filename.clone();
        let source = lexer.source.clone();
        proof {
            crate::lexer::lemma_scan_ends(lexer.bytes(), 0, Seq::empty(), Seq::empty());
        }
        match lexer.tokenize() {
            Ok(lexed) => {
                let p = Parser {
                    tokens: lexed.tokens,
                    index: 0,
                    filename,
                    source,
                    reports: Vec::new(),
                    lexical: lexed.reports,
                };
                assert(p.reps() =~= Seq::<ParseReportView>::empty());
                assert(p.stream()[p.tokens@.len() - 1].class == Class::Eof);
                Ok(p)
            },
            Err(e) => Err(e),
        }
    }

    /// A copy of the token at `offset` from the cursor; beyond either end, of
    /// the last token.
    pub fn nth(&self, offset: isize) -> (t: Token)
        requires
            self.wf(),
        ensures
            t@ == self.stream()[self.clamped(offset as int)],
    {
        let len = self.tokens.len();
        if offset >= 0 {
            let forward = offset as usize;
            if forward < len - self.index {
                self.tokens[self.index + forward].duplicate()
            } else {
                self.tokens[len - 1].duplicate()
            }
        } else {
            let back = (-(offset + 1)) as usize;
            if back < self.index {
                self.tokens[self.index - back - 1].duplicate()
            } else {
                self.tokens[len - 1].duplicate()
            }
        }
    }

    /// A copy of the token under the cursor.
    pub fn cur(&self) -> (t: Token)
        requires
            self.wf(),
        ensures
            t@ == self.here(),
    {
        self.tokens[self.index].duplicate()
    }

    fn class(&self) -> (c: Class)
        requires
            self.wf(),
        ensures
            c == self.here().class,
    {
        self.tokens[self.index].class
    }

    /// Moves the cursor on by one token; on the last token it stays.
    pub fn next(&mut self)
        requires
            old(self).wf(),
        ensures
            final(self).follows(old(self)),
            final(self).index == old(self).after(),
            final(self).reports == old(self).reports,
    {
        if self.index < self.tokens.len() - 1 {
            self.index = self.index + 1;
        }
        assert(self.reps().subrange(0, self.reps().len() as int) =~= self.reps());
    }

    /// Notes a diagnostic at the token under the cursor.
    fn error(&mut self, message: String, rule: Rule, slot: usize)
        requires
            old(self).wf(),
        ensures
            final(self).follows(old(self)),
            final(self).index == old(self).index,
            final(self).reps() == old(self).reps().push(
                ParseReportView { message: message@, token: old(self).here(), rule, slot: slot as nat },
            ),
    {
        let token = self.cur();
        self.reports.push(ParseReport { message, token, rule, slot });
        assert(self.reps() =~= old(self).reps().push(
            ParseReportView { message: message@, token: old(self).here(), rule, slot: slot as nat },
        ));
        assert(self.reps().subrange(0, old(self).reps().len() as int) =~= old(self).reps());
    }

    /// Takes the token under the cursor and moves on. Where the token is of
    /// another class than `class`, that is noted first; the token is taken
    /// all the same.
    pub fn eat(&mut self, class: Class, rule: Rule, slot: usize) -> (t: Token)
        requires
            old(self).wf(),
        ensures
            final(self).follows(old(self)),
            final(self).index == old(self).after(),
            t@ == old(self).here(),
            final(self).reps() == if old(self).here().class == class {
                old(self).reps()
            } else {
                old(self).reps().push(
                    ParseReportView {
                        message: mismatch(class, old(self).here().class),
                        token: old(self).here(),
                        rule,
                        slot: slot as nat,
                    },
                )
            },
    {
        let cur = self.cur();
        if cur.class != class {
            let mut message = String::new();
            message.push_str("expected ");
            message.push_str(class.name().as_str());
            message.push_str(", got ");
            message.push_str(cur.class.name().as_str());
            assert(message@ =~= mismatch(class, cur.class));
            self.error(message, rule, slot);
        }
        let ghost mid = *self;
        self.next();
        proof {
            lemma_follows_trans(old(self), &mid, self);
        }
        cur
    }
}

impl Parser {
    fn peek_class(&self) -> (c: Class)
        requires
            self.wf(),
        ensures
            c == self.stream()[self.after()].class,
    {
        if self.index < self.tokens.len() - 1 {
            self.tokens[self.index + 1].class
        } else {
            self.tokens[self.index].class
        }
    }

    /// Reads one expression: a literal, an array or a call, and with a
    /// comparator behind it a comparison of one level. Where none starts at
    /// the cursor a placeholder is given and the reason noted.
    pub fn collect_expression(&mut self, rule: Rule, slot: usize) -> (e: Expression)
        requires
            old(self).wf(),
        ensures
            final(self).follows(old(self)),
            expr_within(e, old(self).stream()),
            final(self).reps().len() == old(self).reps().len() ==> expr_clean(e),
            e is Null ==> final(self).reps().len() > old(self).reps().len(),
            ({
                let r = expr_at(
                    old(self).stream(),
                    old(self).index as int,
                    old(self).reps(),
                    rule,
                    slot as nat,
                );
                expr_model(e) == r.value && final(self).index == r.index && final(self).reps()
                    == r.reps
            }),
        decreases old(self).left(), 4int,
    {
        let value = self.collect_primary(rule, slot);
        if self.class() == Class::Comparator {
            let ghost mid = *self;
            let e = self.collect_boolean_expression(value);
            proof {
                lemma_follows_trans(old(self), &mid, self);
            }
            return e;
        }
        value
    }

    /// Reads a literal, an array or a call, and looks for no comparator
    /// behind it. Where none starts at the cursor a placeholder is given and
    /// the reason noted.
    pub fn collect_primary(&mut self, rule: Rule, slot: usize) -> (e: Expression)
        requires
            old(self).wf(),
        ensures
            final(self).follows(old(self)),
            expr_within(e, old(self).stream()),
            final(self).reps().len() == old(self).reps().len() ==> expr_clean(e),
            e is Null ==> final(self).reps().len() > old(self).reps().len(),
            !(e is BooleanExpr),
            ({
                let r = primary_at(
                    old(self).stream(),
                    old(self).index as int,
                    old(self).reps(),
                    rule,
                    slot as nat,
                );
                expr_model(e) == r.value && final(self).index == r.index && final(self).reps()
                    == r.reps
            }),
        decreases old(self).left(), 3int,
    {
        let class = self.class();
        let value = match class {
            Class::LeftBrace => self.collect_array(rule, slot),
            Class::String | Class::Number | Class::Boolean => {
                let t = self.cur();
                self.next();
                Expression::Literal { value: t }
            },
            Class::Identifier => {
                if self.peek_class() == Class::LeftParen {
                    self.collect_fun_call(rule, slot)
                } else {
                    self.error(owned("expected '(' after identifier"), Rule::Call, 1);
                    Expression::Null
                }
            },
            _ => {
                let mut message = String::new();
                message.push_str("expected expression, found ");
                message.push_str(class.name().as_str());
                assert(message@ =~= no_expression(class));
                self.error(message, rule, slot);
                Expression::Null
            },
        };
        value
    }

    /// Reads an array from its opening bracket on: expressions with a comma
    /// before each but the first, up to the closing bracket. Where the tokens
    /// end first, or a comma is missing, a placeholder is given.
    pub fn collect_array(&mut self, rule: Rule, slot: usize) -> (e: Expression)
        requires
            old(self).wf(),
            old(self).here().class == Class::LeftBrace,
        ensures
            final(self).follows(old(self)),
            final(self).index > old(self).index,
            expr_within(e, old(self).stream()),
            final(self).reps().len() == old(self).reps().len() ==> expr_clean(e),
            e is Array || e is Null,
            e is Null ==> final(self).reps().len() > old(self).reps().len(),
            ({
                let r = array_at(
                    old(self).stream(),
                    old(self).index as int,
                    old(self).reps(),
                    rule,
                    slot as nat,
                );
                expr_model(e) == r.value && final(self).index == r.index && final(self).reps()
                    == r.reps
            }),
        decreases old(self).left(), 2int,
    {
        self.next();
        let mut value: Vec<Expression> = Vec::new();
        let mut comma = true;
        let ghost toks = self.stream();
        let ghost goal = items_at(
            toks,
            self.index as int,
            self.reps(),
            true,
            Seq::empty(),
            false,
            rule,
            slot as nat,
        );
        assert(expr_models(value@) =~= Seq::empty());
        loop
            invariant_except_break
                items_at(
                    toks,
                    self.index as int,
                    self.reps(),
                    comma,
                    expr_models(value@),
                    false,
                    rule,
                    slot as nat,
                ) == goal,
            invariant
                toks == old(self).stream(),
                array_at(toks, old(self).index as int, old(self).reps(), rule, slot as nat) == (Parsed {
                    value: match goal.value {
                        Some(items) => ExprModel::Array { items },
                        None => ExprModel::Null,
                    },
                    index: goal.index,
                    reps: goal.reps,
                }),
                self.follows(old(self)),
                self.index > old(self).index,
                exprs_within(value@, old(self).stream()),
                self.reps().len() == old(self).reps().len() ==> exprs_clean(value@),
            ensures
                goal == (Parsed {
                    value: Some(expr_models(value@)),
                    index: self.index as int,
                    reps: self.reps(),
                }),
            decreases self.left(), (if comma { 1int } else { 0int }),
        {
            let class = self.class();
            let ghost mid = *self;
            match class {
                Class::Eof => {
                    self.error(
                        owned("expected ']' to finish array parsing but found '\\0'"),
                        Rule::Array,
                        2,
                    );
                    proof {
                        lemma_follows_trans(old(self), &mid, self);
                    }
                    return Expression::Null;
                },
                Class::RightBrace => {
                    self.next();
                    proof {
                        lemma_follows_trans(old(self), &mid, self);
                    }
                    break ;
                },
                Class::Comma => {
                    comma = true;
                    self.next();
                    proof {
                        lemma_follows_trans(old(self), &mid, self);
                    }
                },
                _ => {
                    if comma {
                        comma = false;
                        let ghost before = expr_models(value@);
                        let e = self.collect_expression(rule, slot);
                        value.push(e);
                        proof {
                            lemma_follows_trans(old(self), &mid, self);
                            assert(expr_models(value@) =~= before.push(expr_model(e)));
                        }
                    } else {
                        let mut message = String::new();
                        message.push_str("expected ',' before another expression but found ");
                        message.push_str(class.name().as_str());
                        assert(message@ =~= no_comma(class));
                        self.error(message, Rule::Array, 1);
                        proof {
                            lemma_follows_trans(old(self), &mid, self);
                        }
                        return Expression::Null;
                    }
                },
            }
        }
        let e = Expression::Array { value };
        proof {
            lemma_models(e, Statement::Void);
        }
        e
    }

    /// Reads the right side of a comparison whose left side was read: the
    /// comparator under the cursor and one literal, array or call. A
    /// comparator behind the right side is left under the cursor, so
    /// comparisons do not nest.
    pub fn collect_boolean_expression(&mut self, lhs: Expression) -> (e: Expression)
        requires
            old(self).wf(),
            old(self).here().class == Class::Comparator,
            expr_within(lhs, old(self).stream()),
        ensures
            final(self).follows(old(self)),
            final(self).index > old(self).index,
            expr_within(e, old(self).stream()),
            e matches Expression::BooleanExpr { lhs: l, rhs: r, operator } && *l == lhs
                && operator@ == old(self).here() && !(*r is BooleanExpr),
            final(self).reps().len() == old(self).reps().len() && expr_clean(lhs) ==> expr_clean(e),
            ({
                let r = boolean_at(
                    old(self).stream(),
                    old(self).index as int,
                    old(self).reps(),
                    expr_model(lhs),
                );
                expr_model(e) == r.value && final(self).index == r.index && final(self).reps()
                    == r.reps
            }),
        decreases old(self).left(), 2int,
    {
        let operator = self.eat(Class::Comparator, Rule::Comparison, 1);
        let ghost mid = *self;
        let rhs = self.collect_primary(Rule::Comparison, 2);
        proof {
            lemma_follows_trans(old(self), &mid, self);
        }
        Expression::BooleanExpr { lhs: Box::new(lhs), rhs: Box::new(rhs), operator }
    }

    /// Reads the arguments of a call from the opening parenthesis on, as an
    /// array is read; where a placeholder would stand, no argument is given.
    pub fn collect_arguments(&mut self, rule: Rule, slot: usize) -> (args: Vec<Expression>)
        requires
            old(self).wf(),
            old(self).here().class == Class::LeftParen,
        ensures
            final(self).follows(old(self)),
            final(self).index > old(self).index,
            exprs_within(args@, old(self).stream()),
            final(self).reps().len() == old(self).reps().len() ==> exprs_clean(args@),
            ({
                let r = args_at(
                    old(self).stream(),
                    old(self).index as int,
                    old(self).reps(),
                    rule,
                    slot as nat,
                );
                expr_models(args@) == r.value && final(self).index == r.index && final(self).reps() == r.reps
            }),
        decreases old(self).left(), 1int,
    {
        self.next();
        let mut args: Vec<Expression> = Vec::new();
        let mut comma = true;
        let ghost toks = self.stream();
        let ghost goal = items_at(
            toks,
            self.index as int,
            self.reps(),
            true,
            Seq::empty(),
            true,
            rule,
            slot as nat,
        );
        assert(expr_models(args@) =~= Seq::empty());
        loop
            invariant_except_break
                items_at(
                    toks,
                    self.index as int,
                    self.reps(),
                    comma,
                    expr_models(args@),
                    true,
                    rule,
                    slot as nat,
                ) == goal,
            invariant
                toks == old(self).stream(),
                args_at(toks, old(self).index as int, old(self).reps(), rule, slot as nat) == (Parsed {
                    value: match goal.value {
                        Some(items) => items,
                        None => Seq::empty(),
                    },
                    index: goal.index,
                    reps: goal.reps,
                }),
                self.follows(old(self)),
                self.index > old(self).index,
                exprs_within(args@, old(self).stream()),
                self.reps().len() == old(self).reps().len() ==> exprs_clean(args@),
            ensures
                goal == (Parsed {
                    value: Some(expr_models(args@)),
                    index: self.index as int,
                    reps: self.reps(),
                }),
            decreases self.left(), (if comma { 1int } else { 0int }),
        {
            let class = self.class();
            let ghost mid = *self;
            match class {
                Class::Eof => {
                    self.error(
                        owned("expected ')' to finish argument parsing but found '\\0'"),
                        Rule::Arguments,
                        2,
                    );
                    proof {
                        lemma_follows_trans(old(self), &mid, self);
                    }
                    let none: Vec<Expression> = Vec::new();
                    assert(expr_models(none@) =~= Seq::empty());
                    return none;
                },
                Class::RightParen => {
                    self.next();
                    proof {
                        lemma_follows_trans(old(self), &mid, self);
                    }
                    break ;
                },
                Class::Comma => {
                    comma = true;
                    self.next();
                    proof {
                        lemma_follows_trans(old(self), &mid, self);
                    }
                },
                _ => {
                    if comma {
                        comma = false;
                        let ghost before = expr_models(args@);
                        let e = self.collect_expression(rule, slot);
                        args.push(e);
                        proof {
                            lemma_follows_trans(old(self), &mid, self);
                            assert(expr_models(args@) =~= before.push(expr_model(e)));
                        }
                    } else {
                        let mut message = String::new();
                        message.push_str("expected ',' before another expression but found ");
                        message.push_str(class.name().as_str());
                        assert(message@ =~= no_comma(class));
                        self.error(message, Rule::Arguments, 1);
                        proof {
                            lemma_follows_trans(old(self), &mid, self);
                        }
                        let none: Vec<Expression> = Vec::new();
                        assert(expr_models(none@) =~= Seq::empty());
                        return none;
                    }
                },
            }
        }
        args
    }

    /// Reads a call: the name under the cursor and the arguments behind it.
    pub fn collect_fun_call(&mut self, rule: Rule, slot: usize) -> (e: Expression)
        requires
            old(self).wf(),
            old(self).here().class == Class::Identifier,
            old(self).stream()[old(self).after()].class == Class::LeftParen,
        ensures
            final(self).follows(old(self)),
            final(self).index > old(self).index,
            expr_within(e, old(self).stream()),
            e matches Expression::FunCall { name, args } && name@ == old(self).here(),
            final(self).reps().len() == old(self).reps().len() ==> expr_clean(e),
            ({
                let r = call_at(
                    old(self).stream(),
                    old(self).index as int,
                    old(self).reps(),
                    rule,
                    slot as nat,
                );
                expr_model(e) == r.value && final(self).index == r.index && final(self).reps()
                    == r.reps
            }),
        decreases old(self).left(), 2int,
    {
        let name = self.eat(Class::Identifier, Rule::Call, 0);
        let ghost mid = *self;
        let args = self.collect_arguments(rule, slot);
        proof {
            lemma_follows_trans(old(self), &mid, self);
        }
        let e = Expression::FunCall { name, args };
        proof {
            lemma_models(e, Statement::Void);
        }
        e
    }
}

impl Parser {
    /// Reads statements up to the end-of-input token.
    pub fn scan_for_statements(&mut self) -> (statements: Vec<Statement>)
        requires
            old(self).wf(),
        ensures
            final(self).follows(old(self)),
            final(self).here().class == Class::Eof,
            stmts_within(statements@, old(self).stream()),
            final(self).reps().len() == old(self).reps().len() ==> stmts_clean(statements@),
            old(self).here().class == Class::Eof ==> statements@.len() == 0 && final(self).index
                == old(self).index && final(self).reps() == old(self).reps(),
            ({
                let r = stmts_at(
                    old(self).stream(),
                    old(self).index as int,
                    old(self).reps(),
                    Seq::empty(),
                );
                stmt_models(statements@) == r.value && final(self).index == r.index && final(self).reps() == r.reps
            }),
    {
        let mut statements: Vec<Statement> = Vec::new();
        assert(self.reps().subrange(0, self.reps().len() as int) =~= self.reps());
        assert(stmt_models(statements@) =~= Seq::empty());
        while self.class() != Class::Eof
            invariant
                stmts_at(
                    old(self).stream(),
                    self.index as int,
                    self.reps(),
                    stmt_models(statements@),
                ) == stmts_at(
                    old(self).stream(),
                    old(self).index as int,
                    old(self).reps(),
                    Seq::empty(),
                ),
                self.follows(old(self)),
                stmts_within(statements@, old(self).stream()),
                self.reps().len() == old(self).reps().len() ==> stmts_clean(statements@),
                old(self).here().class == Class::Eof ==> statements@.len() == 0 && self.index
                    == old(self).index && self.reps() == old(self).reps(),
            decreases self.left(),
        {
            let ghost mid = *self;
            let ghost before = stmt_models(statements@);
            let s = self.scan_for_statement();
            statements.push(s);
            proof {
                lemma_follows_trans(old(self), &mid, self);
                assert(stmt_models(statements@) =~= before.push(stmt_model(s)));
            }
        }
        statements
    }

    /// Reads one statement. A keyword decides which; a keyword without a
    /// statement of its own is noted and passed over, and any other token is
    /// passed over in silence. Both give the empty statement.
    pub fn scan_for_statement(&mut self) -> (s: Statement)
        requires
            old(self).wf(),
        ensures
            final(self).follows(old(self)),
            old(self).here().class != Class::Eof ==> final(self).index > old(self).index,
            stmt_within(s, old(self).stream()),
            final(self).reps().len() == old(self).reps().len() ==> stmt_clean(s),
            old(self).here().class != Class::Keyword ==> s is Void && final(self).index == old(self).after() && final(self).reps() == old(self).reps(),
            old(self).here().class == Class::Keyword ==> ({
                let word = old(self).here().text;
                if word == "set"@ {
                    s matches Statement::SetAssign { name, value } && name@ == old(self).stream()[old(self).after()]
                } else if word == "var"@ {
                    s matches Statement::VarAssign { name, value } && name@ == old(self).stream()[old(self).after()]
                } else if word == "if"@ {
                    s is IfStatement
                } else {
                    s is Void && final(self).index == old(self).after() && final(self).reps()
                        == old(self).reps().push(
                        ParseReportView {
                            message: unsupported(word),
                            token: old(self).here(),
                            rule: keyword_rule(word),
                            slot: keyword_slot(word),
                        },
                    )
                }
            }),
            ({
                let r = stmt_at(old(self).stream(), old(self).index as int, old(self).reps());
                stmt_model(s) == r.value && final(self).index == r.index && final(self).reps()
                    == r.reps
            }),
        decreases old(self).left(), 3int,
    {
        let class = self.class();
        if class == Class::Keyword {
            if text_is(&self.tokens[self.index].value, "set") {
                self.scan_set_assign()
            } else if text_is(&self.tokens[self.index].value, "var") {
                self.scan_var_assign()
            } else if text_is(&self.tokens[self.index].value, "if") {
                self.scan_for_if()
            } else {
                let mut message = String::new();
                message.push_str("unsupported construct '");
                message.push_str(self.tokens[self.index].value.as_str());
                message.push('\'');
                assert(message@ =~= unsupported(self.here().text));
                let slot: usize = if text_is(&self.tokens[self.index].value, "yeild") {
                    6
                } else {
                    0
                };
                let rule = if text_is(&self.tokens[self.index].value, "use") {
                    Rule::UsePackage
                } else {
                    Rule::FunDef
                };
                self.error(message, rule, slot);
                let ghost mid = *self;
                self.next();
                proof {
                    lemma_follows_trans(old(self), &mid, self);
                }
                Statement::Void
            }
        } else {
            self.next();
            Statement::Void
        }
    }

    /// Reads a block: an opening bracket, statements, a closing bracket.
    /// Where the tokens end first, that is noted and the statements read so
    /// far are given.
    pub fn scan_code_block(&mut self) -> (statements: Vec<Statement>)
        requires
            old(self).wf(),
        ensures
            final(self).follows(old(self)),
            stmts_within(statements@, old(self).stream()),
            final(self).reps().len() == old(self).reps().len() ==> stmts_clean(statements@),
            final(self).reps().len() == old(self).reps().len() ==> old(self).here().class
                == Class::LeftBrace && final(self).index > old(self).index && old(self).stream()[final(self).index - 1].class == Class::RightBrace,
            ({
                let r = block_at(old(self).stream(), old(self).index as int, old(self).reps());
                stmt_models(statements@) == r.value && final(self).index == r.index && final(self).reps() == r.reps
            }),
        decreases old(self).left(), 1int,
    {
        self.eat(Class::LeftBrace, Rule::Block, 0);
        let mut statements: Vec<Statement> = Vec::new();
        let ghost toks = self.stream();
        let ghost goal = block_items(toks, self.index as int, self.reps(), Seq::empty());
        assert(stmt_models(statements@) =~= Seq::empty());
        while self.class() != Class::RightBrace
            invariant_except_break
                block_items(toks, self.index as int, self.reps(), stmt_models(statements@))
                    == goal,
            invariant
                toks == old(self).stream(),
                self.follows(old(self)),
                self.index > old(self).index || self.index == self.tokens@.len() - 1,
                stmts_within(statements@, old(self).stream()),
                self.reps().len() == old(self).reps().len() ==> stmts_clean(statements@),
                self.reps().len() == old(self).reps().len() ==> old(self).here().class
                    == Class::LeftBrace,
            ensures
                self.reps().len() == old(self).reps().len() ==> self.here().class
                    == Class::RightBrace,
                goal == (Parsed {
                    value: stmt_models(statements@),
                    index: self.index as int,
                    reps: self.reps(),
                }),
            decreases self.left(),
        {
            let ghost mid = *self;
            if self.class() == Class::Eof {
                self.error(
                    owned("unexpected end-of-file, wanted ']' for closing code block"),
                    Rule::Block,
                    2,
                );
                proof {
                    lemma_follows_trans(old(self), &mid, self);
                }
                break ;
            }
            let ghost before = stmt_models(statements@);
            let s = self.scan_for_statement();
            statements.push(s);
            proof {
                lemma_follows_trans(old(self), &mid, self);
                assert(stmt_models(statements@) =~= before.push(stmt_model(s)));
            }
        }
        let ghost mid = *self;
        self.next();
        proof {
            lemma_follows_trans(old(self), &mid, self);
        }
        statements
    }

    /// Reads `set NAME = EXPR ;` from the keyword on.
    pub fn scan_set_assign(&mut self) -> (s: Statement)
        requires
            old(self).wf(),
            old(self).here().class == Class::Keyword,
        ensures
            final(self).follows(old(self)),
            final(self).index > old(self).index,
            stmt_within(s, old(self).stream()),
            s matches Statement::SetAssign { name, value } && name@ == old(self).stream()[old(self).after()],
            final(self).reps().len() == old(self).reps().len() ==> stmt_clean(s),
            ({
                let r = assign_at(old(self).stream(), old(self).index as int, old(self).reps(), true);
                stmt_model(s) == r.value && final(self).index == r.index && final(self).reps()
                    == r.reps
            }),
    {
        self.next();
        let ghost a = *self;
        let name = self.eat(Class::Identifier, Rule::SetAssign, 1);
        let ghost b = *self;
        self.eat(Class::Assign, Rule::SetAssign, 2);
        let ghost c = *self;
        let value = self.collect_expression(Rule::SetAssign, 3);
        let ghost d = *self;
        self.eat(Class::Semi, Rule::SetAssign, 4);
        proof {
            lemma_follows_trans(old(self), &a, &b);
            lemma_follows_trans(old(self), &b, &c);
            lemma_follows_trans(old(self), &c, &d);
            lemma_follows_trans(old(self), &d, self);
            lemma_follows_trans(&c, &d, self);
        }
        Statement::SetAssign { name, value }
    }

    /// Reads `var NAME = EXPR ;` from the keyword on.
    pub fn scan_var_assign(&mut self) -> (s: Statement)
        requires
            old(self).wf(),
            old(self).here().class == Class::Keyword,
        ensures
            final(self).follows(old(self)),
            final(self).index > old(self).index,
            stmt_within(s, old(self).stream()),
            s matches Statement::VarAssign { name, value } && name@ == old(self).stream()[old(self).after()],
            final(self).reps().len() == old(self).reps().len() ==> stmt_clean(s),
            ({
                let r = assign_at(old(self).stream(), old(self).index as int, old(self).reps(), false);
                stmt_model(s) == r.value && final(self).index == r.index && final(self).reps()
                    == r.reps
            }),
    {
        self.next();
        let ghost a = *self;
        let name = self.eat(Class::Identifier, Rule::VarAssign, 1);
        let ghost b = *self;
        self.eat(Class::Assign, Rule::VarAssign, 2);
        let ghost c = *self;
        let value = self.collect_expression(Rule::VarAssign, 3);
        let ghost d = *self;
        self.eat(Class::Semi, Rule::VarAssign, 4);
        proof {
            lemma_follows_trans(old(self), &a, &b);
            lemma_follows_trans(old(self), &b, &c);
            lemma_follows_trans(old(self), &c, &d);
            lemma_follows_trans(old(self), &d, self);
            lemma_follows_trans(&c, &d, self);
        }
        Statement::VarAssign { name, value }
    }

    /// Reads `if EXPR [ statements ]` from the keyword on.
    pub fn scan_for_if(&mut self) -> (s: Statement)
        requires
            old(self).wf(),
            old(self).here().class == Class::Keyword,
        ensures
            final(self).follows(old(self)),
            final(self).index > old(self).index,
            stmt_within(s, old(self).stream()),
            s is IfStatement,
            final(self).reps().len() == old(self).reps().len() ==> stmt_clean(s),
            ({
                let r = if_at(old(self).stream(), old(self).index as int, old(self).reps());
                stmt_model(s) == r.value && final(self).index == r.index && final(self).reps()
                    == r.reps
            }),
        decreases old(self).left(), 2int,
    {
        self.next();
        let ghost a = *self;
        let boolean = self.collect_expression(Rule::IfStatement, 1);
        let ghost b = *self;
        let block = self.scan_code_block();
        proof {
            lemma_follows_trans(old(self), &a, &b);
            lemma_follows_trans(old(self), &b, self);
            lemma_follows_trans(&a, &b, self);
        }
        let s = Statement::IfStatement { boolean, block };
        proof {
            lemma_models(Expression::Null, s);
        }
        s
    }
}

/// A parsed source text: its statements and the reports of both passes.
#[derive(Debug)]
pub struct Program {
    pub statements: Vec<Statement>,
    pub lexical: Vec<LexReport>,
    pub syntactic: Vec<ParseReport>,
}

/// Tokenizes and parses a source text. What comes back depends on the text
/// alone: `Err` with the lexical reports exactly where a string is left open,
/// else the statements and reports of `program` over the tokens of
/// `tokenization`, read up to the end-of-input token.
pub fn parse(filename: String, source: String) -> (r: Result<Program, Vec<LexReport>>)
    requires
        vstd::utf8::encode_utf8(source@).len() < usize::MAX,
    ensures
        ({
            let lexed = crate::lexer::tokenization(vstd::utf8::encode_utf8(source@));
            let parsed = program(lexed.tokens);
            match r {
                Ok(p) => {
                    &&& !lexed.fatal
                    &&& crate::lexer::report_views(p.lexical@) == lexed.reports
                    &&& stmt_models(p.statements@) == parsed.value
                    &&& parse_views(p.syntactic@) == parsed.reps
                    &&& stmts_within(p.statements@, lexed.tokens)
                    &&& 0 <= parsed.index < lexed.tokens.len()
                    &&& lexed.tokens[parsed.index].class == Class::Eof
                },
                Err(e) => lexed.fatal && crate::lexer::report_views(e@) == lexed.reports,
            }
        }),
{
    match Parser::init(Lexer::init(filename, source)) {
        Ok(parser) => {
            let mut parser = parser;
            let statements = parser.scan_for_statements();
            Ok(Program { statements, lexical: parser.lexical, syntactic: parser.reports })
        },
        Err(e) => Err(e),
    }
}

/// Reading on is transitive.
pub proof fn lemma_follows_trans(a: &Parser, b: &Parser, c: &Parser)
    requires
        b.follows(a),
        c.follows(b),
    ensures
        c.follows(a),
{
    assert(c.reps().subrange(0, a.reps().len() as int) =~= b.reps().subrange(
        0,
        a.reps().len() as int,
    ));
}

} // verus!
