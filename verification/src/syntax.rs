//! What the parser yields, as functions of the token sequence alone: the
//! tree, where the cursor comes to stand, and the reports, in order.
//!
//! Where a definition asks whether the cursor has moved on, or still stands
//! on a token, before it reads on, the answer is yes for every sequence that
//! ends in the end-of-input token (`lemma_expr_bounds` and the lemmas beside
//! it); the question only makes the definitions well-founded.

use vstd::prelude::*;
use crate::ast::{ExprModel, StmtModel};
use crate::parser::{
    is_literal, keyword_rule, keyword_slot, mismatch, no_comma, no_expression, unsupported,
    ParseReportView, Rule,
};
use crate::token::{Class, TokenView};

verus! {

/// A result of reading: what was read, where the cursor stands after it, and
/// the reports up to then.
pub struct Parsed<T> {
    pub value: T,
    pub index: int,
    pub reps: Seq<ParseReportView>,
}

/// The index after `i`, or `i` itself on the last token.
pub open spec fn adv(toks: Seq<TokenView>, i: int) -> int {
    if i + 1 < toks.len() {
        i + 1
    } else {
        i
    }
}

/// The reports with one more, at the token `i`.
pub open spec fn note(
    reps: Seq<ParseReportView>,
    toks: Seq<TokenView>,
    i: int,
    message: Seq<char>,
    rule: Rule,
    slot: nat,
) -> Seq<ParseReportView> {
    reps.push(ParseReportView { message, token: toks[i], rule, slot })
}

/// The reports after the token `i` was taken for one of class `class`.
pub open spec fn eaten(
    reps: Seq<ParseReportView>,
    toks: Seq<TokenView>,
    i: int,
    class: Class,
    rule: Rule,
    slot: nat,
) -> Seq<ParseReportView> {
    if toks[i].class == class {
        reps
    } else {
        note(reps, toks, i, mismatch(class, toks[i].class), rule, slot)
    }
}

/// The class that closes a list: of arguments, or of an array.
pub open spec fn closing(call: bool) -> Class {
    if call {
        Class::RightParen
    } else {
        Class::RightBrace
    }
}

/// The rule that a report on a list points into.
pub open spec fn list_rule(call: bool) -> Rule {
    if call {
        Rule::Arguments
    } else {
        Rule::Array
    }
}

/// The message on a list that the end of the input cuts short.
pub open spec fn cut_short(call: bool) -> Seq<char> {
    if call {
        "expected ')' to finish argument parsing but found '\\0'"@
    } else {
        "expected ']' to finish array parsing but found '\\0'"@
    }
}

/// The expression at token `i` before any comparator is looked for: a
/// literal, an array or a call, or a placeholder with a report.
pub open spec fn primary_at(
    toks: Seq<TokenView>,
    i: int,
    reps: Seq<ParseReportView>,
    rule: Rule,
    slot: nat,
) -> Parsed<ExprModel>
    decreases toks.len() - i, 5int,
{
    if !(0 <= i < toks.len()) {
        Parsed { value: ExprModel::Null, index: i, reps }
    } else {
        let c = toks[i].class;
        if c == Class::LeftBrace {
            array_at(toks, i, reps, rule, slot)
        } else if is_literal(c) {
            Parsed { value: ExprModel::Literal { token: toks[i] }, index: adv(toks, i), reps }
        } else if c == Class::Identifier {
            if toks[adv(toks, i)].class == Class::LeftParen {
                call_at(toks, i, reps, rule, slot)
            } else {
                Parsed {
                    value: ExprModel::Null,
                    index: i,
                    reps: note(reps, toks, i, "expected '(' after identifier"@, Rule::Call, 1),
                }
            }
        } else {
            Parsed {
                value: ExprModel::Null,
                index: i,
                reps: note(reps, toks, i, no_expression(c), rule, slot),
            }
        }
    }
}

/// The expression at token `i`: a literal, an array or a call, made the left
/// side of a comparison where a comparator follows.
pub open spec fn expr_at(
    toks: Seq<TokenView>,
    i: int,
    reps: Seq<ParseReportView>,
    rule: Rule,
    slot: nat,
) -> Parsed<ExprModel>
    decreases toks.len() - i, 6int,
{
    if !(0 <= i < toks.len()) {
        Parsed { value: ExprModel::Null, index: i, reps }
    } else {
        let first = primary_at(toks, i, reps, rule, slot);
        if i <= first.index < toks.len() && toks[first.index].class == Class::Comparator {
            boolean_at(toks, first.index, first.reps, first.value)
        } else {
            first
        }
    }
}

/// The comparison whose comparator is token `i` and whose left side is
/// `lhs`. The right side is a literal, an array or a call; a comparator
/// behind it is not read, so a comparison has one level.
pub open spec fn boolean_at(
    toks: Seq<TokenView>,
    i: int,
    reps: Seq<ParseReportView>,
    lhs: ExprModel,
) -> Parsed<ExprModel>
    decreases toks.len() - i, 4int,
{
    let taken = eaten(reps, toks, i, Class::Comparator, Rule::Comparison, 1);
    if 0 <= i < adv(toks, i) {
        let r = primary_at(toks, adv(toks, i), taken, Rule::Comparison, 2);
        Parsed {
            value: ExprModel::BooleanExpr {
                lhs: Box::new(lhs),
                rhs: Box::new(r.value),
                operator: toks[i],
            },
            index: r.index,
            reps: r.reps,
        }
    } else {
        Parsed {
            value: ExprModel::BooleanExpr {
                lhs: Box::new(lhs),
                rhs: Box::new(ExprModel::Null),
                operator: toks[i],
            },
            index: i,
            reps: taken,
        }
    }
}

/// The rest of a list from token `i` on, after the items `found`; `comma`
/// says whether an item may come next. The value is `None` where the list is
/// cut short or a comma is missing.
pub open spec fn items_at(
    toks: Seq<TokenView>,
    i: int,
    reps: Seq<ParseReportView>,
    comma: bool,
    found: Seq<ExprModel>,
    call: bool,
    rule: Rule,
    slot: nat,
) -> Parsed<Option<Seq<ExprModel>>>
    decreases toks.len() - i, (if comma { 7int } else { 6int }),
{
    if !(0 <= i < toks.len()) {
        Parsed { value: None, index: i, reps }
    } else {
        let c = toks[i].class;
        if c == Class::Eof {
            Parsed {
                value: None,
                index: i,
                reps: note(reps, toks, i, cut_short(call), list_rule(call), 2),
            }
        } else if c == closing(call) {
            Parsed { value: Some(found), index: adv(toks, i), reps }
        } else if c == Class::Comma {
            if i < adv(toks, i) {
                items_at(toks, adv(toks, i), reps, true, found, call, rule, slot)
            } else {
                Parsed { value: None, index: i, reps }
            }
        } else if comma {
            let r = expr_at(toks, i, reps, rule, slot);
            if i <= r.index < toks.len() {
                items_at(toks, r.index, r.reps, false, found.push(r.value), call, rule, slot)
            } else {
                Parsed { value: None, index: r.index, reps: r.reps }
            }
        } else {
            Parsed {
                value: None,
                index: i,
                reps: note(reps, toks, i, no_comma(c), list_rule(call), 1),
            }
        }
    }
}

/// The array whose opening bracket is token `i`.
pub open spec fn array_at(
    toks: Seq<TokenView>,
    i: int,
    reps: Seq<ParseReportView>,
    rule: Rule,
    slot: nat,
) -> Parsed<ExprModel>
    decreases toks.len() - i, 4int,
{
    if 0 <= i < adv(toks, i) {
        let r = items_at(toks, adv(toks, i), reps, true, Seq::empty(), false, rule, slot);
        Parsed {
            value: match r.value {
                Some(items) => ExprModel::Array { items },
                None => ExprModel::Null,
            },
            index: r.index,
            reps: r.reps,
        }
    } else {
        Parsed { value: ExprModel::Null, index: i, reps }
    }
}

/// The arguments whose opening parenthesis is token `i`.
pub open spec fn args_at(
    toks: Seq<TokenView>,
    i: int,
    reps: Seq<ParseReportView>,
    rule: Rule,
    slot: nat,
) -> Parsed<Seq<ExprModel>>
    decreases toks.len() - i, 3int,
{
    if 0 <= i < adv(toks, i) {
        let r = items_at(toks, adv(toks, i), reps, true, Seq::empty(), true, rule, slot);
        Parsed {
            value: match r.value {
                Some(items) => items,
                None => Seq::empty(),
            },
            index: r.index,
            reps: r.reps,
        }
    } else {
        Parsed { value: Seq::empty(), index: i, reps }
    }
}

/// The call whose name is token `i`.
pub open spec fn call_at(
    toks: Seq<TokenView>,
    i: int,
    reps: Seq<ParseReportView>,
    rule: Rule,
    slot: nat,
) -> Parsed<ExprModel>
    decreases toks.len() - i, 4int,
{
    let taken = eaten(reps, toks, i, Class::Identifier, Rule::Call, 0);
    if 0 <= i < adv(toks, i) {
        let r = args_at(toks, adv(toks, i), taken, rule, slot);
        Parsed {
            value: ExprModel::FunCall { name: toks[i], args: r.value },
            index: r.index,
            reps: r.reps,
        }
    } else {
        Parsed {
            value: ExprModel::FunCall { name: toks[i], args: Seq::empty() },
            index: i,
            reps: taken,
        }
    }
}

/// The assignment whose keyword, `set` or `var`, is token `i`: a name, the
/// assign sign, an expression and a semicolon.
pub open spec fn assign_at(
    toks: Seq<TokenView>,
    i: int,
    reps: Seq<ParseReportView>,
    set: bool,
) -> Parsed<StmtModel> {
    let rule = if set {
        Rule::SetAssign
    } else {
        Rule::VarAssign
    };
    let a = adv(toks, i);
    let b = adv(toks, a);
    let named = eaten(reps, toks, a, Class::Identifier, rule, 1);
    let assigned = eaten(named, toks, b, Class::Assign, rule, 2);
    let r = expr_at(toks, adv(toks, b), assigned, rule, 3);
    Parsed {
        value: if set {
            StmtModel::SetAssign { name: toks[a], value: r.value }
        } else {
            StmtModel::VarAssign { name: toks[a], value: r.value }
        },
        index: adv(toks, r.index),
        reps: eaten(r.reps, toks, r.index, Class::Semi, rule, 4),
    }
}

/// The statement at token `i`.
pub open spec fn stmt_at(toks: Seq<TokenView>, i: int, reps: Seq<ParseReportView>) -> Parsed<
    StmtModel,
>
    decreases toks.len() - i, 8int,
{
    if !(0 <= i < toks.len()) {
        Parsed { value: StmtModel::Void, index: i, reps }
    } else if toks[i].class == Class::Keyword {
        let word = toks[i].text;
        if word == "set"@ {
            assign_at(toks, i, reps, true)
        } else if word == "var"@ {
            assign_at(toks, i, reps, false)
        } else if word == "if"@ {
            if_at(toks, i, reps)
        } else {
            Parsed {
                value: StmtModel::Void,
                index: adv(toks, i),
                reps: note(
                    reps,
                    toks,
                    i,
                    unsupported(word),
                    keyword_rule(word),
                    keyword_slot(word),
                ),
            }
        }
    } else {
        Parsed { value: StmtModel::Void, index: adv(toks, i), reps }
    }
}

/// The conditional whose keyword is token `i`: an expression and a block.
pub open spec fn if_at(toks: Seq<TokenView>, i: int, reps: Seq<ParseReportView>) -> Parsed<
    StmtModel,
>
    decreases toks.len() - i, 7int,
{
    let r = expr_at(toks, adv(toks, i), reps, Rule::IfStatement, 1);
    if 0 <= i < r.index < toks.len() {
        let b = block_at(toks, r.index, r.reps);
        Parsed {
            value: StmtModel::IfStatement { boolean: r.value, block: b.value },
            index: b.index,
            reps: b.reps,
        }
    } else {
        Parsed {
            value: StmtModel::IfStatement { boolean: r.value, block: Seq::empty() },
            index: r.index,
            reps: r.reps,
        }
    }
}

/// The block that starts at token `i`: an opening bracket, statements, and
/// the closing bracket, which is passed over.
pub open spec fn block_at(toks: Seq<TokenView>, i: int, reps: Seq<ParseReportView>) -> Parsed<
    Seq<StmtModel>,
>
    decreases toks.len() - i, 10int,
{
    if !(0 <= i < toks.len()) {
        Parsed { value: Seq::empty(), index: i, reps }
    } else {
        let r = block_items(
            toks,
            adv(toks, i),
            eaten(reps, toks, i, Class::LeftBrace, Rule::Block, 0),
            Seq::empty(),
        );
        Parsed { value: r.value, index: adv(toks, r.index), reps: r.reps }
    }
}

/// The statements of a block from token `i` on, after `found`, up to the
/// closing bracket or the end of the input, which is reported.
pub open spec fn block_items(
    toks: Seq<TokenView>,
    i: int,
    reps: Seq<ParseReportView>,
    found: Seq<StmtModel>,
) -> Parsed<Seq<StmtModel>>
    decreases toks.len() - i, 9int,
{
    if !(0 <= i < toks.len()) || toks[i].class == Class::RightBrace {
        Parsed { value: found, index: i, reps }
    } else if toks[i].class == Class::Eof {
        Parsed {
            value: found,
            index: i,
            reps: note(
                reps,
                toks,
                i,
                "unexpected end-of-file, wanted ']' for closing code block"@,
                Rule::Block,
                2,
            ),
        }
    } else {
        let r = stmt_at(toks, i, reps);
        if i < r.index < toks.len() {
            block_items(toks, r.index, r.reps, found.push(r.value))
        } else {
            Parsed { value: found.push(r.value), index: r.index, reps: r.reps }
        }
    }
}

/// The statements from token `i` on, after `found`, up to the end of the
/// input.
pub open spec fn stmts_at(
    toks: Seq<TokenView>,
    i: int,
    reps: Seq<ParseReportView>,
    found: Seq<StmtModel>,
) -> Parsed<Seq<StmtModel>>
    decreases toks.len() - i,
{
    if !(0 <= i < toks.len()) || toks[i].class == Class::Eof {
        Parsed { value: found, index: i, reps }
    } else {
        let r = stmt_at(toks, i, reps);
        if i < r.index < toks.len() {
            stmts_at(toks, r.index, r.reps, found.push(r.value))
        } else {
            Parsed { value: found.push(r.value), index: r.index, reps: r.reps }
        }
    }
}

/// The program that a token sequence stands for: its statements, and the
/// reports on what was out of place.
pub open spec fn program(toks: Seq<TokenView>) -> Parsed<Seq<StmtModel>> {
    stmts_at(toks, 0, Seq::empty(), Seq::empty())
}

/// The sequence is not empty and its last token is the end-of-input token.
pub open spec fn ends_in_sentinel(toks: Seq<TokenView>) -> bool {
    toks.len() >= 1 && toks[toks.len() - 1].class == Class::Eof
}

/// What is read before a comparator is looked for is no comparison.
pub proof fn lemma_primary_is_no_comparison(
    toks: Seq<TokenView>,
    i: int,
    reps: Seq<ParseReportView>,
    rule: Rule,
    slot: nat,
)
    ensures
        !(primary_at(toks, i, reps, rule, slot).value is BooleanExpr),
{
}

/// A comparison has one level: neither side of a comparison that is read as
/// an expression is itself a comparison.
pub proof fn lemma_comparison_is_flat(
    toks: Seq<TokenView>,
    i: int,
    reps: Seq<ParseReportView>,
    rule: Rule,
    slot: nat,
)
    ensures
        expr_at(toks, i, reps, rule, slot).value matches ExprModel::BooleanExpr {
            lhs,
            rhs,
            operator,
        } ==> !(*lhs is BooleanExpr) && !(*rhs is BooleanExpr),
{
    lemma_primary_is_no_comparison(toks, i, reps, rule, slot);
    let first = primary_at(toks, i, reps, rule, slot);
    if 0 <= i < toks.len() && i <= first.index < toks.len() && toks[first.index].class
        == Class::Comparator {
        let taken = eaten(first.reps, toks, first.index, Class::Comparator, Rule::Comparison, 1);
        lemma_primary_is_no_comparison(
            toks,
            adv(toks, first.index),
            taken,
            Rule::Comparison,
            2,
        );
    }
}

/// Reading an expression, with or without the look for a comparator, leaves
/// the cursor on a token, not before its start.
pub proof fn lemma_expr_bounds(
    toks: Seq<TokenView>,
    i: int,
    reps: Seq<ParseReportView>,
    rule: Rule,
    slot: nat,
)
    requires
        ends_in_sentinel(toks),
        0 <= i < toks.len(),
    ensures
        i <= expr_at(toks, i, reps, rule, slot).index < toks.len(),
        i <= primary_at(toks, i, reps, rule, slot).index < toks.len(),
    decreases toks.len() - i, 6int,
{
    let c = toks[i].class;
    if c == Class::LeftBrace {
        lemma_list_bounds(toks, i, reps, rule, slot);
    } else if c == Class::Identifier && toks[adv(toks, i)].class == Class::LeftParen {
        lemma_list_bounds(toks, i, reps, rule, slot);
    }
    let first = primary_at(toks, i, reps, rule, slot);
    if toks[first.index].class == Class::Comparator {
        let taken = eaten(first.reps, toks, first.index, Class::Comparator, Rule::Comparison, 1);
        lemma_expr_bounds(toks, adv(toks, first.index), taken, Rule::Comparison, 2);
    }
}

/// Reading an array, the arguments of a call, or a call leaves the cursor on
/// a token, not before its start.
pub proof fn lemma_list_bounds(
    toks: Seq<TokenView>,
    i: int,
    reps: Seq<ParseReportView>,
    rule: Rule,
    slot: nat,
)
    requires
        ends_in_sentinel(toks),
        0 <= i < toks.len(),
        toks[i].class != Class::Eof,
    ensures
        i <= array_at(toks, i, reps, rule, slot).index < toks.len(),
        i <= args_at(toks, i, reps, rule, slot).index < toks.len(),
        toks[adv(toks, i)].class != Class::Eof ==> i <= call_at(toks, i, reps, rule, slot).index
            < toks.len(),
    decreases toks.len() - i, 5int,
{
    let j = adv(toks, i);
    lemma_items_bounds(toks, j, reps, true, Seq::empty(), false, rule, slot);
    lemma_items_bounds(toks, j, reps, true, Seq::empty(), true, rule, slot);
    if toks[j].class != Class::Eof {
        let taken = eaten(reps, toks, i, Class::Identifier, Rule::Call, 0);
        lemma_items_bounds(toks, adv(toks, j), taken, true, Seq::empty(), true, rule, slot);
    }
}

/// Reading the rest of a list leaves the cursor on a token, not before its
/// start.
pub proof fn lemma_items_bounds(
    toks: Seq<TokenView>,
    i: int,
    reps: Seq<ParseReportView>,
    comma: bool,
    found: Seq<ExprModel>,
    call: bool,
    rule: Rule,
    slot: nat,
)
    requires
        ends_in_sentinel(toks),
        0 <= i < toks.len(),
    ensures
        i <= items_at(toks, i, reps, comma, found, call, rule, slot).index < toks.len(),
    decreases toks.len() - i, (if comma { 8int } else { 7int }),
{
    let c = toks[i].class;
    if c == Class::Eof {
    } else if c == closing(call) {
    } else if c == Class::Comma {
        lemma_items_bounds(toks, adv(toks, i), reps, true, found, call, rule, slot);
    } else if comma {
        lemma_expr_bounds(toks, i, reps, rule, slot);
        let r = expr_at(toks, i, reps, rule, slot);
        lemma_items_bounds(toks, r.index, r.reps, false, found.push(r.value), call, rule, slot);
    }
}

/// Reading a statement leaves the cursor on a token, and beyond its start
/// unless that is the end-of-input token.
pub proof fn lemma_stmt_bounds(toks: Seq<TokenView>, i: int, reps: Seq<ParseReportView>)
    requires
        ends_in_sentinel(toks),
        0 <= i < toks.len(),
    ensures
        i <= stmt_at(toks, i, reps).index < toks.len(),
        toks[i].class != Class::Eof ==> i < stmt_at(toks, i, reps).index,
    decreases toks.len() - i, 8int,
{
    if toks[i].class == Class::Keyword {
        let word = toks[i].text;
        if word == "set"@ || word == "var"@ {
            let set = word == "set"@;
            let rule = if set {
                Rule::SetAssign
            } else {
                Rule::VarAssign
            };
            let a = adv(toks, i);
            let b = adv(toks, a);
            let named = eaten(reps, toks, a, Class::Identifier, rule, 1);
            let assigned = eaten(named, toks, b, Class::Assign, rule, 2);
            lemma_expr_bounds(toks, adv(toks, b), assigned, rule, 3);
        } else if word == "if"@ {
            let a = adv(toks, i);
            lemma_expr_bounds(toks, a, reps, Rule::IfStatement, 1);
            let r = expr_at(toks, a, reps, Rule::IfStatement, 1);
            lemma_block_bounds(
                toks,
                adv(toks, r.index),
                eaten(r.reps, toks, r.index, Class::LeftBrace, Rule::Block, 0),
                Seq::empty(),
            );
        }
    }
}

/// Reading the statements of a block leaves the cursor on a token, not
/// before its start.
pub proof fn lemma_block_bounds(
    toks: Seq<TokenView>,
    i: int,
    reps: Seq<ParseReportView>,
    found: Seq<StmtModel>,
)
    requires
        ends_in_sentinel(toks),
        0 <= i < toks.len(),
    ensures
        i <= block_items(toks, i, reps, found).index < toks.len(),
    decreases toks.len() - i, 9int,
{
    if toks[i].class != Class::RightBrace && toks[i].class != Class::Eof {
        lemma_stmt_bounds(toks, i, reps);
        let r = stmt_at(toks, i, reps);
        lemma_block_bounds(toks, r.index, r.reps, found.push(r.value));
    }
}

/// Reading a program is total and ends on the end-of-input token: from any
/// token of a sequence that ends in the end-of-input token, the statements
/// are read up to a token of that class.
pub proof fn lemma_program_ends(
    toks: Seq<TokenView>,
    i: int,
    reps: Seq<ParseReportView>,
    found: Seq<StmtModel>,
)
    requires
        ends_in_sentinel(toks),
        0 <= i < toks.len(),
    ensures
        i <= stmts_at(toks, i, reps, found).index < toks.len(),
        toks[stmts_at(toks, i, reps, found).index].class == Class::Eof,
    decreases toks.len() - i,
{
    if toks[i].class != Class::Eof {
        lemma_stmt_bounds(toks, i, reps);
        let r = stmt_at(toks, i, reps);
        lemma_program_ends(toks, r.index, r.reps, found.push(r.value));
    }
}

} // verus!
