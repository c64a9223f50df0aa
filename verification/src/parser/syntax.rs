//! The grammar: for every form, where it ends if it stands at a position of
//! a text.
//!
//! The grammar is ordered: of the readings of a form the first that fits is
//! taken, and a repetition takes as many items as fit. White space may stand
//! before every symbol and word. `depth` is how deep expressions may still
//! nest.

use super::ast::{BinOp, PreOp};
use super::lexer::{
    atom_end, ident_end, is_space, keyword_end, number_end, string_end, symbol_end,
    symbol_not_before_end, Text,
};
use super::parser::{precedence_of, LOWEST, MAX_DEPTH, PREFIX};
use vstd::prelude::*;

verus! {

/// The binary operator that stands at `pos`, and where it ends.
pub open spec fn binop_at(bytes: Seq<u8>, pos: int) -> Option<(BinOp, int)> {
    if let Some(end) = keyword_end(bytes, pos, "iff") {
        Some((BinOp::Iff, end))
    } else if let Some(end) = keyword_end(bytes, pos, "impl") {
        Some((BinOp::Impl, end))
    } else if let Some(end) = keyword_end(bytes, pos, "or") {
        Some((BinOp::Or, end))
    } else if let Some(end) = symbol_end(bytes, pos, "||") {
        Some((BinOp::Or, end))
    } else if let Some(end) = keyword_end(bytes, pos, "and") {
        Some((BinOp::And, end))
    } else if let Some(end) = symbol_end(bytes, pos, "&&") {
        Some((BinOp::And, end))
    } else if let Some(end) = symbol_end(bytes, pos, "<=") {
        Some((BinOp::LTEQ, end))
    } else if let Some(end) = symbol_end(bytes, pos, "<") {
        Some((BinOp::LT, end))
    } else if let Some(end) = symbol_end(bytes, pos, ">=") {
        Some((BinOp::GTEQ, end))
    } else if let Some(end) = symbol_end(bytes, pos, ">") {
        Some((BinOp::GT, end))
    } else if let Some(end) = symbol_end(bytes, pos, "==") {
        Some((BinOp::EQ, end))
    } else if let Some(end) = symbol_end(bytes, pos, "!=") {
        Some((BinOp::NEQ, end))
    } else if let Some(end) = keyword_end(bytes, pos, "in") {
        Some((BinOp::In, end))
    } else if let Some(end) = keyword_end(bytes, pos, "notin") {
        Some((BinOp::Notin, end))
    } else if let Some(end) = keyword_end(bytes, pos, "subset") {
        Some((BinOp::Subset, end))
    } else if let Some(end) = symbol_end(bytes, pos, "+") {
        Some((BinOp::Add, end))
    } else if let Some(end) = symbol_end(bytes, pos, "-") {
        Some((BinOp::Subtract, end))
    } else if let Some(end) = keyword_end(bytes, pos, "with") {
        Some((BinOp::With, end))
    } else if let Some(end) = keyword_end(bytes, pos, "less") {
        Some((BinOp::Less, end))
    } else if let Some(end) = keyword_end(bytes, pos, "union") {
        Some((BinOp::Union, end))
    } else if let Some(end) = symbol_end(bytes, pos, "**") {
        Some((BinOp::Exp, end))
    } else if let Some(end) = symbol_end(bytes, pos, "*") {
        Some((BinOp::Mult, end))
    } else if let Some(end) = symbol_end(bytes, pos, "/") {
        Some((BinOp::Div, end))
    } else if let Some(end) = keyword_end(bytes, pos, "mod") {
        Some((BinOp::Mod, end))
    } else if let Some(end) = keyword_end(bytes, pos, "div") {
        Some((BinOp::IntDiv, end))
    } else if let Some(end) = keyword_end(bytes, pos, "inter") {
        Some((BinOp::Inter, end))
    } else if let Some(end) = symbol_end(bytes, pos, "??") {
        Some((BinOp::NullCoal, end))
    } else if let Some(end) = symbol_end(bytes, pos, "@") {
        Some((BinOp::TupleStart, end))
    } else {
        None
    }
}

/// The prefix operator that stands at `pos`, its precedence, and where it
/// ends. The word `not` binds loosest of all, the signs tighter than any
/// binary operator.
pub open spec fn prefix_at(bytes: Seq<u8>, pos: int) -> Option<(PreOp, u8, int)> {
    if let Some(end) = keyword_end(bytes, pos, "not") {
        Some((PreOp::Not, LOWEST, end))
    } else if let Some(end) = symbol_end(bytes, pos, "-") {
        Some((PreOp::Negate, PREFIX, end))
    } else if let Some(end) = symbol_end(bytes, pos, "+") {
        Some((PreOp::Id, PREFIX, end))
    } else if let Some(end) = symbol_end(bytes, pos, "@") {
        Some((PreOp::DynVar, PREFIX, end))
    } else if let Some(end) = symbol_end(bytes, pos, "#") {
        Some((PreOp::Size, PREFIX, end))
    } else if let Some(end) = symbol_not_before_end(bytes, pos, "!", 0x3d) {
        Some((PreOp::Not, PREFIX, end))
    } else {
        None
    }
}

/// Whether a position lies behind another and within the text: a repetition
/// goes on only where its item has taken something.
pub open spec fn advances(t: Text, at: int, end: int) -> bool {
    at < end <= t.bytes.len()
}

/// A bound: `~`, a name, or bounds in brackets.
pub open spec fn bound_end(t: Text, pos: int, depth: nat) -> Option<int>
    decreases depth, 10nat, 0nat,
{
    if let Some(end) = symbol_end(t.bytes, pos, "~") {
        Some(end)
    } else if let Some(end) = ident_end(t.bytes, pos) {
        Some(end)
    } else if depth == 0 {
        None
    } else if let Some(open) = symbol_end(t.bytes, pos, "[") {
        if let Some(end) = bound_list_end(t, open, (depth - 1) as nat) {
            symbol_end(t.bytes, end, "]")
        } else {
            None
        }
    } else {
        None
    }
}

/// One bound or more, separated by commas.
pub open spec fn bound_list_end(t: Text, pos: int, depth: nat) -> Option<int>
    decreases depth, 12nat, 0nat,
{
    if let Some(at) = bound_end(t, pos, depth) {
        Some(bound_list_rest(t, at, depth))
    } else {
        None
    }
}

/// As many times a comma and a bound as fit.
pub open spec fn bound_list_rest(t: Text, at: int, depth: nat) -> int
    decreases depth, 11nat, t.bytes.len() - at,
{
    if let Some(comma) = symbol_end(t.bytes, at, ",") {
        if let Some(end) = bound_end(t, comma, depth) {
            if advances(t, at, end) {
                bound_list_rest(t, end, depth)
            } else {
                at
            }
        } else {
            at
        }
    } else {
        at
    }
}

/// The parameters of a function in parentheses.
pub open spec fn param_list_end(bytes: Seq<u8>, pos: int) -> Option<int> {
    if let Some(open) = symbol_end(bytes, pos, "(") {
        if let Some(close) = symbol_end(bytes, open, ")") {
            Some(close)
        } else {
            params_rest(bytes, open, 0)
        }
    } else {
        None
    }
}

/// A parameter, the parameters that follow it behind commas, and the
/// parenthesis that closes them. `stage` is 0 while required parameters may
/// come, 1 once an optional one has come, 2 once a locked one has come: a
/// required parameter comes before the optional ones, and those before the
/// locked ones.
pub open spec fn params_rest(bytes: Seq<u8>, at: int, stage: int) -> Option<int>
    decreases bytes.len() - at,
{
    if let Some(name_end) = ident_end(bytes, at) {
        let optional = symbol_not_before_end(bytes, name_end, "?", 0x3f);
        let locked = symbol_not_before_end(bytes, name_end, "!", 0x3d);
        if optional is Some && stage > 1 {
            None
        } else if optional is None && locked is None && stage > 0 {
            None
        } else {
            let behind = if let Some(end) = optional {
                end
            } else if let Some(end) = locked {
                end
            } else {
                name_end
            };
            let next_stage = if optional is Some {
                1
            } else if locked is Some {
                2
            } else {
                stage
            };
            if let Some(comma) = symbol_end(bytes, behind, ",") {
                if at < comma <= bytes.len() {
                    params_rest(bytes, comma, next_stage)
                } else {
                    None
                }
            } else {
                symbol_end(bytes, behind, ")")
            }
        }
    } else {
        None
    }
}

/// An expression: a ternary, a switch, a selection, a return, an assignment,
/// or operands and operators.
pub open spec fn expr_end(t: Text, pos: int, depth: nat) -> Option<int>
    decreases depth, 40nat, 0nat,
{
    if keyword_end(t.bytes, pos, "if") is Some {
        ternary_end(t, pos, depth)
    } else if keyword_end(t.bytes, pos, "case") is Some {
        switch_end(t, pos, depth)
    } else if keyword_end(t.bytes, pos, "choose") is Some || keyword_end(t.bytes, pos, "forall")
        is Some || keyword_end(t.bytes, pos, "exists") is Some {
        select_end(t, pos, depth)
    } else if keyword_end(t.bytes, pos, "return") is Some {
        return_end(t, pos, depth)
    } else if let Some(end) = assign_end(t, pos, depth) {
        Some(end)
    } else {
        bin_end(t, pos, depth, LOWEST)
    }
}

/// `return` and an expression.
pub open spec fn return_end(t: Text, pos: int, depth: nat) -> Option<int>
    decreases depth, 38nat, 0nat,
{
    if depth == 0 {
        None
    } else if let Some(at) = keyword_end(t.bytes, pos, "return") {
        expr_end(t, at, (depth - 1) as nat)
    } else {
        None
    }
}

/// `if`, a condition, `?`, an expression, `:` and another expression.
pub open spec fn ternary_end(t: Text, pos: int, depth: nat) -> Option<int>
    decreases depth, 38nat, 0nat,
{
    if depth == 0 {
        None
    } else if let Some(at) = keyword_end(t.bytes, pos, "if") {
        if let Some(at) = expr_end(t, at, (depth - 1) as nat) {
            if let Some(at) = symbol_not_before_end(t.bytes, at, "?", 0x3f) {
                if let Some(at) = expr_end(t, at, (depth - 1) as nat) {
                    if let Some(at) = symbol_end(t.bytes, at, ":") {
                        expr_end(t, at, (depth - 1) as nat)
                    } else {
                        None
                    }
                } else {
                    None
                }
            } else {
                None
            }
        } else {
            None
        }
    } else {
        None
    }
}

/// `choose`, `forall` or `exists`, and an iterator.
pub open spec fn select_end(t: Text, pos: int, depth: nat) -> Option<int>
    decreases depth, 38nat, 0nat,
{
    if let Some(at) = keyword_end(t.bytes, pos, "choose") {
        iterator_end(t, at, depth)
    } else if let Some(at) = keyword_end(t.bytes, pos, "forall") {
        iterator_end(t, at, depth)
    } else if let Some(at) = keyword_end(t.bytes, pos, "exists") {
        iterator_end(t, at, depth)
    } else {
        None
    }
}

/// One iterator or more, separated by commas, and the filters behind them.
pub open spec fn iterator_end(t: Text, pos: int, depth: nat) -> Option<int>
    decreases depth, 34nat, 0nat,
{
    if depth == 0 {
        None
    } else if let Some(at) = iterator_item_end(t, pos, depth) {
        Some(filters_rest(t, iterators_rest(t, at, depth), depth))
    } else {
        None
    }
}

/// As many times a comma and an iterator as fit.
pub open spec fn iterators_rest(t: Text, at: int, depth: nat) -> int
    decreases depth, 33nat, t.bytes.len() - at,
{
    if depth == 0 {
        at
    } else if let Some(comma) = symbol_end(t.bytes, at, ",") {
        if let Some(end) = iterator_item_end(t, comma, depth) {
            if advances(t, at, end) {
                iterators_rest(t, end, depth)
            } else {
                at
            }
        } else {
            at
        }
    } else {
        at
    }
}

/// As many times a `|` and a condition as fit.
pub open spec fn filters_rest(t: Text, at: int, depth: nat) -> int
    decreases depth, 33nat, t.bytes.len() - at,
{
    if depth == 0 {
        at
    } else if let Some(bar) = symbol_not_before_end(t.bytes, at, "|", 0x7c) {
        if let Some(end) = expr_end(t, bar, (depth - 1) as nat) {
            if advances(t, at, end) {
                filters_rest(t, end, depth)
            } else {
                at
            }
        } else {
            at
        }
    } else {
        at
    }
}

/// One iterator: over the arguments of a map, or bounds, `in` and an
/// expression.
pub open spec fn iterator_item_end(t: Text, pos: int, depth: nat) -> Option<int>
    decreases depth, 32nat, 0nat,
{
    if depth == 0 {
        None
    } else if let Some(end) = select_iterator_end(t, pos, depth) {
        Some(end)
    } else if let Some(at) = bound_list_end(t, pos, depth) {
        if let Some(at) = keyword_end(t.bytes, at, "in") {
            expr_end(t, at, (depth - 1) as nat)
        } else {
            None
        }
    } else {
        None
    }
}

/// A bound, `=`, a name, and bounds in parentheses or in braces.
pub open spec fn select_iterator_end(t: Text, pos: int, depth: nat) -> Option<int>
    decreases depth, 14nat, 0nat,
{
    if let Some(at) = bound_end(t, pos, depth) {
        if let Some(at) = symbol_not_before_end(t.bytes, at, "=", 0x3d) {
            if let Some(at) = ident_end(t.bytes, at) {
                if let Some(open) = symbol_end(t.bytes, at, "(") {
                    if let Some(at) = bound_list_end(t, open, depth) {
                        symbol_end(t.bytes, at, ")")
                    } else {
                        None
                    }
                } else if let Some(open) = symbol_end(t.bytes, at, "{") {
                    if let Some(at) = bound_list_end(t, open, depth) {
                        symbol_end(t.bytes, at, "}")
                    } else {
                        None
                    }
                } else {
                    None
                }
            } else {
                None
            }
        } else {
            None
        }
    } else {
        None
    }
}

/// A name and the selectors behind it.
pub open spec fn lhs_ident_end(t: Text, pos: int, depth: nat) -> Option<int>
    decreases depth, 34nat, 0nat,
{
    if let Some(at) = ident_end(t.bytes, pos) {
        Some(selectors_rest(t, at, depth))
    } else {
        None
    }
}

/// As many selectors as fit.
pub open spec fn selectors_rest(t: Text, at: int, depth: nat) -> int
    decreases depth, 33nat, t.bytes.len() - at,
{
    if let Some(end) = selector_end(t, at, depth) {
        if advances(t, at, end) {
            selectors_rest(t, end, depth)
        } else {
            at
        }
    } else {
        at
    }
}

/// Targets in brackets, separated by commas.
pub open spec fn lhs_list_end(t: Text, pos: int, depth: nat) -> Option<int>
    decreases depth, 37nat, 0nat,
{
    if depth == 0 {
        None
    } else if let Some(open) = symbol_end(t.bytes, pos, "[") {
        lhs_elements_end(t, open, depth)
    } else {
        None
    }
}

/// One target of a list: `~`, a name with its selectors, or a list again.
pub open spec fn lhs_element_end(t: Text, at: int, depth: nat) -> Option<int>
    decreases depth, 35nat, 0nat,
{
    if depth == 0 {
        None
    } else if let Some(end) = symbol_end(t.bytes, at, "~") {
        Some(end)
    } else if let Some(end) = lhs_ident_end(t, at, depth) {
        Some(end)
    } else {
        lhs_list_end(t, at, (depth - 1) as nat)
    }
}

/// A target, the targets that follow it behind commas, and the bracket that
/// closes them.
pub open spec fn lhs_elements_end(t: Text, at: int, depth: nat) -> Option<int>
    decreases depth, 36nat, t.bytes.len() - at,
{
    if let Some(behind) = lhs_element_end(t, at, depth) {
        if let Some(comma) = symbol_end(t.bytes, behind, ",") {
            if advances(t, at, comma) {
                lhs_elements_end(t, comma, depth)
            } else {
                None
            }
        } else {
            symbol_end(t.bytes, behind, "]")
        }
    } else {
        None
    }
}

/// A target, `:=` and an expression.
pub open spec fn assign_end(t: Text, pos: int, depth: nat) -> Option<int>
    decreases depth, 38nat, 0nat,
{
    if depth == 0 {
        None
    } else {
        let target = if let Some(end) = lhs_ident_end(t, pos, depth) {
            Some(end)
        } else {
            lhs_list_end(t, pos, depth)
        };
        if let Some(at) = target {
            if let Some(at) = symbol_end(t.bytes, at, ":=") {
                expr_end(t, at, (depth - 1) as nat)
            } else {
                None
            }
        } else {
            None
        }
    }
}

/// Expressions separated by commas, possibly none.
pub open spec fn expr_list_end(t: Text, pos: int, depth: nat) -> int
    decreases depth, 15nat, 0nat,
{
    if depth == 0 {
        pos
    } else if let Some(at) = expr_end(t, pos, (depth - 1) as nat) {
        exprs_rest(t, at, depth)
    } else {
        pos
    }
}

/// As many times a comma and an expression as fit.
pub open spec fn exprs_rest(t: Text, at: int, depth: nat) -> int
    decreases depth, 14nat, t.bytes.len() - at,
{
    if depth == 0 {
        at
    } else if let Some(comma) = symbol_end(t.bytes, at, ",") {
        if let Some(end) = expr_end(t, comma, (depth - 1) as nat) {
            if advances(t, at, end) {
                exprs_rest(t, end, depth)
            } else {
                at
            }
        } else {
            at
        }
    } else {
        at
    }
}

/// A selector: a range in parentheses, or arguments in parentheses.
pub open spec fn selector_end(t: Text, pos: int, depth: nat) -> Option<int>
    decreases depth, 18nat, 0nat,
{
    if depth == 0 {
        None
    } else if let Some(open) = symbol_end(t.bytes, pos, "(") {
        if let Some(end) = range_selector_end(t, open, depth) {
            Some(end)
        } else {
            call_end(t, open, depth)
        }
    } else {
        None
    }
}

/// Arguments and the parenthesis that closes them.
pub open spec fn call_end(t: Text, pos: int, depth: nat) -> Option<int>
    decreases depth, 17nat, 0nat,
{
    symbol_end(t.bytes, expr_list_end(t, pos, depth), ")")
}

/// An end of a range: an expression, or nothing.
pub open spec fn range_part_end(t: Text, pos: int, depth: nat) -> int
    decreases depth, 15nat, 0nat,
{
    if depth == 0 {
        pos
    } else if let Some(end) = expr_end(t, pos, (depth - 1) as nat) {
        end
    } else {
        pos
    }
}

/// The two ends of a range, `..` between them, and the parenthesis that
/// closes them.
pub open spec fn range_selector_end(t: Text, pos: int, depth: nat) -> Option<int>
    decreases depth, 17nat, 0nat,
{
    if let Some(dots) = symbol_end(t.bytes, range_part_end(t, pos, depth), "..") {
        symbol_end(t.bytes, range_part_end(t, dots, depth), ")")
    } else {
        None
    }
}

/// What stands between two operands, with its precedence, whether it groups
/// to the right, and where it ends: `%` and what a reduction is made with
/// (precedence 12, to the right), `.` and a function (precedence 8), or a
/// binary operator.
pub open spec fn infix_at(t: Text, pos: int, depth: nat) -> Option<(u8, bool, int)>
    decreases depth, 22nat, 0nat,
{
    if let Some(at) = symbol_end(t.bytes, pos, "%") {
        if let Some(end) = reduce_end(t, at, depth) {
            Some((12u8, true, end))
        } else {
            None
        }
    } else if let Some(at) = symbol_not_before_end(t.bytes, pos, ".", 0x2e) {
        if let Some(end) = applied_end(t, at, depth) {
            Some((8u8, false, end))
        } else {
            None
        }
    } else if let Some((op, end)) = binop_at(t.bytes, pos) {
        Some((precedence_of(op).0, precedence_of(op).1, end))
    } else {
        None
    }
}

/// What a reduction is made with: a binary operator directly behind the
/// sign, or a function.
pub open spec fn reduce_end(t: Text, pos: int, depth: nat) -> Option<int>
    decreases depth, 21nat, 0nat,
{
    if 0 <= pos < t.bytes.len() && !is_space(t.bytes[pos]) && binop_at(t.bytes, pos) is Some {
        Some(binop_at(t.bytes, pos)->Some_0.1)
    } else {
        applied_end(t, pos, depth)
    }
}

/// A function named between two operands, directly behind the sign that
/// announces it: a name or an expression in parentheses.
pub open spec fn applied_end(t: Text, pos: int, depth: nat) -> Option<int>
    decreases depth, 20nat, 0nat,
{
    if pos < 0 || pos >= t.bytes.len() || is_space(t.bytes[pos]) {
        None
    } else if let Some(end) = ident_end(t.bytes, pos) {
        Some(end)
    } else {
        nested_end(t, pos, depth)
    }
}

/// An expression in parentheses.
pub open spec fn nested_end(t: Text, pos: int, depth: nat) -> Option<int>
    decreases depth, 16nat, 0nat,
{
    if depth == 0 {
        None
    } else if let Some(open) = symbol_end(t.bytes, pos, "(") {
        if let Some(at) = expr_end(t, open, (depth - 1) as nat) {
            symbol_end(t.bytes, at, ")")
        } else {
            None
        }
    } else {
        None
    }
}

/// Operands and operators, of which only operators of at least the
/// precedence `min_prec` are read: a prefix operator and its operand, or an
/// operand, and then as many selectors and operators with their right
/// operands as fit.
pub open spec fn bin_end(t: Text, pos: int, depth: nat, min_prec: u8) -> Option<int>
    decreases depth, 30nat, 0nat,
{
    if depth == 0 {
        None
    } else if let Some((op, prec, after)) = prefix_at(t.bytes, pos) {
        if let Some(at) = bin_end(t, after, (depth - 1) as nat, prec) {
            Some(bin_rest(t, at, depth, min_prec))
        } else {
            None
        }
    } else if let Some(at) = primary_end(t, pos, depth) {
        Some(bin_rest(t, at, depth, min_prec))
    } else {
        None
    }
}

/// The precedence that the right operand of an operator is read with: the
/// operator's own for one that groups to the right, the next higher for one
/// that groups to the left.
pub open spec fn right_precedence(prec: u8, right: bool) -> u8 {
    if right {
        prec
    } else {
        (prec + 1) as u8
    }
}

/// As many selectors, and operators of at least the precedence `min_prec`
/// with their right operands, as fit. A selector binds tighter than any
/// operator.
pub open spec fn bin_rest(t: Text, at: int, depth: nat, min_prec: u8) -> int
    decreases depth, 29nat, t.bytes.len() - at,
{
    if depth == 0 {
        at
    } else if let Some(end) = selector_end(t, at, depth) {
        if advances(t, at, end) {
            bin_rest(t, end, depth, min_prec)
        } else {
            at
        }
    } else if let Some((prec, right, after)) = infix_at(t, at, depth) {
        if prec < min_prec {
            at
        } else if let Some(end) = bin_end(
            t,
            after,
            (depth - 1) as nat,
            right_precedence(prec, right),
        ) {
            if advances(t, at, end) {
                bin_rest(t, end, depth, min_prec)
            } else {
                at
            }
        } else {
            at
        }
    } else {
        at
    }
}

/// An operand: a number, a string, an atom, `null`, `newat`, `true`,
/// `false`, a tuple or set former in brackets or braces, a function, an
/// expression in parentheses, or a name.
pub open spec fn primary_end(t: Text, pos: int, depth: nat) -> Option<int>
    decreases depth, 20nat, 0nat,
{
    if let Some(end) = number_end(t, pos) {
        Some(end)
    } else if let Some(end) = string_end(t.bytes, pos) {
        Some(end)
    } else if let Some(end) = atom_end(t.bytes, pos) {
        Some(end)
    } else if let Some(end) = keyword_end(t.bytes, pos, "null") {
        Some(end)
    } else if let Some(end) = keyword_end(t.bytes, pos, "newat") {
        Some(end)
    } else if let Some(end) = keyword_end(t.bytes, pos, "true") {
        Some(end)
    } else if let Some(end) = keyword_end(t.bytes, pos, "false") {
        Some(end)
    } else if let Some(open) = symbol_end(t.bytes, pos, "[") {
        if let Some(at) = former_end(t, open, depth) {
            symbol_end(t.bytes, at, "]")
        } else {
            None
        }
    } else if let Some(open) = symbol_end(t.bytes, pos, "{") {
        if let Some(at) = former_end(t, open, depth) {
            symbol_end(t.bytes, at, "}")
        } else {
            None
        }
    } else if keyword_end(t.bytes, pos, "func") is Some {
        func_end(t, pos, depth)
    } else if let Some(end) = short_func_end(t, pos, depth) {
        Some(end)
    } else if let Some(end) = nested_end(t, pos, depth) {
        Some(end)
    } else {
        ident_end(t.bytes, pos)
    }
}

/// What stands between the brackets or braces of a tuple or set: nothing;
/// a range `a .. b`; an expression, `:` and an iterator; a range `a, b .. c`
/// whose second element gives its step; or elements separated by commas.
pub open spec fn former_end(t: Text, pos: int, depth: nat) -> Option<int>
    decreases depth, 18nat, 0nat,
{
    if depth == 0 {
        None
    } else if let Some(at) = expr_end(t, pos, (depth - 1) as nat) {
        if let Some(dots) = symbol_end(t.bytes, at, "..") {
            expr_end(t, dots, (depth - 1) as nat)
        } else if let Some(colon) = symbol_end(t.bytes, at, ":") {
            iterator_end(t, colon, (depth - 1) as nat)
        } else if let Some(comma) = symbol_end(t.bytes, at, ",") {
            if let Some(at) = expr_end(t, comma, (depth - 1) as nat) {
                if let Some(dots) = symbol_end(t.bytes, at, "..") {
                    expr_end(t, dots, (depth - 1) as nat)
                } else {
                    Some(exprs_rest(t, at, depth))
                }
            } else {
                None
            }
        } else {
            Some(at)
        }
    } else {
        Some(pos)
    }
}

/// The expressions of a body, separated by semicolons: whether a semicolon
/// closes the body, and where the body ends.
///
/// Among the cases of a switch a semicolon also separates one case from the
/// next. There a semicolon closes the body only if another semicolon or the
/// closing brace follows it, and the body ends before a semicolon that the
/// next case follows.
pub open spec fn block_end(t: Text, pos: int, depth: nat, in_switch: bool) -> (bool, int)
    decreases depth, 16nat, 0nat,
{
    if depth == 0 {
        (false, pos)
    } else if let Some(at) = expr_end(t, pos, (depth - 1) as nat) {
        block_rest(t, at, depth, in_switch)
    } else {
        (false, pos)
    }
}

/// What of a body stands behind one of its expressions.
pub open spec fn block_rest(t: Text, at: int, depth: nat, in_switch: bool) -> (bool, int)
    decreases depth, 15nat, t.bytes.len() - at,
{
    if depth == 0 {
        (false, at)
    } else if let Some(semicolon) = symbol_end(t.bytes, at, ";") {
        if in_switch && (symbol_end(t.bytes, semicolon, ";") is Some || symbol_end(
            t.bytes,
            semicolon,
            "}",
        ) is Some) {
            (true, semicolon)
        } else if in_switch && case_end(t, semicolon, (depth - 1) as nat) is Some {
            (false, at)
        } else if let Some(end) = expr_end(t, semicolon, (depth - 1) as nat) {
            if advances(t, at, end) {
                block_rest(t, end, depth, in_switch)
            } else {
                (true, semicolon)
            }
        } else {
            (true, semicolon)
        }
    } else {
        (false, at)
    }
}

/// `func`, the parameters, and the body in braces.
pub open spec fn func_end(t: Text, pos: int, depth: nat) -> Option<int>
    decreases depth, 18nat, 0nat,
{
    if depth == 0 {
        None
    } else if let Some(at) = keyword_end(t.bytes, pos, "func") {
        if let Some(at) = param_list_end(t.bytes, at) {
            if let Some(open) = symbol_end(t.bytes, at, "{") {
                symbol_end(t.bytes, block_end(t, open, depth, false).1, "}")
            } else {
                None
            }
        } else {
            None
        }
    } else {
        None
    }
}

/// The parameters, `=>`, and the expression that is the function's body.
pub open spec fn short_func_end(t: Text, pos: int, depth: nat) -> Option<int>
    decreases depth, 18nat, 0nat,
{
    if depth == 0 {
        None
    } else if let Some(at) = param_list_end(t.bytes, pos) {
        if let Some(arrow) = symbol_end(t.bytes, at, "=>") {
            expr_end(t, arrow, (depth - 1) as nat)
        } else {
            None
        }
    } else {
        None
    }
}

/// One case of a switch: a condition or `~`, a colon, and the body.
pub open spec fn case_end(t: Text, pos: int, depth: nat) -> Option<int>
    decreases depth, 36nat, 0nat,
{
    if depth == 0 {
        None
    } else {
        let condition = if let Some(end) = symbol_end(t.bytes, pos, "~") {
            Some(end)
        } else {
            expr_end(t, pos, (depth - 1) as nat)
        };
        if let Some(at) = condition {
            if let Some(colon) = symbol_not_before_end(t.bytes, at, ":", 0x3d) {
                Some(block_end(t, colon, depth, true).1)
            } else {
                None
            }
        } else {
            None
        }
    }
}

/// `case`, optionally the subject in parentheses, and the cases in braces,
/// separated by semicolons.
pub open spec fn switch_end(t: Text, pos: int, depth: nat) -> Option<int>
    decreases depth, 38nat, 0nat,
{
    if depth == 0 {
        None
    } else if let Some(at) = keyword_end(t.bytes, pos, "case") {
        let behind_subject = if let Some(end) = nested_end(t, at, depth) {
            end
        } else {
            at
        };
        if let Some(open) = symbol_end(t.bytes, behind_subject, "{") {
            symbol_end(t.bytes, cases_rest(t, open, depth), "}")
        } else {
            None
        }
    } else {
        None
    }
}

/// As many cases as fit, a semicolon behind each but possibly the last.
pub open spec fn cases_rest(t: Text, at: int, depth: nat) -> int
    decreases depth, 37nat, t.bytes.len() - at,
{
    if let Some(end) = case_end(t, at, depth) {
        if let Some(semicolon) = symbol_end(t.bytes, end, ";") {
            if advances(t, at, semicolon) {
                cases_rest(t, semicolon, depth)
            } else {
                end
            }
        } else {
            end
        }
    } else {
        at
    }
}

/// A program: `program`, its name as an atom, a semicolon, and one
/// expression or more, a semicolon behind each but possibly the last.
pub open spec fn program_end(t: Text, pos: int) -> Option<int> {
    if let Some(at) = keyword_end(t.bytes, pos, "program") {
        if let Some(at) = atom_end(t.bytes, at) {
            if let Some(at) = symbol_end(t.bytes, at, ";") {
                statements_end(t, at, false)
            } else {
                None
            }
        } else {
            None
        }
    } else {
        None
    }
}

/// As many expressions as fit, a semicolon behind each but possibly the
/// last; none, where none has come before (`any`) either, is no program.
pub open spec fn statements_end(t: Text, at: int, any: bool) -> Option<int>
    decreases t.bytes.len() - at,
{
    if let Some(end) = expr_end(t, at, MAX_DEPTH as nat) {
        if let Some(semicolon) = symbol_end(t.bytes, end, ";") {
            if advances(t, at, semicolon) {
                statements_end(t, semicolon, true)
            } else {
                Some(end)
            }
        } else {
            Some(end)
        }
    } else if any {
        Some(at)
    } else {
        None
    }
}

} // verus!
