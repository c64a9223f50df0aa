//! What is read: for every form, whether a tree is the one that the form at
//! a position of a text is read as.
//!
//! A form is read as the grammar orders its readings, and the positions at
//! which its parts stand are those that the grammar gives.

use super::ast::{
    BinOp, Bound, Case, ExprST, Former, IteratorST, IteratorType, Program, SelectOp, Selector, LHS,
};
use super::lexer::{
    atom_end, decimal, exponent_end_of, fraction_end_of, ident_end, is_digit, is_ident_char,
    is_space, keyword_end, number_end, run_end, string_close, string_end, symbol_end,
    symbol_not_before_end, Text,
};
use super::parser::{InfixOp, LOWEST, MAX_DEPTH};
use super::syntax::{
    advances, assign_end, bin_end, binop_at, block_end, bound_end, bound_list_end, case_end,
    expr_end, infix_at, iterator_item_end, lhs_element_end, lhs_ident_end, nested_end,
    param_list_end, prefix_at, range_part_end, range_selector_end, right_precedence,
    select_iterator_end, selector_end, short_func_end,
};
use vstd::prelude::*;
use vstd::string::StringSliceAdditionalSpecFns;

verus! {

/// The end that a form has, where it stands.
pub open spec fn ending(end: Option<int>) -> int {
    match end {
        Some(end) => end,
        None => 0,
    }
}

/// The bytes of the name that stands at `pos` behind white space.
pub open spec fn name_at(bytes: Seq<u8>, pos: int) -> Seq<u8> {
    let from = run_end(bytes, pos, |b: u8| is_space(b));
    bytes.subrange(from, run_end(bytes, from, |b: u8| is_ident_char(b)))
}

/// Whether a bound is the one that stands at `pos`.
pub open spec fn bound_reads(t: Text, pos: int, depth: nat, node: Bound) -> bool
    decreases node, depth, 10nat,
{
    if symbol_end(t.bytes, pos, "~") is Some {
        node is Tilde
    } else if ident_end(t.bytes, pos) is Some {
        match node {
            Bound::Ident(name) => name.spec_bytes() == name_at(t.bytes, pos),
            _ => false,
        }
    } else if depth == 0 {
        false
    } else if let Some(open) = symbol_end(t.bytes, pos, "[") {
        match node {
            Bound::List(list) => bounds_read(t, open, (depth - 1) as nat, list@),
            _ => false,
        }
    } else {
        false
    }
}

/// The position at which bound `i` of those that stand at `pos` is read:
/// `pos` for the first, behind the comma for each of the others.
pub open spec fn bound_start(t: Text, pos: int, depth: nat, i: nat) -> int
    decreases i,
{
    if i == 0 {
        pos
    } else {
        ending(
            symbol_end(
                t.bytes,
                ending(bound_end(t, bound_start(t, pos, depth, (i - 1) as nat), depth)),
                ",",
            ),
        )
    }
}

/// Whether bounds are those that stand at `pos`, separated by commas: each
/// is the one that stands at its position, and there are as many as fit.
pub open spec fn bounds_read(t: Text, pos: int, depth: nat, list: Seq<Bound>) -> bool
    decreases list, 0nat, 0nat,
{
    &&& list.len() >= 1
    &&& forall|i: int|
        0 <= i < list.len() ==> bound_reads(t, bound_start(t, pos, depth, i as nat), depth, list[i])
    &&& bound_list_end(t, pos, depth) == Some(
        ending(bound_end(t, bound_start(t, pos, depth, (list.len() - 1) as nat), depth)),
    )
}

/// The mark behind the parameter that stands at `at`: 1 for `?`, the mark of
/// an optional parameter; 2 for `!`, the mark of a locked one; 0 for none.
pub open spec fn param_mark(bytes: Seq<u8>, at: int) -> int {
    let behind = ending(ident_end(bytes, at));
    if symbol_not_before_end(bytes, behind, "?", 0x3f) is Some {
        1
    } else if symbol_not_before_end(bytes, behind, "!", 0x3d) is Some {
        2
    } else {
        0
    }
}

/// The position behind the parameter that stands at `at`, and its mark.
pub open spec fn param_behind(bytes: Seq<u8>, at: int) -> int {
    let behind = ending(ident_end(bytes, at));
    if let Some(end) = symbol_not_before_end(bytes, behind, "?", 0x3f) {
        end
    } else if let Some(end) = symbol_not_before_end(bytes, behind, "!", 0x3d) {
        end
    } else {
        behind
    }
}

/// The position at which parameter `i` is read, where the first is read at
/// `first`: behind the comma that follows the one before.
pub open spec fn param_start(bytes: Seq<u8>, first: int, i: nat) -> int
    decreases i,
{
    if i == 0 {
        first
    } else {
        ending(
            symbol_end(
                bytes,
                param_behind(bytes, param_start(bytes, first, (i - 1) as nat)),
                ",",
            ),
        )
    }
}

/// Whether the names in `names` are those of the parameters from number
/// `from` on, and each of these has the mark `mark`.
#[verifier::opaque]
pub open spec fn names_read(
    bytes: Seq<u8>,
    first: int,
    from: nat,
    names: Seq<&str>,
    mark: int,
) -> bool {
    forall|i: int|
        0 <= i < names.len() ==> {
            let at = param_start(bytes, first, (from + i) as nat);
            &&& (#[trigger] names[i]).spec_bytes() == name_at(bytes, at)
            &&& param_mark(bytes, at) == mark
        }
}

/// No names are those of no parameters.
pub proof fn lemma_no_names(bytes: Seq<u8>, first: int, from: nat, mark: int)
    ensures
        names_read(bytes, first, from, Seq::<&str>::empty(), mark),
{
    reveal(names_read);
}

/// The names of some parameters and the name of the next one are the names
/// of these parameters and the next.
pub proof fn lemma_names_push(
    bytes: Seq<u8>,
    first: int,
    from: nat,
    names: Seq<&str>,
    mark: int,
    name: &str,
)
    requires
        names_read(bytes, first, from, names, mark),
        name.spec_bytes() == name_at(bytes, param_start(bytes, first, from + names.len())),
        param_mark(bytes, param_start(bytes, first, from + names.len())) == mark,
    ensures
        names_read(bytes, first, from, names.push(name), mark),
{
    reveal(names_read);
}

/// Whether three lists of names are those of the parameters that stand in
/// parentheses at `pos`: the required ones, then the optional ones, then the
/// locked ones, in the order in which they stand, and no comma follows the
/// last.
pub open spec fn params_read(
    bytes: Seq<u8>,
    pos: int,
    required: Seq<&str>,
    optional: Seq<&str>,
    locked: Seq<&str>,
) -> bool {
    let first = ending(symbol_end(bytes, pos, "("));
    let n = required.len() + optional.len() + locked.len();
    if symbol_end(bytes, first, ")") is Some {
        n == 0
    } else {
        &&& n >= 1
        &&& names_read(bytes, first, 0, required, 0)
        &&& names_read(bytes, first, required.len(), optional, 1)
        &&& names_read(bytes, first, required.len() + optional.len(), locked, 2)
        &&& symbol_end(bytes, param_behind(bytes, param_start(bytes, first, (n - 1) as nat)), ",")
            is None
    }
}

/// The bytes of the name of the atom that stands at `pos` behind white space.
pub open spec fn atom_at(bytes: Seq<u8>, pos: int) -> Seq<u8> {
    let colon = run_end(bytes, pos, |b: u8| is_space(b));
    bytes.subrange(colon + 1, run_end(bytes, colon + 1, |b: u8| is_ident_char(b)))
}

/// The bytes between the quotes of the string literal that stands at `pos`
/// behind white space.
pub open spec fn string_at(bytes: Seq<u8>, pos: int) -> Seq<u8> {
    let quote = run_end(bytes, pos, |b: u8| is_space(b));
    bytes.subrange(quote + 1, string_close(bytes, quote + 1))
}

/// Whether an expression is the number that stands at `pos`: an integer with
/// the value of its digits where it has neither fraction nor exponent, else
/// a float with the bits that the table has for its position, or with the
/// bits of zero where the table has none and the text is read leniently.
pub open spec fn number_reads(t: Text, pos: int, node: ExprST) -> bool {
    let start = run_end(t.bytes, pos, |b: u8| is_space(b));
    let digits_end = run_end(t.bytes, start, |b: u8| is_digit(b));
    let end = exponent_end_of(t.bytes, fraction_end_of(t.bytes, digits_end));
    if digits_end == end {
        match node {
            ExprST::Integer(value) => value == decimal(t.bytes.subrange(start, digits_end)),
            _ => false,
        }
    } else {
        match node {
            ExprST::Float(bits) => (exists|i: int|
                0 <= i < t.table.len() && t.table[i].at == start && t.table[i].bits == bits) || (
            t.lenient && bits == 0),
            _ => false,
        }
    }
}

/// Whether an iterator over the arguments of a map is the one that stands at
/// `pos`.
pub open spec fn select_iterator_reads(t: Text, pos: int, depth: nat, node: IteratorType) -> bool {
    let name_start = ending(
        symbol_not_before_end(t.bytes, ending(bound_end(t, pos, depth)), "=", 0x3d),
    );
    let behind = ending(ident_end(t.bytes, name_start));
    if let Some(open) = symbol_end(t.bytes, behind, "(") {
        match node {
            IteratorType::SelectSingle { bound, collection_ident, list } => {
                &&& bound_reads(t, pos, depth, bound)
                &&& collection_ident.spec_bytes() == name_at(t.bytes, name_start)
                &&& bounds_read(t, open, depth, list@)
            },
            _ => false,
        }
    } else {
        match node {
            IteratorType::SelectMulti { bound, collection_ident, list } => {
                &&& bound_reads(t, pos, depth, bound)
                &&& collection_ident.spec_bytes() == name_at(t.bytes, name_start)
                &&& bounds_read(t, ending(symbol_end(t.bytes, behind, "{")), depth, list@)
            },
            _ => false,
        }
    }
}

/// The position at which expression `i` of those that stand at `pos`,
/// separated by `sep`, is read: `pos` for the first, behind the separator
/// for each of the others.
pub open spec fn expr_start(t: Text, pos: int, depth: nat, sep: &str, i: nat) -> int
    decreases i,
{
    if i == 0 {
        pos
    } else {
        ending(
            symbol_end(
                t.bytes,
                ending(expr_end(t, expr_start(t, pos, depth, sep, (i - 1) as nat), depth)),
                sep,
            ),
        )
    }
}

/// Whether no expression follows the first `n` of those that stand at `pos`,
/// separated by `sep`.
pub open spec fn no_more(t: Text, pos: int, depth: nat, sep: &str, n: nat) -> bool {
    if n == 0 {
        expr_end(t, pos, depth) is None
    } else {
        let behind = ending(expr_end(t, expr_start(t, pos, depth, sep, (n - 1) as nat), depth));
        symbol_end(t.bytes, behind, sep) is None || expr_end(
            t,
            ending(symbol_end(t.bytes, behind, sep)),
            depth,
        ) is None
    }
}

/// The position at which iterator `i` of those that stand at `pos` is read.
pub open spec fn iterator_start(t: Text, pos: int, depth: nat, i: nat) -> int
    decreases i,
{
    if i == 0 {
        pos
    } else {
        ending(
            symbol_end(
                t.bytes,
                ending(iterator_item_end(t, iterator_start(t, pos, depth, (i - 1) as nat), depth)),
                ",",
            ),
        )
    }
}

/// The position at which the condition of filter `i` is read, of the filters
/// that stand at `first`, a `|` before each.
pub open spec fn filter_start(t: Text, first: int, depth: nat, i: nat) -> int
    decreases i,
{
    if i == 0 {
        ending(symbol_not_before_end(t.bytes, first, "|", 0x7c))
    } else {
        ending(
            symbol_not_before_end(
                t.bytes,
                ending(expr_end(t, filter_start(t, first, depth, (i - 1) as nat), depth)),
                "|",
                0x7c,
            ),
        )
    }
}

/// The position at which selector `i` of those that stand at `first` is
/// read.
pub open spec fn selector_start(t: Text, first: int, depth: nat, i: nat) -> int
    decreases i,
{
    if i == 0 {
        first
    } else {
        ending(selector_end(t, selector_start(t, first, depth, (i - 1) as nat), depth))
    }
}

/// The position at which target `i` of a list whose first target stands at
/// `first` is read.
pub open spec fn element_start(t: Text, first: int, depth: nat, i: nat) -> int
    decreases i,
{
    if i == 0 {
        first
    } else {
        ending(
            symbol_end(
                t.bytes,
                ending(lhs_element_end(t, element_start(t, first, depth, (i - 1) as nat), depth)),
                ",",
            ),
        )
    }
}

/// The position at which case `i` of a switch whose first case stands at
/// `first` is read.
pub open spec fn case_start(t: Text, first: int, depth: nat, i: nat) -> int
    decreases i,
{
    if i == 0 {
        first
    } else {
        ending(
            symbol_end(
                t.bytes,
                ending(case_end(t, case_start(t, first, depth, (i - 1) as nat), depth)),
                ";",
            ),
        )
    }
}

/// The position behind a selector, or an operator and its right operand,
/// that follows an operand at `at`.
pub open spec fn step_behind(t: Text, at: int, depth: nat) -> int {
    if let Some(end) = selector_end(t, at, depth) {
        end
    } else if let Some((prec, right, after)) = infix_at(t, at, depth) {
        ending(bin_end(t, after, (depth - 1) as nat, right_precedence(prec, right)))
    } else {
        at
    }
}

/// The position behind the first operand, which ends at `first`, and the
/// `k` selectors and operators with their right operands that follow it.
pub open spec fn steps_behind(t: Text, first: int, depth: nat, k: nat) -> int
    decreases k,
{
    if k == 0 {
        first
    } else {
        step_behind(t, steps_behind(t, first, depth, (k - 1) as nat), depth)
    }
}

/// How many selectors, and operators of at least the precedence `min_prec`
/// with their right operands, follow an operand at `at`.
pub open spec fn steps(t: Text, at: int, depth: nat, min_prec: u8) -> nat
    decreases t.bytes.len() - at,
{
    if depth == 0 {
        0
    } else if let Some(end) = selector_end(t, at, depth) {
        if advances(t, at, end) {
            1 + steps(t, end, depth, min_prec)
        } else {
            0
        }
    } else if let Some((prec, right, after)) = infix_at(t, at, depth) {
        if prec < min_prec {
            0
        } else if let Some(end) = bin_end(
            t,
            after,
            (depth - 1) as nat,
            right_precedence(prec, right),
        ) {
            if advances(t, at, end) {
                1 + steps(t, end, depth, min_prec)
            } else {
                0
            }
        } else {
            0
        }
    } else {
        0
    }
}

/// Where the first operand of operands and operators at `pos` ends.
pub open spec fn first_operand_end(t: Text, pos: int, depth: nat) -> int {
    if let Some((op, prec, after)) = prefix_at(t.bytes, pos) {
        ending(bin_end(t, after, (depth - 1) as nat, prec))
    } else {
        ending(super::syntax::primary_end(t, pos, depth))
    }
}

/// Whether the binary operator `op` stands at `at`.
pub open spec fn binop_is(bytes: Seq<u8>, at: int, op: BinOp) -> bool {
    match binop_at(bytes, at) {
        Some((found, _)) => found == op,
        None => false,
    }
}

/// Whether `%` stands at `at` and a binary operator directly behind it.
pub open spec fn reduces_with_op(t: Text, at: int) -> bool {
    match symbol_end(t.bytes, at, "%") {
        Some(p) => 0 <= p < t.bytes.len() && !is_space(t.bytes[p]) && binop_at(t.bytes, p)
            is Some,
        None => false,
    }
}

/// Whether an expression is the one that stands at `pos`.
pub open spec fn expr_reads(t: Text, pos: int, depth: nat, node: ExprST) -> bool
    decreases node, depth, 40nat,
{
    if keyword_end(t.bytes, pos, "if") is Some {
        ternary_reads(t, pos, depth, node)
    } else if keyword_end(t.bytes, pos, "case") is Some {
        switch_reads(t, pos, depth, node)
    } else if keyword_end(t.bytes, pos, "choose") is Some || keyword_end(t.bytes, pos, "forall")
        is Some || keyword_end(t.bytes, pos, "exists") is Some {
        select_reads(t, pos, depth, node)
    } else if keyword_end(t.bytes, pos, "return") is Some {
        return_reads(t, pos, depth, node)
    } else if assign_end(t, pos, depth) is Some {
        assign_reads(t, pos, depth, node)
    } else {
        bin_reads(t, pos, depth, LOWEST, node)
    }
}

/// Whether an expression is the return that stands at `pos`.
pub open spec fn return_reads(t: Text, pos: int, depth: nat, node: ExprST) -> bool
    decreases node, depth, 38nat,
{
    match node {
        ExprST::Return(value) => depth > 0 && expr_reads(
            t,
            ending(keyword_end(t.bytes, pos, "return")),
            (depth - 1) as nat,
            *value,
        ),
        _ => false,
    }
}

/// Whether an expression is the ternary that stands at `pos`.
pub open spec fn ternary_reads(t: Text, pos: int, depth: nat, node: ExprST) -> bool
    decreases node, depth, 38nat,
{
    match node {
        ExprST::Ternary { condition, consequence, alternative } => {
            let first = ending(keyword_end(t.bytes, pos, "if"));
            let second = ending(
                symbol_not_before_end(
                    t.bytes,
                    ending(expr_end(t, first, (depth - 1) as nat)),
                    "?",
                    0x3f,
                ),
            );
            let third = ending(
                symbol_end(t.bytes, ending(expr_end(t, second, (depth - 1) as nat)), ":"),
            );
            &&& depth > 0
            &&& expr_reads(t, first, (depth - 1) as nat, *condition)
            &&& expr_reads(t, second, (depth - 1) as nat, *consequence)
            &&& expr_reads(t, third, (depth - 1) as nat, *alternative)
        },
        _ => false,
    }
}

/// Whether an expression is the selection that stands at `pos`.
pub open spec fn select_reads(t: Text, pos: int, depth: nat, node: ExprST) -> bool
    decreases node, depth, 38nat,
{
    match node {
        ExprST::Select { op, iterator } => {
            if let Some(at) = keyword_end(t.bytes, pos, "choose") {
                op == SelectOp::Choose && iterator_reads(t, at, depth, iterator)
            } else if let Some(at) = keyword_end(t.bytes, pos, "forall") {
                op == SelectOp::ForAll && iterator_reads(t, at, depth, iterator)
            } else {
                op == SelectOp::Exists && iterator_reads(
                    t,
                    ending(keyword_end(t.bytes, pos, "exists")),
                    depth,
                    iterator,
                )
            }
        },
        _ => false,
    }
}

/// Whether iterators and filters are those that stand at `pos`: each is the
/// one that stands at its position, and there are as many as fit.
pub open spec fn iterator_reads(t: Text, pos: int, depth: nat, node: IteratorST) -> bool
    decreases node, depth, 34nat,
{
    let iterators = node.iterators@;
    let filter = node.filter@;
    let behind = ending(
        iterator_item_end(t, iterator_start(t, pos, depth, (iterators.len() - 1) as nat), depth),
    );
    let last = if filter.len() == 0 {
        behind
    } else {
        ending(
            expr_end(
                t,
                filter_start(t, behind, (depth - 1) as nat, (filter.len() - 1) as nat),
                (depth - 1) as nat,
            ),
        )
    };
    &&& depth > 0
    &&& iterators.len() >= 1
    &&& forall|i: int|
        0 <= i < iterators.len() ==> iterator_item_reads(
            t,
            iterator_start(t, pos, depth, i as nat),
            depth,
            iterators[i],
        )
    &&& symbol_end(t.bytes, behind, ",") is None || iterator_item_end(
        t,
        ending(symbol_end(t.bytes, behind, ",")),
        depth,
    ) is None
    &&& forall|i: int|
        0 <= i < filter.len() ==> expr_reads(
            t,
            filter_start(t, behind, (depth - 1) as nat, i as nat),
            (depth - 1) as nat,
            filter[i],
        )
    &&& symbol_not_before_end(t.bytes, last, "|", 0x7c) is None || expr_end(
        t,
        ending(symbol_not_before_end(t.bytes, last, "|", 0x7c)),
        (depth - 1) as nat,
    ) is None
}

/// Whether an iterator is the one that stands at `pos`.
pub open spec fn iterator_item_reads(t: Text, pos: int, depth: nat, node: IteratorType) -> bool
    decreases node, depth, 32nat,
{
    if select_iterator_end(t, pos, depth) is Some {
        select_iterator_reads(t, pos, depth, node)
    } else {
        match node {
            IteratorType::In { list, expr } => {
                &&& depth > 0
                &&& bounds_read(t, pos, depth, list@)
                &&& expr_reads(
                    t,
                    ending(keyword_end(t.bytes, ending(bound_list_end(t, pos, depth)), "in")),
                    (depth - 1) as nat,
                    *expr,
                )
            },
            _ => false,
        }
    }
}

/// Whether selectors are those that stand at `first`: each is the one that
/// stands at its position, and no selector follows the last.
pub open spec fn selectors_read(t: Text, first: int, depth: nat, list: Seq<Selector>) -> bool
    decreases list, 0nat, 0nat,
{
    &&& forall|i: int|
        0 <= i < list.len() ==> selector_reads(
            t,
            selector_start(t, first, depth, i as nat),
            depth,
            list[i],
        )
    &&& selector_end(t, selector_start(t, first, depth, list.len()), depth) is None
}

/// Whether a target is the name with selectors that stands at `pos`.
pub open spec fn lhs_ident_reads(t: Text, pos: int, depth: nat, node: LHS) -> bool
    decreases node, depth, 34nat,
{
    match node {
        LHS::Ident { target, selectors } => {
            &&& target.spec_bytes() == name_at(t.bytes, pos)
            &&& selectors_read(t, ending(ident_end(t.bytes, pos)), depth, selectors@)
        },
        _ => false,
    }
}

/// Whether a target is the one that stands at `at` in a list of targets.
pub open spec fn lhs_element_reads(t: Text, at: int, depth: nat, node: LHS) -> bool
    decreases node, depth, 35nat,
{
    if symbol_end(t.bytes, at, "~") is Some {
        node is Tilde
    } else if lhs_ident_end(t, at, depth) is Some {
        lhs_ident_reads(t, at, depth, node)
    } else {
        depth > 0 && lhs_list_reads(t, at, (depth - 1) as nat, node)
    }
}

/// Whether a target is the list of targets that stands at `pos`: each of
/// its targets is the one that stands at its position, and no comma follows
/// the last.
pub open spec fn lhs_list_reads(t: Text, pos: int, depth: nat, node: LHS) -> bool
    decreases node, depth, 37nat,
{
    match node {
        LHS::List(elements) => {
            let first = ending(symbol_end(t.bytes, pos, "["));
            &&& elements@.len() >= 1
            &&& forall|i: int|
                0 <= i < elements@.len() ==> lhs_element_reads(
                    t,
                    element_start(t, first, depth, i as nat),
                    depth,
                    elements@[i],
                )
            &&& symbol_end(
                t.bytes,
                ending(
                    lhs_element_end(
                        t,
                        element_start(t, first, depth, (elements@.len() - 1) as nat),
                        depth,
                    ),
                ),
                ",",
            ) is None
        },
        _ => false,
    }
}

/// Whether an expression is the assignment that stands at `pos`.
pub open spec fn assign_reads(t: Text, pos: int, depth: nat, node: ExprST) -> bool
    decreases node, depth, 38nat,
{
    match node {
        ExprST::Assign { left, right } => {
            let target_end = if lhs_ident_end(t, pos, depth) is Some {
                lhs_ident_end(t, pos, depth)
            } else {
                super::syntax::lhs_list_end(t, pos, depth)
            };
            &&& depth > 0
            &&& if lhs_ident_end(t, pos, depth) is Some {
                lhs_ident_reads(t, pos, depth, left)
            } else {
                lhs_list_reads(t, pos, depth, left)
            }
            &&& expr_reads(
                t,
                ending(symbol_end(t.bytes, ending(target_end), ":=")),
                (depth - 1) as nat,
                *right,
            )
        },
        _ => false,
    }
}

/// Whether expressions are those that stand at `pos`, separated by `sep`:
/// each is the one that stands at its position.
pub open spec fn exprs_read(t: Text, pos: int, depth: nat, sep: &str, list: Seq<ExprST>) -> bool
    decreases list, 0nat, 0nat,
{
    forall|i: int|
        0 <= i < list.len() ==> expr_reads(
            t,
            expr_start(t, pos, depth, sep, i as nat),
            depth,
            list[i],
        )
}

/// Whether an end of a range is the one that stands at `pos`: an expression,
/// or nothing.
pub open spec fn range_part_reads(t: Text, pos: int, depth: nat, part: Option<Box<ExprST>>) -> bool
    decreases part, depth, 15nat,
{
    match part {
        Some(value) => depth > 0 && expr_end(t, pos, (depth - 1) as nat) is Some && expr_reads(
            t,
            pos,
            (depth - 1) as nat,
            *value,
        ),
        None => depth == 0 || expr_end(t, pos, (depth - 1) as nat) is None,
    }
}

/// Whether a selector is the range whose ends stand at `pos`, behind the
/// parenthesis that opens it.
pub open spec fn range_reads(t: Text, pos: int, depth: nat, node: Selector) -> bool
    decreases node, depth, 17nat,
{
    match node {
        Selector::Range(low, high) => {
            &&& range_part_reads(t, pos, depth, low)
            &&& range_part_reads(
                t,
                ending(symbol_end(t.bytes, range_part_end(t, pos, depth), "..")),
                depth,
                high,
            )
        },
        _ => false,
    }
}

/// Whether a selector is the call whose arguments stand at `pos`, behind
/// the parenthesis that opens it: each argument is the one that stands at
/// its position, and there are as many as fit.
pub open spec fn call_reads(t: Text, pos: int, depth: nat, node: Selector) -> bool
    decreases node, depth, 17nat,
{
    match node {
        Selector::Call(args) => {
            &&& depth > 0
            &&& exprs_read(t, pos, (depth - 1) as nat, ",", args@)
            &&& no_more(t, pos, (depth - 1) as nat, ",", args@.len())
        },
        _ => false,
    }
}

/// Whether a selector is the one that stands at `pos`.
pub open spec fn selector_reads(t: Text, pos: int, depth: nat, node: Selector) -> bool
    decreases node, depth, 18nat,
{
    let open = ending(symbol_end(t.bytes, pos, "("));
    if range_selector_end(t, open, depth) is Some {
        range_reads(t, open, depth, node)
    } else {
        call_reads(t, open, depth, node)
    }
}

/// Whether what a reduction is made with, at `pos` behind its `%`, is `op`:
/// the binary operator that stands directly there, or else the function
/// that is named there.
pub open spec fn reduce_reads(t: Text, pos: int, depth: nat, op: InfixOp) -> bool {
    if 0 <= pos < t.bytes.len() && !is_space(t.bytes[pos]) && binop_at(t.bytes, pos) is Some {
        match op {
            InfixOp::ReduceWithOp(binop) => binop_is(t.bytes, pos, binop),
            _ => false,
        }
    } else {
        match op {
            InfixOp::ReduceWithExpr(apply) => applied_reads(t, pos, depth, apply),
            _ => false,
        }
    }
}

/// Whether what stands between two operands at `pos` is `op`.
pub open spec fn infix_reads(t: Text, pos: int, depth: nat, op: InfixOp) -> bool {
    if let Some(p) = symbol_end(t.bytes, pos, "%") {
        reduce_reads(t, p, depth, op)
    } else if let Some(p) = symbol_not_before_end(t.bytes, pos, ".", 0x2e) {
        match op {
            InfixOp::Inject(apply) => applied_reads(t, p, depth, apply),
            _ => false,
        }
    } else {
        match op {
            InfixOp::Binary(binop) => binop_is(t.bytes, pos, binop),
            _ => false,
        }
    }
}

/// Whether an expression is the function that is named at `pos` between two
/// operands.
pub open spec fn applied_reads(t: Text, pos: int, depth: nat, node: ExprST) -> bool
    decreases node, depth, 20nat,
{
    if ident_end(t.bytes, pos) is Some {
        match node {
            ExprST::Ident(name) => name.spec_bytes() == name_at(t.bytes, pos),
            _ => false,
        }
    } else {
        nested_reads(t, pos, depth, node)
    }
}

/// Whether an expression is the one that stands in parentheses at `pos`.
pub open spec fn nested_reads(t: Text, pos: int, depth: nat, node: ExprST) -> bool
    decreases node, depth, 16nat,
{
    depth > 0 && expr_reads(t, ending(symbol_end(t.bytes, pos, "(")), (depth - 1) as nat, node)
}

/// Whether an expression is what the operands and operators at `pos` make,
/// of which only operators of at least the precedence `min_prec` are read.
pub open spec fn bin_reads(t: Text, pos: int, depth: nat, min_prec: u8, node: ExprST) -> bool
    decreases node, depth, 30nat,
{
    made_in(
        t,
        pos,
        depth,
        node,
        steps(t, first_operand_end(t, pos, depth), depth, min_prec),
    )
}

/// Whether an expression is what the first operand at `pos` and the `k`
/// selectors and operators with their right operands that follow it make:
/// each selector is applied to, and each operator joins, what stands before
/// it.
pub open spec fn made_in(t: Text, pos: int, depth: nat, node: ExprST, k: nat) -> bool
    decreases node, depth, 29nat,
{
    if depth == 0 {
        false
    } else if k == 0 {
        operand_reads(t, pos, depth, node)
    } else {
        let at = steps_behind(t, first_operand_end(t, pos, depth), depth, (k - 1) as nat);
        if selector_end(t, at, depth) is Some {
            match node {
                ExprST::Postfix { left, selector } => {
                    &&& selector_reads(t, at, depth, selector)
                    &&& made_in(t, pos, depth, *left, (k - 1) as nat)
                },
                _ => false,
            }
        } else if let Some((prec, right_assoc, after)) = infix_at(t, at, depth) {
            let next = right_precedence(prec, right_assoc);
            match node {
                ExprST::Infix { op, left, right } => {
                    &&& symbol_end(t.bytes, at, "%") is None
                    &&& symbol_not_before_end(t.bytes, at, ".", 0x2e) is None
                    &&& binop_is(t.bytes, at, op)
                    &&& made_in(t, pos, depth, *left, (k - 1) as nat)
                    &&& bin_reads(t, after, (depth - 1) as nat, next, *right)
                },
                ExprST::ReduceWithOp { op, left, right } => {
                    &&& reduces_with_op(t, at)
                    &&& binop_is(t.bytes, ending(symbol_end(t.bytes, at, "%")), op)
                    &&& made_in(t, pos, depth, *left, (k - 1) as nat)
                    &&& bin_reads(t, after, (depth - 1) as nat, next, *right)
                },
                ExprST::ReduceWithExpr { apply, left, right } => {
                    &&& !reduces_with_op(t, at)
                    &&& applied_reads(t, ending(symbol_end(t.bytes, at, "%")), depth, *apply)
                    &&& symbol_end(t.bytes, at, "%") is Some
                    &&& made_in(t, pos, depth, *left, (k - 1) as nat)
                    &&& bin_reads(t, after, (depth - 1) as nat, next, *right)
                },
                ExprST::InfixInject { apply, left, right } => {
                    &&& symbol_end(t.bytes, at, "%") is None
                    &&& applied_reads(
                        t,
                        ending(symbol_not_before_end(t.bytes, at, ".", 0x2e)),
                        depth,
                        *apply,
                    )
                    &&& made_in(t, pos, depth, *left, (k - 1) as nat)
                    &&& bin_reads(t, after, (depth - 1) as nat, next, *right)
                },
                _ => false,
            }
        } else {
            false
        }
    }
}

/// Whether an expression is the first operand that stands at `pos`: a
/// prefix operator and its operand, or an operand.
pub open spec fn operand_reads(t: Text, pos: int, depth: nat, node: ExprST) -> bool
    decreases node, depth, 28nat,
{
    if let Some((found, prec, after)) = prefix_at(t.bytes, pos) {
        match node {
            ExprST::Prefix { op, right } => depth > 0 && op == found && bin_reads(
                t,
                after,
                (depth - 1) as nat,
                prec,
                *right,
            ),
            _ => false,
        }
    } else {
        primary_reads(t, pos, depth, node)
    }
}

/// Whether an expression is the operand that stands at `pos`.
pub open spec fn primary_reads(t: Text, pos: int, depth: nat, node: ExprST) -> bool
    decreases node, depth, 20nat,
{
    if number_end(t, pos) is Some {
        number_reads(t, pos, node)
    } else if string_end(t.bytes, pos) is Some {
        match node {
            ExprST::String(value) => value.spec_bytes() == string_at(t.bytes, pos),
            _ => false,
        }
    } else if atom_end(t.bytes, pos) is Some {
        match node {
            ExprST::Atom(name) => name.spec_bytes() == atom_at(t.bytes, pos),
            _ => false,
        }
    } else if keyword_end(t.bytes, pos, "null") is Some {
        node is Null
    } else if keyword_end(t.bytes, pos, "newat") is Some {
        node is Newat
    } else if keyword_end(t.bytes, pos, "true") is Some {
        node is True
    } else if keyword_end(t.bytes, pos, "false") is Some {
        node is False
    } else if let Some(open) = symbol_end(t.bytes, pos, "[") {
        match node {
            ExprST::TupleLiteral(former) => former_reads(t, open, depth, former),
            _ => false,
        }
    } else if let Some(open) = symbol_end(t.bytes, pos, "{") {
        match node {
            ExprST::SetLiteral(former) => former_reads(t, open, depth, former),
            _ => false,
        }
    } else if keyword_end(t.bytes, pos, "func") is Some {
        func_reads(t, pos, depth, node)
    } else if short_func_end(t, pos, depth) is Some {
        short_func_reads(t, pos, depth, node)
    } else if nested_end(t, pos, depth) is Some {
        nested_reads(t, pos, depth, node)
    } else {
        match node {
            ExprST::Ident(name) => name.spec_bytes() == name_at(t.bytes, pos),
            _ => false,
        }
    }
}

/// Whether a former is what stands at `pos` between brackets or braces.
pub open spec fn former_reads(t: Text, pos: int, depth: nat, node: Former) -> bool
    decreases node, depth, 18nat,
{
    let inner = (depth - 1) as nat;
    let at = ending(expr_end(t, pos, inner));
    if depth == 0 {
        false
    } else if expr_end(t, pos, inner) is None {
        match node {
            Former::Literal(elements) => elements@.len() == 0,
            _ => false,
        }
    } else if let Some(dots) = symbol_end(t.bytes, at, "..") {
        match node {
            Former::Range { range_start, range_step, range_end } => {
                &&& expr_reads(t, pos, inner, *range_start)
                &&& range_step is None
                &&& expr_reads(t, dots, inner, *range_end)
            },
            _ => false,
        }
    } else if let Some(colon) = symbol_end(t.bytes, at, ":") {
        match node {
            Former::Iterator { iterator, output } => {
                &&& expr_reads(t, pos, inner, *output)
                &&& iterator_reads(t, colon, inner, iterator)
            },
            _ => false,
        }
    } else if let Some(comma) = symbol_end(t.bytes, at, ",") {
        if let Some(dots) = symbol_end(t.bytes, ending(expr_end(t, comma, inner)), "..") {
            match node {
                Former::Range { range_start, range_step, range_end } => {
                    &&& expr_reads(t, pos, inner, *range_start)
                    &&& match range_step {
                        Some(step) => expr_reads(t, comma, inner, *step),
                        None => false,
                    }
                    &&& expr_reads(t, dots, inner, *range_end)
                },
                _ => false,
            }
        } else {
            match node {
                Former::Literal(elements) => {
                    &&& elements@.len() >= 2
                    &&& exprs_read(t, pos, inner, ",", elements@)
                    &&& no_more(t, pos, inner, ",", elements@.len())
                },
                _ => false,
            }
        }
    } else {
        match node {
            Former::Literal(elements) => {
                &&& elements@.len() == 1
                &&& exprs_read(t, pos, inner, ",", elements@)
            },
            _ => false,
        }
    }
}

/// Whether expressions are those of the body that stands at `pos`, and the
/// flag says whether a semicolon closes the body: each expression is the one
/// that stands at its position, and the body ends behind the last, or behind
/// the semicolon that closes it.
pub open spec fn body_reads(
    t: Text,
    pos: int,
    depth: nat,
    in_switch: bool,
    body: Seq<ExprST>,
    null_return: bool,
) -> bool
    decreases body, 0nat, 0nat,
{
    let inner = (depth - 1) as nat;
    let behind = ending(
        expr_end(t, expr_start(t, pos, inner, ";", (body.len() - 1) as nat), inner),
    );
    &&& depth > 0
    &&& null_return == block_end(t, pos, depth, in_switch).0
    &&& forall|i: int|
        0 <= i < body.len() ==> expr_reads(
            t,
            expr_start(t, pos, inner, ";", i as nat),
            inner,
            body[i],
        )
    &&& if body.len() == 0 {
        expr_end(t, pos, inner) is None
    } else if null_return {
        block_end(t, pos, depth, in_switch).1 == ending(symbol_end(t.bytes, behind, ";"))
    } else {
        block_end(t, pos, depth, in_switch).1 == behind
    }
}

/// Whether an expression is the function that stands at `pos`.
pub open spec fn func_reads(t: Text, pos: int, depth: nat, node: ExprST) -> bool
    decreases node, depth, 18nat,
{
    match node {
        ExprST::Function { req_params, opt_params, locked_params, body, null_return } => {
            let at = ending(keyword_end(t.bytes, pos, "func"));
            let open = ending(symbol_end(t.bytes, ending(param_list_end(t.bytes, at)), "{"));
            &&& params_read(t.bytes, at, req_params@, opt_params@, locked_params@)
            &&& body_reads(t, open, depth, false, body@, null_return)
        },
        _ => false,
    }
}

/// Whether an expression is the function in its short form that stands at
/// `pos`.
pub open spec fn short_func_reads(t: Text, pos: int, depth: nat, node: ExprST) -> bool
    decreases node, depth, 18nat,
{
    match node {
        ExprST::Function { req_params, opt_params, locked_params, body, null_return } => {
            let arrow = ending(symbol_end(t.bytes, ending(param_list_end(t.bytes, pos)), "=>"));
            &&& depth > 0
            &&& params_read(t.bytes, pos, req_params@, opt_params@, locked_params@)
            &&& body@.len() == 1
            &&& exprs_read(t, arrow, (depth - 1) as nat, ";", body@)
            &&& !null_return
        },
        _ => false,
    }
}

/// Whether a case is the one that stands at `pos`.
pub open spec fn case_reads(t: Text, pos: int, depth: nat, node: Case) -> bool
    decreases node, depth, 36nat,
{
    let condition_end = if symbol_end(t.bytes, pos, "~") is Some {
        symbol_end(t.bytes, pos, "~")
    } else {
        expr_end(t, pos, (depth - 1) as nat)
    };
    let colon = ending(symbol_not_before_end(t.bytes, ending(condition_end), ":", 0x3d));
    &&& depth > 0
    &&& if symbol_end(t.bytes, pos, "~") is Some {
        node.condition is None
    } else {
        match node.condition {
            Some(condition) => expr_reads(t, pos, (depth - 1) as nat, *condition),
            None => false,
        }
    }
    &&& body_reads(t, colon, depth, true, node.consequence@, node.null_return)
}

/// Whether an expression is the switch that stands at `pos`: its cases are
/// those that stand at their positions, and no case follows the last.
pub open spec fn switch_reads(t: Text, pos: int, depth: nat, node: ExprST) -> bool
    decreases node, depth, 38nat,
{
    match node {
        ExprST::Switch { input, cases } => {
            let at = ending(keyword_end(t.bytes, pos, "case"));
            let behind = if nested_end(t, at, depth) is Some {
                ending(nested_end(t, at, depth))
            } else {
                at
            };
            let first = ending(symbol_end(t.bytes, behind, "{"));
            let last = ending(
                case_end(t, case_start(t, first, depth, (cases@.len() - 1) as nat), depth),
            );
            &&& depth > 0
            &&& if nested_end(t, at, depth) is Some {
                match input {
                    Some(subject) => nested_reads(t, at, depth, *subject),
                    None => false,
                }
            } else {
                input is None
            }
            &&& forall|i: int|
                0 <= i < cases@.len() ==> case_reads(
                    t,
                    case_start(t, first, depth, i as nat),
                    depth,
                    cases@[i],
                )
            &&& if cases@.len() == 0 {
                case_end(t, first, depth) is None
            } else {
                symbol_end(t.bytes, last, ";") is None || case_end(
                    t,
                    ending(symbol_end(t.bytes, last, ";")),
                    depth,
                ) is None
            }
        },
        _ => false,
    }
}

/// Whether a program is the one that stands at `pos`: its expressions are
/// those that stand at their positions, and no expression follows the last.
pub open spec fn program_reads(t: Text, pos: int, program: Program) -> bool {
    let first = ending(
        symbol_end(
            t.bytes,
            ending(atom_end(t.bytes, ending(keyword_end(t.bytes, pos, "program")))),
            ";",
        ),
    );
    &&& program.expressions@.len() >= 1
    &&& exprs_read(t, first, MAX_DEPTH as nat, ";", program.expressions@)
    &&& no_more(t, first, MAX_DEPTH as nat, ";", program.expressions@.len())
}

} // verus!
