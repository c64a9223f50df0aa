//! The parser: a recursive descent over the bytes of the text, with
//! precedence climbing for operators.
//!
//! Every function takes the position at which to read and returns what it
//! has read together with the position behind it, or `None` where the text
//! does not continue that way; a caller then tries another reading. Leading
//! white space is skipped. Expressions nest at most `MAX_DEPTH` deep.
//!
//! The contract of each function says where the form ends, as the grammar
//! of module `syntax` has it, and that the tree is the one that the form is
//! read as, as module `reading` has it.

use super::ast::{
    BinOp, Bound, Case, ExprST, Former, IteratorST, IteratorType, PreOp, Program, SelectOp,
    Selector, LHS,
};
use super::lexer::{
    at_end, atom_end, decimal, end_of, has_bits, ident_end, is_digit, is_space, keyword_end,
    number_end, run_end, spelled, string_end, symbol_end, symbol_not_before_end, FloatBits,
    NumberSpan, Source, Text,
};
use super::syntax::{
    applied_end, assign_end, bin_end, bin_rest, binop_at, block_end, block_rest, bound_end,
    bound_list_end, bound_list_rest, call_end, case_end, cases_rest, expr_end, expr_list_end,
    exprs_rest, filters_rest, former_end, func_end, infix_at, iterator_end, iterator_item_end,
    iterators_rest, lhs_element_end, lhs_elements_end, lhs_ident_end, lhs_list_end, nested_end,
    param_list_end, params_rest, prefix_at, primary_end, program_end, range_part_end,
    range_selector_end, reduce_end, return_end, select_end, select_iterator_end, selector_end,
    selectors_rest, short_func_end, statements_end, switch_end, ternary_end,
};
use crate::error::ParseError;
use super::reading::{
    applied_reads, assign_reads, atom_at, bin_reads, body_reads, bound_reads, bound_start,
    bounds_read, call_reads, case_reads, case_start, element_start, ending, expr_reads,
    expr_start, exprs_read, filter_start, first_operand_end, former_reads, func_reads,
    infix_reads, iterator_item_reads, iterator_reads, iterator_start, lemma_names_push,
    lemma_no_names, lhs_element_reads, lhs_ident_reads, lhs_list_reads, made_in, name_at,
    names_read, nested_reads, no_more, number_reads, operand_reads, param_behind, param_start,
    params_read, primary_reads, program_reads, range_part_reads, range_reads, reduce_reads,
    return_reads, select_iterator_reads, select_reads, selector_reads, selector_start,
    selectors_read, short_func_reads, steps, steps_behind, string_at, switch_reads,
    ternary_reads,
};
use vstd::prelude::*;
use vstd::string::StringSliceAdditionalSpecFns;

verus! {

/// How deep expressions can nest.
pub const MAX_DEPTH: usize = 200;

/// The lowest precedence: that of the prefix `not`.
pub const LOWEST: u8 = 1;

/// The precedence of the prefix operators other than `not`.
pub const PREFIX: u8 = 15;

/// The three lists of a function's parameters: required, optional, locked.
pub struct ParamLists<'a>(pub Vec<&'a str>, pub Vec<&'a str>, pub Vec<&'a str>);

/// What stands between two operands.
pub enum InfixOp<'a> {
    /// A binary operator.
    Binary(BinOp),
    /// `%` and a binary operator: a reduction with that operator.
    ReduceWithOp(BinOp),
    /// `%` and a name or a parenthesised expression: a reduction with that
    /// function.
    ReduceWithExpr(ExprST<'a>),
    /// `.` and a name or a parenthesised expression: that function applied to
    /// the operands.
    Inject(ExprST<'a>),
}

/// The precedence of a binary operator, from 2 (loosest) to 14 (tightest),
/// and whether it groups to the right.
pub open spec fn precedence_of(op: BinOp) -> (u8, bool) {
    match op {
        BinOp::Iff => (2, false),
        BinOp::Impl => (3, false),
        BinOp::Or => (4, false),
        BinOp::And => (5, false),
        BinOp::LT | BinOp::LTEQ | BinOp::GT | BinOp::GTEQ | BinOp::EQ | BinOp::NEQ => (6, false),
        BinOp::In | BinOp::Notin | BinOp::Subset => (7, false),
        BinOp::Add | BinOp::Subtract | BinOp::With | BinOp::Less | BinOp::Union => (9, false),
        BinOp::Mult | BinOp::Div | BinOp::Mod | BinOp::IntDiv | BinOp::Inter => (10, false),
        BinOp::Exp => (11, true),
        BinOp::NullCoal => (13, true),
        BinOp::TupleStart => (14, true),
    }
}

/// The precedence of a binary operator, and whether it groups to the right.
pub fn precedence(op: BinOp) -> (r: (u8, bool))
    ensures
        r == precedence_of(op),
        2 <= r.0 <= 14,
{
    match op {
        BinOp::Iff => (2, false),
        BinOp::Impl => (3, false),
        BinOp::Or => (4, false),
        BinOp::And => (5, false),
        BinOp::LT | BinOp::LTEQ | BinOp::GT | BinOp::GTEQ | BinOp::EQ | BinOp::NEQ => (6, false),
        BinOp::In | BinOp::Notin | BinOp::Subset => (7, false),
        BinOp::Add | BinOp::Subtract | BinOp::With | BinOp::Less | BinOp::Union => (9, false),
        BinOp::Mult | BinOp::Div | BinOp::Mod | BinOp::IntDiv | BinOp::Inter => (10, false),
        BinOp::Exp => (11, true),
        BinOp::NullCoal => (13, true),
        BinOp::TupleStart => (14, true),
    }
}

/// The precedence of what stands between two operands, and whether it groups
/// to the right. An injected function has precedence 8, a reduction 12.
pub fn infix_precedence(op: &InfixOp) -> (r: (u8, bool))
    ensures
        2 <= r.0 <= 14,
        op matches InfixOp::Binary(binop) ==> r == precedence_of(*binop),
        op is Inject ==> r == (8u8, false),
        (op is ReduceWithOp || op is ReduceWithExpr) ==> r == (12u8, true),
        r == infix_precedence_of(*op),
{
    match op {
        InfixOp::Binary(binop) => precedence(*binop),
        InfixOp::Inject(_) => (8, false),
        InfixOp::ReduceWithOp(_) => (12, true),
        InfixOp::ReduceWithExpr(_) => (12, true),
    }
}

/// Whether a binary operator is spelled right before `end`.
pub open spec fn spells(op: BinOp, bytes: Seq<u8>, end: int) -> bool {
    match op {
        BinOp::Iff => spelled(bytes, end, "iff"),
        BinOp::Impl => spelled(bytes, end, "impl"),
        BinOp::Or => spelled(bytes, end, "or") || spelled(bytes, end, "||"),
        BinOp::And => spelled(bytes, end, "and") || spelled(bytes, end, "&&"),
        BinOp::LTEQ => spelled(bytes, end, "<="),
        BinOp::LT => spelled(bytes, end, "<"),
        BinOp::GTEQ => spelled(bytes, end, ">="),
        BinOp::GT => spelled(bytes, end, ">"),
        BinOp::EQ => spelled(bytes, end, "=="),
        BinOp::NEQ => spelled(bytes, end, "!="),
        BinOp::In => spelled(bytes, end, "in"),
        BinOp::Notin => spelled(bytes, end, "notin"),
        BinOp::Subset => spelled(bytes, end, "subset"),
        BinOp::Add => spelled(bytes, end, "+"),
        BinOp::Subtract => spelled(bytes, end, "-"),
        BinOp::With => spelled(bytes, end, "with"),
        BinOp::Less => spelled(bytes, end, "less"),
        BinOp::Union => spelled(bytes, end, "union"),
        BinOp::Exp => spelled(bytes, end, "**"),
        BinOp::Mult => spelled(bytes, end, "*"),
        BinOp::Div => spelled(bytes, end, "/"),
        BinOp::Mod => spelled(bytes, end, "mod"),
        BinOp::IntDiv => spelled(bytes, end, "div"),
        BinOp::Inter => spelled(bytes, end, "inter"),
        BinOp::NullCoal => spelled(bytes, end, "??"),
        BinOp::TupleStart => spelled(bytes, end, "@"),
    }
}

/// Whether a prefix operator is spelled right before `end`.
pub open spec fn spells_prefix(op: PreOp, bytes: Seq<u8>, end: int) -> bool {
    match op {
        PreOp::Not => spelled(bytes, end, "not") || spelled(bytes, end, "!"),
        PreOp::Negate => spelled(bytes, end, "-"),
        PreOp::Id => spelled(bytes, end, "+"),
        PreOp::DynVar => spelled(bytes, end, "@"),
        PreOp::Size => spelled(bytes, end, "#"),
    }
}

/// The precedence of what stands between two operands, and whether it groups
/// to the right.
pub open spec fn infix_precedence_of(op: InfixOp) -> (u8, bool) {
    match op {
        InfixOp::Binary(binop) => precedence_of(binop),
        InfixOp::Inject(_) => (8u8, false),
        InfixOp::ReduceWithOp(_) => (12u8, true),
        InfixOp::ReduceWithExpr(_) => (12u8, true),
    }
}

/// A symbol at `pos`: where it ends, as the grammar has it.
fn symbol(src: &Source, pos: usize, word: &str) -> (end: Option<usize>)
    requires
        pos <= src@.len(),
    ensures
        end matches Some(end) ==> pos < end <= src@.len() && spelled(src@, end as int, word),
        at_end(end) == symbol_end(src@, pos as int, word),
{
    src.symbol(pos, word)
}

/// A symbol at `pos` that the byte `next` does not follow: where it ends, as
/// the grammar has it.
fn symbol_not_before(src: &Source, pos: usize, word: &str, next: u8) -> (end: Option<usize>)
    requires
        pos <= src@.len(),
    ensures
        end matches Some(end) ==> pos < end <= src@.len() && spelled(src@, end as int, word),
        at_end(end) == symbol_not_before_end(src@, pos as int, word, next),
{
    src.symbol_not_before(pos, word, next)
}

/// A name at `pos`: the name, and where it ends, as the grammar has it.
fn ident<'a>(src: &Source<'a>, pos: usize) -> (found: Option<(&'a str, usize)>)
    requires
        src.wf(),
        pos <= src@.len(),
    ensures
        found matches Some((_, end)) ==> pos < end <= src@.len(),
        found matches Some((name, _)) ==> name.spec_bytes() == name_at(src@, pos as int),
        end_of(found) == ident_end(src@, pos as int),
{
    src.ident(pos)
}

/// An atom at `pos`: its name, and where it ends, as the grammar has it.
fn atom<'a>(src: &Source<'a>, pos: usize) -> (found: Option<(&'a str, usize)>)
    requires
        src.wf(),
        pos <= src@.len(),
    ensures
        found matches Some((_, end)) ==> pos < end <= src@.len(),
        found matches Some((name, _)) ==> name.spec_bytes() == atom_at(src@, pos as int),
        end_of(found) == atom_end(src@, pos as int),
{
    src.atom(pos)
}

/// A string literal at `pos`: what stands between its quotes, and where it
/// ends, as the grammar has it.
fn string<'a>(src: &Source<'a>, pos: usize) -> (found: Option<(&'a str, usize)>)
    requires
        src.wf(),
        pos <= src@.len(),
    ensures
        found matches Some((_, end)) ==> pos < end <= src@.len(),
        found matches Some((content, _)) ==> content.spec_bytes() == string_at(src@, pos as int),
        end_of(found) == string_end(src@, pos as int),
{
    src.string(pos)
}

/// A word at `pos`: where it ends, as the grammar has it.
fn keyword(src: &Source, pos: usize, word: &str) -> (end: Option<usize>)
    requires
        pos <= src@.len(),
    ensures
        end matches Some(end) ==> pos < end <= src@.len() && spelled(src@, end as int, word),
        at_end(end) == keyword_end(src@, pos as int, word),
{
    src.keyword(pos, word)
}

/// A binary operator: white space, and then the operator as it is spelled. A
/// word is an operator only where no letter, digit or underscore follows it.
pub fn to_binop(src: &Source, pos: usize) -> (found: Option<(BinOp, usize)>)
    requires
        pos <= src@.len(),
    ensures
        found matches Some((_, end)) ==> pos < end <= src@.len(),
        found matches Some((op, end)) ==> spells(op, src@, end as int),
        match found {
            Some((op, end)) => binop_at(src@, pos as int) == Some((op, end as int)),
            None => binop_at(src@, pos as int) is None,
        },
{
    if let Some(end) = keyword(src, pos, "iff") {
        Some((BinOp::Iff, end))
    } else if let Some(end) = keyword(src, pos, "impl") {
        Some((BinOp::Impl, end))
    } else if let Some(end) = keyword(src, pos, "or") {
        Some((BinOp::Or, end))
    } else if let Some(end) = symbol(src, pos, "||") {
        Some((BinOp::Or, end))
    } else if let Some(end) = keyword(src, pos, "and") {
        Some((BinOp::And, end))
    } else if let Some(end) = symbol(src, pos, "&&") {
        Some((BinOp::And, end))
    } else if let Some(end) = symbol(src, pos, "<=") {
        Some((BinOp::LTEQ, end))
    } else if let Some(end) = symbol(src, pos, "<") {
        Some((BinOp::LT, end))
    } else if let Some(end) = symbol(src, pos, ">=") {
        Some((BinOp::GTEQ, end))
    } else if let Some(end) = symbol(src, pos, ">") {
        Some((BinOp::GT, end))
    } else if let Some(end) = symbol(src, pos, "==") {
        Some((BinOp::EQ, end))
    } else if let Some(end) = symbol(src, pos, "!=") {
        Some((BinOp::NEQ, end))
    } else if let Some(end) = keyword(src, pos, "in") {
        Some((BinOp::In, end))
    } else if let Some(end) = keyword(src, pos, "notin") {
        Some((BinOp::Notin, end))
    } else if let Some(end) = keyword(src, pos, "subset") {
        Some((BinOp::Subset, end))
    } else if let Some(end) = symbol(src, pos, "+") {
        Some((BinOp::Add, end))
    } else if let Some(end) = symbol(src, pos, "-") {
        Some((BinOp::Subtract, end))
    } else if let Some(end) = keyword(src, pos, "with") {
        Some((BinOp::With, end))
    } else if let Some(end) = keyword(src, pos, "less") {
        Some((BinOp::Less, end))
    } else if let Some(end) = keyword(src, pos, "union") {
        Some((BinOp::Union, end))
    } else if let Some(end) = symbol(src, pos, "**") {
        Some((BinOp::Exp, end))
    } else if let Some(end) = symbol(src, pos, "*") {
        Some((BinOp::Mult, end))
    } else if let Some(end) = symbol(src, pos, "/") {
        Some((BinOp::Div, end))
    } else if let Some(end) = keyword(src, pos, "mod") {
        Some((BinOp::Mod, end))
    } else if let Some(end) = keyword(src, pos, "div") {
        Some((BinOp::IntDiv, end))
    } else if let Some(end) = keyword(src, pos, "inter") {
        Some((BinOp::Inter, end))
    } else if let Some(end) = symbol(src, pos, "??") {
        Some((BinOp::NullCoal, end))
    } else if let Some(end) = symbol(src, pos, "@") {
        Some((BinOp::TupleStart, end))
    } else {
        None
    }
}

/// A prefix operator, with its precedence: white space, and then the
/// operator as it is spelled. The word `not` binds loosest of all, the signs
/// tighter than any binary operator.
pub fn to_prefix(src: &Source, pos: usize) -> (found: Option<(PreOp, u8, usize)>)
    requires
        pos <= src@.len(),
    ensures
        found matches Some((op, prec, end)) ==> pos < end <= src@.len() && (prec == LOWEST
            || prec == PREFIX),
        found matches Some((op, prec, end)) ==> spells_prefix(op, src@, end as int) && (prec
            == LOWEST ==> spelled(src@, end as int, "not")),
        match found {
            Some((op, prec, end)) => prefix_at(src@, pos as int) == Some((op, prec, end as int)),
            None => prefix_at(src@, pos as int) is None,
        },
{
    if let Some(end) = keyword(src, pos, "not") {
        // the word binds loosest of all, the bang as the other signs do
        Some((PreOp::Not, LOWEST, end))
    } else if let Some(end) = symbol(src, pos, "-") {
        Some((PreOp::Negate, PREFIX, end))
    } else if let Some(end) = symbol(src, pos, "+") {
        Some((PreOp::Id, PREFIX, end))
    } else if let Some(end) = symbol(src, pos, "@") {
        Some((PreOp::DynVar, PREFIX, end))
    } else if let Some(end) = symbol(src, pos, "#") {
        Some((PreOp::Size, PREFIX, end))
    } else if let Some(end) = symbol_not_before(src, pos, "!", 0x3d) {
        Some((PreOp::Not, PREFIX, end))
    } else {
        None
    }
}

/// The expression that a number literal denotes: an integer where it has
/// neither fraction nor exponent, else a float with the bits that the host
/// has computed.
pub fn construct_number<'a>(src: &Source<'a>, span: NumberSpan) -> (number: Option<ExprST<'a>>)
    requires
        span.start < span.digits_end <= span.fraction_end <= span.end <= src@.len(),
        span.digits_end == super::lexer::run_end(
            src@,
            span.start as int,
            |b: u8| super::lexer::is_digit(b),
        ),
    ensures
        number matches Some(number) ==> if span.digits_end == span.end {
            number == ExprST::Integer(
                super::lexer::decimal(
                    src@.subrange(span.start as int, span.digits_end as int),
                ) as i64,
            )
        } else {
            number is Float
        },
        number matches Some(ExprST::Integer(value)) ==> value == decimal(
            src@.subrange(span.start as int, span.digits_end as int),
        ),
        number is Some <==> if span.digits_end == span.end {
            decimal(src@.subrange(span.start as int, span.digits_end as int)) <= i64::MAX
        } else {
            has_bits(src.text(), span.start as int)
        },
        number matches Some(ExprST::Float(bits)) ==> (exists|i: int|
            0 <= i < src.table().len() && src.table()[i].at == span.start && src.table()[i].bits
                == bits) || (src.is_lenient() && bits == 0),
{
    if span.digits_end == span.end {
        proof {
            super::lexer::lemma_run_end(
                src@,
                span.start as int,
                |b: u8| super::lexer::is_digit(b),
            );
        }
        match src.integer(span.start, span.digits_end) {
            Some(value) => Some(ExprST::Integer(value)),
            None => None,
        }
    } else {
        match src.float_bits(span.start) {
            Some(bits) => Some(ExprST::Float(bits)),
            None => None,
        }
    }
}

/// A number literal.
pub(crate) fn number_value<'a>(src: &Source<'a>, pos: usize) -> (found: Option<(ExprST<'a>, usize)>)
    requires
        src.wf(),
        pos <= src@.len(),
    ensures
        found matches Some((number, end)) ==> pos < end <= src@.len() && (number is Integer
            || number is Float),
        end_of(found) == number_end(src.text(), pos as int),
        found matches Some((ExprST::Integer(value), end)) ==> value == decimal(
            src@.subrange(
                run_end(src@, pos as int, |b: u8| is_space(b)),
                run_end(src@, run_end(src@, pos as int, |b: u8| is_space(b)), |b: u8| is_digit(b)),
            ),
        ),
        found matches Some((ExprST::Float(bits), _)) ==> (exists|i: int|
            0 <= i < src.table().len() && src.table()[i].at == run_end(
                src@,
                pos as int,
                |b: u8| is_space(b),
            ) && src.table()[i].bits == bits) || (src.is_lenient() && bits == 0),
        found matches Some((node, _)) ==> number_reads(src.text(), pos as int, node),
{
    proof {
        reveal(number_end);
    }
    let span = src.number(pos)?;
    let number = construct_number(src, span)?;
    Some((number, span.end))
}

/// A bound of an iterator: `~`, a name, or a list of bounds in brackets.
pub(crate) fn parse_bound<'a>(src: &Source<'a>, pos: usize, depth: usize) -> (found: Option<
    (Bound<'a>, usize),
>)
    requires
        src.wf(),
        pos <= src@.len(),
    ensures
        found matches Some((_, end)) ==> pos < end <= src@.len(),
        end_of(found) == bound_end(src.text(), pos as int, depth as nat),
        found matches Some((node, _)) ==> bound_reads(src.text(), pos as int, depth as nat, node),
    decreases depth, 5nat,
{
    if let Some(end) = symbol(src, pos, "~") {
        return Some((Bound::Tilde, end));
    }
    if let Some((name, end)) = ident(src, pos) {
        return Some((Bound::Ident(name), end));
    }
    if depth == 0 {
        return None;
    }
    let open = symbol(src, pos, "[")?;
    let (list, end) = parse_bound_list(src, open, depth - 1)?;
    let close = symbol(src, end, "]")?;
    Some((Bound::List(list), close))
}

/// One bound or more, separated by commas.
pub(crate) fn parse_bound_list<'a>(src: &Source<'a>, pos: usize, depth: usize) -> (found: Option<
    (Vec<Bound<'a>>, usize),
>)
    requires
        src.wf(),
        pos <= src@.len(),
    ensures
        found matches Some((list, end)) ==> pos < end <= src@.len() && list@.len() >= 1,
        end_of(found) == bound_list_end(src.text(), pos as int, depth as nat),
        found matches Some((list, _)) ==> bounds_read(src.text(), pos as int, depth as nat, list@),
    decreases depth, 6nat,
{
    let (first, mut at) = parse_bound(src, pos, depth)?;
    let mut list: Vec<Bound<'a>> = Vec::new();
    list.push(first);
    let ghost whole = bound_list_rest(src.text(), at as int, depth as nat);
    loop
        invariant_except_break
            whole == bound_list_rest(src.text(), at as int, depth as nat),
        invariant
            src.wf(),
            pos < at <= src@.len(),
            list@.len() >= 1,
            at == ending(
                bound_end(
                    src.text(),
                    bound_start(src.text(), pos as int, depth as nat, (list@.len() - 1) as nat),
                    depth as nat,
                ),
            ),
            forall|i: int|
                0 <= i < list@.len() ==> bound_reads(
                    src.text(),
                    bound_start(src.text(), pos as int, depth as nat, i as nat),
                    depth as nat,
                    list@[i],
                ),
        ensures
            whole == at,
        decreases src@.len() - at,
    {
        let comma = match symbol(src, at, ",") {
            Some(end) => end,
            None => {
                break ;
            },
        };
        match parse_bound(src, comma, depth) {
            Some((bound, end)) => {
                assert(bound_start(src.text(), pos as int, depth as nat, list@.len()) == comma);
                list.push(bound);
                at = end;
            },
            None => {
                break ;
            },
        }
    }
    Some((list, at))
}

/// The parameters of a function in parentheses: the required ones, then the
/// optional ones, each followed by `?`, then the locked ones, each followed by
/// `!`.
pub(crate) fn parse_param_list<'a>(src: &Source<'a>, pos: usize) -> (found: Option<
    (ParamLists<'a>, usize),
>)
    requires
        src.wf(),
        pos <= src@.len(),
    ensures
        found matches Some((_, end)) ==> pos < end <= src@.len(),
        end_of(found) == param_list_end(src@, pos as int),
        found matches Some((lists, _)) ==> params_read(
            src@,
            pos as int,
            lists.0@,
            lists.1@,
            lists.2@,
        ),
{
    let mut at = symbol(src, pos, "(")?;
    let first = at;
    let mut req_params: Vec<&'a str> = Vec::new();
    let mut opt_params: Vec<&'a str> = Vec::new();
    let mut locked_params: Vec<&'a str> = Vec::new();
    // 0 while required parameters may come, 1 once an optional one has come,
    // 2 once a locked one has come
    let mut stage: u8 = 0;
    if let Some(close) = symbol(src, at, ")") {
        return Some((ParamLists(req_params, opt_params, locked_params), close));
    }
    let ghost whole = params_rest(src@, at as int, 0);
    proof {
        lemma_no_names(src@, first as int, 0, 0);
        lemma_no_names(src@, first as int, 0, 1);
        lemma_no_names(src@, first as int, 0, 2);
    }
    loop
        invariant_except_break
            whole == params_rest(src@, at as int, stage as int),
            at == param_start(
                src@,
                first as int,
                (req_params@.len() + opt_params@.len() + locked_params@.len()) as nat,
            ),
        invariant
            src.wf(),
            pos < at <= src@.len(),
            stage <= 2,
            param_list_end(src@, pos as int) == whole,
            symbol_end(src@, pos as int, "(") == Some(first as int),
            symbol_end(src@, first as int, ")") is None,
            stage == 0 ==> opt_params@.len() == 0,
            stage <= 1 ==> locked_params@.len() == 0,
            names_read(src@, first as int, 0, req_params@, 0),
            names_read(src@, first as int, req_params@.len(), opt_params@, 1),
            names_read(
                src@,
                first as int,
                req_params@.len() + opt_params@.len(),
                locked_params@,
                2,
            ),
        ensures
            whole == symbol_end(src@, at as int, ")"),
            req_params@.len() + opt_params@.len() + locked_params@.len() >= 1,
            symbol_end(
                src@,
                param_behind(
                    src@,
                    param_start(
                        src@,
                        first as int,
                        (req_params@.len() + opt_params@.len() + locked_params@.len() - 1) as nat,
                    ),
                ),
                ",",
            ) is None,
        decreases src@.len() - at,
    {
        let (name, end) = ident(src, at)?;
        at = end;
        if let Some(end) = symbol_not_before(src, at, "?", 0x3f) {
            if stage > 1 {
                return None;
            }
            stage = 1;
            proof {
                lemma_names_push(src@, first as int, req_params@.len(), opt_params@, 1, name);
                lemma_no_names(src@, first as int, req_params@.len() + opt_params@.len() + 1, 2);
                assert(locked_params@ =~= Seq::<&str>::empty());
            }
            opt_params.push(name);
            at = end;
        } else if let Some(end) = symbol_not_before(src, at, "!", 0x3d) {
            stage = 2;
            proof {
                lemma_names_push(
                    src@,
                    first as int,
                    req_params@.len() + opt_params@.len(),
                    locked_params@,
                    2,
                    name,
                );
            }
            locked_params.push(name);
            at = end;
        } else {
            if stage > 0 {
                return None;
            }
            proof {
                lemma_names_push(src@, first as int, 0, req_params@, 0, name);
                lemma_no_names(src@, first as int, req_params@.len() + 1, 1);
                lemma_no_names(src@, first as int, req_params@.len() + 1, 2);
                assert(opt_params@ =~= Seq::<&str>::empty());
                assert(locked_params@ =~= Seq::<&str>::empty());
            }
            req_params.push(name);
        }
        match symbol(src, at, ",") {
            Some(end) => {
                at = end;
            },
            None => {
                break ;
            },
        }
    }
    let close = symbol(src, at, ")")?;
    Some((ParamLists(req_params, opt_params, locked_params), close))
}

/// An expression.
pub(crate) fn parse_expr<'a>(src: &Source<'a>, pos: usize, depth: usize) -> (found: Option<
    (ExprST<'a>, usize),
>)
    requires
        src.wf(),
        pos <= src@.len(),
    ensures
        found matches Some((_, end)) ==> pos < end <= src@.len(),
        end_of(found) == expr_end(src.text(), pos as int, depth as nat),
        found matches Some((node, _)) ==> expr_reads(src.text(), pos as int, depth as nat, node),
    decreases depth, 20nat,
{
    if keyword(src, pos, "if").is_some() {
        parse_ternary_expr(src, pos, depth)
    } else if keyword(src, pos, "case").is_some() {
        parse_switch_expr(src, pos, depth)
    } else if keyword(src, pos, "choose").is_some() || keyword(src, pos, "forall").is_some()
        || keyword(src, pos, "exists").is_some() {
        parse_select_expr(src, pos, depth)
    } else if keyword(src, pos, "return").is_some() {
        parse_return_expr(src, pos, depth)
    } else {
        match parse_assign_expr(src, pos, depth) {
            Some(found) => Some(found),
            None => parse_bin_expr(src, pos, depth, LOWEST),
        }
    }
}

/// `return` and the expression whose value is returned.
pub(crate) fn parse_return_expr<'a>(src: &Source<'a>, pos: usize, depth: usize) -> (found: Option<
    (ExprST<'a>, usize),
>)
    requires
        src.wf(),
        pos <= src@.len(),
    ensures
        found matches Some((_, end)) ==> pos < end <= src@.len(),
        found matches Some((node, _)) ==> node is Return,
        end_of(found) == return_end(src.text(), pos as int, depth as nat),
        found matches Some((node, _)) ==> return_reads(src.text(), pos as int, depth as nat, node),
    decreases depth, 19nat,
{
    if depth == 0 {
        return None;
    }
    let at = keyword(src, pos, "return")?;
    let (value, end) = parse_expr(src, at, depth - 1)?;
    Some((ExprST::Return(Box::new(value)), end))
}

/// `if`, a condition, `?`, an expression, `:` and another expression.
pub(crate) fn parse_ternary_expr<'a>(src: &Source<'a>, pos: usize, depth: usize) -> (found: Option<
    (ExprST<'a>, usize),
>)
    requires
        src.wf(),
        pos <= src@.len(),
    ensures
        found matches Some((_, end)) ==> pos < end <= src@.len(),
        found matches Some((node, _)) ==> node is Ternary,
        end_of(found) == ternary_end(src.text(), pos as int, depth as nat),
        found matches Some((node, _)) ==> ternary_reads(src.text(), pos as int, depth as nat, node),
    decreases depth, 19nat,
{
    if depth == 0 {
        return None;
    }
    let at = keyword(src, pos, "if")?;
    let (condition, at) = parse_expr(src, at, depth - 1)?;
    let at = symbol_not_before(src, at, "?", 0x3f)?;
    let (consequence, at) = parse_expr(src, at, depth - 1)?;
    let at = symbol(src, at, ":")?;
    let (alternative, end) = parse_expr(src, at, depth - 1)?;
    Some(
        (
            ExprST::Ternary {
                condition: Box::new(condition),
                consequence: Box::new(consequence),
                alternative: Box::new(alternative),
            },
            end,
        ),
    )
}

/// `choose`, `forall` or `exists`, and an iterator.
pub(crate) fn parse_select_expr<'a>(src: &Source<'a>, pos: usize, depth: usize) -> (found: Option<
    (ExprST<'a>, usize),
>)
    requires
        src.wf(),
        pos <= src@.len(),
    ensures
        found matches Some((_, end)) ==> pos < end <= src@.len(),
        found matches Some((node, _)) ==> node is Select,
        end_of(found) == select_end(src.text(), pos as int, depth as nat),
        found matches Some((node, _)) ==> select_reads(src.text(), pos as int, depth as nat, node),
    decreases depth, 19nat,
{
    let (op, at) = if let Some(end) = keyword(src, pos, "choose") {
        (SelectOp::Choose, end)
    } else if let Some(end) = keyword(src, pos, "forall") {
        (SelectOp::ForAll, end)
    } else if let Some(end) = keyword(src, pos, "exists") {
        (SelectOp::Exists, end)
    } else {
        return None;
    };
    let (iterator, end) = parse_iterator(src, at, depth)?;
    Some((ExprST::Select { op, iterator }, end))
}

/// One iterator or more, separated by commas, and the filters that follow
/// them, each after a `|`.
pub(crate) fn parse_iterator<'a>(src: &Source<'a>, pos: usize, depth: usize) -> (found: Option<
    (IteratorST<'a>, usize),
>)
    requires
        src.wf(),
        pos <= src@.len(),
    ensures
        found matches Some((iterator, end)) ==> pos < end <= src@.len()
            && iterator.iterators@.len() >= 1,
        end_of(found) == iterator_end(src.text(), pos as int, depth as nat),
        found matches Some((node, _)) ==> iterator_reads(
            src.text(),
            pos as int,
            depth as nat,
            node,
        ),
    decreases depth, 17nat,
{
    if depth == 0 {
        return None;
    }
    let (first, mut at) = parse_iterator_list_item(src, pos, depth)?;
    let mut iterators: Vec<IteratorType<'a>> = Vec::new();
    iterators.push(first);
    let ghost items_end = iterators_rest(src.text(), at as int, depth as nat);
    loop
        invariant_except_break
            items_end == iterators_rest(src.text(), at as int, depth as nat),
        invariant
            src.wf(),
            depth > 0,
            pos < at <= src@.len(),
            iterators@.len() >= 1,
            at == ending(
                iterator_item_end(
                    src.text(),
                    iterator_start(
                        src.text(),
                        pos as int,
                        depth as nat,
                        (iterators@.len() - 1) as nat,
                    ),
                    depth as nat,
                ),
            ),
            forall|i: int|
                0 <= i < iterators@.len() ==> iterator_item_reads(
                    src.text(),
                    iterator_start(src.text(), pos as int, depth as nat, i as nat),
                    depth as nat,
                    iterators@[i],
                ),
        ensures
            items_end == at,
            symbol_end(src@, at as int, ",") is None || iterator_item_end(
                src.text(),
                ending(symbol_end(src@, at as int, ",")),
                depth as nat,
            ) is None,
        decreases src@.len() - at,
    {
        let comma = match symbol(src, at, ",") {
            Some(end) => end,
            None => {
                break ;
            },
        };
        match parse_iterator_list_item(src, comma, depth) {
            Some((item, end)) => {
                assert(iterator_start(src.text(), pos as int, depth as nat, iterators@.len())
                    == comma);
                iterators.push(item);
                at = end;
            },
            None => {
                break ;
            },
        }
    }
    let mut filter: Vec<ExprST<'a>> = Vec::new();
    let ghost whole = filters_rest(src.text(), at as int, depth as nat);
    let ghost behind = at as int;
    loop
        invariant_except_break
            whole == filters_rest(src.text(), at as int, depth as nat),
        invariant
            src.wf(),
            depth > 0,
            pos < at <= src@.len(),
            iterators@.len() >= 1,
            behind == ending(
                iterator_item_end(
                    src.text(),
                    iterator_start(
                        src.text(),
                        pos as int,
                        depth as nat,
                        (iterators@.len() - 1) as nat,
                    ),
                    depth as nat,
                ),
            ),
            forall|i: int|
                0 <= i < iterators@.len() ==> iterator_item_reads(
                    src.text(),
                    iterator_start(src.text(), pos as int, depth as nat, i as nat),
                    depth as nat,
                    iterators@[i],
                ),
            symbol_end(src@, behind, ",") is None || iterator_item_end(
                src.text(),
                ending(symbol_end(src@, behind, ",")),
                depth as nat,
            ) is None,
            at == if filter@.len() == 0 {
                behind
            } else {
                ending(
                    expr_end(
                        src.text(),
                        filter_start(
                            src.text(),
                            behind,
                            (depth - 1) as nat,
                            (filter@.len() - 1) as nat,
                        ),
                        (depth - 1) as nat,
                    ),
                )
            },
            forall|i: int|
                0 <= i < filter@.len() ==> expr_reads(
                    src.text(),
                    filter_start(src.text(), behind, (depth - 1) as nat, i as nat),
                    (depth - 1) as nat,
                    filter@[i],
                ),
        ensures
            whole == at,
            symbol_not_before_end(src@, at as int, "|", 0x7c) is None || expr_end(
                src.text(),
                ending(symbol_not_before_end(src@, at as int, "|", 0x7c)),
                (depth - 1) as nat,
            ) is None,
        decreases src@.len() - at,
    {
        let bar = match symbol_not_before(src, at, "|", 0x7c) {
            Some(end) => end,
            None => {
                break ;
            },
        };
        match parse_expr(src, bar, depth - 1) {
            Some((condition, end)) => {
                assert(filter_start(src.text(), behind, (depth - 1) as nat, filter@.len())
                    == bar);
                filter.push(condition);
                at = end;
            },
            None => {
                break ;
            },
        }
    }
    Some((IteratorST { iterators, filter }, at))
}

/// One iterator: a bound, `=`, a name and bounds in parentheses or braces; or
/// bounds, `in` and an expression.
pub(crate) fn parse_iterator_list_item<'a>(src: &Source<'a>, pos: usize, depth: usize) -> (found:
    Option<(IteratorType<'a>, usize)>)
    requires
        src.wf(),
        pos <= src@.len(),
        depth > 0,
    ensures
        found matches Some((_, end)) ==> pos < end <= src@.len(),
        end_of(found) == iterator_item_end(src.text(), pos as int, depth as nat),
        found matches Some((node, _)) ==> iterator_item_reads(
            src.text(),
            pos as int,
            depth as nat,
            node,
        ),
    decreases depth, 16nat,
{
    match parse_select_iterator(src, pos, depth) {
        Some(found) => Some(found),
        None => {
            let (list, at) = parse_bound_list(src, pos, depth)?;
            let at = keyword(src, at, "in")?;
            let (expr, end) = parse_expr(src, at, depth - 1)?;
            Some((IteratorType::In { list, expr: Box::new(expr) }, end))
        },
    }
}

/// An iterator over the arguments of a map: a bound, `=`, a name and bounds
/// in parentheses, for a single-valued map, or in braces, for a multi-valued
/// one.
pub(crate) fn parse_select_iterator<'a>(src: &Source<'a>, pos: usize, depth: usize) -> (found: Option<
    (IteratorType<'a>, usize),
>)
    requires
        src.wf(),
        pos <= src@.len(),
    ensures
        found matches Some((_, end)) ==> pos < end <= src@.len(),
        end_of(found) == select_iterator_end(src.text(), pos as int, depth as nat),
        found matches Some((node, _)) ==> select_iterator_reads(
            src.text(),
            pos as int,
            depth as nat,
            node,
        ),
    decreases depth, 7nat,
{
    let (bound, at) = parse_bound(src, pos, depth)?;
    let at = symbol_not_before(src, at, "=", 0x3d)?;
    let (collection_ident, at) = ident(src, at)?;
    if let Some(open) = symbol(src, at, "(") {
        let (list, at) = parse_bound_list(src, open, depth)?;
        let close = symbol(src, at, ")")?;
        Some((IteratorType::SelectSingle { bound, collection_ident, list }, close))
    } else {
        let open = symbol(src, at, "{")?;
        let (list, at) = parse_bound_list(src, open, depth)?;
        let close = symbol(src, at, "}")?;
        Some((IteratorType::SelectMulti { bound, collection_ident, list }, close))
    }
}

/// A name and the selectors that follow it, as the target of an assignment.
pub(crate) fn parse_lhs_ident<'a>(src: &Source<'a>, pos: usize, depth: usize) -> (found: Option<
    (LHS<'a>, usize),
>)
    requires
        src.wf(),
        pos <= src@.len(),
    ensures
        found matches Some((_, end)) ==> pos < end <= src@.len(),
        found matches Some((node, _)) ==> node is Ident,
        end_of(found) == lhs_ident_end(src.text(), pos as int, depth as nat),
        found matches Some((node, _)) ==> lhs_ident_reads(
            src.text(),
            pos as int,
            depth as nat,
            node,
        ),
    decreases depth, 17nat,
{
    let (target, mut at) = ident(src, pos)?;
    let mut selectors: Vec<Selector<'a>> = Vec::new();
    let ghost whole = selectors_rest(src.text(), at as int, depth as nat);
    let ghost first = at as int;
    loop
        invariant_except_break
            whole == selectors_rest(src.text(), at as int, depth as nat),
        invariant
            src.wf(),
            pos < at <= src@.len(),
            at == selector_start(src.text(), first, depth as nat, selectors@.len()),
            forall|i: int|
                0 <= i < selectors@.len() ==> selector_reads(
                    src.text(),
                    selector_start(src.text(), first, depth as nat, i as nat),
                    depth as nat,
                    selectors@[i],
                ),
        ensures
            whole == at,
            selector_end(src.text(), at as int, depth as nat) is None,
        decreases src@.len() - at,
    {
        match parse_selector(src, at, depth) {
            Some((selector, end)) => {
                assert(selector_start(src.text(), first, depth as nat, selectors@.len() + 1)
                    == end);
                selectors.push(selector);
                at = end;
            },
            None => {
                break ;
            },
        }
    }
    assert(selectors_read(src.text(), first, depth as nat, selectors@));
    Some((LHS::Ident { target, selectors }, at))
}

/// A list of targets in brackets: each `~`, a name with its selectors, or a
/// list again.
pub(crate) fn parse_lhs_list<'a>(src: &Source<'a>, pos: usize, depth: usize) -> (found: Option<
    (LHS<'a>, usize),
>)
    requires
        src.wf(),
        pos <= src@.len(),
    ensures
        found matches Some((_, end)) ==> pos < end <= src@.len(),
        found matches Some((node, _)) ==> node is List,
        end_of(found) == lhs_list_end(src.text(), pos as int, depth as nat),
        found matches Some((node, _)) ==> lhs_list_reads(
            src.text(),
            pos as int,
            depth as nat,
            node,
        ),
    decreases depth, 18nat,
{
    if depth == 0 {
        return None;
    }
    let mut at = symbol(src, pos, "[")?;
    let mut elements: Vec<LHS<'a>> = Vec::new();
    let ghost whole = lhs_elements_end(src.text(), at as int, depth as nat);
    let ghost first = at as int;
    loop
        invariant_except_break
            whole == lhs_elements_end(src.text(), at as int, depth as nat),
            at == element_start(src.text(), first, depth as nat, elements@.len()),
        invariant
            src.wf(),
            depth > 0,
            pos < at <= src@.len(),
            lhs_list_end(src.text(), pos as int, depth as nat) == whole,
            symbol_end(src@, pos as int, "[") == Some(first),
            forall|i: int|
                0 <= i < elements@.len() ==> lhs_element_reads(
                    src.text(),
                    element_start(src.text(), first, depth as nat, i as nat),
                    depth as nat,
                    elements@[i],
                ),
        ensures
            whole == symbol_end(src@, at as int, "]"),
            elements@.len() >= 1,
            symbol_end(
                src@,
                ending(
                    lhs_element_end(
                        src.text(),
                        element_start(
                            src.text(),
                            first,
                            depth as nat,
                            (elements@.len() - 1) as nat,
                        ),
                        depth as nat,
                    ),
                ),
                ",",
            ) is None,
        decreases src@.len() - at,
    {
        proof {
            reveal_with_fuel(lhs_elements_end, 2);
        }
        let ghost start = at as int;
        if let Some(end) = symbol(src, at, "~") {
            assert(lhs_element_reads(src.text(), start, depth as nat, LHS::Tilde));
            elements.push(LHS::Tilde);
            at = end;
        } else if let Some((element, end)) = parse_lhs_ident(src, at, depth) {
            assert(lhs_element_reads(src.text(), start, depth as nat, element));
            elements.push(element);
            at = end;
        } else if let Some((element, end)) = parse_lhs_list(src, at, depth - 1) {
            assert(lhs_element_reads(src.text(), start, depth as nat, element));
            elements.push(element);
            at = end;
        } else {
            return None;
        }
        assert(lhs_element_end(src.text(), start, depth as nat) == Some(at as int));
        match symbol(src, at, ",") {
            Some(end) => {
                assert(element_start(src.text(), first, depth as nat, elements@.len()) == end);
                at = end;
            },
            None => {
                break ;
            },
        }
    }
    let close = symbol(src, at, "]")?;
    Some((LHS::List(elements), close))
}

/// A target, `:=` and the expression whose value is assigned.
pub(crate) fn parse_assign_expr<'a>(src: &Source<'a>, pos: usize, depth: usize) -> (found: Option<
    (ExprST<'a>, usize),
>)
    requires
        src.wf(),
        pos <= src@.len(),
    ensures
        found matches Some((_, end)) ==> pos < end <= src@.len(),
        found matches Some((node, _)) ==> node is Assign,
        end_of(found) == assign_end(src.text(), pos as int, depth as nat),
        found matches Some((node, _)) ==> assign_reads(src.text(), pos as int, depth as nat, node),
    decreases depth, 19nat,
{
    if depth == 0 {
        return None;
    }
    let (left, at) = match parse_lhs_ident(src, pos, depth) {
        Some(found) => found,
        None => parse_lhs_list(src, pos, depth)?,
    };
    let at = symbol(src, at, ":=")?;
    let (right, end) = parse_expr(src, at, depth - 1)?;
    Some((ExprST::Assign { left, right: Box::new(right) }, end))
}

/// Expressions separated by commas, possibly none.
pub(crate) fn unwrap_expr_list<'a>(src: &Source<'a>, pos: usize, depth: usize) -> (found: (
    Vec<ExprST<'a>>,
    usize,
))
    requires
        src.wf(),
        pos <= src@.len(),
        depth > 0,
    ensures
        pos <= found.1 <= src@.len(),
        found.1 == expr_list_end(src.text(), pos as int, depth as nat),
        exprs_read(src.text(), pos as int, (depth - 1) as nat, ",", found.0@),
        no_more(src.text(), pos as int, (depth - 1) as nat, ",", found.0@.len()),
    decreases depth, 7nat,
{
    let mut list: Vec<ExprST<'a>> = Vec::new();
    let mut at = pos;
    match parse_expr(src, pos, depth - 1) {
        Some((first, end)) => {
            list.push(first);
            at = end;
        },
        None => {
            return (list, pos);
        },
    }
    let ghost whole = exprs_rest(src.text(), at as int, depth as nat);
    loop
        invariant_except_break
            whole == exprs_rest(src.text(), at as int, depth as nat),
        invariant
            src.wf(),
            depth > 0,
            pos <= at <= src@.len(),
            list@.len() >= 1,
            at == ending(
                expr_end(
                    src.text(),
                    expr_start(
                        src.text(),
                        pos as int,
                        (depth - 1) as nat,
                        ",",
                        (list@.len() - 1) as nat,
                    ),
                    (depth - 1) as nat,
                ),
            ),
            forall|i: int|
                0 <= i < list@.len() ==> expr_reads(
                    src.text(),
                    expr_start(src.text(), pos as int, (depth - 1) as nat, ",", i as nat),
                    (depth - 1) as nat,
                    list@[i],
                ),
        ensures
            whole == at,
            symbol_end(src@, at as int, ",") is None || expr_end(
                src.text(),
                ending(symbol_end(src@, at as int, ",")),
                (depth - 1) as nat,
            ) is None,
        decreases src@.len() - at,
    {
        let comma = match symbol(src, at, ",") {
            Some(end) => end,
            None => {
                break ;
            },
        };
        match parse_expr(src, comma, depth - 1) {
            Some((element, end)) => {
                assert(expr_start(
                    src.text(),
                    pos as int,
                    (depth - 1) as nat,
                    ",",
                    list@.len(),
                ) == comma);
                list.push(element);
                at = end;
            },
            None => {
                break ;
            },
        }
    }
    (list, at)
}

/// A selector after an expression: arguments in parentheses, or a range in
/// parentheses, of which either end may be missing.
pub(crate) fn parse_selector<'a>(src: &Source<'a>, pos: usize, depth: usize) -> (found: Option<
    (Selector<'a>, usize),
>)
    requires
        src.wf(),
        pos <= src@.len(),
    ensures
        found matches Some((_, end)) ==> pos < end <= src@.len(),
        end_of(found) == selector_end(src.text(), pos as int, depth as nat),
        found matches Some((node, _)) ==> selector_reads(
            src.text(),
            pos as int,
            depth as nat,
            node,
        ),
    decreases depth, 9nat,
{
    if depth == 0 {
        return None;
    }
    let open = symbol(src, pos, "(")?;
    match parse_range_expr(src, open, depth) {
        Some((selector, end)) => Some((selector, end)),
        None => parse_call_expr(src, open, depth),
    }
}

/// The arguments of a call and the parenthesis that closes them.
pub(crate) fn parse_call_expr<'a>(src: &Source<'a>, pos: usize, depth: usize) -> (found: Option<
    (Selector<'a>, usize),
>)
    requires
        src.wf(),
        pos <= src@.len(),
        depth > 0,
    ensures
        found matches Some((_, end)) ==> pos < end <= src@.len(),
        found matches Some((node, _)) ==> node is Call,
        end_of(found) == call_end(src.text(), pos as int, depth as nat),
        found matches Some((node, _)) ==> call_reads(src.text(), pos as int, depth as nat, node),
    decreases depth, 8nat,
{
    let (args, at) = unwrap_expr_list(src, pos, depth);
    let close = symbol(src, at, ")")?;
    Some((Selector::Call(args), close))
}

/// An end of a range: an expression, or nothing.
pub(crate) fn unwrap_range<'a>(src: &Source<'a>, pos: usize, depth: usize) -> (found: (
    Option<Box<ExprST<'a>>>,
    usize,
))
    requires
        src.wf(),
        pos <= src@.len(),
        depth > 0,
    ensures
        pos <= found.1 <= src@.len(),
        found.1 == range_part_end(src.text(), pos as int, depth as nat),
        found.0 is Some <==> expr_end(src.text(), pos as int, (depth - 1) as nat) is Some,
        range_part_reads(src.text(), pos as int, depth as nat, found.0),
    decreases depth, 7nat,
{
    match parse_expr(src, pos, depth - 1) {
        Some((value, end)) => (Some(Box::new(value)), end),
        None => (None, pos),
    }
}

/// The two ends of a range, `..` between them, and the parenthesis that
/// closes them.
pub(crate) fn parse_range_expr<'a>(src: &Source<'a>, pos: usize, depth: usize) -> (found: Option<
    (Selector<'a>, usize),
>)
    requires
        src.wf(),
        pos <= src@.len(),
        depth > 0,
    ensures
        found matches Some((_, end)) ==> pos < end <= src@.len(),
        found matches Some((node, _)) ==> node is Range,
        end_of(found) == range_selector_end(src.text(), pos as int, depth as nat),
        found matches Some((node, _)) ==> range_reads(src.text(), pos as int, depth as nat, node),
    decreases depth, 8nat,
{
    let (range_start, at) = unwrap_range(src, pos, depth);
    let at = symbol(src, at, "..")?;
    let (range_end, at) = unwrap_range(src, at, depth);
    let close = symbol(src, at, ")")?;
    Some((Selector::Range(range_start, range_end), close))
}

/// What stands between two operands: a binary operator; `%` and an operator,
/// a name or a parenthesised expression; or `.` and a name or a parenthesised
/// expression.
pub(crate) fn parse_infix<'a>(src: &Source<'a>, pos: usize, depth: usize) -> (found: Option<
    (InfixOp<'a>, usize),
>)
    requires
        src.wf(),
        pos <= src@.len(),
    ensures
        found matches Some((_, end)) ==> pos < end <= src@.len(),
        match found {
            Some((op, end)) => infix_at(src.text(), pos as int, depth as nat) == Some(
                (infix_precedence_of(op).0, infix_precedence_of(op).1, end as int),
            ),
            None => infix_at(src.text(), pos as int, depth as nat) is None,
        },
        found matches Some((InfixOp::Binary(op), end)) ==> binop_at(src@, pos as int) == Some(
            (op, end as int),
        ),
        found matches Some((node, _)) ==> infix_reads(src.text(), pos as int, depth as nat, node),
    decreases depth, 11nat,
{
    if let Some(at) = symbol(src, pos, "%") {
        parse_reduce_expr(src, at, depth)
    } else if let Some(at) = symbol_not_before(src, pos, ".", 0x2e) {
        to_infix_inject(src, at, depth)
    } else {
        match to_binop(src, pos) {
            Some((op, end)) => Some((InfixOp::Binary(op), end)),
            None => None,
        }
    }
}

/// What a reduction is made with, behind its `%`: a binary operator, a name
/// or a parenthesised expression.
pub(crate) fn parse_reduce_expr<'a>(src: &Source<'a>, pos: usize, depth: usize) -> (found: Option<
    (InfixOp<'a>, usize),
>)
    requires
        src.wf(),
        pos <= src@.len(),
    ensures
        found matches Some((_, end)) ==> pos < end <= src@.len(),
        end_of(found) == reduce_end(src.text(), pos as int, depth as nat),
        found matches Some((op, _)) ==> op is ReduceWithOp || op is ReduceWithExpr,
        found matches Some((InfixOp::ReduceWithOp(op), end)) ==> binop_at(src@, pos as int) == Some(
            (op, end as int),
        ),
        found matches Some((node, _)) ==> reduce_reads(src.text(), pos as int, depth as nat, node),
    decreases depth, 10nat,
{
    // the operator stands directly behind the sign
    if pos < src.len() && !super::lexer::space(src.byte(pos)) {
        if let Some((op, end)) = to_binop(src, pos) {
            return Some((InfixOp::ReduceWithOp(op), end));
        }
    }
    let (apply, end) = parse_applied(src, pos, depth)?;
    Some((InfixOp::ReduceWithExpr(apply), end))
}

/// The function that is injected between two operands, behind its `.`: a
/// name or a parenthesised expression.
pub(crate) fn to_infix_inject<'a>(src: &Source<'a>, pos: usize, depth: usize) -> (found: Option<
    (InfixOp<'a>, usize),
>)
    requires
        src.wf(),
        pos <= src@.len(),
    ensures
        found matches Some((_, end)) ==> pos < end <= src@.len(),
        end_of(found) == applied_end(src.text(), pos as int, depth as nat),
        found matches Some((op, _)) ==> op is Inject,
        found matches Some((InfixOp::Inject(apply), _)) ==> applied_reads(
            src.text(),
            pos as int,
            depth as nat,
            apply,
        ),
    decreases depth, 10nat,
{
    let (apply, end) = parse_applied(src, pos, depth)?;
    Some((InfixOp::Inject(apply), end))
}

/// A function named between two operands: a name or a parenthesised
/// expression, directly behind the sign that announces it.
pub(crate) fn parse_applied<'a>(src: &Source<'a>, pos: usize, depth: usize) -> (found: Option<
    (ExprST<'a>, usize),
>)
    requires
        src.wf(),
        pos <= src@.len(),
    ensures
        found matches Some((_, end)) ==> pos < end <= src@.len(),
        end_of(found) == applied_end(src.text(), pos as int, depth as nat),
        found matches Some((node, _)) ==> applied_reads(src.text(), pos as int, depth as nat, node),
    decreases depth, 9nat,
{
    if pos >= src.len() || super::lexer::space(src.byte(pos)) {
        return None;
    }
    if let Some((name, end)) = ident(src, pos) {
        return Some((ExprST::Ident(name), end));
    }
    parse_nested(src, pos, depth)
}

/// An expression in parentheses.
pub(crate) fn parse_nested<'a>(src: &Source<'a>, pos: usize, depth: usize) -> (found: Option<
    (ExprST<'a>, usize),
>)
    requires
        src.wf(),
        pos <= src@.len(),
    ensures
        found matches Some((_, end)) ==> pos < end <= src@.len(),
        end_of(found) == nested_end(src.text(), pos as int, depth as nat),
        found matches Some((node, _)) ==> nested_reads(src.text(), pos as int, depth as nat, node),
    decreases depth, 8nat,
{
    if depth == 0 {
        return None;
    }
    let open = symbol(src, pos, "(")?;
    let (inner, at) = parse_expr(src, open, depth - 1)?;
    let close = symbol(src, at, ")")?;
    Some((inner, close))
}

/// The expression that two operands and what stands between them make.
pub(crate) fn parse_infix_expr<'a>(op: InfixOp<'a>, lhs: ExprST<'a>, rhs: ExprST<'a>) -> (expr: ExprST<
    'a,
>)
    ensures
        match op {
            InfixOp::Binary(binop) => expr == (ExprST::Infix {
                op: binop,
                left: Box::new(lhs),
                right: Box::new(rhs),
            }),
            InfixOp::ReduceWithOp(binop) => expr == (ExprST::ReduceWithOp {
                op: binop,
                left: Box::new(lhs),
                right: Box::new(rhs),
            }),
            InfixOp::ReduceWithExpr(apply) => expr == (ExprST::ReduceWithExpr {
                apply: Box::new(apply),
                left: Box::new(lhs),
                right: Box::new(rhs),
            }),
            InfixOp::Inject(apply) => expr == (ExprST::InfixInject {
                apply: Box::new(apply),
                left: Box::new(lhs),
                right: Box::new(rhs),
            }),
        },
{
    let left = Box::new(lhs);
    let right = Box::new(rhs);
    match op {
        InfixOp::Binary(op) => ExprST::Infix { op, left, right },
        InfixOp::ReduceWithOp(op) => ExprST::ReduceWithOp { op, left, right },
        InfixOp::ReduceWithExpr(apply) => ExprST::ReduceWithExpr {
            apply: Box::new(apply),
            left,
            right,
        },
        InfixOp::Inject(apply) => ExprST::InfixInject { apply: Box::new(apply), left, right },
    }
}

/// An expression made of operands and operators. Only operators of at least
/// the precedence `min_prec` are read.
pub(crate) fn parse_bin_expr<'a>(src: &Source<'a>, pos: usize, depth: usize, min_prec: u8) -> (found:
    Option<(ExprST<'a>, usize)>)
    requires
        src.wf(),
        pos <= src@.len(),
    ensures
        found matches Some((_, end)) ==> pos < end <= src@.len(),
        end_of(found) == bin_end(src.text(), pos as int, depth as nat, min_prec),
        found matches Some((node, _)) ==> bin_reads(
            src.text(),
            pos as int,
            depth as nat,
            min_prec,
            node,
        ),
    decreases depth, 15nat,
{
    if depth == 0 {
        return None;
    }
    let (mut lhs, mut at) = match to_prefix(src, pos) {
        Some((op, prec, end)) => {
            let (operand, end) = parse_bin_expr(src, end, depth - 1, prec)?;
            (ExprST::Prefix { op, right: Box::new(operand) }, end)
        },
        None => map_primary_to_expr(src, pos, depth)?,
    };
    let ghost whole = bin_rest(src.text(), at as int, depth as nat, min_prec);
    let ghost first = at as int;
    let ghost mut k: nat = 0;
    assert(operand_reads(src.text(), pos as int, depth as nat, lhs));
    assert(made_in(src.text(), pos as int, depth as nat, lhs, 0));
    loop
        invariant_except_break
            whole == bin_rest(src.text(), at as int, depth as nat, min_prec),
        invariant
            src.wf(),
            depth > 0,
            pos < at <= src@.len(),
            first == first_operand_end(src.text(), pos as int, depth as nat),
            at == steps_behind(src.text(), first, depth as nat, k),
            made_in(src.text(), pos as int, depth as nat, lhs, k),
            steps(src.text(), first, depth as nat, min_prec) == k + steps(
                src.text(),
                at as int,
                depth as nat,
                min_prec,
            ),
        ensures
            whole == at,
            steps(src.text(), at as int, depth as nat, min_prec) == 0,
        decreases src@.len() - at,
    {
        // a selector binds tighter than any operator
        if let Some((selector, end)) = parse_selector(src, at, depth) {
            lhs = ExprST::Postfix { left: Box::new(lhs), selector };
            proof {
                k = k + 1;
                assert(steps_behind(src.text(), first, depth as nat, k) == end);
                assert(made_in(src.text(), pos as int, depth as nat, lhs, k));
            }
            at = end;
            continue ;
        }
        let (op, after_op) = match parse_infix(src, at, depth) {
            Some(found) => found,
            None => {
                break ;
            },
        };
        let (prec, right_assoc) = infix_precedence(&op);
        if prec < min_prec {
            break ;
        }
        let next_min = if right_assoc {
            prec
        } else {
            prec + 1
        };
        match parse_bin_expr(src, after_op, depth - 1, next_min) {
            Some((rhs, end)) => {
                lhs = parse_infix_expr(op, lhs, rhs);
                proof {
                    k = k + 1;
                    assert(steps_behind(src.text(), first, depth as nat, k) == end);
                    assert(made_in(src.text(), pos as int, depth as nat, lhs, k));
                }
                at = end;
            },
            None => {
                break ;
            },
        }
    }
    Some((lhs, at))
}

/// An operand: a literal, a name, a tuple or set former, a function or an
/// expression in parentheses.
pub(crate) fn map_primary_to_expr<'a>(src: &Source<'a>, pos: usize, depth: usize) -> (found: Option<
    (ExprST<'a>, usize),
>)
    requires
        src.wf(),
        pos <= src@.len(),
    ensures
        found matches Some((_, end)) ==> pos < end <= src@.len(),
        end_of(found) == primary_end(src.text(), pos as int, depth as nat),
        found matches Some((node, _)) ==> primary_reads(src.text(), pos as int, depth as nat, node),
    decreases depth, 10nat,
{
    if let Some(found) = number_value(src, pos) {
        Some(found)
    } else if let Some((value, end)) = string(src, pos) {
        Some((ExprST::String(value), end))
    } else if let Some((name, end)) = atom(src, pos) {
        Some((ExprST::Atom(name), end))
    } else if let Some(end) = keyword(src, pos, "null") {
        Some((ExprST::Null, end))
    } else if let Some(end) = keyword(src, pos, "newat") {
        Some((ExprST::Newat, end))
    } else if let Some(end) = keyword(src, pos, "true") {
        Some((ExprST::True, end))
    } else if let Some(end) = keyword(src, pos, "false") {
        Some((ExprST::False, end))
    } else if let Some(open) = symbol(src, pos, "[") {
        let (former, at) = parse_former(src, open, depth)?;
        let close = symbol(src, at, "]")?;
        Some((ExprST::TupleLiteral(former), close))
    } else if let Some(open) = symbol(src, pos, "{") {
        let (former, at) = parse_former(src, open, depth)?;
        let close = symbol(src, at, "}")?;
        Some((ExprST::SetLiteral(former), close))
    } else if keyword(src, pos, "func").is_some() {
        parse_func(src, pos, depth)
    } else if let Some(found) = parse_short_func(src, pos, depth) {
        Some(found)
    } else if let Some(found) = parse_nested(src, pos, depth) {
        Some(found)
    } else {
        match ident(src, pos) {
            Some((name, end)) => Some((ExprST::Ident(name), end)),
            None => None,
        }
    }
}

/// What stands between the brackets or braces of a tuple or set: nothing,
/// elements separated by commas, a range, a range whose second element gives
/// its step, or an expression and an iterator.
pub(crate) fn parse_former<'a>(src: &Source<'a>, pos: usize, depth: usize) -> (found: Option<
    (Former<'a>, usize),
>)
    requires
        src.wf(),
        pos <= src@.len(),
    ensures
        found matches Some((_, end)) ==> pos <= end <= src@.len(),
        end_of(found) == former_end(src.text(), pos as int, depth as nat),
        found matches Some((node, _)) ==> former_reads(src.text(), pos as int, depth as nat, node),
    decreases depth, 9nat,
{
    if depth == 0 {
        return None;
    }
    let (first, at) = match parse_expr(src, pos, depth - 1) {
        Some(found) => found,
        None => {
            return Some((Former::Literal(Vec::new()), pos));
        },
    };
    if let Some(dots) = symbol(src, at, "..") {
        let (range_end, end) = parse_expr(src, dots, depth - 1)?;
        return Some(
            (
                Former::Range {
                    range_start: Box::new(first),
                    range_step: None,
                    range_end: Box::new(range_end),
                },
                end,
            ),
        );
    }
    if let Some(colon) = symbol(src, at, ":") {
        let (iterator, end) = parse_iterator(src, colon, depth - 1)?;
        return Some((Former::Iterator { iterator, output: Box::new(first) }, end));
    }
    let comma = match symbol(src, at, ",") {
        Some(end) => end,
        None => {
            let mut elements: Vec<ExprST<'a>> = Vec::new();
            elements.push(first);
            assert(exprs_read(src.text(), pos as int, (depth - 1) as nat, ",", elements@));
            return Some((Former::Literal(elements), at));
        },
    };
    let (second, at) = parse_expr(src, comma, depth - 1)?;
    if let Some(dots) = symbol(src, at, "..") {
        let (range_end, end) = parse_expr(src, dots, depth - 1)?;
        return Some(
            (
                Former::Range {
                    range_start: Box::new(first),
                    range_step: Some(Box::new(second)),
                    range_end: Box::new(range_end),
                },
                end,
            ),
        );
    }
    let mut elements: Vec<ExprST<'a>> = Vec::new();
    elements.push(first);
    elements.push(second);
    let mut at = at;
    assert(expr_start(src.text(), pos as int, (depth - 1) as nat, ",", 0) == pos);
    assert(expr_start(src.text(), pos as int, (depth - 1) as nat, ",", 1) == comma);
    let ghost whole = exprs_rest(src.text(), at as int, depth as nat);
    loop
        invariant_except_break
            whole == exprs_rest(src.text(), at as int, depth as nat),
        invariant
            src.wf(),
            depth > 0,
            pos <= at <= src@.len(),
            elements@.len() >= 2,
            at == ending(
                expr_end(
                    src.text(),
                    expr_start(
                        src.text(),
                        pos as int,
                        (depth - 1) as nat,
                        ",",
                        (elements@.len() - 1) as nat,
                    ),
                    (depth - 1) as nat,
                ),
            ),
            forall|i: int|
                0 <= i < elements@.len() ==> expr_reads(
                    src.text(),
                    expr_start(src.text(), pos as int, (depth - 1) as nat, ",", i as nat),
                    (depth - 1) as nat,
                    elements@[i],
                ),
        ensures
            whole == at,
            symbol_end(src@, at as int, ",") is None || expr_end(
                src.text(),
                ending(symbol_end(src@, at as int, ",")),
                (depth - 1) as nat,
            ) is None,
        decreases src@.len() - at,
    {
        let comma = match symbol(src, at, ",") {
            Some(end) => end,
            None => {
                break ;
            },
        };
        match parse_expr(src, comma, depth - 1) {
            Some((element, end)) => {
                assert(expr_start(
                    src.text(),
                    pos as int,
                    (depth - 1) as nat,
                    ",",
                    elements@.len(),
                ) == comma);
                elements.push(element);
                at = end;
            },
            None => {
                break ;
            },
        }
    }
    assert(exprs_read(src.text(), pos as int, (depth - 1) as nat, ",", elements@));
    Some((Former::Literal(elements), at))
}

/// The expressions of a body, separated by semicolons, and whether a
/// semicolon closes the body: the body's value is then null.
///
/// Among the cases of a switch a semicolon also separates one case from the
/// next. There a semicolon closes the body only if another semicolon or the
/// closing brace follows it, and the body ends before a semicolon that the
/// next case follows.
pub(crate) fn drain_block<'a>(src: &Source<'a>, pos: usize, depth: usize, in_switch: bool) -> (found: (
    Vec<ExprST<'a>>,
    bool,
    usize,
))
    requires
        src.wf(),
        pos <= src@.len(),
        depth > 0,
    ensures
        pos <= found.2 <= src@.len(),
        found.1 == block_end(src.text(), pos as int, depth as nat, in_switch).0,
        found.2 == block_end(src.text(), pos as int, depth as nat, in_switch).1,
        body_reads(src.text(), pos as int, depth as nat, in_switch, found.0@, found.1),
    decreases depth, 8nat,
{
    let mut body: Vec<ExprST<'a>> = Vec::new();
    let mut at = pos;
    match parse_expr(src, pos, depth - 1) {
        Some((first, end)) => {
            body.push(first);
            at = end;
        },
        None => {
            return (body, false, pos);
        },
    }
    loop
        invariant
            src.wf(),
            depth > 0,
            pos <= at <= src@.len(),
            block_end(src.text(), pos as int, depth as nat, in_switch) == block_rest(
                src.text(),
                at as int,
                depth as nat,
                in_switch,
            ),
            body@.len() >= 1,
            at == ending(
                expr_end(
                    src.text(),
                    expr_start(
                        src.text(),
                        pos as int,
                        (depth - 1) as nat,
                        ";",
                        (body@.len() - 1) as nat,
                    ),
                    (depth - 1) as nat,
                ),
            ),
            forall|i: int|
                0 <= i < body@.len() ==> expr_reads(
                    src.text(),
                    expr_start(src.text(), pos as int, (depth - 1) as nat, ";", i as nat),
                    (depth - 1) as nat,
                    body@[i],
                ),
        decreases src@.len() - at,
    {
        let semicolon = match symbol(src, at, ";") {
            Some(end) => end,
            None => {
                return (body, false, at);
            },
        };
        if in_switch {
            if symbol(src, semicolon, ";").is_some() || symbol(src, semicolon, "}").is_some() {
                return (body, true, semicolon);
            }
            if parse_case(src, semicolon, depth - 1).is_some() {
                return (body, false, at);
            }
        }
        match parse_expr(src, semicolon, depth - 1) {
            Some((next, end)) => {
                assert(expr_start(
                    src.text(),
                    pos as int,
                    (depth - 1) as nat,
                    ";",
                    body@.len(),
                ) == semicolon);
                body.push(next);
                at = end;
            },
            None => {
                return (body, true, semicolon);
            },
        }
    }
}

/// `func`, the parameters, and the body in braces.
pub(crate) fn parse_func<'a>(src: &Source<'a>, pos: usize, depth: usize) -> (found: Option<
    (ExprST<'a>, usize),
>)
    requires
        src.wf(),
        pos <= src@.len(),
    ensures
        found matches Some((_, end)) ==> pos < end <= src@.len(),
        found matches Some((node, _)) ==> node is Function,
        end_of(found) == func_end(src.text(), pos as int, depth as nat),
        found matches Some((node, _)) ==> func_reads(src.text(), pos as int, depth as nat, node),
    decreases depth, 9nat,
{
    if depth == 0 {
        return None;
    }
    let at = keyword(src, pos, "func")?;
    let (ParamLists(req_params, opt_params, locked_params), at) = parse_param_list(src, at)?;
    let open = symbol(src, at, "{")?;
    let (body, null_return, at) = drain_block(src, open, depth, false);
    let close = symbol(src, at, "}")?;
    Some((ExprST::Function { req_params, opt_params, locked_params, body, null_return }, close))
}

/// The parameters, `=>`, and the expression that is the function's body.
pub(crate) fn parse_short_func<'a>(src: &Source<'a>, pos: usize, depth: usize) -> (found: Option<
    (ExprST<'a>, usize),
>)
    requires
        src.wf(),
        pos <= src@.len(),
    ensures
        found matches Some((_, end)) ==> pos < end <= src@.len(),
        found matches Some((node, _)) ==> node is Function,
        end_of(found) == short_func_end(src.text(), pos as int, depth as nat),
        found matches Some((node, _)) ==> short_func_reads(
            src.text(),
            pos as int,
            depth as nat,
            node,
        ),
    decreases depth, 9nat,
{
    if depth == 0 {
        return None;
    }
    let (ParamLists(req_params, opt_params, locked_params), at) = parse_param_list(src, pos)?;
    let arrow = symbol(src, at, "=>")?;
    let (value, end) = parse_expr(src, arrow, depth - 1)?;
    let mut body: Vec<ExprST<'a>> = Vec::new();
    body.push(value);
    assert(exprs_read(src.text(), arrow as int, (depth - 1) as nat, ";", body@));
    Some(
        (ExprST::Function { req_params, opt_params, locked_params, body, null_return: false }, end),
    )
}

/// One case of a switch: a condition or `~`, a colon, and the body.
pub(crate) fn parse_case<'a>(src: &Source<'a>, pos: usize, depth: usize) -> (found: Option<
    (Case<'a>, usize),
>)
    requires
        src.wf(),
        pos <= src@.len(),
    ensures
        found matches Some((_, end)) ==> pos < end <= src@.len(),
        end_of(found) == case_end(src.text(), pos as int, depth as nat),
        found matches Some((node, _)) ==> case_reads(src.text(), pos as int, depth as nat, node),
    decreases depth, 18nat,
{
    if depth == 0 {
        return None;
    }
    let (condition, at) = match symbol(src, pos, "~") {
        Some(end) => (None, end),
        None => {
            let (condition, end) = parse_expr(src, pos, depth - 1)?;
            (Some(Box::new(condition)), end)
        },
    };
    let colon = symbol_not_before(src, at, ":", 0x3d)?;
    let (consequence, null_return, end) = drain_block(src, colon, depth, true);
    Some((Case { condition, consequence, null_return }, end))
}

/// `case`, optionally the subject in parentheses, and the cases in braces,
/// separated by semicolons.
pub(crate) fn parse_switch_expr<'a>(src: &Source<'a>, pos: usize, depth: usize) -> (found: Option<
    (ExprST<'a>, usize),
>)
    requires
        src.wf(),
        pos <= src@.len(),
    ensures
        found matches Some((_, end)) ==> pos < end <= src@.len(),
        found matches Some((node, _)) ==> node is Switch,
        end_of(found) == switch_end(src.text(), pos as int, depth as nat),
        found matches Some((node, _)) ==> switch_reads(src.text(), pos as int, depth as nat, node),
    decreases depth, 19nat,
{
    if depth == 0 {
        return None;
    }
    let at = keyword(src, pos, "case")?;
    let (input, at) = match parse_nested(src, at, depth) {
        Some((subject, end)) => (Some(Box::new(subject)), end),
        None => (None, at),
    };
    let mut at = symbol(src, at, "{")?;
    let mut cases: Vec<Case<'a>> = Vec::new();
    let ghost whole = cases_rest(src.text(), at as int, depth as nat);
    let ghost first = at as int;
    let ghost subject_at = ending(keyword_end(src@, pos as int, "case"));
    loop
        invariant_except_break
            whole == cases_rest(src.text(), at as int, depth as nat),
            at == case_start(src.text(), first, depth as nat, cases@.len()),
        invariant
            src.wf(),
            depth > 0,
            pos < at <= src@.len(),
            if nested_end(src.text(), subject_at, depth as nat) is Some {
                match input {
                    Some(subject) => nested_reads(src.text(), subject_at, depth as nat, *subject),
                    None => false,
                }
            } else {
                input is None
            },
            forall|i: int|
                0 <= i < cases@.len() ==> case_reads(
                    src.text(),
                    case_start(src.text(), first, depth as nat, i as nat),
                    depth as nat,
                    cases@[i],
                ),
        ensures
            whole == at,
            if cases@.len() == 0 {
                case_end(src.text(), first, depth as nat) is None
            } else {
                let last = ending(
                    case_end(
                        src.text(),
                        case_start(src.text(), first, depth as nat, (cases@.len() - 1) as nat),
                        depth as nat,
                    ),
                );
                symbol_end(src@, last, ";") is None || case_end(
                    src.text(),
                    ending(symbol_end(src@, last, ";")),
                    depth as nat,
                ) is None
            },
        decreases src@.len() - at,
    {
        match parse_case(src, at, depth) {
            Some((case, end)) => {
                cases.push(case);
                at = end;
            },
            None => {
                break ;
            },
        }
        match symbol(src, at, ";") {
            Some(end) => {
                assert(case_start(src.text(), first, depth as nat, cases@.len()) == end);
                at = end;
            },
            None => {
                break ;
            },
        }
    }
    let close = symbol(src, at, "}")?;
    Some((ExprST::Switch { input, cases }, close))
}

/// A program: `program`, its name as an atom, a semicolon, and one
/// expression or more, each followed by a semicolon; the last semicolon may
/// be missing.
pub(crate) fn parse_program<'a>(src: &Source<'a>, pos: usize) -> (found: Option<(Program<'a>, usize)>)
    requires
        src.wf(),
        pos <= src@.len(),
    ensures
        found matches Some((program, end)) ==> pos < end <= src@.len()
            && program.expressions@.len() >= 1,
        end_of(found) == program_end(src.text(), pos as int),
        found matches Some((program, _)) ==> program_reads(src.text(), pos as int, program),
{
    let at = keyword(src, pos, "program")?;
    let (_name, at) = atom(src, at)?;
    let mut at = symbol(src, at, ";")?;
    let mut expressions: Vec<ExprST<'a>> = Vec::new();
    let ghost whole = statements_end(src.text(), at as int, false);
    let ghost first = at as int;
    loop
        invariant_except_break
            whole == statements_end(src.text(), at as int, expressions@.len() > 0),
            at == expr_start(src.text(), first, MAX_DEPTH as nat, ";", expressions@.len()),
        invariant
            src.wf(),
            pos < at <= src@.len(),
            forall|i: int|
                0 <= i < expressions@.len() ==> expr_reads(
                    src.text(),
                    expr_start(src.text(), first, MAX_DEPTH as nat, ";", i as nat),
                    MAX_DEPTH as nat,
                    expressions@[i],
                ),
        ensures
            expressions@.len() == 0 || no_more(
                src.text(),
                first,
                MAX_DEPTH as nat,
                ";",
                expressions@.len(),
            ),
            whole == if expressions@.len() > 0 {
                Some(at as int)
            } else {
                None
            },
        decreases src@.len() - at,
    {
        match parse_expr(src, at, MAX_DEPTH) {
            Some((expr, end)) => {
                expressions.push(expr);
                at = end;
            },
            None => {
                break ;
            },
        }
        match symbol(src, at, ";") {
            Some(end) => {
                assert(expr_start(src.text(), first, MAX_DEPTH as nat, ";", expressions@.len())
                    == end);
                at = end;
            },
            None => {
                break ;
            },
        }
    }
    if expressions.len() == 0 {
        return None;
    }
    assert(exprs_read(src.text(), first, MAX_DEPTH as nat, ";", expressions@));
    Some((Program { expressions }, at))
}

/// A text as it is read where every float literal must have its bits in the
/// table.
pub open spec fn strict(input: &str, floats: &Vec<FloatBits>) -> Text {
    Text { bytes: input.spec_bytes(), table: floats@, lenient: false }
}

/// Whether what was read is the whole text: something was read, and only
/// white space follows it.
pub open spec fn whole_text(bytes: Seq<u8>, end: Option<int>) -> bool {
    match end {
        Some(end) => run_end(bytes, end, |b: u8| is_space(b)) == bytes.len(),
        None => false,
    }
}

/// The position at which reading has stopped: behind what was read and the
/// white space that follows it, or the beginning of the text where nothing
/// was read.
pub open spec fn stop(bytes: Seq<u8>, end: Option<int>) -> int {
    match end {
        Some(end) => run_end(bytes, end, |b: u8| is_space(b)),
        None => 0,
    }
}

/// Parses a text that is one expression.
pub fn parse_from_expr<'a>(input: &'a str, floats: &'a Vec<FloatBits>) -> (r: Result<
    ExprST<'a>,
    ParseError,
>)
    ensures
        r matches Err(e) ==> e.position <= input.spec_bytes().len(),
        r is Ok <==> whole_text(
            input.spec_bytes(),
            expr_end(strict(input, floats), 0, MAX_DEPTH as nat),
        ),
        r matches Err(e) ==> e.position == stop(
            input.spec_bytes(),
            expr_end(strict(input, floats), 0, MAX_DEPTH as nat),
        ),
        r matches Ok(node) ==> expr_reads(strict(input, floats), 0, MAX_DEPTH as nat, node),
{
    let src = Source::new(input, floats, false);
    match parse_expr(&src, 0, MAX_DEPTH) {
        Some((expr, end)) => {
            let rest = src.skip_ws(end);
            if rest == src.len() {
                Ok(expr)
            } else {
                Err(ParseError { position: rest })
            }
        },
        None => Err(ParseError { position: 0 }),
    }
}

/// Parses a text that is a program.
pub fn parse_from_program<'a>(input: &'a str, floats: &'a Vec<FloatBits>) -> (r: Result<
    Program<'a>,
    ParseError,
>)
    ensures
        r matches Ok(program) ==> program.expressions@.len() >= 1,
        r matches Err(e) ==> e.position <= input.spec_bytes().len(),
        r is Ok <==> whole_text(
            input.spec_bytes(),
            program_end(strict(input, floats), 0),
        ),
        r matches Err(e) ==> e.position == stop(
            input.spec_bytes(),
            program_end(strict(input, floats), 0),
        ),
        r matches Ok(program) ==> program_reads(strict(input, floats), 0, program),
{
    let src = Source::new(input, floats, false);
    match parse_program(&src, 0) {
        Some((program, end)) => {
            let rest = src.skip_ws(end);
            if rest == src.len() {
                Ok(program)
            } else {
                Err(ParseError { position: rest })
            }
        },
        None => Err(ParseError { position: 0 }),
    }
}

} // verus!
