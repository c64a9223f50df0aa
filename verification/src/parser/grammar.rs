//! The grammar's rules by name, and a recogniser that says whether a rule
//! matches the beginning of a text.

use super::lexer::{
    atom_end, ident_end, is_space, keyword_end, number_end, run_end, string_end, symbol_end,
    FloatBits, Source, Text,
};
use super::parser::{
    map_primary_to_expr, number_value, parse_assign_expr, parse_bin_expr, parse_case, parse_expr,
    parse_func, parse_iterator, parse_nested, parse_program, parse_selector, parse_select_expr,
    parse_short_func, parse_switch_expr, parse_ternary_expr, LOWEST, MAX_DEPTH,
};
use super::syntax::{
    assign_end, bin_end, case_end, expr_end, func_end, iterator_end, nested_end, primary_end,
    program_end, select_end, selector_end, short_func_end, switch_end, ternary_end,
};
use crate::error::ParseError;
use vstd::prelude::*;
use vstd::string::StringSliceAdditionalSpecFns;

verus! {

/// The rules of the grammar that can be asked for.
#[allow(non_camel_case_types)]
#[derive(Debug, Clone, Copy, PartialEq, Eq, Structural)]
pub enum Rule {
    program,
    expr,
    bin_expr,
    assignment_expr,
    ternary_expr,
    switch_expr,
    select_expr,
    case,
    iterator,
    null,
    newat,
    true_,
    false_,
    atom,
    string,
    number,
    ident,
    tuple_literal,
    set_literal,
    short_func,
    long_func,
    nested_expression,
    selector,
}

/// The part of a text that a rule has matched.
#[derive(Debug, Clone, Copy, PartialEq, Eq, Structural)]
pub struct Span {
    pub rule: Rule,
    /// The position of the first byte that is no white space.
    pub start: usize,
    /// The position behind the last byte matched.
    pub end: usize,
}

/// A text as the recogniser reads it: no float literal is refused for want
/// of its bits.
pub open spec fn lenient(input: &str) -> Text {
    Text { bytes: input.spec_bytes(), table: Seq::empty(), lenient: true }
}

/// Where what a rule matches at the beginning of a text ends, if the rule
/// matches there.
pub open spec fn rule_end(t: Text, rule: Rule) -> Option<int> {
    let depth = MAX_DEPTH as nat;
    match rule {
        Rule::program => program_end(t, 0),
        Rule::expr => expr_end(t, 0, depth),
        Rule::bin_expr => bin_end(t, 0, depth, LOWEST),
        Rule::assignment_expr => assign_end(t, 0, depth),
        Rule::ternary_expr => ternary_end(t, 0, depth),
        Rule::switch_expr => switch_end(t, 0, depth),
        Rule::select_expr => select_end(t, 0, depth),
        Rule::case => case_end(t, 0, depth),
        Rule::iterator => iterator_end(t, 0, depth),
        Rule::null => keyword_end(t.bytes, 0, "null"),
        Rule::newat => keyword_end(t.bytes, 0, "newat"),
        Rule::true_ => keyword_end(t.bytes, 0, "true"),
        Rule::false_ => keyword_end(t.bytes, 0, "false"),
        Rule::atom => atom_end(t.bytes, 0),
        Rule::string => string_end(t.bytes, 0),
        Rule::number => number_end(t, 0),
        Rule::ident => ident_end(t.bytes, 0),
        Rule::tuple_literal => if symbol_end(t.bytes, 0, "[") is Some {
            primary_end(t, 0, depth)
        } else {
            None
        },
        Rule::set_literal => if symbol_end(t.bytes, 0, "{") is Some {
            primary_end(t, 0, depth)
        } else {
            None
        },
        Rule::short_func => short_func_end(t, 0, depth),
        Rule::long_func => func_end(t, 0, depth),
        Rule::nested_expression => nested_end(t, 0, depth),
        Rule::selector => selector_end(t, 0, depth),
    }
}

/// The recogniser.
pub struct YsetlParser;

impl YsetlParser {
    /// Matches a rule against the beginning of a text. The text may go on
    /// behind what the rule matches. A float literal is matched without
    /// asking for its bits.
    ///
    /// The span begins at the first byte that is no white space and ends
    /// where the grammar has the rule end. Where the rule does not match, the
    /// error names the first byte that is no white space.
    pub fn parse(rule: Rule, input: &str) -> (r: Result<Span, ParseError>)
        ensures
            r matches Ok(span) ==> span.rule == rule && span.start <= span.end
                <= input.spec_bytes().len(),
            r matches Err(e) ==> e.position <= input.spec_bytes().len(),
            match r {
                Ok(span) => {
                    &&& rule_end(lenient(input), rule) == Some(span.end as int)
                    &&& span.start == run_end(input.spec_bytes(), 0, |b: u8| is_space(b))
                },
                Err(e) => {
                    &&& e.position == run_end(input.spec_bytes(), 0, |b: u8| is_space(b))
                    &&& match rule_end(lenient(input), rule) {
                        Some(end) => end < e.position,
                        None => true,
                    }
                },
            },
    {
        let floats: Vec<FloatBits> = Vec::new();
        let src = Source::new(input, &floats, true);
        assert(src.text() =~= lenient(input));
        let start = src.skip_ws(0);
        let end = match rule {
            Rule::program => match parse_program(&src, 0) {
                Some((_, end)) => Some(end),
                None => None,
            },
            Rule::expr => match parse_expr(&src, 0, MAX_DEPTH) {
                Some((_, end)) => Some(end),
                None => None,
            },
            Rule::bin_expr => match parse_bin_expr(&src, 0, MAX_DEPTH, LOWEST) {
                Some((_, end)) => Some(end),
                None => None,
            },
            Rule::assignment_expr => match parse_assign_expr(&src, 0, MAX_DEPTH) {
                Some((_, end)) => Some(end),
                None => None,
            },
            Rule::ternary_expr => match parse_ternary_expr(&src, 0, MAX_DEPTH) {
                Some((_, end)) => Some(end),
                None => None,
            },
            Rule::switch_expr => match parse_switch_expr(&src, 0, MAX_DEPTH) {
                Some((_, end)) => Some(end),
                None => None,
            },
            Rule::select_expr => match parse_select_expr(&src, 0, MAX_DEPTH) {
                Some((_, end)) => Some(end),
                None => None,
            },
            Rule::case => match parse_case(&src, 0, MAX_DEPTH) {
                Some((_, end)) => Some(end),
                None => None,
            },
            Rule::iterator => match parse_iterator(&src, 0, MAX_DEPTH) {
                Some((_, end)) => Some(end),
                None => None,
            },
            Rule::null => src.keyword(0, "null"),
            Rule::newat => src.keyword(0, "newat"),
            Rule::true_ => src.keyword(0, "true"),
            Rule::false_ => src.keyword(0, "false"),
            Rule::atom => match src.atom(0) {
                Some((_, end)) => Some(end),
                None => None,
            },
            Rule::string => match src.string(0) {
                Some((_, end)) => Some(end),
                None => None,
            },
            Rule::number => match number_value(&src, 0) {
                Some((_, end)) => Some(end),
                None => None,
            },
            Rule::ident => match src.ident(0) {
                Some((_, end)) => Some(end),
                None => None,
            },
            Rule::tuple_literal => match src.symbol(0, "[") {
                Some(_) => match map_primary_to_expr(&src, 0, MAX_DEPTH) {
                    Some((_, end)) => Some(end),
                    None => None,
                },
                None => None,
            },
            Rule::set_literal => match src.symbol(0, "{") {
                Some(_) => match map_primary_to_expr(&src, 0, MAX_DEPTH) {
                    Some((_, end)) => Some(end),
                    None => None,
                },
                None => None,
            },
            Rule::short_func => match parse_short_func(&src, 0, MAX_DEPTH) {
                Some((_, end)) => Some(end),
                None => None,
            },
            Rule::long_func => match parse_func(&src, 0, MAX_DEPTH) {
                Some((_, end)) => Some(end),
                None => None,
            },
            Rule::nested_expression => match parse_nested(&src, 0, MAX_DEPTH) {
                Some((_, end)) => Some(end),
                None => None,
            },
            Rule::selector => match parse_selector(&src, 0, MAX_DEPTH) {
                Some((_, end)) => Some(end),
                None => None,
            },
        };
        match end {
            Some(end) => {
                if start <= end {
                    Ok(Span { rule, start, end })
                } else {
                    Err(ParseError { position: start })
                }
            },
            None => Err(ParseError { position: start }),
        }
    }
}

} // verus!
