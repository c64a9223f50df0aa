//! The syntax tree. Names and the texts of literals are slices of the source.

use vstd::prelude::*;

verus! {

/// The binary operators.
#[derive(Debug, Clone, Copy, PartialEq, Eq, Structural)]
pub enum BinOp {
    NullCoal,
    TupleStart,
    Exp,
    Mult,
    Inter,
    Div,
    Mod,
    IntDiv,
    Add,
    Subtract,
    With,
    Less,
    Union,
    In,
    Notin,
    Subset,
    LT,
    LTEQ,
    GT,
    GTEQ,
    EQ,
    NEQ,
    And,
    Or,
    Impl,
    Iff,
}

/// The prefix operators.
#[derive(Debug, Clone, Copy, PartialEq, Eq, Structural)]
pub enum PreOp {
    Negate,
    Id,
    /// Dynamic variable.
    DynVar,
    Size,
    Not,
}

/// The quantifiers of a selection.
#[derive(Debug, Clone, Copy, PartialEq, Eq, Structural)]
pub enum SelectOp {
    Choose,
    ForAll,
    Exists,
}

/// What an iterator binds: nothing, a name, or a list of bounds.
#[derive(Debug)]
pub enum Bound<'a> {
    Tilde,
    Ident(&'a str),
    List(Vec<Bound<'a>>),
}

/// One iterator: over the elements of a collection, or over the arguments of
/// a single-valued or multi-valued map.
#[derive(Debug)]
pub enum IteratorType<'a> {
    In { list: Vec<Bound<'a>>, expr: Box<ExprST<'a>> },
    SelectSingle { bound: Bound<'a>, collection_ident: &'a str, list: Vec<Bound<'a>> },
    SelectMulti { bound: Bound<'a>, collection_ident: &'a str, list: Vec<Bound<'a>> },
}

/// Iterators and the conditions that filter what they yield.
#[derive(Debug)]
pub struct IteratorST<'a> {
    pub iterators: Vec<IteratorType<'a>>,
    pub filter: Vec<ExprST<'a>>,
}

/// What stands between the brackets of a tuple or the braces of a set.
#[derive(Debug)]
pub enum Former<'a> {
    Literal(Vec<ExprST<'a>>),
    Range {
        range_start: Box<ExprST<'a>>,
        /// The second element of the range, from which the step follows.
        range_step: Option<Box<ExprST<'a>>>,
        range_end: Box<ExprST<'a>>,
    },
    Iterator { iterator: IteratorST<'a>, output: Box<ExprST<'a>> },
}

/// What selects from a value: an index, the arguments of a call, a range, or
/// a pick.
#[derive(Debug)]
pub enum Selector<'a> {
    Index(Box<ExprST<'a>>),
    Call(Vec<ExprST<'a>>),
    Range(Option<Box<ExprST<'a>>>, Option<Box<ExprST<'a>>>),
    Pick(Vec<ExprST<'a>>),
}

/// The target of an assignment.
#[derive(Debug)]
pub enum LHS<'a> {
    Tilde,
    Ident { target: &'a str, selectors: Vec<Selector<'a>> },
    List(Vec<LHS<'a>>),
}

/// One case of a switch. A case without a condition is the default.
#[derive(Debug)]
pub struct Case<'a> {
    pub condition: Option<Box<ExprST<'a>>>,
    pub consequence: Vec<ExprST<'a>>,
    pub null_return: bool,
}

/// A program: its top-level expressions.
#[derive(Debug)]
pub struct Program<'a> {
    pub expressions: Vec<ExprST<'a>>,
}

/// An expression.
#[derive(Debug)]
#[allow(inconsistent_fields)]
pub enum ExprST<'a> {
    Null,
    Newat,
    True,
    False,
    Atom(&'a str),
    String(&'a str),
    Ident(&'a str),
    Integer(i64),
    /// The bits of an IEEE-754 double.
    Float(u64),
    TupleLiteral(Former<'a>),
    SetLiteral(Former<'a>),
    Function {
        req_params: Vec<&'a str>,
        opt_params: Vec<&'a str>,
        locked_params: Vec<&'a str>,
        body: Vec<ExprST<'a>>,
        null_return: bool,
    },
    Infix { op: BinOp, left: Box<ExprST<'a>>, right: Box<ExprST<'a>> },
    ReduceWithOp { op: BinOp, left: Box<ExprST<'a>>, right: Box<ExprST<'a>> },
    ReduceWithExpr { apply: Box<ExprST<'a>>, left: Box<ExprST<'a>>, right: Box<ExprST<'a>> },
    InfixInject { apply: Box<ExprST<'a>>, left: Box<ExprST<'a>>, right: Box<ExprST<'a>> },
    Prefix { op: PreOp, right: Box<ExprST<'a>> },
    Postfix { left: Box<ExprST<'a>>, selector: Selector<'a> },
    Ternary {
        condition: Box<ExprST<'a>>,
        consequence: Box<ExprST<'a>>,
        alternative: Box<ExprST<'a>>,
    },
    Switch { input: Option<Box<ExprST<'a>>>, cases: Vec<Case<'a>> },
    Assign { left: LHS<'a>, right: Box<ExprST<'a>> },
    Select { op: SelectOp, iterator: IteratorST<'a> },
    Return(Box<ExprST<'a>>),
}

} // verus!
