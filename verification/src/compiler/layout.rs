//! What compiled code looks like.
//!
//! Compiling appends to the instructions of the current scope and leaves
//! everything else in place: the scopes below, the instructions emitted
//! before, the constants and names that were there. How many bytes it appends
//! depends on the expression alone.

use super::model::{
    compile_body, compile_cases, compile_expr, compile_former, compile_ident, compile_list,
    compile_store, emit, emit_const, enter, leave, load_all, load_bytes, patch, patch_all,
    patch_pending, preop_bytes, register, register_all, store_bytes, CompilerState, MAX_CODE,
    PLACEHOLDER,
};
use super::symbols::{find_in, resolve};
use crate::buffer::be16;
use crate::code::code::{OpCode, OpCodeMake, OpCodeMakeWithU16};
use crate::error::CompileError;
use crate::object::value::Value;
use crate::parser::ast::{Case, ExprST, Former, PreOp, Selector, LHS};
use vstd::prelude::*;

verus! {

/// Whether as many scopes have names as have instructions, and at least one,
/// and the current scope's code is within its limit.
pub open spec fn well_scoped(st: CompilerState) -> bool {
    st.scopes.len() == st.symbols.len() && st.scopes.len() >= 1 && st.code().len() <= MAX_CODE
}

/// Whether a state continues another: the same scopes are open and those
/// below the current one are untouched; the current scope's code is longer by
/// `added` bytes and unchanged before the position `base`; and the constants
/// and the current scope's names that were there are still there, in their
/// places.
#[verifier::opaque]
pub open spec fn continues(
    before: CompilerState,
    after: CompilerState,
    base: int,
    added: nat,
) -> bool {
    &&& well_scoped(after)
    &&& after.scopes.len() == before.scopes.len()
    &&& after.scopes.drop_last() == before.scopes.drop_last()
    &&& after.symbols.drop_last() == before.symbols.drop_last()
    &&& after.code().len() == before.code().len() + added
    &&& 0 <= base <= before.code().len()
    &&& after.code().take(base) == before.code().take(base)
    &&& before.constants.is_prefix_of(after.constants)
    &&& before.symbols.last().is_prefix_of(after.symbols.last())
}

/// The number of bytes that a prefix operator's instruction takes.
pub open spec fn preop_size(op: PreOp) -> nat {
    if op == PreOp::Id {
        0
    } else {
        1
    }
}

/// The number of bytes that compiling an expression appends.
pub open spec fn code_size(node: ExprST) -> nat
    decreases node, 0nat,
{
    match node {
        ExprST::Null | ExprST::True | ExprST::False => 1,
        ExprST::Integer(_) | ExprST::Float(_) | ExprST::String(_) | ExprST::Ident(_) => 3,
        ExprST::TupleLiteral(former) => former_size(former),
        ExprST::SetLiteral(former) => former_size(former),
        ExprST::Infix { op, left, right } => code_size(*left) + code_size(*right) + 1,
        ExprST::Prefix { op, right } => match (op, *right) {
            (PreOp::Negate, ExprST::Integer(_)) => 3,
            (PreOp::Negate, ExprST::Float(_)) => 3,
            _ => code_size(*right) + preop_size(op),
        },
        ExprST::Postfix { left, selector } => match selector {
            Selector::Index(index) => code_size(*left) + code_size(*index) + 1,
            Selector::Call(args) => code_size(*left) + list_size(args@, 0, false) + 3,
            _ => 0,
        },
        ExprST::Ternary { condition, consequence, alternative } => code_size(*condition) + 3
            + code_size(*consequence) + 3 + code_size(*alternative),
        ExprST::Switch { input, cases } => match input {
            Some(subject) => code_size(*subject) + 1 + cases_size(cases@, 0) + 1,
            None => cases_size(cases@, 0),
        },
        ExprST::Assign { left, right } => code_size(*right) + 3,
        ExprST::Function { locked_params, .. } => 3 + 3 * locked_params@.len() + 3,
        ExprST::Return(value) => code_size(*value) + 1,
        _ => 0,
    }
}

/// The number of bytes that compiling a list of expressions from position
/// `from` on appends.
pub open spec fn list_size(exprs: Seq<ExprST>, from: int, with_pop: bool) -> nat
    decreases exprs, exprs.len() - from,
{
    if from < 0 || from >= exprs.len() {
        0
    } else {
        code_size(exprs[from]) + (if with_pop {
            1nat
        } else {
            0nat
        }) + list_size(exprs, from + 1, with_pop)
    }
}

/// The number of bytes that compiling a body from position `from` on appends.
pub open spec fn body_size(exprs: Seq<ExprST>, from: int, null_return: bool) -> nat
    decreases exprs, exprs.len() - from,
{
    if from < 0 || from >= exprs.len() {
        if exprs.len() == 0 || null_return {
            1
        } else {
            0
        }
    } else {
        code_size(exprs[from]) + (if from + 1 < exprs.len() || null_return {
            1nat
        } else {
            0nat
        }) + body_size(exprs, from + 1, null_return)
    }
}

/// The number of bytes that compiling a former appends.
pub open spec fn former_size(former: Former) -> nat
    decreases former, 0nat,
{
    match former {
        Former::Literal(exprs) => list_size(exprs@, 0, false) + 3,
        Former::Range { range_start, range_step, range_end } => (match range_step {
            Some(step) => code_size(*step),
            None => 0,
        }) + code_size(*range_end) + code_size(*range_start) + 3,
        Former::Iterator { .. } => 0,
    }
}

/// The number of bytes that compiling the cases of a switch from position
/// `from` on appends.
pub open spec fn cases_size(cases: Seq<Case>, from: int) -> nat
    decreases cases, cases.len() - from,
{
    if from < 0 || from >= cases.len() {
        1
    } else {
        match cases[from].condition {
            Some(condition) => code_size(*condition) + 3 + body_size(
                cases[from].consequence@,
                0,
                cases[from].null_return,
            ) + 3 + cases_size(cases, from + 1),
            None => body_size(cases[from].consequence@, 0, cases[from].null_return),
        }
    }
}

/// A state continues itself.
pub proof fn lemma_continues_self(st: CompilerState)
    requires
        well_scoped(st),
    ensures
        continues(st, st, st.code().len() as int, 0),
{
    reveal(continues);
}

/// What continues a continuation continues what that one continued.
pub proof fn lemma_continues_then(
    a: CompilerState,
    b: CompilerState,
    c: CompilerState,
    first_base: int,
    first: nat,
    second_base: int,
    second: nat,
    base: int,
)
    requires
        continues(a, b, first_base, first),
        continues(b, c, second_base, second),
        0 <= base <= first_base,
        base <= second_base,
    ensures
        continues(a, c, base, first + second),
        well_scoped(c),
{
    reveal(continues);
    assert(c.code().take(base) =~= c.code().take(second_base).take(base));
    assert(b.code().take(base) =~= b.code().take(second_base).take(base));
    assert(b.code().take(base) =~= b.code().take(first_base).take(base));
    assert(a.code().take(base) =~= a.code().take(first_base).take(base));
    assert(a.constants =~= c.constants.subrange(0, a.constants.len() as int)) by {
        assert(a.constants =~= b.constants.subrange(0, a.constants.len() as int));
        assert(b.constants =~= c.constants.subrange(0, b.constants.len() as int));
    }
    assert(a.symbols.last() =~= c.symbols.last().subrange(0, a.symbols.last().len() as int)) by {
        assert(a.symbols.last() =~= b.symbols.last().subrange(0, a.symbols.last().len() as int));
        assert(b.symbols.last() =~= c.symbols.last().subrange(0, b.symbols.last().len() as int));
    }
}

/// What continues a continuation at its end continues what that one
/// continued.
pub proof fn lemma_continues_next(
    a: CompilerState,
    b: CompilerState,
    c: CompilerState,
    base: int,
    first: nat,
    second: nat,
)
    requires
        continues(a, b, base, first),
        continues(b, c, b.code().len() as int, second),
    ensures
        continues(a, c, base, first + second),
        well_scoped(c),
{
    reveal(continues);
    lemma_continues_then(a, b, c, base, first, b.code().len() as int, second, base);
}

/// Emitting appends the bytes and changes nothing else.
pub proof fn lemma_emit(st: CompilerState, bytes: Seq<u8>)
    requires
        well_scoped(st),
    ensures
        emit(st, bytes) matches Ok(r) ==>
            well_scoped(r) && continues(st, r, st.code().len() as int, bytes.len())
            && r.code() == st.code() + bytes && r.constants == st.constants && r.symbols
            == st.symbols,
        emit(st, bytes) is Ok <==> st.code().len() + bytes.len() <= MAX_CODE,
{
    reveal(continues);
    if emit(st, bytes) is Ok {
        let r = emit(st, bytes)->Ok_0;
        assert(r.scopes.drop_last() =~= st.scopes.drop_last());
        assert(r.code().take(st.code().len() as int) =~= st.code());
        assert(st.code().take(st.code().len() as int) =~= st.code());
    }
}

/// Emitting a constant appends one instruction of three bytes and the
/// constant.
pub proof fn lemma_emit_const(st: CompilerState, constant: Value)
    requires
        well_scoped(st),
    ensures
        emit_const(st, constant) matches Ok(r) ==>
            well_scoped(r) && continues(st, r, st.code().len() as int, 3)
            && r.constants == st.constants.push(constant) && r.symbols == st.symbols && r.code()
            == st.code() + crate::code::code::Const.encoding(st.constants.len() as u16),
{
    reveal(continues);
    if emit_const(st, constant) is Ok {
        let pushed = CompilerState { constants: st.constants.push(constant), ..st };
        lemma_emit(pushed, crate::code::code::Const.encoding(st.constants.len() as u16));
        assert(st.constants =~= pushed.constants.subrange(0, st.constants.len() as int));
    }
}

/// Patching a jump changes the two bytes of its operand and nothing else.
pub proof fn lemma_patch(st: CompilerState, at: int, target: int)
    requires
        well_scoped(st),
        0 <= at,
        at + 2 <= st.code().len(),
    ensures
        continues(st, patch(st, at, target), at, 0),
        patch(st, at, target).constants == st.constants,
        patch(st, at, target).symbols == st.symbols,
        forall|i: int|
            0 <= i < st.code().len() && i != at && i != at + 1 ==> #[trigger] patch(
                st,
                at,
                target,
            ).code()[i] == st.code()[i],
        patch(st, at, target).code()[at] == be16(target as u16)[0],
        patch(st, at, target).code()[at + 1] == be16(target as u16)[1],
{
    reveal(continues);
    let r = patch(st, at, target);
    assert(r.scopes.drop_last() =~= st.scopes.drop_last());
    assert(r.code().take(at) =~= st.code().take(at));
}

/// Whether every position of `ats` is that of a jump operand at or behind
/// `base` in code of `len` bytes.
pub open spec fn operands_within(ats: Seq<int>, base: int, len: int) -> bool {
    forall|i: int| 0 <= i < ats.len() ==> base <= #[trigger] ats[i] && ats[i] + 2 <= len
}

/// Patching several jumps changes nothing before the first of them, and not
/// the length of the code.
pub proof fn lemma_patch_all(st: CompilerState, ats: Seq<int>, target: int, base: int)
    requires
        well_scoped(st),
        0 <= base,
        operands_within(ats, base, st.code().len() as int),
        base <= st.code().len(),
    ensures
        continues(st, patch_all(st, ats, target), base, 0),
        patch_all(st, ats, target).constants == st.constants,
        patch_all(st, ats, target).symbols == st.symbols,
    decreases ats.len(),
{
    reveal(continues);
    if ats.len() > 0 {
        let next = patch(st, ats[0], target);
        lemma_patch(st, ats[0], target);
        assert(operands_within(ats.drop_first(), base, next.code().len() as int)) by {
            assert forall|i: int| 0 <= i < ats.drop_first().len() implies base
                <= #[trigger] ats.drop_first()[i] && ats.drop_first()[i] + 2
                <= next.code().len() by {
                assert(ats.drop_first()[i] == ats[i + 1]);
            }
        }
        lemma_patch_all(next, ats.drop_first(), target, base);
        lemma_continues_then(
            st,
            next,
            patch_all(next, ats.drop_first(), target),
            ats[0],
            0,
            base,
            0,
            base,
        );
    }
}

/// Registering a name adds at most that name to the current scope.
pub proof fn lemma_register(st: CompilerState, name: Seq<char>)
    requires
        well_scoped(st),
    ensures
        register(st, name) matches Ok(r) ==>
            well_scoped(r) && continues(st, r, st.code().len() as int, 0)
            && r.scopes == st.scopes && r.constants == st.constants,
{
    reveal(continues);
    if register(st, name) is Ok {
        let r = register(st, name)->Ok_0;
        assert(r.symbols.drop_last() =~= st.symbols.drop_last());
        if !st.symbols.last().contains(name) {
            assert(st.symbols.last() =~= r.symbols.last().subrange(
                0,
                st.symbols.last().len() as int,
            ));
        }
    }
}

/// Registering names adds at most those names to the current scope.
pub proof fn lemma_register_all(st: CompilerState, names: Seq<&str>, from: int)
    requires
        well_scoped(st),
    ensures
        register_all(st, names, from) matches Ok(r) ==> well_scoped(r) && continues(
            st,
            r,
            st.code().len() as int,
            0,
        ) && r.scopes == st.scopes && r.constants == st.constants,
    decreases names.len() - from,
{
    reveal(continues);
    if 0 <= from < names.len() {
        lemma_register(st, names[from]@);
        if register(st, names[from]@) is Ok {
            let next = register(st, names[from]@)->Ok_0;
            lemma_register_all(next, names, from + 1);
            if register_all(next, names, from + 1) is Ok {
                lemma_continues_then(
                    st,
                    next,
                    register_all(next, names, from + 1)->Ok_0,
                    st.code().len() as int,
                    0,
                    next.code().len() as int,
                    0,
                    st.code().len() as int,
                );
            }
        }
    }
}

/// Loading a name appends one instruction of three bytes.
pub proof fn lemma_compile_ident(st: CompilerState, name: Seq<char>)
    requires
        well_scoped(st),
    ensures
        compile_ident(st, name) matches Ok(r) ==>
            well_scoped(r) && continues(st, r, st.code().len() as int, 3)
            && r.constants == st.constants && r.symbols == st.symbols,
{
    reveal(continues);
    if compile_ident(st, name) is Ok {
        lemma_emit(st, load_bytes(resolve(st.symbols, name)->Some_0));
    }
}

/// Loading names appends one instruction of three bytes for each.
pub proof fn lemma_load_all(st: CompilerState, names: Seq<&str>, from: int)
    requires
        well_scoped(st),
        0 <= from <= names.len(),
    ensures
        load_all(st, names, from) matches Ok(r) ==> well_scoped(r) && continues(
            st,
            r,
            st.code().len() as int,
            (3 * (names.len() - from)) as nat,
        ),
    decreases names.len() - from,
{
    reveal(continues);
    if from < names.len() {
        lemma_compile_ident(st, names[from]@);
        if compile_ident(st, names[from]@) is Ok {
            let next = compile_ident(st, names[from]@)->Ok_0;
            lemma_load_all(next, names, from + 1);
            if load_all(next, names, from + 1) is Ok {
                lemma_continues_then(
                    st,
                    next,
                    load_all(next, names, from + 1)->Ok_0,
                    st.code().len() as int,
                    3,
                    next.code().len() as int,
                    (3 * (names.len() - from - 1)) as nat,
                    st.code().len() as int,
                );
            }
        }
    } else {
        lemma_continues_self(st);
    }
}

/// Storing into a name appends one instruction of three bytes.
pub proof fn lemma_compile_store(st: CompilerState, name: Seq<char>)
    requires
        well_scoped(st),
    ensures
        compile_store(st, name) matches Ok(r) ==>
            well_scoped(r) && continues(st, r, st.code().len() as int, 3),
{
    reveal(continues);
    if compile_store(st, name) is Ok {
        lemma_register(st, name);
        let next = register(st, name)->Ok_0;
        let bytes = store_bytes(
            find_in(next.symbols.last(), next.symbols.len() - 1, name)->Some_0,
        );
        lemma_emit(next, bytes);
        lemma_continues_then(
            st,
            next,
            emit(next, bytes)->Ok_0,
            st.code().len() as int,
            0,
            next.code().len() as int,
            3,
            st.code().len() as int,
        );
    }
}

/// Compiling an expression appends `code_size` bytes to the current scope
/// and changes nothing that was there.
pub proof fn lemma_compile_expr(st: CompilerState, node: ExprST)
    requires
        well_scoped(st),
    ensures
        compile_expr(st, node) matches Ok(r) ==> well_scoped(r) && continues(
            st,
            r,
            st.code().len() as int,
            code_size(node),
        ),
    decreases node, 2nat,
{
    if compile_expr(st, node) is Err {
        return ;
    }
    match node {
        ExprST::Null => {
            lemma_emit(st, crate::code::code::Null.encoding());
        },
        ExprST::True => {
            lemma_emit(st, crate::code::code::True.encoding());
        },
        ExprST::False => {
            lemma_emit(st, crate::code::code::False.encoding());
        },
        ExprST::Integer(value) => {
            lemma_emit_const(st, Value::Integer(value));
        },
        ExprST::Float(bits) => {
            lemma_emit_const(st, Value::Float(bits));
        },
        ExprST::String(value) => {
            lemma_emit_const(st, Value::Str(value@));
        },
        ExprST::Ident(name) => {
            lemma_compile_ident(st, name@);
        },
        ExprST::TupleLiteral(former) => {
            lemma_compile_former(
                st,
                former,
                crate::code::code::ToTuple::byte(),
                crate::code::code::ToTupleRn::byte(),
            );
        },
        ExprST::SetLiteral(former) => {
            lemma_compile_former(
                st,
                former,
                crate::code::code::ToSet::byte(),
                crate::code::code::ToSetRn::byte(),
            );
        },
        ExprST::Infix { .. } => {
            lemma_infix_layout(st, node);
        },
        ExprST::Prefix { .. } => {
            lemma_prefix_layout(st, node);
        },
        ExprST::Postfix { .. } => {
            lemma_postfix_layout(st, node);
        },
        ExprST::Ternary { .. } => {
            lemma_ternary_size(st, node);
        },
        ExprST::Switch { .. } => {
            lemma_switch_layout(st, node);
        },
        ExprST::Assign { .. } => {
            lemma_assign_layout(st, node);
        },
        ExprST::Function { .. } => {
            lemma_function_layout(st, node);
        },
        ExprST::Return(value) => {
            lemma_return_layout(st, node);
        },
        _ => {},
    }
}

/// A ternary: the code of the condition and of the two branches, and two
/// jumps.
pub proof fn lemma_ternary_size(st: CompilerState, node: ExprST)
    requires
        well_scoped(st),
        node is Ternary,
    ensures
        compile_expr(st, node) matches Ok(r) ==> well_scoped(r) && continues(
            st,
            r,
            st.code().len() as int,
            code_size(node),
        ),
    decreases node, 1nat,
{
    if let ExprST::Ternary { condition, consequence, alternative } = node {
        assert(node == (ExprST::Ternary {
            condition: Box::new(*condition),
            consequence: Box::new(*consequence),
            alternative: Box::new(*alternative),
        }));
        lemma_ternary_layout(st, *condition, *consequence, *alternative);
    }
}

/// A binary operation: the code of its operands, then its instruction.
pub proof fn lemma_infix_layout(st: CompilerState, node: ExprST)
    requires
        well_scoped(st),
        node is Infix,
    ensures
        compile_expr(st, node) matches Ok(r) ==> well_scoped(r) && continues(
            st,
            r,
            st.code().len() as int,
            code_size(node),
        ),
    decreases node, 1nat,
{
    let base = st.code().len() as int;
    if let ExprST::Infix { op, left, right } = node {
        if compile_expr(st, node) is Ok {
            let (first, second) = if super::model::swaps_operands(op) {
                (right, left)
            } else {
                (left, right)
            };
            lemma_compile_expr(st, *first);
            let s1 = compile_expr(st, *first)->Ok_0;
            lemma_compile_expr(s1, *second);
            let s2 = compile_expr(s1, *second)->Ok_0;
            lemma_emit(s2, seq![super::model::binop_byte(op)]);
            let s3 = emit(s2, seq![super::model::binop_byte(op)])->Ok_0;
            lemma_continues_next(st, s1, s2, base, code_size(*first), code_size(*second));
            lemma_continues_next(st, s2, s3, base, code_size(*first) + code_size(*second), 1);
        }
    }
}

/// A prefix operation: a constant where a number literal is negated, else
/// the code of the operand and the operator's instruction.
pub proof fn lemma_prefix_layout(st: CompilerState, node: ExprST)
    requires
        well_scoped(st),
        node is Prefix,
    ensures
        compile_expr(st, node) matches Ok(r) ==> well_scoped(r) && continues(
            st,
            r,
            st.code().len() as int,
            code_size(node),
        ),
    decreases node, 1nat,
{
    let base = st.code().len() as int;
    if let ExprST::Prefix { op, right } = node {
        if compile_expr(st, node) is Ok {
            match (op, *right) {
                (PreOp::Negate, ExprST::Integer(value)) => {
                    lemma_emit_const(
                        st,
                        Value::Integer(
                            if value == i64::MIN {
                                value
                            } else {
                                (-value) as i64
                            },
                        ),
                    );
                },
                (PreOp::Negate, ExprST::Float(bits)) => {
                    lemma_emit_const(st, Value::Float(crate::object::value::float_negate(bits)));
                },
                _ => {
                    lemma_compile_expr(st, *right);
                    let s1 = compile_expr(st, *right)->Ok_0;
                    lemma_emit(s1, preop_bytes(op));
                    lemma_continues_next(
                        st,
                        s1,
                        emit(s1, preop_bytes(op))->Ok_0,
                        base,
                        code_size(*right),
                        preop_size(op),
                    );
                },
            }
        }
    }
}

/// A selection: the code of what is selected from, the code of the index or
/// of the arguments, and the instruction.
pub proof fn lemma_postfix_layout(st: CompilerState, node: ExprST)
    requires
        well_scoped(st),
        node is Postfix,
    ensures
        compile_expr(st, node) matches Ok(r) ==> well_scoped(r) && continues(
            st,
            r,
            st.code().len() as int,
            code_size(node),
        ),
    decreases node, 1nat,
{
    let base = st.code().len() as int;
    if let ExprST::Postfix { left, selector } = node {
        if compile_expr(st, node) is Ok {
            lemma_compile_expr(st, *left);
            let s1 = compile_expr(st, *left)->Ok_0;
            match selector {
                Selector::Index(index) => {
                    lemma_compile_expr(s1, *index);
                    let s2 = compile_expr(s1, *index)->Ok_0;
                    lemma_emit(s2, crate::code::code::Index.encoding());
                    let s3 = emit(s2, crate::code::code::Index.encoding())->Ok_0;
                    lemma_continues_next(st, s1, s2, base, code_size(*left), code_size(*index));
                    lemma_continues_next(
                        st,
                        s2,
                        s3,
                        base,
                        code_size(*left) + code_size(*index),
                        1,
                    );
                },
                Selector::Call(args) => {
                    lemma_compile_list(s1, args@, 0, false);
                    let s2 = compile_list(s1, args@, 0, false)->Ok_0;
                    let bytes = crate::code::code::Call.encoding(args@.len() as u16);
                    lemma_emit(s2, bytes);
                    let s3 = emit(s2, bytes)->Ok_0;
                    lemma_continues_next(
                        st,
                        s1,
                        s2,
                        base,
                        code_size(*left),
                        list_size(args@, 0, false),
                    );
                    lemma_continues_next(
                        st,
                        s2,
                        s3,
                        base,
                        code_size(*left) + list_size(args@, 0, false),
                        3,
                    );
                },
                _ => {},
            }
        }
    }
}

/// A switch: with a subject, the subject's code, `PushMatch`, the cases and
/// `PopMatch`; without, the cases alone.
pub proof fn lemma_switch_layout(st: CompilerState, node: ExprST)
    requires
        well_scoped(st),
        node is Switch,
    ensures
        compile_expr(st, node) matches Ok(r) ==> well_scoped(r) && continues(
            st,
            r,
            st.code().len() as int,
            code_size(node),
        ),
    decreases node, 1nat,
{
    let base = st.code().len() as int;
    if let ExprST::Switch { input, cases } = node {
        if compile_expr(st, node) is Ok {
            match input {
                Some(subject) => {
                    lemma_compile_expr(st, *subject);
                    let s1 = compile_expr(st, *subject)->Ok_0;
                    lemma_emit(s1, crate::code::code::PushMatch.encoding());
                    let s2 = emit(s1, crate::code::code::PushMatch.encoding())->Ok_0;
                    lemma_compile_cases(
                        s2,
                        cases@,
                        0,
                        crate::code::code::JumpNotMatch::byte(),
                        None,
                        Seq::empty(),
                        s2.code().len() as int,
                    );
                    let s3 = compile_cases(
                        s2,
                        cases@,
                        0,
                        crate::code::code::JumpNotMatch::byte(),
                        None,
                        Seq::empty(),
                    )->Ok_0;
                    lemma_emit(s3, crate::code::code::PopMatch.encoding());
                    let s4 = emit(s3, crate::code::code::PopMatch.encoding())->Ok_0;
                    lemma_continues_next(st, s1, s2, base, code_size(*subject), 1);
                    lemma_continues_next(
                        st,
                        s2,
                        s3,
                        base,
                        code_size(*subject) + 1,
                        cases_size(cases@, 0),
                    );
                    lemma_continues_next(
                        st,
                        s3,
                        s4,
                        base,
                        code_size(*subject) + 1 + cases_size(cases@, 0),
                        1,
                    );
                },
                None => {
                    lemma_compile_cases(
                        st,
                        cases@,
                        0,
                        crate::code::code::JumpNotTrue::byte(),
                        None,
                        Seq::empty(),
                        base,
                    );
                },
            }
        }
    }
}

/// An assignment: the code of the value, then the store.
pub proof fn lemma_assign_layout(st: CompilerState, node: ExprST)
    requires
        well_scoped(st),
        node is Assign,
    ensures
        compile_expr(st, node) matches Ok(r) ==> well_scoped(r) && continues(
            st,
            r,
            st.code().len() as int,
            code_size(node),
        ),
    decreases node, 1nat,
{
    let base = st.code().len() as int;
    if let ExprST::Assign { left, right } = node {
        if compile_expr(st, node) is Ok {
            lemma_compile_expr(st, *right);
            let s1 = compile_expr(st, *right)->Ok_0;
            match left {
                LHS::Ident { target, selectors } => {
                    lemma_compile_store(s1, target@);
                    lemma_continues_next(
                        st,
                        s1,
                        compile_store(s1, target@)->Ok_0,
                        base,
                        code_size(*right),
                        3,
                    );
                },
                _ => {},
            }
        }
    }
}

/// A return: the code of the value, then `Return`.
pub proof fn lemma_return_layout(st: CompilerState, node: ExprST)
    requires
        well_scoped(st),
        node is Return,
    ensures
        compile_expr(st, node) matches Ok(r) ==> well_scoped(r) && continues(
            st,
            r,
            st.code().len() as int,
            code_size(node),
        ),
    decreases node, 1nat,
{
    let base = st.code().len() as int;
    if let ExprST::Return(value) = node {
        if compile_expr(st, node) is Ok {
            lemma_compile_expr(st, *value);
            let s1 = compile_expr(st, *value)->Ok_0;
            lemma_emit(s1, crate::code::code::Return.encoding());
            lemma_continues_next(
                st,
                s1,
                emit(s1, crate::code::code::Return.encoding())->Ok_0,
                base,
                code_size(*value),
                1,
            );
        }
    }
}

/// The states that compiling a ternary goes through. `s5` is the state
/// before the two jumps are patched.
pub struct TernaryStates {
    pub s1: CompilerState,
    pub s2: CompilerState,
    pub s3: CompilerState,
    pub s4: CompilerState,
    pub s5: CompilerState,
}

/// The states that compiling a ternary goes through, where it succeeds.
pub open spec fn ternary_states(
    st: CompilerState,
    condition: ExprST,
    consequence: ExprST,
    alternative: ExprST,
) -> TernaryStates {
    let s1 = compile_expr(st, condition)->Ok_0;
    let s2 = emit(s1, crate::code::code::JumpNotTrue.encoding(PLACEHOLDER))->Ok_0;
    let s3 = compile_expr(s2, consequence)->Ok_0;
    let s4 = emit(s3, crate::code::code::Jump.encoding(PLACEHOLDER))->Ok_0;
    let s5 = compile_expr(s4, alternative)->Ok_0;
    TernaryStates { s1, s2, s3, s4, s5 }
}

/// The layout of a compiled ternary: the condition's code, a `JumpNotTrue`
/// to the start of the second branch, the first branch's code, a `Jump` to
/// the end of the whole, and the second branch's code. Both branches end
/// at the same address: the first by its jump, the second by running out.
pub proof fn lemma_ternary_layout(
    st: CompilerState,
    condition: ExprST,
    consequence: ExprST,
    alternative: ExprST,
)
    requires
        well_scoped(st),
    ensures
        ({
            let node = ExprST::Ternary {
                condition: Box::new(condition),
                consequence: Box::new(consequence),
                alternative: Box::new(alternative),
            };
            compile_expr(st, node) matches Ok(r) ==> {
                let states = ternary_states(st, condition, consequence, alternative);
                let test = (st.code().len() + code_size(condition)) as int;
                let jump = test + 3 + code_size(consequence);
                let end = jump + 3 + code_size(alternative);
                &&& well_scoped(r)
                &&& continues(st, r, st.code().len() as int, code_size(node))
                &&& r.code().len() == end
                &&& r.constants == states.s5.constants
                &&& r.symbols == states.s5.symbols
                &&& r.code().subrange(test, test + 3)
                    == crate::code::code::JumpNotTrue.encoding((jump + 3) as u16)
                &&& r.code().subrange(jump, jump + 3) == crate::code::code::Jump.encoding(
                    end as u16,
                )
                &&& forall|i: int|
                    0 <= i < end && !(test < i < test + 3) && !(jump < i < jump + 3)
                        ==> #[trigger] r.code()[i] == states.s5.code()[i]
                &&& continues(st, states.s1, st.code().len() as int, code_size(condition))
                &&& continues(states.s2, states.s3, test + 3, code_size(consequence))
                &&& continues(states.s4, states.s5, jump + 3, code_size(alternative))
            }
        }),
    decreases
        (ExprST::Ternary {
            condition: Box::new(condition),
            consequence: Box::new(consequence),
            alternative: Box::new(alternative),
        }),
        0nat,
{
    reveal(continues);
    let node = ExprST::Ternary {
        condition: Box::new(condition),
        consequence: Box::new(consequence),
        alternative: Box::new(alternative),
    };
    if compile_expr(st, node) is Ok {
        let base = st.code().len() as int;
        let states = ternary_states(st, condition, consequence, alternative);
        let s1 = states.s1;
        let s2 = states.s2;
        let s3 = states.s3;
        let s4 = states.s4;
        let s5 = states.s5;
        let jnt_bytes = crate::code::code::JumpNotTrue.encoding(PLACEHOLDER);
        let jump_bytes = crate::code::code::Jump.encoding(PLACEHOLDER);
        lemma_compile_expr(st, condition);
        lemma_emit(s1, jnt_bytes);
        lemma_compile_expr(s2, consequence);
        lemma_emit(s3, jump_bytes);
        lemma_compile_expr(s4, alternative);
        let test = s1.code().len() as int;
        let jump = s3.code().len() as int;
        let end = s5.code().len() as int;
        let p1 = patch(s5, test + 1, s4.code().len() as int);
        lemma_patch(s5, test + 1, s4.code().len() as int);
        let r = patch(p1, jump + 1, end);
        lemma_patch(p1, jump + 1, end);
        assert(compile_expr(st, node) == Ok::<CompilerState, CompileError>(r));
        lemma_continues_then(st, s1, s2, base, code_size(condition), test, 3, base);
        lemma_continues_then(
            st,
            s2,
            s3,
            base,
            code_size(condition) + 3,
            test + 3,
            code_size(consequence),
            base,
        );
        lemma_continues_then(
            st,
            s3,
            s4,
            base,
            code_size(condition) + 3 + code_size(consequence),
            jump,
            3,
            base,
        );
        lemma_continues_then(
            st,
            s4,
            s5,
            base,
            code_size(condition) + 3 + code_size(consequence) + 3,
            jump + 3,
            code_size(alternative),
            base,
        );
        lemma_continues_then(st, s5, p1, base, code_size(node), test + 1, 0, base);
        lemma_continues_then(st, p1, r, base, code_size(node), jump + 1, 0, base);
        // the opcode bytes of the two jumps are still where they were emitted
        assert(s2.code()[test] == jnt_bytes[0]);
        assert(s3.code().take(test + 3) == s2.code().take(test + 3));
        assert(s3.code()[test] == s3.code().take(test + 3)[test]);
        assert(s4.code()[test] == s3.code()[test]);
        assert(s4.code()[jump] == jump_bytes[0]);
        assert(s5.code().take(jump + 3) == s4.code().take(jump + 3));
        assert(s5.code()[test] == s5.code().take(jump + 3)[test]);
        assert(s5.code()[jump] == s5.code().take(jump + 3)[jump]);
        assert(r.code().subrange(test, test + 3) =~= crate::code::code::JumpNotTrue.encoding(
            (jump + 3) as u16,
        ));
        assert(r.code().subrange(jump, jump + 3) =~= crate::code::code::Jump.encoding(end as u16));
    }
}

/// The layout of a compiled function: in the enclosing scope the instruction
/// that pushes the function constant, one load for each locked parameter, and
/// `ToFn`.
pub proof fn lemma_function_layout(st: CompilerState, node: ExprST)
    requires
        well_scoped(st),
        node is Function,
    ensures
        compile_expr(st, node) matches Ok(r) ==> well_scoped(r) && continues(
            st,
            r,
            st.code().len() as int,
            code_size(node),
        ),
    decreases node, 1nat,
{
    reveal(continues);
    if let ExprST::Function { req_params, opt_params, locked_params, body, null_return } = node {
        if compile_expr(st, node) is Ok {
            let entered = enter(st);
            let base = st.code().len() as int;
            assert(entered.scopes.drop_last() =~= st.scopes);
            assert(entered.symbols.drop_last() =~= st.symbols);
            lemma_register_all(entered, req_params@, 0);
            let s1 = register_all(entered, req_params@, 0)->Ok_0;
            lemma_register_all(s1, opt_params@, 0);
            let s2 = register_all(s1, opt_params@, 0)->Ok_0;
            lemma_register_all(s2, locked_params@, 0);
            let s3 = register_all(s2, locked_params@, 0)->Ok_0;
            lemma_compile_body(s3, body@, 0, null_return);
            let s4 = compile_body(s3, body@, 0, null_return)->Ok_0;
            lemma_emit(s4, crate::code::code::Return.encoding());
            let s5 = emit(s4, crate::code::code::Return.encoding())->Ok_0;
            let left = leave(s5);
            assert(left.scopes == st.scopes);
            assert(left.symbols == st.symbols);
            assert(st.constants.is_prefix_of(left.constants)) by {
                assert(st.constants =~= s1.constants);
                assert(st.constants.is_prefix_of(s4.constants));
            }
            assert(continues(st, left, base, 0)) by {
                assert(left.code().take(base) =~= st.code().take(base));
            }
            let params = req_params@.len() + opt_params@.len() + locked_params@.len();
            let constant = Value::Function {
                code: s5.code(),
                locals: (s5.symbols.last().len() - params) as nat,
                required: req_params@.len() as u16,
                optional: opt_params@.len() as u16,
                captured: Seq::empty(),
            };
            lemma_emit_const(left, constant);
            let s6 = emit_const(left, constant)->Ok_0;
            lemma_load_all(s6, locked_params@, 0);
            lemma_continues_next(st, left, s6, base, 0, 3);
            let s7 = load_all(s6, locked_params@, 0)->Ok_0;
            let bytes = crate::code::code::ToFn.encoding(locked_params@.len() as u16);
            lemma_emit(s7, bytes);
            lemma_continues_next(st, s6, s7, base, 3, (3 * locked_params@.len()) as nat);
            lemma_continues_next(
                st,
                s7,
                emit(s7, bytes)->Ok_0,
                base,
                3 + 3 * locked_params@.len(),
                3,
            );
        }
    }
}

/// Compiling a list appends `list_size` bytes and changes nothing that was
/// there.
pub proof fn lemma_compile_list(st: CompilerState, exprs: Seq<ExprST>, from: int, with_pop: bool)
    requires
        well_scoped(st),
    ensures
        compile_list(st, exprs, from, with_pop) matches Ok(r) ==> well_scoped(r) && continues(
            st,
            r,
            st.code().len() as int,
            list_size(exprs, from, with_pop),
        ),
    decreases exprs, exprs.len() - from,
{
    let base = st.code().len() as int;
    if from < 0 || from >= exprs.len() {
        lemma_continues_self(st);
    } else if compile_list(st, exprs, from, with_pop) is Ok {
        lemma_compile_expr(st, exprs[from]);
        let s1 = compile_expr(st, exprs[from])->Ok_0;
        if with_pop {
            lemma_emit(s1, crate::code::code::Pop.encoding());
            let s2 = emit(s1, crate::code::code::Pop.encoding())->Ok_0;
            lemma_compile_list(s2, exprs, from + 1, with_pop);
            lemma_continues_next(st, s1, s2, base, code_size(exprs[from]), 1);
            lemma_continues_next(
                st,
                s2,
                compile_list(s2, exprs, from + 1, with_pop)->Ok_0,
                base,
                code_size(exprs[from]) + 1,
                list_size(exprs, from + 1, with_pop),
            );
        } else {
            lemma_compile_list(s1, exprs, from + 1, with_pop);
            lemma_continues_next(
                st,
                s1,
                compile_list(s1, exprs, from + 1, with_pop)->Ok_0,
                base,
                code_size(exprs[from]),
                list_size(exprs, from + 1, with_pop),
            );
        }
    }
}

/// Compiling a body appends `body_size` bytes and changes nothing that was
/// there.
pub proof fn lemma_compile_body(
    st: CompilerState,
    exprs: Seq<ExprST>,
    from: int,
    null_return: bool,
)
    requires
        well_scoped(st),
    ensures
        compile_body(st, exprs, from, null_return) matches Ok(r) ==> well_scoped(r) && continues(
            st,
            r,
            st.code().len() as int,
            body_size(exprs, from, null_return),
        ),
    decreases exprs, exprs.len() - from,
{
    let base = st.code().len() as int;
    if from < 0 || from >= exprs.len() {
        if exprs.len() == 0 || null_return {
            lemma_emit(st, crate::code::code::Null.encoding());
        } else {
            lemma_continues_self(st);
        }
    } else if compile_body(st, exprs, from, null_return) is Ok {
        lemma_compile_expr(st, exprs[from]);
        let s1 = compile_expr(st, exprs[from])->Ok_0;
        if from + 1 < exprs.len() || null_return {
            lemma_emit(s1, crate::code::code::Pop.encoding());
            let s2 = emit(s1, crate::code::code::Pop.encoding())->Ok_0;
            lemma_compile_body(s2, exprs, from + 1, null_return);
            lemma_continues_next(st, s1, s2, base, code_size(exprs[from]), 1);
            lemma_continues_next(
                st,
                s2,
                compile_body(s2, exprs, from + 1, null_return)->Ok_0,
                base,
                code_size(exprs[from]) + 1,
                body_size(exprs, from + 1, null_return),
            );
        } else {
            lemma_compile_body(s1, exprs, from + 1, null_return);
            lemma_continues_next(
                st,
                s1,
                compile_body(s1, exprs, from + 1, null_return)->Ok_0,
                base,
                code_size(exprs[from]),
                body_size(exprs, from + 1, null_return),
            );
        }
    }
}

/// Compiling a former appends `former_size` bytes and changes nothing that
/// was there.
pub proof fn lemma_compile_former(
    st: CompilerState,
    former: Former,
    literal_byte: u8,
    range_byte: u8,
)
    requires
        well_scoped(st),
    ensures
        compile_former(st, former, literal_byte, range_byte) matches Ok(r) ==> well_scoped(r)
            && continues(st, r, st.code().len() as int, former_size(former)),
    decreases former, 1nat,
{
    let base = st.code().len() as int;
    if compile_former(st, former, literal_byte, range_byte) is Err {
        return ;
    }
    match former {
        Former::Literal(exprs) => {
            lemma_compile_list(st, exprs@, 0, false);
            let s1 = compile_list(st, exprs@, 0, false)->Ok_0;
            let bytes = seq![literal_byte] + be16(exprs@.len() as u16);
            lemma_emit(s1, bytes);
            lemma_continues_next(
                st,
                s1,
                emit(s1, bytes)->Ok_0,
                base,
                list_size(exprs@, 0, false),
                3,
            );
        },
        Former::Range { .. } => {
            lemma_range_layout(st, former, range_byte);
        },
        Former::Iterator { .. } => {},
    }
}

/// A range former: the code of the second element, if there is one, of the
/// end and of the start, and the instruction that builds the range.
pub proof fn lemma_range_layout(st: CompilerState, former: Former, range_byte: u8)
    requires
        well_scoped(st),
        former is Range,
    ensures
        forall|literal_byte: u8| #[trigger]
            compile_former(st, former, literal_byte, range_byte) matches Ok(r) ==> well_scoped(r)
                && continues(st, r, st.code().len() as int, former_size(former)),
    decreases former, 0nat,
{
    let base = st.code().len() as int;
    if let Former::Range { range_start, range_step, range_end } = former {
        let after_step = match range_step {
            Some(step) => compile_expr(st, *step),
            None => Ok(st),
        };
        let step_size: nat = match range_step {
            Some(step) => code_size(*step),
            None => 0,
        };
        match range_step {
            Some(step) => {
                lemma_compile_expr(st, *step);
            },
            None => {
                lemma_continues_self(st);
            },
        }
        if after_step is Ok {
            let s1 = after_step->Ok_0;
            lemma_compile_expr(s1, *range_end);
            if compile_expr(s1, *range_end) is Ok {
                let s2 = compile_expr(s1, *range_end)->Ok_0;
                lemma_compile_expr(s2, *range_start);
                if compile_expr(s2, *range_start) is Ok {
                    let s3 = compile_expr(s2, *range_start)->Ok_0;
                    let bytes = seq![range_byte] + be16(
                        if range_step is None {
                            2u16
                        } else {
                            3u16
                        },
                    );
                    lemma_emit(s3, bytes);
                    lemma_continues_next(st, s1, s2, base, step_size, code_size(*range_end));
                    lemma_continues_next(
                        st,
                        s2,
                        s3,
                        base,
                        step_size + code_size(*range_end),
                        code_size(*range_start),
                    );
                    if emit(s3, bytes) is Ok {
                        lemma_continues_next(
                            st,
                            s3,
                            emit(s3, bytes)->Ok_0,
                            base,
                            step_size + code_size(*range_end) + code_size(*range_start),
                            3,
                        );
                    }
                }
            }
        }
    }
}

/// Compiling the cases of a switch appends `cases_size` bytes and changes
/// nothing before `base`, the position behind which the jumps lie that are
/// still to be patched.
pub proof fn lemma_compile_cases(
    st: CompilerState,
    cases: Seq<Case>,
    from: int,
    jump_byte: u8,
    pending: Option<int>,
    exits: Seq<int>,
    base: int,
)
    requires
        well_scoped(st),
        0 <= base <= st.code().len(),
        pending matches Some(at) ==> base <= at && at + 2 <= st.code().len(),
        operands_within(exits, base, st.code().len() as int),
    ensures
        compile_cases(st, cases, from, jump_byte, pending, exits) matches Ok(r) ==> well_scoped(r) && continues(
            st,
            r,
            base,
            cases_size(cases, from),
        ),
    decreases cases, cases.len() - from,
{
    reveal(continues);
    if compile_cases(st, cases, from, jump_byte, pending, exits) is Err {
        return ;
    }
    let s0 = patch_pending(st, pending);
    match pending {
        Some(at) => {
            lemma_patch(st, at, st.code().len() as int);
            assert(s0.code().take(base) =~= s0.code().take(at).take(base));
            assert(st.code().take(base) =~= st.code().take(at).take(base));
        },
        None => {
            lemma_continues_self(st);
            assert(st.code().take(base) =~= st.code().take(st.code().len() as int).take(base));
        },
    }
    assert(continues(st, s0, base, 0));
    if from < 0 || from >= cases.len() {
        lemma_emit(s0, crate::code::code::Null.encoding());
        let s1 = emit(s0, crate::code::code::Null.encoding())->Ok_0;
        assert(operands_within(exits, base, s1.code().len() as int));
        lemma_patch_all(s1, exits, s1.code().len() as int, base);
        lemma_continues_next(st, s0, s1, base, 0, 1);
        lemma_continues_then(
            st,
            s1,
            patch_all(s1, exits, s1.code().len() as int),
            base,
            1,
            base,
            0,
            base,
        );
    } else {
        let body = cases[from].consequence@;
        let null_return = cases[from].null_return;
        match cases[from].condition {
            Some(condition) => {
                lemma_compile_expr(s0, *condition);
                let s1 = compile_expr(s0, *condition)->Ok_0;
                let test_bytes = seq![jump_byte] + be16(PLACEHOLDER);
                lemma_emit(s1, test_bytes);
                let s2 = emit(s1, test_bytes)->Ok_0;
                lemma_compile_body(s2, body, 0, null_return);
                let s3 = compile_body(s2, body, 0, null_return)->Ok_0;
                lemma_emit(s3, crate::code::code::Jump.encoding(PLACEHOLDER));
                let s4 = emit(s3, crate::code::code::Jump.encoding(PLACEHOLDER))->Ok_0;
                let next_exits = exits.push(s3.code().len() as int + 1);
                assert(operands_within(next_exits, base, s4.code().len() as int)) by {
                    assert forall|i: int| 0 <= i < next_exits.len() implies base
                        <= #[trigger] next_exits[i] && next_exits[i] + 2 <= s4.code().len() by {
                        if i < exits.len() {
                            assert(next_exits[i] == exits[i]);
                        }
                    }
                }
                lemma_compile_cases(
                    s4,
                    cases,
                    from + 1,
                    jump_byte,
                    Some(s1.code().len() as int + 1),
                    next_exits,
                    base,
                );
                let r = compile_cases(
                    s4,
                    cases,
                    from + 1,
                    jump_byte,
                    Some(s1.code().len() as int + 1),
                    next_exits,
                )->Ok_0;
                lemma_continues_next(st, s0, s1, base, 0, code_size(*condition));
                lemma_continues_next(st, s1, s2, base, code_size(*condition), 3);
                lemma_continues_next(
                    st,
                    s2,
                    s3,
                    base,
                    code_size(*condition) + 3,
                    body_size(body, 0, null_return),
                );
                lemma_continues_next(
                    st,
                    s3,
                    s4,
                    base,
                    code_size(*condition) + 3 + body_size(body, 0, null_return),
                    3,
                );
                lemma_continues_then(
                    st,
                    s4,
                    r,
                    base,
                    code_size(*condition) + 3 + body_size(body, 0, null_return) + 3,
                    base,
                    cases_size(cases, from + 1),
                    base,
                );
            },
            None => {
                lemma_compile_body(s0, body, 0, null_return);
                let s1 = compile_body(s0, body, 0, null_return)->Ok_0;
                assert(operands_within(exits, base, s1.code().len() as int));
                lemma_patch_all(s1, exits, s1.code().len() as int, base);
                lemma_continues_next(st, s0, s1, base, 0, body_size(body, 0, null_return));
                lemma_continues_then(
                    st,
                    s1,
                    patch_all(s1, exits, s1.code().len() as int),
                    base,
                    body_size(body, 0, null_return),
                    base,
                    0,
                    base,
                );
            },
        }
    }
}

/// A statement compiled twice takes twice the bytes of the statement
/// compiled once.
pub proof fn lemma_statement_twice(st: CompilerState, node: ExprST)
    requires
        well_scoped(st),
        compile_list(st, seq![node], 0, true) is Ok,
        compile_list(st, seq![node, node], 0, true) is Ok,
    ensures
        compile_list(st, seq![node, node], 0, true)->Ok_0.code().len() - st.code().len() == 2 * (
        compile_list(st, seq![node], 0, true)->Ok_0.code().len() - st.code().len()),
{
    reveal(continues);
    lemma_compile_list(st, seq![node], 0, true);
    lemma_compile_list(st, seq![node, node], 0, true);
    let once = seq![node];
    let twice = seq![node, node];
    assert(list_size(once, 0, true) == code_size(node) + 1) by {
        reveal_with_fuel(list_size, 3);
    }
    assert(list_size(twice, 0, true) == 2 * (code_size(node) + 1)) by {
        reveal_with_fuel(list_size, 4);
    }
}

} // verus!
