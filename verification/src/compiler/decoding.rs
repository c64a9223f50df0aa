//! Compiled code is made of whole instructions: every opcode is followed by
//! as many operand bytes as it takes, and nothing stands between the
//! instructions.

use super::compiler::initial_state;
use super::layout::{
    body_size, cases_size, code_size, continues, lemma_compile_body, lemma_compile_cases,
    lemma_compile_expr, lemma_compile_ident, lemma_compile_list, lemma_compile_store,
    lemma_continues_next, lemma_continues_self, lemma_emit, lemma_emit_const, lemma_load_all,
    lemma_register, lemma_register_all, list_size, preop_size, well_scoped,
};
use super::model::{
    binop_byte, compile_body, compile_cases, compile_expr, compile_former, compile_ident,
    compile_list, compile_store, emit, emit_const, enter, leave, load_all, load_bytes, patch,
    patch_all, patch_pending, preop_bytes, register, register_all, store_bytes, swaps_operands,
    CompilerState, PLACEHOLDER,
};
use super::symbols::{find_in, resolve, Scope};
use crate::buffer::be16;
use crate::code::code::{
    is_opcode, takes_operand, Call, Const, DynVar, False, GetGVar, GetLVar, Index, Jump,
    JumpNotMatch, JumpNotTrue, Negate, Not, Null, OpCode, OpCodeMake, OpCodeMakeWithU16, Pop,
    PopMatch, PushMatch, Return, SetGVar, SetLVar, Size, ToFn, ToSet, ToSetRn, ToTuple, ToTupleRn,
    True,
};
use crate::code::debug::{instruction_at, instruction_len, instructions_from, Instruction};
use crate::object::value::Value;
use crate::parser::ast::{Case, ExprST, Former, PreOp, Selector, LHS};
use vstd::prelude::*;

verus! {

/// Whether the bytes from `from` up to `to` are whole instructions, one
/// behind the other.
pub open spec fn whole(code: Seq<u8>, from: int, to: int) -> bool
    decreases to - from,
{
    if from >= to {
        from == to
    } else {
        match instruction_at(code, from) {
            Some(instruction) => from + instruction_len(instruction) <= to && whole(
                code,
                from + instruction_len(instruction),
                to,
            ),
            None => false,
        }
    }
}

/// Whether an instruction with an operand starts at `at`, the instructions
/// from `base` on being whole up to there.
pub open spec fn wide_at(code: Seq<u8>, base: int, at: int) -> bool {
    &&& 0 <= base <= at
    &&& at + 3 <= code.len()
    &&& whole(code, base, at)
    &&& is_opcode(code[at])
    &&& takes_operand(code[at])
}

/// Whole instructions up to a position and whole instructions from there on
/// are whole instructions.
pub proof fn lemma_whole_join(code: Seq<u8>, a: int, b: int, c: int)
    requires
        0 <= a,
        whole(code, a, b),
        whole(code, b, c),
    ensures
        whole(code, a, c),
    decreases b - a,
{
    if a < b {
        let instruction = instruction_at(code, a)->Some_0;
        lemma_whole_join(code, a + instruction_len(instruction), b, c);
        lemma_whole_ordered(code, b, c);
    }
}

/// Whole instructions end where they begin or behind.
pub proof fn lemma_whole_ordered(code: Seq<u8>, a: int, b: int)
    requires
        whole(code, a, b),
    ensures
        a <= b,
{
}

/// Two ways of cutting the same bytes into whole instructions cut at the
/// same places: if the instructions are whole up to `q` and up to `b`, they
/// are whole from `q` to `b`.
pub proof fn lemma_whole_split(code: Seq<u8>, a: int, q: int, b: int)
    requires
        0 <= a,
        whole(code, a, b),
        whole(code, a, q),
        q <= b,
    ensures
        whole(code, q, b),
    decreases b - a,
{
    if a < q {
        let instruction = instruction_at(code, a)->Some_0;
        lemma_whole_split(code, a + instruction_len(instruction), q, b);
    }
}

/// Whether instructions are whole depends on their bytes alone.
pub proof fn lemma_whole_agree(first: Seq<u8>, second: Seq<u8>, a: int, b: int)
    requires
        0 <= a,
        whole(first, a, b),
        b <= first.len(),
        b <= second.len(),
        forall|i: int| a <= i < b ==> first[i] == second[i],
    ensures
        whole(second, a, b),
    decreases b - a,
{
    if a < b {
        let instruction = instruction_at(first, a)->Some_0;
        let next = a + instruction_len(instruction);
        lemma_whole_ordered(first, next, b);
        assert(instruction_at(second, a) == Some(instruction));
        lemma_whole_agree(first, second, next, b);
    }
}

/// An instruction starts nowhere inside another: behind the start of an
/// instruction with an operand the next start is three bytes on.
pub proof fn lemma_starts_apart(code: Seq<u8>, base: int, q: int, b: int)
    requires
        0 <= base,
        whole(code, base, q),
        whole(code, base, b),
        q < b,
        is_opcode(code[q]),
        takes_operand(code[q]),
    ensures
        q + 3 <= b,
        whole(code, q + 3, b),
{
    lemma_whole_ordered(code, base, q);
    lemma_whole_split(code, base, q, b);
    let instruction = instruction_at(code, q)->Some_0;
    lemma_whole_ordered(code, q + instruction_len(instruction), b);
}

/// Overwriting an operand leaves whole instructions whole.
pub proof fn lemma_whole_patch(code: Seq<u8>, base: int, b: int, q: int, hi: u8, lo: u8)
    requires
        0 <= base,
        whole(code, base, b),
        b <= code.len(),
        wide_at(code, base, q),
    ensures
        whole(code.update(q + 1, hi).update(q + 2, lo), base, b),
{
    let patched = code.update(q + 1, hi).update(q + 2, lo);
    lemma_whole_ordered(code, base, b);
    if q >= b {
        lemma_whole_agree(code, patched, base, b);
    } else {
        lemma_starts_apart(code, base, q, b);
        lemma_whole_agree(code, patched, base, q);
        lemma_whole_agree(code, patched, q + 3, b);
        assert(instruction_at(patched, q) is Some);
        assert(instruction_len(instruction_at(patched, q)->Some_0) == 3);
        assert(whole(patched, q, b));
        lemma_whole_join(patched, base, q, b);
    }
}

/// Overwriting an operand leaves the instructions with operands where they
/// are.
pub proof fn lemma_wide_patch(code: Seq<u8>, base: int, at: int, q: int, hi: u8, lo: u8)
    requires
        wide_at(code, base, at),
        wide_at(code, base, q),
    ensures
        wide_at(code.update(q + 1, hi).update(q + 2, lo), base, at),
{
    let patched = code.update(q + 1, hi).update(q + 2, lo);
    lemma_whole_ordered(code, base, at);
    lemma_whole_patch(code, base, at, q, hi, lo);
    if q < at {
        lemma_starts_apart(code, base, q, at);
    } else if at < q {
        assert(patched[at] == code[at]);
    }
}

/// Whether an instruction with an operand starts right before each of the
/// positions.
pub open spec fn operands_of_jumps(code: Seq<u8>, base: int, ats: Seq<int>) -> bool {
    forall|i: int| 0 <= i < ats.len() ==> wide_at(code, base, #[trigger] ats[i] - 1)
}

/// Patching a jump leaves whole instructions whole, and the instructions with
/// operands where they are.
pub proof fn lemma_patch_whole(st: CompilerState, base: int, b: int, at: int, target: int)
    requires
        well_scoped(st),
        0 <= base,
        b <= st.code().len(),
        whole(st.code(), base, b),
        wide_at(st.code(), base, at - 1),
    ensures
        whole(patch(st, at, target).code(), base, b),
        patch(st, at, target).code().len() == st.code().len(),
        patch(st, at, target).constants == st.constants,
        well_scoped(patch(st, at, target)),
        forall|other: int|
            wide_at(st.code(), base, other) ==> wide_at(patch(st, at, target).code(), base, other),
{
    let operand = crate::buffer::be16(target as u16);
    let patched = st.code().update(at, operand[0]).update(at + 1, operand[1]);
    assert(patch(st, at, target).code() =~= patched);
    lemma_whole_patch(st.code(), base, b, at - 1, operand[0], operand[1]);
    assert forall|other: int| wide_at(st.code(), base, other) implies wide_at(
        patch(st, at, target).code(),
        base,
        other,
    ) by {
        lemma_wide_patch(st.code(), base, other, at - 1, operand[0], operand[1]);
    }
}

/// Patching jumps leaves whole instructions whole.
pub proof fn lemma_patch_all_whole(
    st: CompilerState,
    base: int,
    b: int,
    ats: Seq<int>,
    target: int,
)
    requires
        well_scoped(st),
        0 <= base,
        b <= st.code().len(),
        whole(st.code(), base, b),
        operands_of_jumps(st.code(), base, ats),
    ensures
        whole(patch_all(st, ats, target).code(), base, b),
        patch_all(st, ats, target).code().len() == st.code().len(),
        patch_all(st, ats, target).constants == st.constants,
    decreases ats.len(),
{
    if ats.len() > 0 {
        let next = patch(st, ats[0], target);
        lemma_patch_whole(st, base, b, ats[0], target);
        assert(operands_of_jumps(next.code(), base, ats.drop_first())) by {
            assert forall|i: int| 0 <= i < ats.drop_first().len() implies wide_at(
                next.code(),
                base,
                #[trigger] ats.drop_first()[i] - 1,
            ) by {
                assert(ats.drop_first()[i] == ats[i + 1]);
                assert(wide_at(st.code(), base, ats[i + 1] - 1));
            }
        }
        lemma_patch_all_whole(next, base, b, ats.drop_first(), target);
    }
}

/// Whether the code of every function among the constants is made of whole
/// instructions.
pub open spec fn functions_whole(constants: Seq<Value>) -> bool {
    forall|i: int|
        0 <= i < constants.len() && (#[trigger] constants[i]) is Function ==> whole(
            constants[i]->code,
            0,
            constants[i]->code.len() as int,
        )
}

/// Whether a state that continues another has appended whole instructions,
/// and constants whose functions are made of whole instructions if those of
/// the constants that were there are.
#[verifier::opaque]
pub open spec fn decodes(before: CompilerState, after: CompilerState) -> bool {
    &&& whole(after.code(), before.code().len() as int, after.code().len() as int)
    &&& functions_whole(before.constants) ==> functions_whole(after.constants)
}

/// Appending whole instructions to whole instructions gives whole
/// instructions, and leaves the instructions with operands where they are.
pub proof fn lemma_extend_whole(a: CompilerState, b: CompilerState, base: int, added: nat)
    requires
        continues(a, b, a.code().len() as int, added),
        0 <= base <= a.code().len(),
        whole(a.code(), base, a.code().len() as int),
        whole(b.code(), a.code().len() as int, b.code().len() as int),
    ensures
        whole(b.code(), base, b.code().len() as int),
        forall|at: int| wide_at(a.code(), base, at) ==> wide_at(b.code(), base, at),
{
    reveal(continues);
    let len = a.code().len() as int;
    assert forall|i: int| 0 <= i < len implies a.code()[i] == b.code()[i] by {
        assert(b.code().take(len)[i] == b.code()[i]);
        assert(a.code().take(len)[i] == a.code()[i]);
    }
    lemma_whole_agree(a.code(), b.code(), base, len);
    lemma_whole_join(b.code(), base, len, b.code().len() as int);
    assert forall|at: int| wide_at(a.code(), base, at) implies wide_at(b.code(), base, at) by {
        lemma_whole_ordered(a.code(), base, at);
        lemma_whole_agree(a.code(), b.code(), base, at);
    }
}

/// A state decodes from itself.
pub proof fn lemma_decodes_self(st: CompilerState)
    ensures
        decodes(st, st),
{
    reveal(decodes);
}

/// What a state that decodes from another has of whole instructions: the
/// code is whole from wherever the code before was, the instructions with
/// operands are where they were, and the constants' functions are whole if
/// they were.
pub proof fn lemma_decodes_facts(a: CompilerState, b: CompilerState, base: int, added: nat)
    requires
        continues(a, b, a.code().len() as int, added),
        decodes(a, b),
        0 <= base <= a.code().len(),
        whole(a.code(), base, a.code().len() as int),
    ensures
        well_scoped(b),
        b.code().len() == a.code().len() + added,
        whole(b.code(), base, b.code().len() as int),
        forall|at: int| wide_at(a.code(), base, at) ==> wide_at(b.code(), base, at),
        functions_whole(a.constants) ==> functions_whole(b.constants),
{
    reveal(decodes);
    reveal(continues);
    lemma_extend_whole(a, b, base, added);
}

/// A jump that is emitted behind whole instructions is an instruction with an
/// operand.
pub proof fn lemma_emitted_jump(st: CompilerState, op: u8, operand: u16, base: int)
    requires
        well_scoped(st),
        is_opcode(op),
        takes_operand(op),
        0 <= base <= st.code().len(),
        whole(st.code(), base, st.code().len() as int),
        emit(st, seq![op] + be16(operand)) is Ok,
    ensures
        wide_at(
            emit(st, seq![op] + be16(operand))->Ok_0.code(),
            base,
            st.code().len() as int,
        ),
{
    let bytes = seq![op] + be16(operand);
    let r = emit(st, bytes)->Ok_0;
    lemma_emit(st, bytes);
    let at = st.code().len() as int;
    assert(r.code()[at] == bytes[0]);
    lemma_whole_agree(st.code(), r.code(), base, at);
}

/// One state decoding after another decodes.
pub proof fn lemma_decodes_next(
    a: CompilerState,
    b: CompilerState,
    c: CompilerState,
    first: nat,
    second: nat,
)
    requires
        continues(a, b, a.code().len() as int, first),
        continues(b, c, b.code().len() as int, second),
        decodes(a, b),
        decodes(b, c),
    ensures
        decodes(a, c),
{
    reveal(decodes);
    reveal(continues);
    lemma_extend_whole(b, c, a.code().len() as int, second);
}

/// Emitting an instruction without operand appends a whole instruction.
pub proof fn lemma_emit_narrow(st: CompilerState, op: u8)
    requires
        well_scoped(st),
        is_opcode(op),
        !takes_operand(op),
    ensures
        emit(st, seq![op]) matches Ok(r) ==> decodes(st, r),
{
    reveal(decodes);
    if emit(st, seq![op]) is Ok {
        let r = emit(st, seq![op])->Ok_0;
        lemma_emit(st, seq![op]);
        let at = st.code().len() as int;
        assert(r.code()[at] == op);
        assert(instruction_at(r.code(), at) is Some);
        assert(whole(r.code(), at + 1, at + 1));
    }
}

/// Emitting an instruction with an operand appends a whole instruction.
pub proof fn lemma_emit_wide(st: CompilerState, op: u8, operand: u16)
    requires
        well_scoped(st),
        is_opcode(op),
        takes_operand(op),
    ensures
        emit(st, seq![op] + be16(operand)) matches Ok(r) ==> decodes(st, r),
{
    reveal(decodes);
    let bytes = seq![op] + be16(operand);
    if emit(st, bytes) is Ok {
        let r = emit(st, bytes)->Ok_0;
        lemma_emit(st, bytes);
        let at = st.code().len() as int;
        assert(r.code()[at] == bytes[0]);
        assert(instruction_at(r.code(), at) is Some);
        assert(whole(r.code(), at + 3, at + 3));
    }
}

/// Emitting a constant that is no function, or a function made of whole
/// instructions, appends a whole instruction and keeps the constants'
/// functions whole.
pub proof fn lemma_emit_const_whole(st: CompilerState, constant: Value)
    requires
        well_scoped(st),
        constant is Function ==> whole(constant->code, 0, constant->code.len() as int),
    ensures
        emit_const(st, constant) matches Ok(r) ==> decodes(st, r),
{
    reveal(decodes);
    if emit_const(st, constant) is Ok {
        let pushed = CompilerState { constants: st.constants.push(constant), ..st };
        lemma_emit_wide(pushed, Const::byte(), st.constants.len() as u16);
        lemma_emit(pushed, Const.encoding(st.constants.len() as u16));
        let r = emit_const(st, constant)->Ok_0;
        if functions_whole(st.constants) {
            assert forall|i: int|
                0 <= i < r.constants.len() && (#[trigger] r.constants[i]) is Function implies whole(
                r.constants[i]->code,
                0,
                r.constants[i]->code.len() as int,
            ) by {
                if i < st.constants.len() {
                    assert(r.constants[i] == st.constants[i]);
                }
            }
        }
    }
}

/// Loading a name appends a whole instruction.
pub proof fn lemma_ident_whole(st: CompilerState, name: Seq<char>)
    requires
        well_scoped(st),
    ensures
        compile_ident(st, name) matches Ok(r) ==> decodes(st, r),
{
    reveal(decodes);
    if compile_ident(st, name) is Ok {
        let symbol = resolve(st.symbols, name)->Some_0;
        lemma_emit(st, load_bytes(symbol));
        match symbol.scope {
            Scope::GLOBAL => {
                lemma_emit_wide(st, GetGVar::byte(), symbol.index);
            },
            Scope::LOCAL => {
                lemma_emit_wide(st, GetLVar::byte(), symbol.index);
            },
        }
    }
}

/// Loading names appends whole instructions.
pub proof fn lemma_load_all_whole(st: CompilerState, names: Seq<&str>, from: int)
    requires
        well_scoped(st),
        0 <= from <= names.len(),
    ensures
        load_all(st, names, from) matches Ok(r) ==> decodes(st, r),
    decreases names.len() - from,
{
    if from < names.len() {
        lemma_compile_ident(st, names[from]@);
        lemma_ident_whole(st, names[from]@);
        if compile_ident(st, names[from]@) is Ok {
            let next = compile_ident(st, names[from]@)->Ok_0;
            lemma_load_all(next, names, from + 1);
            lemma_load_all_whole(next, names, from + 1);
            if load_all(next, names, from + 1) is Ok {
                lemma_decodes_next(
                    st,
                    next,
                    load_all(next, names, from + 1)->Ok_0,
                    3,
                    (3 * (names.len() - from - 1)) as nat,
                );
            }
        }
    } else {
        lemma_decodes_self(st);
    }
}

/// Storing into a name appends a whole instruction.
pub proof fn lemma_store_whole(st: CompilerState, name: Seq<char>)
    requires
        well_scoped(st),
    ensures
        compile_store(st, name) matches Ok(r) ==> decodes(st, r),
{
    reveal(decodes);
    if compile_store(st, name) is Ok {
        reveal(continues);
        lemma_register(st, name);
        let next = register(st, name)->Ok_0;
        let symbol = find_in(next.symbols.last(), next.symbols.len() - 1, name)->Some_0;
        lemma_emit(next, store_bytes(symbol));
        match symbol.scope {
            Scope::GLOBAL => {
                lemma_emit_wide(next, SetGVar::byte(), symbol.index);
            },
            Scope::LOCAL => {
                lemma_emit_wide(next, SetLVar::byte(), symbol.index);
            },
        }
    }
}

/// Compiling an expression appends whole instructions, and every function
/// that it adds to the constants is made of whole instructions.
pub proof fn lemma_expr_whole(st: CompilerState, node: ExprST)
    requires
        well_scoped(st),
    ensures
        compile_expr(st, node) matches Ok(r) ==> decodes(st, r),
    decreases node, 2nat,
{
    if compile_expr(st, node) is Err {
        return ;
    }
    match node {
        ExprST::Null => {
            lemma_emit_narrow(st, Null::byte());
        },
        ExprST::True => {
            lemma_emit_narrow(st, True::byte());
        },
        ExprST::False => {
            lemma_emit_narrow(st, False::byte());
        },
        ExprST::Integer(value) => {
            lemma_emit_const_whole(st, Value::Integer(value));
        },
        ExprST::Float(bits) => {
            lemma_emit_const_whole(st, Value::Float(bits));
        },
        ExprST::String(value) => {
            lemma_emit_const_whole(st, Value::Str(value@));
        },
        ExprST::Ident(name) => {
            lemma_ident_whole(st, name@);
        },
        ExprST::TupleLiteral(former) => {
            lemma_former_whole(st, former, ToTuple::byte(), ToTupleRn::byte());
        },
        ExprST::SetLiteral(former) => {
            lemma_former_whole(st, former, ToSet::byte(), ToSetRn::byte());
        },
        ExprST::Infix { .. } => {
            lemma_infix_whole(st, node);
        },
        ExprST::Prefix { .. } => {
            lemma_prefix_whole(st, node);
        },
        ExprST::Postfix { .. } => {
            lemma_postfix_whole(st, node);
        },
        ExprST::Ternary { .. } => {
            lemma_ternary_whole(st, node);
        },
        ExprST::Switch { .. } => {
            lemma_switch_whole(st, node);
        },
        ExprST::Assign { .. } => {
            lemma_assign_whole(st, node);
        },
        ExprST::Function { .. } => {
            lemma_function_whole(st, node);
        },
        ExprST::Return(_) => {
            lemma_return_whole(st, node);
        },
        _ => {},
    }
}

/// A binary operation is compiled to whole instructions.
pub proof fn lemma_infix_whole(st: CompilerState, node: ExprST)
    requires
        well_scoped(st),
        node is Infix,
    ensures
        compile_expr(st, node) matches Ok(r) ==> decodes(st, r),
    decreases node, 1nat,
{
    if let ExprST::Infix { op, left, right } = node {
        if compile_expr(st, node) is Ok {
            let (first, second) = if swaps_operands(op) {
                (right, left)
            } else {
                (left, right)
            };
            lemma_compile_expr(st, *first);
            lemma_expr_whole(st, *first);
            let s1 = compile_expr(st, *first)->Ok_0;
            lemma_compile_expr(s1, *second);
            lemma_expr_whole(s1, *second);
            let s2 = compile_expr(s1, *second)->Ok_0;
            lemma_emit(s2, seq![binop_byte(op)]);
            lemma_emit_narrow(s2, binop_byte(op));
            let s3 = emit(s2, seq![binop_byte(op)])->Ok_0;
            lemma_decodes_next(st, s1, s2, code_size(*first), code_size(*second));
            lemma_continues_next(
                st,
                s1,
                s2,
                st.code().len() as int,
                code_size(*first),
                code_size(*second),
            );
            lemma_decodes_next(st, s2, s3, code_size(*first) + code_size(*second), 1);
        }
    }
}

/// A prefix operation is compiled to whole instructions.
pub proof fn lemma_prefix_whole(st: CompilerState, node: ExprST)
    requires
        well_scoped(st),
        node is Prefix,
    ensures
        compile_expr(st, node) matches Ok(r) ==> decodes(st, r),
    decreases node, 1nat,
{
    if let ExprST::Prefix { op, right } = node {
        if compile_expr(st, node) is Ok {
            match (op, *right) {
                (PreOp::Negate, ExprST::Integer(value)) => {
                    lemma_emit_const_whole(
                        st,
                        Value::Integer(
                            if value == i64::MIN {
                                value
                            } else {
                                (-value) as i64
                            },
                        ),
                    );
                },
                (PreOp::Negate, ExprST::Float(bits)) => {
                    lemma_emit_const_whole(
                        st,
                        Value::Float(crate::object::value::float_negate(bits)),
                    );
                },
                _ => {
                    lemma_compile_expr(st, *right);
                    lemma_expr_whole(st, *right);
                    let s1 = compile_expr(st, *right)->Ok_0;
                    lemma_emit(s1, preop_bytes(op));
                    let s2 = emit(s1, preop_bytes(op))->Ok_0;
                    match op {
                        PreOp::Id => {
                            assert(s2.code() =~= s1.code());
                            assert(s2.constants == s1.constants);
                            reveal(decodes);
                        },
                        PreOp::Negate => {
                            lemma_emit_narrow(s1, Negate::byte());
                        },
                        PreOp::DynVar => {
                            lemma_emit_narrow(s1, DynVar::byte());
                        },
                        PreOp::Size => {
                            lemma_emit_narrow(s1, Size::byte());
                        },
                        PreOp::Not => {
                            lemma_emit_narrow(s1, Not::byte());
                        },
                    }
                    lemma_decodes_next(st, s1, s2, code_size(*right), preop_size(op));
                },
            }
        }
    }
}

/// A selection is compiled to whole instructions.
pub proof fn lemma_postfix_whole(st: CompilerState, node: ExprST)
    requires
        well_scoped(st),
        node is Postfix,
    ensures
        compile_expr(st, node) matches Ok(r) ==> decodes(st, r),
    decreases node, 1nat,
{
    let base = st.code().len() as int;
    if let ExprST::Postfix { left, selector } = node {
        if compile_expr(st, node) is Ok {
            lemma_compile_expr(st, *left);
            lemma_expr_whole(st, *left);
            let s1 = compile_expr(st, *left)->Ok_0;
            match selector {
                Selector::Index(index) => {
                    lemma_compile_expr(s1, *index);
                    lemma_expr_whole(s1, *index);
                    let s2 = compile_expr(s1, *index)->Ok_0;
                    lemma_emit(s2, Index.encoding());
                    lemma_emit_narrow(s2, Index::byte());
                    let s3 = emit(s2, Index.encoding())->Ok_0;
                    lemma_decodes_next(st, s1, s2, code_size(*left), code_size(*index));
                    lemma_continues_next(st, s1, s2, base, code_size(*left), code_size(*index));
                    lemma_decodes_next(st, s2, s3, code_size(*left) + code_size(*index), 1);
                },
                Selector::Call(args) => {
                    lemma_compile_list(s1, args@, 0, false);
                    lemma_list_whole(s1, args@, 0, false);
                    let s2 = compile_list(s1, args@, 0, false)->Ok_0;
                    let bytes = Call.encoding(args@.len() as u16);
                    lemma_emit(s2, bytes);
                    lemma_emit_wide(s2, Call::byte(), args@.len() as u16);
                    let s3 = emit(s2, bytes)->Ok_0;
                    lemma_decodes_next(st, s1, s2, code_size(*left), list_size(args@, 0, false));
                    lemma_continues_next(
                        st,
                        s1,
                        s2,
                        base,
                        code_size(*left),
                        list_size(args@, 0, false),
                    );
                    lemma_decodes_next(
                        st,
                        s2,
                        s3,
                        code_size(*left) + list_size(args@, 0, false),
                        3,
                    );
                },
                _ => {},
            }
        }
    }
}

/// A ternary is compiled to whole instructions.
pub proof fn lemma_ternary_whole(st: CompilerState, node: ExprST)
    requires
        well_scoped(st),
        node is Ternary,
    ensures
        compile_expr(st, node) matches Ok(r) ==> decodes(st, r),
    decreases node, 1nat,
{
    let base = st.code().len() as int;
    if let ExprST::Ternary { condition, consequence, alternative } = node {
        if compile_expr(st, node) is Ok {
            let s1 = compile_expr(st, *condition)->Ok_0;
            let s2 = emit(s1, JumpNotTrue.encoding(PLACEHOLDER))->Ok_0;
            let s3 = compile_expr(s2, *consequence)->Ok_0;
            let s4 = emit(s3, Jump.encoding(PLACEHOLDER))->Ok_0;
            let s5 = compile_expr(s4, *alternative)->Ok_0;
            assert(whole(st.code(), base, base));
            lemma_compile_expr(st, *condition);
            lemma_expr_whole(st, *condition);
            lemma_decodes_facts(st, s1, base, code_size(*condition));
            lemma_emit(s1, JumpNotTrue.encoding(PLACEHOLDER));
            lemma_emit_wide(s1, JumpNotTrue::byte(), PLACEHOLDER);
            lemma_emitted_jump(s1, JumpNotTrue::byte(), PLACEHOLDER, base);
            lemma_decodes_facts(s1, s2, base, 3);
            lemma_compile_expr(s2, *consequence);
            lemma_expr_whole(s2, *consequence);
            lemma_decodes_facts(s2, s3, base, code_size(*consequence));
            lemma_emit(s3, Jump.encoding(PLACEHOLDER));
            lemma_emit_wide(s3, Jump::byte(), PLACEHOLDER);
            lemma_emitted_jump(s3, Jump::byte(), PLACEHOLDER, base);
            lemma_decodes_facts(s3, s4, base, 3);
            lemma_compile_expr(s4, *alternative);
            lemma_expr_whole(s4, *alternative);
            lemma_decodes_facts(s4, s5, base, code_size(*alternative));
            let test = s1.code().len() as int;
            let jump = s3.code().len() as int;
            lemma_ternary_patched(st, s5, base, test, jump, s4.code().len() as int);
        }
    }
}

/// Patching the two jumps of a ternary leaves whole instructions whole.
pub proof fn lemma_ternary_patched(
    st: CompilerState,
    s5: CompilerState,
    base: int,
    test: int,
    jump: int,
    second: int,
)
    requires
        well_scoped(s5),
        base == st.code().len(),
        0 <= base <= s5.code().len(),
        whole(s5.code(), base, s5.code().len() as int),
        wide_at(s5.code(), base, test),
        wide_at(s5.code(), base, jump),
        functions_whole(st.constants) ==> functions_whole(s5.constants),
    ensures
        decodes(st, patch(patch(s5, test + 1, second), jump + 1, s5.code().len() as int)),
{
    reveal(decodes);
    let p1 = patch(s5, test + 1, second);
    lemma_patch_whole(s5, base, s5.code().len() as int, test + 1, second);
    lemma_patch_whole(p1, base, p1.code().len() as int, jump + 1, s5.code().len() as int);
}

/// A switch is compiled to whole instructions.
pub proof fn lemma_switch_whole(st: CompilerState, node: ExprST)
    requires
        well_scoped(st),
        node is Switch,
    ensures
        compile_expr(st, node) matches Ok(r) ==> decodes(st, r),
    decreases node, 1nat,
{
    reveal(decodes);
    let base = st.code().len() as int;
    if let ExprST::Switch { input, cases } = node {
        if compile_expr(st, node) is Ok {
            match input {
                Some(subject) => {
                    lemma_compile_expr(st, *subject);
                    lemma_expr_whole(st, *subject);
                    let s1 = compile_expr(st, *subject)->Ok_0;
                    lemma_emit(s1, PushMatch.encoding());
                    lemma_emit_narrow(s1, PushMatch::byte());
                    let s2 = emit(s1, PushMatch.encoding())->Ok_0;
                    lemma_decodes_next(st, s1, s2, code_size(*subject), 1);
                    lemma_continues_next(st, s1, s2, base, code_size(*subject), 1);
                    lemma_compile_cases(
                        s2,
                        cases@,
                        0,
                        JumpNotMatch::byte(),
                        None,
                        Seq::empty(),
                        s2.code().len() as int,
                    );
                    assert(whole(s2.code(), s2.code().len() as int, s2.code().len() as int));
                    lemma_cases_whole(
                        s2,
                        cases@,
                        0,
                        JumpNotMatch::byte(),
                        None,
                        Seq::empty(),
                        s2.code().len() as int,
                    );
                    let s3 = compile_cases(
                        s2,
                        cases@,
                        0,
                        JumpNotMatch::byte(),
                        None,
                        Seq::empty(),
                    )->Ok_0;
                    lemma_emit(s3, PopMatch.encoding());
                    lemma_emit_narrow(s3, PopMatch::byte());
                    let s4 = emit(s3, PopMatch.encoding())->Ok_0;
                    lemma_decodes_next(st, s2, s3, code_size(*subject) + 1, cases_size(cases@, 0));
                    lemma_continues_next(
                        st,
                        s2,
                        s3,
                        base,
                        code_size(*subject) + 1,
                        cases_size(cases@, 0),
                    );
                    lemma_decodes_next(
                        st,
                        s3,
                        s4,
                        code_size(*subject) + 1 + cases_size(cases@, 0),
                        1,
                    );
                },
                None => {
                    assert(whole(st.code(), base, base));
                    lemma_cases_whole(
                        st,
                        cases@,
                        0,
                        JumpNotTrue::byte(),
                        None,
                        Seq::empty(),
                        base,
                    );
                },
            }
        }
    }
}

/// An assignment is compiled to whole instructions.
pub proof fn lemma_assign_whole(st: CompilerState, node: ExprST)
    requires
        well_scoped(st),
        node is Assign,
    ensures
        compile_expr(st, node) matches Ok(r) ==> decodes(st, r),
    decreases node, 1nat,
{
    if let ExprST::Assign { left, right } = node {
        if compile_expr(st, node) is Ok {
            lemma_compile_expr(st, *right);
            lemma_expr_whole(st, *right);
            let s1 = compile_expr(st, *right)->Ok_0;
            match left {
                LHS::Ident { target, selectors } => {
                    lemma_compile_store(s1, target@);
                    lemma_store_whole(s1, target@);
                    lemma_decodes_next(
                        st,
                        s1,
                        compile_store(s1, target@)->Ok_0,
                        code_size(*right),
                        3,
                    );
                },
                _ => {},
            }
        }
    }
}

/// A return is compiled to whole instructions.
pub proof fn lemma_return_whole(st: CompilerState, node: ExprST)
    requires
        well_scoped(st),
        node is Return,
    ensures
        compile_expr(st, node) matches Ok(r) ==> decodes(st, r),
    decreases node, 1nat,
{
    if let ExprST::Return(value) = node {
        if compile_expr(st, node) is Ok {
            lemma_compile_expr(st, *value);
            lemma_expr_whole(st, *value);
            let s1 = compile_expr(st, *value)->Ok_0;
            lemma_emit(s1, Return.encoding());
            lemma_emit_narrow(s1, Return::byte());
            lemma_decodes_next(
                st,
                s1,
                emit(s1, Return.encoding())->Ok_0,
                code_size(*value),
                1,
            );
        }
    }
}

/// A function is compiled to whole instructions: those of its own code, which
/// becomes a constant, and those that build the function value.
pub proof fn lemma_function_whole(st: CompilerState, node: ExprST)
    requires
        well_scoped(st),
        node is Function,
    ensures
        compile_expr(st, node) matches Ok(r) ==> decodes(st, r),
    decreases node, 1nat,
{
    reveal(decodes);
    reveal(continues);
    if let ExprST::Function { req_params, opt_params, locked_params, body, null_return } = node {
        if compile_expr(st, node) is Ok {
            let entered = enter(st);
            let base = st.code().len() as int;
            assert(entered.scopes.drop_last() =~= st.scopes);
            assert(entered.symbols.drop_last() =~= st.symbols);
            lemma_register_all(entered, req_params@, 0);
            let s1 = register_all(entered, req_params@, 0)->Ok_0;
            lemma_register_all(s1, opt_params@, 0);
            let s2 = register_all(s1, opt_params@, 0)->Ok_0;
            lemma_register_all(s2, locked_params@, 0);
            let s3 = register_all(s2, locked_params@, 0)->Ok_0;
            lemma_compile_body(s3, body@, 0, null_return);
            lemma_body_whole(s3, body@, 0, null_return);
            let s4 = compile_body(s3, body@, 0, null_return)->Ok_0;
            lemma_emit(s4, Return.encoding());
            lemma_emit_narrow(s4, Return::byte());
            let s5 = emit(s4, Return.encoding())->Ok_0;
            lemma_decodes_next(s3, s4, s5, body_size(body@, 0, null_return), 1);
            assert(s3.code().len() == 0);
            let left = leave(s5);
            assert(left.scopes == st.scopes);
            assert(left.symbols == st.symbols);
            let params = req_params@.len() + opt_params@.len() + locked_params@.len();
            let constant = Value::Function {
                code: s5.code(),
                locals: (s5.symbols.last().len() - params) as nat,
                required: req_params@.len() as u16,
                optional: opt_params@.len() as u16,
                captured: Seq::empty(),
            };
            if functions_whole(st.constants) {
                assert(functions_whole(s3.constants));
                assert(functions_whole(left.constants));
            }
            lemma_emit_const(left, constant);
            lemma_emit_const_whole(left, constant);
            let s6 = emit_const(left, constant)->Ok_0;
            lemma_load_all(s6, locked_params@, 0);
            lemma_load_all_whole(s6, locked_params@, 0);
            let s7 = load_all(s6, locked_params@, 0)->Ok_0;
            let bytes = ToFn.encoding(locked_params@.len() as u16);
            lemma_emit(s7, bytes);
            lemma_emit_wide(s7, ToFn::byte(), locked_params@.len() as u16);
            let s8 = emit(s7, bytes)->Ok_0;
            lemma_decodes_next(left, s6, s7, 3, (3 * locked_params@.len()) as nat);
            lemma_continues_next(
                left,
                s6,
                s7,
                base,
                3,
                (3 * locked_params@.len()) as nat,
            );
            lemma_decodes_next(left, s7, s8, 3 + 3 * locked_params@.len(), 3);
        }
    }
}

/// A list is compiled to whole instructions.
pub proof fn lemma_list_whole(st: CompilerState, exprs: Seq<ExprST>, from: int, with_pop: bool)
    requires
        well_scoped(st),
    ensures
        compile_list(st, exprs, from, with_pop) matches Ok(r) ==> decodes(st, r),
    decreases exprs, exprs.len() - from,
{
    let base = st.code().len() as int;
    if from < 0 || from >= exprs.len() {
        lemma_decodes_self(st);
    } else if compile_list(st, exprs, from, with_pop) is Ok {
        lemma_compile_expr(st, exprs[from]);
        lemma_expr_whole(st, exprs[from]);
        let s1 = compile_expr(st, exprs[from])->Ok_0;
        if with_pop {
            lemma_emit(s1, Pop.encoding());
            lemma_emit_narrow(s1, Pop::byte());
            let s2 = emit(s1, Pop.encoding())->Ok_0;
            lemma_compile_list(s2, exprs, from + 1, with_pop);
            lemma_list_whole(s2, exprs, from + 1, with_pop);
            lemma_decodes_next(st, s1, s2, code_size(exprs[from]), 1);
            lemma_continues_next(st, s1, s2, base, code_size(exprs[from]), 1);
            lemma_decodes_next(
                st,
                s2,
                compile_list(s2, exprs, from + 1, with_pop)->Ok_0,
                code_size(exprs[from]) + 1,
                list_size(exprs, from + 1, with_pop),
            );
        } else {
            lemma_compile_list(s1, exprs, from + 1, with_pop);
            lemma_list_whole(s1, exprs, from + 1, with_pop);
            lemma_decodes_next(
                st,
                s1,
                compile_list(s1, exprs, from + 1, with_pop)->Ok_0,
                code_size(exprs[from]),
                list_size(exprs, from + 1, with_pop),
            );
        }
    }
}

/// A body is compiled to whole instructions.
pub proof fn lemma_body_whole(st: CompilerState, exprs: Seq<ExprST>, from: int, null_return: bool)
    requires
        well_scoped(st),
    ensures
        compile_body(st, exprs, from, null_return) matches Ok(r) ==> decodes(st, r),
    decreases exprs, exprs.len() - from,
{
    let base = st.code().len() as int;
    if from < 0 || from >= exprs.len() {
        if exprs.len() == 0 || null_return {
            lemma_emit_narrow(st, Null::byte());
        } else {
            lemma_decodes_self(st);
        }
    } else if compile_body(st, exprs, from, null_return) is Ok {
        lemma_compile_expr(st, exprs[from]);
        lemma_expr_whole(st, exprs[from]);
        let s1 = compile_expr(st, exprs[from])->Ok_0;
        if from + 1 < exprs.len() || null_return {
            lemma_emit(s1, Pop.encoding());
            lemma_emit_narrow(s1, Pop::byte());
            let s2 = emit(s1, Pop.encoding())->Ok_0;
            lemma_compile_body(s2, exprs, from + 1, null_return);
            lemma_body_whole(s2, exprs, from + 1, null_return);
            lemma_decodes_next(st, s1, s2, code_size(exprs[from]), 1);
            lemma_continues_next(st, s1, s2, base, code_size(exprs[from]), 1);
            lemma_decodes_next(
                st,
                s2,
                compile_body(s2, exprs, from + 1, null_return)->Ok_0,
                code_size(exprs[from]) + 1,
                body_size(exprs, from + 1, null_return),
            );
        } else {
            lemma_compile_body(s1, exprs, from + 1, null_return);
            lemma_body_whole(s1, exprs, from + 1, null_return);
            lemma_decodes_next(
                st,
                s1,
                compile_body(s1, exprs, from + 1, null_return)->Ok_0,
                code_size(exprs[from]),
                body_size(exprs, from + 1, null_return),
            );
        }
    }
}

/// A former is compiled to whole instructions.
pub proof fn lemma_former_whole(
    st: CompilerState,
    former: Former,
    literal_byte: u8,
    range_byte: u8,
)
    requires
        well_scoped(st),
        is_opcode(literal_byte) && takes_operand(literal_byte),
        is_opcode(range_byte) && takes_operand(range_byte),
    ensures
        compile_former(st, former, literal_byte, range_byte) matches Ok(r) ==> decodes(st, r),
    decreases former, 1nat,
{
    if compile_former(st, former, literal_byte, range_byte) is Err {
        return ;
    }
    match former {
        Former::Literal(exprs) => {
            lemma_compile_list(st, exprs@, 0, false);
            lemma_list_whole(st, exprs@, 0, false);
            let s1 = compile_list(st, exprs@, 0, false)->Ok_0;
            let bytes = seq![literal_byte] + be16(exprs@.len() as u16);
            lemma_emit(s1, bytes);
            lemma_emit_wide(s1, literal_byte, exprs@.len() as u16);
            lemma_decodes_next(st, s1, emit(s1, bytes)->Ok_0, list_size(exprs@, 0, false), 3);
        },
        Former::Range { .. } => {
            lemma_range_whole(st, former, range_byte);
        },
        Former::Iterator { .. } => {},
    }
}

/// A range former is compiled to whole instructions.
pub proof fn lemma_range_whole(st: CompilerState, former: Former, range_byte: u8)
    requires
        well_scoped(st),
        former is Range,
        is_opcode(range_byte) && takes_operand(range_byte),
    ensures
        forall|literal_byte: u8| #[trigger]
            compile_former(st, former, literal_byte, range_byte) matches Ok(r) ==> decodes(st, r),
    decreases former, 0nat,
{
    let base = st.code().len() as int;
    if let Former::Range { range_start, range_step, range_end } = former {
        let after_step = match range_step {
            Some(step) => compile_expr(st, *step),
            None => Ok(st),
        };
        let step_size: nat = match range_step {
            Some(step) => code_size(*step),
            None => 0,
        };
        match range_step {
            Some(step) => {
                lemma_compile_expr(st, *step);
                lemma_expr_whole(st, *step);
            },
            None => {
                lemma_continues_self(st);
                lemma_decodes_self(st);
            },
        }
        if after_step is Ok {
            let s1 = after_step->Ok_0;
            lemma_compile_expr(s1, *range_end);
            lemma_expr_whole(s1, *range_end);
            if compile_expr(s1, *range_end) is Ok {
                let s2 = compile_expr(s1, *range_end)->Ok_0;
                lemma_compile_expr(s2, *range_start);
                lemma_expr_whole(s2, *range_start);
                if compile_expr(s2, *range_start) is Ok {
                    let s3 = compile_expr(s2, *range_start)->Ok_0;
                    let parts = if range_step is None {
                        2u16
                    } else {
                        3u16
                    };
                    let bytes = seq![range_byte] + be16(parts);
                    lemma_emit(s3, bytes);
                    lemma_emit_wide(s3, range_byte, parts);
                    lemma_decodes_next(st, s1, s2, step_size, code_size(*range_end));
                    lemma_continues_next(st, s1, s2, base, step_size, code_size(*range_end));
                    lemma_decodes_next(
                        st,
                        s2,
                        s3,
                        step_size + code_size(*range_end),
                        code_size(*range_start),
                    );
                    lemma_continues_next(
                        st,
                        s2,
                        s3,
                        base,
                        step_size + code_size(*range_end),
                        code_size(*range_start),
                    );
                    if emit(s3, bytes) is Ok {
                        lemma_decodes_next(
                            st,
                            s3,
                            emit(s3, bytes)->Ok_0,
                            step_size + code_size(*range_end) + code_size(*range_start),
                            3,
                        );
                    }
                }
            }
        }
    }
}

/// Pointing the pending jump at the end of the code leaves whole
/// instructions whole and the jumps where they are.
pub proof fn lemma_pending_patched(
    st: CompilerState,
    pending: Option<int>,
    exits: Seq<int>,
    base: int,
)
    requires
        well_scoped(st),
        0 <= base <= st.code().len(),
        whole(st.code(), base, st.code().len() as int),
        pending matches Some(at) ==> wide_at(st.code(), base, at - 1),
        operands_of_jumps(st.code(), base, exits),
    ensures
        well_scoped(patch_pending(st, pending)),
        patch_pending(st, pending).code().len() == st.code().len(),
        patch_pending(st, pending).constants == st.constants,
        whole(patch_pending(st, pending).code(), base, st.code().len() as int),
        operands_of_jumps(patch_pending(st, pending).code(), base, exits),
{
    let len = st.code().len() as int;
    let s0 = patch_pending(st, pending);
    match pending {
        Some(at) => {
            lemma_patch_whole(st, base, len, at, len);
        },
        None => {},
    }
    assert forall|i: int| 0 <= i < exits.len() implies wide_at(
        s0.code(),
        base,
        #[trigger] exits[i] - 1,
    ) by {
        assert(wide_at(st.code(), base, exits[i] - 1));
    }
}

/// Pointing the jumps that end the cases at the end of the code leaves whole
/// instructions whole.
pub proof fn lemma_exits_patched(st: CompilerState, exits: Seq<int>, base: int)
    requires
        well_scoped(st),
        0 <= base <= st.code().len(),
        whole(st.code(), base, st.code().len() as int),
        operands_of_jumps(st.code(), base, exits),
    ensures
        whole(
            patch_all(st, exits, st.code().len() as int).code(),
            base,
            patch_all(st, exits, st.code().len() as int).code().len() as int,
        ),
        patch_all(st, exits, st.code().len() as int).constants == st.constants,
{
    lemma_patch_all_whole(st, base, st.code().len() as int, exits, st.code().len() as int);
}

/// More code behind jumps leaves the jumps where they are.
pub proof fn lemma_jumps_stay(
    a: CompilerState,
    b: CompilerState,
    base: int,
    added: nat,
    exits: Seq<int>,
)
    requires
        continues(a, b, a.code().len() as int, added),
        decodes(a, b),
        0 <= base <= a.code().len(),
        whole(a.code(), base, a.code().len() as int),
        operands_of_jumps(a.code(), base, exits),
    ensures
        operands_of_jumps(b.code(), base, exits),
{
    lemma_decodes_facts(a, b, base, added);
    assert forall|i: int| 0 <= i < exits.len() implies wide_at(
        b.code(),
        base,
        #[trigger] exits[i] - 1,
    ) by {
        assert(wide_at(a.code(), base, exits[i] - 1));
    }
}

/// A case with a condition is compiled to whole instructions, and its two
/// jumps are instructions among them.
pub proof fn lemma_case_whole(
    s0: CompilerState,
    cases: Seq<Case>,
    from: int,
    jump_byte: u8,
    exits: Seq<int>,
    base: int,
)
    requires
        well_scoped(s0),
        is_opcode(jump_byte) && takes_operand(jump_byte),
        0 <= from < cases.len(),
        cases[from].condition is Some,
        0 <= base <= s0.code().len(),
        whole(s0.code(), base, s0.code().len() as int),
        operands_of_jumps(s0.code(), base, exits),
        compile_expr(s0, *cases[from].condition->Some_0) is Ok,
        emit(
            compile_expr(s0, *cases[from].condition->Some_0)->Ok_0,
            seq![jump_byte] + be16(PLACEHOLDER),
        ) is Ok,
        compile_body(
            emit(
                compile_expr(s0, *cases[from].condition->Some_0)->Ok_0,
                seq![jump_byte] + be16(PLACEHOLDER),
            )->Ok_0,
            cases[from].consequence@,
            0,
            cases[from].null_return,
        ) is Ok,
        emit(
            compile_body(
                emit(
                    compile_expr(s0, *cases[from].condition->Some_0)->Ok_0,
                    seq![jump_byte] + be16(PLACEHOLDER),
                )->Ok_0,
                cases[from].consequence@,
                0,
                cases[from].null_return,
            )->Ok_0,
            Jump.encoding(PLACEHOLDER),
        ) is Ok,
    ensures
        ({
            let s1 = compile_expr(s0, *cases[from].condition->Some_0)->Ok_0;
            let s2 = emit(s1, seq![jump_byte] + be16(PLACEHOLDER))->Ok_0;
            let s3 = compile_body(
                s2,
                cases[from].consequence@,
                0,
                cases[from].null_return,
            )->Ok_0;
            let s4 = emit(s3, Jump.encoding(PLACEHOLDER))->Ok_0;
            &&& well_scoped(s4)
            &&& base <= s4.code().len()
            &&& whole(s4.code(), base, s4.code().len() as int)
            &&& wide_at(s4.code(), base, s1.code().len() as int)
            &&& operands_of_jumps(s4.code(), base, exits.push(s3.code().len() as int + 1))
            &&& functions_whole(s0.constants) ==> functions_whole(s4.constants)
        }),
    decreases cases, 0nat,
{
    let condition = *cases[from].condition->Some_0;
    let body = cases[from].consequence@;
    let null_return = cases[from].null_return;
    let s1 = compile_expr(s0, condition)->Ok_0;
    let test_bytes = seq![jump_byte] + be16(PLACEHOLDER);
    let s2 = emit(s1, test_bytes)->Ok_0;
    let s3 = compile_body(s2, body, 0, null_return)->Ok_0;
    let s4 = emit(s3, Jump.encoding(PLACEHOLDER))->Ok_0;
    lemma_compile_expr(s0, condition);
    lemma_expr_whole(s0, condition);
    lemma_decodes_facts(s0, s1, base, code_size(condition));
    lemma_jumps_stay(s0, s1, base, code_size(condition), exits);
    lemma_emit(s1, test_bytes);
    lemma_emit_wide(s1, jump_byte, PLACEHOLDER);
    lemma_emitted_jump(s1, jump_byte, PLACEHOLDER, base);
    lemma_decodes_facts(s1, s2, base, 3);
    lemma_jumps_stay(s1, s2, base, 3, exits);
    lemma_compile_body(s2, body, 0, null_return);
    lemma_body_whole(s2, body, 0, null_return);
    lemma_decodes_facts(s2, s3, base, body_size(body, 0, null_return));
    lemma_jumps_stay(s2, s3, base, body_size(body, 0, null_return), exits);
    lemma_emit(s3, Jump.encoding(PLACEHOLDER));
    lemma_emit_wide(s3, Jump::byte(), PLACEHOLDER);
    lemma_emitted_jump(s3, Jump::byte(), PLACEHOLDER, base);
    lemma_decodes_facts(s3, s4, base, 3);
    lemma_jumps_stay(s3, s4, base, 3, exits);
    let next_exits = exits.push(s3.code().len() as int + 1);
    assert forall|i: int| 0 <= i < next_exits.len() implies wide_at(
        s4.code(),
        base,
        #[trigger] next_exits[i] - 1,
    ) by {
        if i < exits.len() {
            assert(next_exits[i] == exits[i]);
            assert(wide_at(s4.code(), base, exits[i] - 1));
        }
    }
}

/// The cases of a switch are compiled to whole instructions: if the code from
/// `base` on is whole, and the jumps that are still to be patched are
/// instructions in it, the code from `base` on is whole once the cases are
/// compiled.
pub proof fn lemma_cases_whole(
    st: CompilerState,
    cases: Seq<Case>,
    from: int,
    jump_byte: u8,
    pending: Option<int>,
    exits: Seq<int>,
    base: int,
)
    requires
        well_scoped(st),
        is_opcode(jump_byte) && takes_operand(jump_byte),
        0 <= base <= st.code().len(),
        whole(st.code(), base, st.code().len() as int),
        pending matches Some(at) ==> wide_at(st.code(), base, at - 1),
        operands_of_jumps(st.code(), base, exits),
    ensures
        compile_cases(st, cases, from, jump_byte, pending, exits) matches Ok(r) ==> whole(
            r.code(),
            base,
            r.code().len() as int,
        ) && (functions_whole(st.constants) ==> functions_whole(r.constants)),
    decreases cases, cases.len() - from,
{
    if compile_cases(st, cases, from, jump_byte, pending, exits) is Err {
        return ;
    }
    let s0 = patch_pending(st, pending);
    lemma_pending_patched(st, pending, exits, base);
    if from < 0 || from >= cases.len() {
        lemma_emit(s0, Null.encoding());
        lemma_emit_narrow(s0, Null::byte());
        let s1 = emit(s0, Null.encoding())->Ok_0;
        lemma_decodes_facts(s0, s1, base, 1);
        lemma_jumps_stay(s0, s1, base, 1, exits);
        lemma_exits_patched(s1, exits, base);
    } else {
        let body = cases[from].consequence@;
        let null_return = cases[from].null_return;
        match cases[from].condition {
            Some(condition) => {
                lemma_case_whole(s0, cases, from, jump_byte, exits, base);
                let s1 = compile_expr(s0, *condition)->Ok_0;
                let s2 = emit(s1, seq![jump_byte] + be16(PLACEHOLDER))->Ok_0;
                let s3 = compile_body(s2, body, 0, null_return)->Ok_0;
                let s4 = emit(s3, Jump.encoding(PLACEHOLDER))->Ok_0;
                lemma_cases_whole(
                    s4,
                    cases,
                    from + 1,
                    jump_byte,
                    Some(s1.code().len() as int + 1),
                    exits.push(s3.code().len() as int + 1),
                    base,
                );
            },
            None => {
                lemma_compile_body(s0, body, 0, null_return);
                lemma_body_whole(s0, body, 0, null_return);
                let s1 = compile_body(s0, body, 0, null_return)->Ok_0;
                lemma_decodes_facts(s0, s1, base, body_size(body, 0, null_return));
                lemma_jumps_stay(s0, s1, base, body_size(body, 0, null_return), exits);
                lemma_exits_patched(s1, exits, base);
            },
        }
    }
}

/// A program compiled by a fresh compiler is made of whole instructions, and
/// so is the code of every function among its constants.
pub proof fn lemma_program_whole(exprs: Seq<ExprST>)
    ensures
        compile_list(initial_state(), exprs, 0, true) matches Ok(r) ==> whole(
            r.code(),
            0,
            r.code().len() as int,
        ) && functions_whole(r.constants),
{
    reveal(decodes);
    lemma_list_whole(initial_state(), exprs, 0, true);
}

/// Whether what a state holds is made of whole instructions: the code of
/// the current scope, and the code of every function among the constants.
pub open spec fn decodable(st: CompilerState) -> bool {
    whole(st.code(), 0, st.code().len() as int) && functions_whole(st.constants)
}

/// Compiling an expression keeps a state decodable.
pub proof fn lemma_expr_decodable(st: CompilerState, node: ExprST)
    requires
        well_scoped(st),
        decodable(st),
    ensures
        compile_expr(st, node) matches Ok(r) ==> decodable(r),
{
    if compile_expr(st, node) is Ok {
        lemma_compile_expr(st, node);
        lemma_expr_whole(st, node);
        lemma_decodes_facts(st, compile_expr(st, node)->Ok_0, 0, code_size(node));
    }
}

/// Compiling a list of expressions keeps a state decodable.
pub proof fn lemma_list_decodable(st: CompilerState, exprs: Seq<ExprST>, with_pop: bool)
    requires
        well_scoped(st),
        decodable(st),
    ensures
        compile_list(st, exprs, 0, with_pop) matches Ok(r) ==> decodable(r),
{
    if compile_list(st, exprs, 0, with_pop) is Ok {
        lemma_compile_list(st, exprs, 0, with_pop);
        lemma_list_whole(st, exprs, 0, with_pop);
        lemma_decodes_facts(
            st,
            compile_list(st, exprs, 0, with_pop)->Ok_0,
            0,
            list_size(exprs, 0, with_pop),
        );
    }
}

/// The number of bytes that the instructions of a listing take.
pub open spec fn listing_len(listing: Seq<Instruction>) -> int
    decreases listing.len(),
{
    if listing.len() == 0 {
        0
    } else {
        instruction_len(listing[0]) + listing_len(listing.drop_first())
    }
}

/// Code that is made of whole instructions is listed to its end: the
/// instructions that are read from it take all its bytes.
pub proof fn lemma_whole_is_listed(code: Seq<u8>, from: int)
    requires
        0 <= from,
        whole(code, from, code.len() as int),
    ensures
        listing_len(instructions_from(code, from)) == code.len() - from,
    decreases code.len() - from,
{
    if from < code.len() {
        let instruction = instruction_at(code, from)->Some_0;
        let rest = instructions_from(code, from + instruction_len(instruction));
        lemma_whole_is_listed(code, from + instruction_len(instruction));
        assert(instructions_from(code, from).drop_first() =~= rest);
    }
}

} // verus!
