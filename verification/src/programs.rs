//! What compiled programs do when they run: facts that relate the compiler's
//! output to the machine's steps.

use crate::buffer::be16;
use crate::code::code::{Const, Jump, JumpNotTrue, OpCode, OpCodeMake, OpCodeMakeWithU16, Pop};
use crate::compiler::compiler::initial_state;
use crate::compiler::layout::{
    code_size, lemma_emit, lemma_emit_const, lemma_statement_twice, lemma_ternary_layout,
    well_scoped,
};
use crate::compiler::model::{compile_expr, compile_list, emit, emit_const, CompilerState};
use crate::error::CompileError;
use crate::object::value::{truthy, Value};
use crate::parser::ast::ExprST;
use crate::vm::model::{
    initial, instruction_at, lemma_return_restores, lemma_run_one, lemma_run_split,
    lemma_step_call, lemma_step_const, lemma_step_end, lemma_step_jump, lemma_step_jump_not_true,
    lemma_step_pop, lemma_step_return, lemma_step_to_tuple, op_call, op_return, run, Machine, Run,
};
use vstd::prelude::*;

verus! {

/// The ternary made of a condition and two branches.
pub open spec fn ternary<'a>(
    condition: ExprST<'a>,
    consequence: ExprST<'a>,
    alternative: ExprST<'a>,
) -> ExprST<'a> {
    ExprST::Ternary {
        condition: Box::new(condition),
        consequence: Box::new(consequence),
        alternative: Box::new(alternative),
    }
}

/// Compiling an integer literal appends the instruction that pushes the next
/// constant, and that constant is the integer.
pub proof fn lemma_integer_literal(st: CompilerState, n: i64)
    requires
        well_scoped(st),
        compile_expr(st, ExprST::Integer(n)) is Ok,
    ensures
        ({
            let r = compile_expr(st, ExprST::Integer(n))->Ok_0;
            let i = st.constants.len() as int;
            &&& i <= u16::MAX
            &&& r.code() == st.code() + Const.encoding(i as u16)
            &&& r.constants.len() == i + 1
            &&& r.constants[i] == Value::Integer(n)
        }),
{
    lemma_emit_const(st, Value::Integer(n));
}

/// A statement that is one integer literal compiles to the instruction that
/// pushes the next constant, which is the integer, and a `Pop`.
pub proof fn lemma_integer_statement(st: CompilerState, n: i64)
    requires
        well_scoped(st),
        st.code().len() + 4 <= u16::MAX,
        st.constants.len() <= u16::MAX,
    ensures
        ({
            let compiled = compile_list(st, seq![ExprST::Integer(n)], 0, true);
            &&& compiled is Ok
            &&& compiled->Ok_0.code() == st.code() + Const.encoding(st.constants.len() as u16)
                + Pop.encoding()
            &&& compiled->Ok_0.constants == st.constants.push(Value::Integer(n))
        }),
{
    let program = seq![ExprST::Integer(n)];
    lemma_emit_const(st, Value::Integer(n));
    let s1 = emit_const(st, Value::Integer(n))->Ok_0;
    assert(compile_expr(st, program[0]) == Ok::<CompilerState, CompileError>(s1));
    lemma_emit(s1, Pop.encoding());
    let s2 = emit(s1, Pop.encoding())->Ok_0;
    assert(compile_list(s2, program, 1, true) == Ok::<CompilerState, CompileError>(s2));
    assert(compile_list(st, program, 0, true) == Ok::<CompilerState, CompileError>(s2));
}

/// A program of `Const 0; Pop` ends with its first constant as the last value
/// popped.
pub proof fn lemma_const_pop_runs(constants: Seq<Value>, global_count: nat)
    requires
        constants.len() > 0,
    ensures
        run(initial(Const.encoding(0) + Pop.encoding(), constants, global_count), 3)
            matches Run::Finished(_, result) && result == Some(constants[0]),
{
    let code = Const.encoding(0) + Pop.encoding();
    let m0 = initial(code, constants, global_count);
    assert(code.subrange(0, 3) =~= Const.encoding(0));
    lemma_step_const(m0, 0);
    let m1 = m0.at(3).push(constants[0]);
    assert(code.subrange(3, 4) =~= Pop.encoding());
    lemma_step_pop(m1);
    let m2 = Machine { stack: m1.stack.drop_last(), last_pop: Some(constants[0]), ..m1.at(4) };
    lemma_step_end(m2);
    lemma_run_one(m0);
    lemma_run_one(m1);
    lemma_run_split(m0, 1, 1);
    lemma_run_split(m0, 2, 1);
}

/// A program that is one integer literal compiles, whatever the integer, to
/// `Const 0; Pop` with the integer as its only constant, and running it ends
/// with the integer as the last value popped.
pub proof fn lemma_integer_program(n: i64)
    ensures
        ({
            let compiled = compile_list(initial_state(), seq![ExprST::Integer(n)], 0, true);
            &&& compiled is Ok
            &&& compiled->Ok_0.code() == Const.encoding(0) + Pop.encoding()
            &&& compiled->Ok_0.constants == seq![Value::Integer(n)]
            &&& run(initial(compiled->Ok_0.code(), compiled->Ok_0.constants, 0), 3) matches Run::Finished(
                _,
                result,
            ) && result == Some(Value::Integer(n))
        }),
{
    let st = initial_state();
    lemma_integer_statement(st, n);
    let compiled = compile_list(st, seq![ExprST::Integer(n)], 0, true)->Ok_0;
    assert(compiled.code() =~= Const.encoding(0) + Pop.encoding());
    assert(compiled.constants =~= seq![Value::Integer(n)]);
    lemma_const_pop_runs(compiled.constants, 0);
}

/// In a fresh compiler a statement compiled twice takes twice the bytes of
/// the statement compiled once.
pub proof fn lemma_program_twice(node: ExprST)
    requires
        compile_list(initial_state(), seq![node], 0, true) is Ok,
        compile_list(initial_state(), seq![node, node], 0, true) is Ok,
    ensures
        compile_list(initial_state(), seq![node, node], 0, true)->Ok_0.code().len() == 2
            * compile_list(initial_state(), seq![node], 0, true)->Ok_0.code().len(),
{
    lemma_statement_twice(initial_state(), node);
}

/// The state in which the chosen branch of a ternary starts: the value of the
/// condition is off the stack, and the cursor is at the first branch if the
/// value is truthy, else at the second.
pub open spec fn branch_entry(tested: Machine, first: nat, second: nat) -> Machine {
    tested.with_stack(tested.stack.drop_last()).at(
        if truthy(tested.stack.last()) {
            first
        } else {
            second
        },
    )
}

/// A compiled ternary runs the branch that the condition chooses, and both
/// branches end at the same address.
///
/// Let the condition's code run from its start to its end and leave a value,
/// and let the code of the first branch, if the value is truthy, or of the
/// second, if it is not, run from its start to its end in the state `done`.
/// Then the ternary runs from its start to its end, and ends in the state
/// `done`, with the cursor at the address behind the second branch.
pub proof fn lemma_ternary_runs(
    st: CompilerState,
    condition: ExprST,
    consequence: ExprST,
    alternative: ExprST,
    m: Machine,
    tested: Machine,
    done: Machine,
    k1: nat,
    k2: nat,
)
    requires
        well_scoped(st),
        compile_expr(st, ternary(condition, consequence, alternative)) is Ok,
        ({
            let r = compile_expr(st, ternary(condition, consequence, alternative))->Ok_0;
            let test = st.code().len() + code_size(condition);
            let jump = test + 3 + code_size(consequence);
            let end = jump + 3 + code_size(alternative);
            &&& m.frames.len() > 0
            &&& r.code().is_prefix_of(m.code())
            &&& m.cursor == st.code().len()
            &&& run(m, k1) == Run::Paused(tested)
            &&& tested.frames == m.frames
            &&& tested.cursor == test
            &&& tested.stack.len() > 0
            &&& run(branch_entry(tested, test + 3, jump + 3), k2) == Run::Paused(done)
            &&& done.frames == m.frames
            &&& done.cursor == if truthy(tested.stack.last()) {
                jump
            } else {
                end
            }
        }),
    ensures
        ({
            let end = st.code().len() + code_size(condition) + 3 + code_size(consequence) + 3
                + code_size(alternative);
            let jumps: nat = if truthy(tested.stack.last()) {
                1
            } else {
                0
            };
            &&& compile_expr(st, ternary(condition, consequence, alternative))->Ok_0.code().len()
                == end
            &&& run(m, k1 + 1 + k2 + jumps) == Run::Paused(done.at(end))
        }),
{
    let r = compile_expr(st, ternary(condition, consequence, alternative))->Ok_0;
    let test = (st.code().len() + code_size(condition)) as int;
    let jump = test + 3 + code_size(consequence);
    let end = jump + 3 + code_size(alternative);
    lemma_ternary_layout(st, condition, consequence, alternative);
    lemma_branches_join(r.code(), test, jump, end, m, tested, done, k1, k2);
}

/// Code in which a `JumpNotTrue` to the second branch stands at `test` and a
/// `Jump` to `end` at `jump`, behind the first branch, runs the branch that
/// the tested value chooses and ends at `end` either way.
pub proof fn lemma_branches_join(
    code: Seq<u8>,
    test: int,
    jump: int,
    end: int,
    m: Machine,
    tested: Machine,
    done: Machine,
    k1: nat,
    k2: nat,
)
    requires
        0 <= test,
        test + 3 <= jump,
        jump + 3 <= end,
        end == code.len(),
        end <= u16::MAX,
        code.is_prefix_of(m.code()),
        code.subrange(test, test + 3) == JumpNotTrue.encoding((jump + 3) as u16),
        code.subrange(jump, jump + 3) == Jump.encoding(end as u16),
        run(m, k1) == Run::Paused(tested),
        tested.frames == m.frames,
        tested.cursor == test,
        tested.stack.len() > 0,
        run(branch_entry(tested, (test + 3) as nat, (jump + 3) as nat), k2) == Run::Paused(done),
        done.frames == m.frames,
        done.cursor == if truthy(tested.stack.last()) {
            jump
        } else {
            end
        },
    ensures
        run(
            m,
            k1 + 1 + k2 + if truthy(tested.stack.last()) {
                1nat
            } else {
                0nat
            },
        ) == Run::Paused(done.at(end as nat)),
{
    let running = m.code();
    // the conditional jump
    assert(running.subrange(test, test + 3) =~= code.subrange(test, test + 3));
    lemma_step_jump_not_true(tested, (jump + 3) as u16);
    lemma_run_one(tested);
    lemma_run_split(m, k1, 1);
    lemma_run_split(m, k1 + 1, k2);
    if truthy(tested.stack.last()) {
        // the jump that ends the first branch
        assert(running.subrange(jump, jump + 3) =~= code.subrange(jump, jump + 3));
        lemma_step_jump(done, end as u16);
        lemma_run_one(done);
        lemma_run_split(m, k1 + 1 + k2, 1);
    } else {
        assert(done.at(end as nat) == done);
    }
}

/// Whether every expression is an integer literal.
pub open spec fn all_integers(exprs: Seq<ExprST>) -> bool {
    forall|i: int| 0 <= i < exprs.len() ==> (#[trigger] exprs[i]) is Integer
}

/// The values of integer literals.
pub open spec fn integer_values(exprs: Seq<ExprST>) -> Seq<Value> {
    Seq::new(exprs.len(), |i: int| Value::Integer(exprs[i]->Integer_0))
}

/// The instructions that push `count` constants in a row, from the constant
/// at index `first` on.
pub open spec fn constant_loads(first: int, count: nat) -> Seq<u8>
    decreases count,
{
    if count == 0 {
        Seq::empty()
    } else {
        Const.encoding(first as u16) + constant_loads(first + 1, (count - 1) as nat)
    }
}

/// `count` loads take three bytes each.
pub proof fn lemma_constant_loads_len(first: int, count: nat)
    ensures
        constant_loads(first, count).len() == 3 * count,
    decreases count,
{
    if count > 0 {
        lemma_constant_loads_len(first + 1, (count - 1) as nat);
    }
}

/// A list of integer literals compiles to one load for each, of constants
/// that are the integers, in order.
pub proof fn lemma_integers_compile(st: CompilerState, exprs: Seq<ExprST>, from: int)
    requires
        well_scoped(st),
        all_integers(exprs),
        0 <= from <= exprs.len(),
        st.constants.len() <= u16::MAX + 1,
        compile_list(st, exprs, from, false) is Ok,
    ensures
        ({
            let r = compile_list(st, exprs, from, false)->Ok_0;
            &&& well_scoped(r)
            &&& r.code() == st.code() + constant_loads(
                st.constants.len() as int,
                (exprs.len() - from) as nat,
            )
            &&& r.constants == st.constants + integer_values(exprs).skip(from)
            &&& r.constants.len() <= u16::MAX + 1
        }),
    decreases exprs.len() - from,
{
    if from >= exprs.len() {
        assert(st.code() + constant_loads(st.constants.len() as int, 0) =~= st.code());
        assert(st.constants + integer_values(exprs).skip(from) =~= st.constants);
        let r = compile_list(st, exprs, from, false)->Ok_0;
        assert(r == st);
    } else {
        let value = exprs[from]->Integer_0;
        assert(exprs[from] == ExprST::Integer(value));
        lemma_emit_const(st, Value::Integer(value));
        let s1 = emit_const(st, Value::Integer(value))->Ok_0;
        assert(compile_expr(st, exprs[from]) == Ok::<CompilerState, CompileError>(s1));
        lemma_integers_compile(s1, exprs, from + 1);
        let r = compile_list(s1, exprs, from + 1, false)->Ok_0;
        assert(r.code() =~= st.code() + constant_loads(
            st.constants.len() as int,
            (exprs.len() - from) as nat,
        ));
        assert(r.constants =~= st.constants + integer_values(exprs).skip(from));
    }
}

/// Loads in a row push their constants in a row.
pub proof fn lemma_constant_loads_run(m: Machine, first: int, count: nat)
    requires
        0 <= first,
        first + count <= m.constants.len(),
        first + count <= u16::MAX + 1,
        instruction_at(m, constant_loads(first, count)),
    ensures
        run(m, count) == Run::Paused(
            m.at(m.cursor + 3 * count).with_stack(
                m.stack + m.constants.subrange(first, first + count),
            ),
        ),
    decreases count,
{
    if count == 0 {
        assert(m.stack + m.constants.subrange(first, first) =~= m.stack);
    } else {
        let loads = constant_loads(first, count);
        let rest = constant_loads(first + 1, (count - 1) as nat);
        lemma_constant_loads_len(first, count);
        lemma_constant_loads_len(first + 1, (count - 1) as nat);
        let at = m.cursor as int;
        assert(m.code().subrange(at, at + 3) =~= Const.encoding(first as u16)) by {
            assert(m.code().subrange(at, at + 3) =~= m.code().subrange(at, at + 3 * count).subrange(
                0,
                3,
            ));
            assert(loads.subrange(0, 3) =~= Const.encoding(first as u16));
        }
        lemma_step_const(m, first as u16);
        let m1 = m.at(m.cursor + 3).push(m.constants[first]);
        assert(m1.code().subrange(at + 3, at + 3 + 3 * (count - 1)) =~= rest) by {
            assert(m.code().subrange(at + 3, at + 3 * count) =~= m.code().subrange(
                at,
                at + 3 * count,
            ).subrange(3, 3 * count as int));
            assert(loads.subrange(3, 3 * count as int) =~= rest);
        }
        lemma_constant_loads_run(m1, first + 1, (count - 1) as nat);
        assert(m1.stack + m1.constants.subrange(first + 1, first + count) =~= m.stack
            + m.constants.subrange(first, first + count));
    }
}

/// A tuple literal of integer literals compiles, in a fresh compiler, to one
/// load for each element and `ToTuple`, with the integers as the constants.
pub proof fn lemma_tuple_of_integers_compiles(elements: Vec<ExprST>)
    requires
        all_integers(elements@),
        compile_expr(
            initial_state(),
            ExprST::TupleLiteral(crate::parser::ast::Former::Literal(elements)),
        ) is Ok,
    ensures
        ({
            let r = compile_expr(
                initial_state(),
                ExprST::TupleLiteral(crate::parser::ast::Former::Literal(elements)),
            )->Ok_0;
            &&& elements@.len() <= u16::MAX
            &&& r.code() == constant_loads(0, elements@.len()) + crate::code::code::ToTuple.encoding(
                elements@.len() as u16,
            )
            &&& r.constants == integer_values(elements@)
        }),
{
    let st = initial_state();
    let former = crate::parser::ast::Former::Literal(elements);
    let node = ExprST::TupleLiteral(former);
    let n = elements@.len();
    assert(compile_expr(st, node) == crate::compiler::model::compile_former(
        st,
        former,
        crate::code::code::ToTuple::byte(),
        crate::code::code::ToTupleRn::byte(),
    ));
    lemma_integers_compile(st, elements@, 0);
    let s1 = compile_list(st, elements@, 0, false)->Ok_0;
    let build = crate::code::code::ToTuple.encoding(n as u16);
    assert(build =~= seq![crate::code::code::ToTuple::byte()] + be16(n as u16));
    lemma_emit(s1, build);
    let r = compile_expr(st, node)->Ok_0;
    assert(r == emit(s1, build)->Ok_0);
    assert(s1.code() =~= constant_loads(0, n));
    assert(s1.constants =~= integer_values(elements@)) by {
        assert(integer_values(elements@).skip(0) =~= integer_values(elements@));
    }
}

/// Loads of the first `count` constants and `ToTuple` run to the tuple of
/// those constants.
pub proof fn lemma_loads_and_tuple_run(constants: Seq<Value>, count: nat)
    requires
        constants.len() == count,
        count <= u16::MAX,
    ensures
        ({
            let code = constant_loads(0, count) + crate::code::code::ToTuple.encoding(
                count as u16,
            );
            let start = initial(code, constants, 0);
            run(start, count + 1) == Run::Paused(
                start.at(code.len()).with_stack(seq![Value::Tuple(constants)]),
            )
        }),
{
    let loads = constant_loads(0, count);
    let build = crate::code::code::ToTuple.encoding(count as u16);
    let code = loads + build;
    let start = initial(code, constants, 0);
    lemma_constant_loads_len(0, count);
    assert(start.code().subrange(0, 3 * count as int) =~= loads);
    lemma_constant_loads_run(start, 0, count);
    let loaded = start.at(3 * count).with_stack(
        start.stack + start.constants.subrange(0, count as int),
    );
    assert(loaded.stack =~= constants);
    assert(loaded.code().subrange(3 * count as int, 3 * count as int + 3) =~= build);
    lemma_step_to_tuple(loaded, count as u16);
    lemma_run_one(loaded);
    lemma_run_split(start, count, 1);
    assert(loaded.stack.take(0).push(Value::Tuple(loaded.stack.subrange(0, count as int)))
        =~= seq![Value::Tuple(constants)]) by {
        assert(loaded.stack.subrange(0, count as int) =~= constants);
    }
}

/// A tuple literal of integer literals runs to the tuple of those integers,
/// in their order: after one instruction for each element and one for the
/// tuple, the tuple is the only value on the stack and the code is at its
/// end.
pub proof fn lemma_tuple_of_integers(elements: Vec<ExprST>)
    requires
        all_integers(elements@),
        compile_expr(
            initial_state(),
            ExprST::TupleLiteral(crate::parser::ast::Former::Literal(elements)),
        ) is Ok,
    ensures
        ({
            let r = compile_expr(
                initial_state(),
                ExprST::TupleLiteral(crate::parser::ast::Former::Literal(elements)),
            )->Ok_0;
            let start = initial(r.code(), r.constants, 0);
            run(start, elements@.len() + 1) == Run::Paused(
                start.at(r.code().len()).with_stack(
                    seq![Value::Tuple(integer_values(elements@))],
                ),
            )
        }),
{
    lemma_tuple_of_integers_compiles(elements);
    lemma_loads_and_tuple_run(integer_values(elements@), elements@.len());
}

/// A call yields what the function's body leaves on top of the stack.
///
/// Let the machine stand at a `Call` that enters a function, and let the
/// function's code run from there to a `Return`, with the caller's stack
/// still below what the call has pushed. Then the machine is back in the
/// caller's frame, behind the call; the function and its arguments are off
/// the stack, and in their place lies the value that was on top at the
/// `Return`.
pub proof fn lemma_call_yields(m: Machine, count: u16, returning: Machine, k: nat)
    requires
        m.frames.len() > 0,
        instruction_at(m, crate::code::code::Call.encoding(count)),
        op_call(m.at(m.cursor + 3), count) is Next,
        run(op_call(m.at(m.cursor + 3), count)->Next_0, k) == Run::Paused(returning),
        returning.frames == op_call(m.at(m.cursor + 3), count)->Next_0.frames,
        instruction_at(returning, crate::code::code::Return.encoding()),
        returning.stack.len() > m.stack.len(),
        returning.stack.take(m.stack.len() as int) == m.stack,
    ensures
        run(m, k + 2) is Paused,
        ({
            let after = run(m, k + 2)->Paused_0;
            &&& after.frames == m.frames
            &&& after.cursor == m.cursor + 3
            &&& after.stack == m.stack.take(m.stack.len() - count - 1).push(
                returning.stack.last(),
            )
        }),
{
    let at_call = m.at(m.cursor + 3);
    let entered = op_call(at_call, count)->Next_0;
    lemma_step_call(m, count);
    lemma_run_one(m);
    lemma_run_split(m, 1, k);
    lemma_step_return(returning);
    let leaving = returning.at(returning.cursor + 1);
    assert(op_return(leaving) is Next) by {
        assert(leaving.frames.len() > 1);
    }
    lemma_return_restores(at_call, leaving, count);
    lemma_run_one(returning);
    lemma_run_split(m, 1 + k, 1);
}

} // verus!
