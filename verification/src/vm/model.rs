//! What running means: the machine's state as a mathematical value, and the
//! state that one instruction leads to.

use super::frame::FrameView;
use crate::buffer::{be16, from_be16};
use crate::code::code::{
    takes_operand, Call, Const, False, GetGVar, GetLVar, Index, Jump, JumpNotMatch, JumpNotTrue,
    Negate, Neq, Not, Null, OpCode, OpCodeMake, OpCodeMakeWithU16, Pop, PopMatch, PushMatch,
    Return, SetGVar, SetLVar, ToFn, ToSet, ToSetRn, ToTuple, ToTupleRn, True,
};
use crate::error::RuntimeError;
use crate::object::math::{answer_value, binary, FloatAnswer, FloatRequest, Outcome};
use crate::object::value::{equals, index_of, negate, not, truth, truthy, Value};
use vstd::arithmetic::div_mod::{
    lemma_basic_div, lemma_div_plus_one, lemma_fundamental_div_mod, lemma_mod_bound,
};
use vstd::prelude::*;

verus! {

/// The most frames that the call stack can hold.
pub const MAX_FRAMES: usize = 2048;

/// The capacity that the operand stack starts with.
pub const STACK_SIZE: usize = 2048;

/// The state of a machine.
pub struct Machine {
    /// The call stack: the main frame first, the running one last.
    pub frames: Seq<FrameView>,
    /// The constant pool.
    pub constants: Seq<Value>,
    /// The global slots; `None` is a slot that was never assigned.
    pub globals: Seq<Option<Value>>,
    /// The subjects of the match-switches that are being scanned.
    pub match_stack: Seq<Value>,
    /// The operand stack.
    pub stack: Seq<Value>,
    /// The position of the next instruction in the running frame's code.
    pub cursor: nat,
    /// The value that the last `Pop` took off the stack.
    pub last_pop: Option<Value>,
}

/// What one instruction leads to.
pub enum Step {
    /// The machine goes on in this state.
    Next(Machine),
    /// The code has ended; the result is the last value popped.
    Finished(Option<Value>),
    /// The instruction needs a floating-point operation. The machine waits in
    /// this state for the host's answer, which is pushed on its stack.
    Float(Machine, FloatRequest),
    /// The instruction failed.
    Failed(RuntimeError),
}

impl Machine {
    /// The code of the running frame.
    pub open spec fn code(self) -> Seq<u8> {
        self.frames.last().code
    }

    /// The state with another operand stack.
    pub open spec fn with_stack(self, stack: Seq<Value>) -> Machine {
        Machine { stack, ..self }
    }

    /// The state with a value pushed on the operand stack.
    pub open spec fn push(self, value: Value) -> Machine {
        Machine { stack: self.stack.push(value), ..self }
    }

    /// The state with the cursor moved.
    pub open spec fn at(self, cursor: nat) -> Machine {
        Machine { cursor, ..self }
    }
}

/// `count` times null.
pub open spec fn nulls(count: nat) -> Seq<Value> {
    Seq::new(count, |i: int| Value::Null)
}

/// As many unassigned global slots.
pub open spec fn unset(count: nat) -> Seq<Option<Value>> {
    Seq::new(count, |i: int| None::<Value>)
}

/// The state in which a program starts.
pub open spec fn initial(code: Seq<u8>, constants: Seq<Value>, global_count: nat) -> Machine {
    Machine {
        frames: seq![FrameView { code, return_cursor: 0, base_pointer: 0 }],
        constants,
        globals: unset(global_count),
        match_stack: Seq::empty(),
        stack: Seq::empty(),
        cursor: 0,
        last_pop: None,
    }
}

/// The integers from `start` toward `end` in steps of `step`, both ends
/// included. A step of zero, or one that leads away from `end`, gives none.
pub open spec fn range_values(start: int, end: int, step: int) -> Seq<int>
    decreases range_distance(start, end, step),
{
    if step == 0 || (step > 0 && start > end) || (step < 0 && start < end) {
        Seq::empty()
    } else {
        seq![start] + range_values(start + step, end, step)
    }
}

/// How far `start` is from having passed `end`.
pub open spec fn range_distance(start: int, end: int, step: int) -> nat {
    if step > 0 && start <= end {
        (end - start + 1) as nat
    } else if step < 0 && start >= end {
        (start - end + 1) as nat
    } else {
        0
    }
}

/// A range whose step is zero, or leads away from its end, is empty.
pub proof fn lemma_range_degenerate(start: int, end: int, step: int)
    requires
        step == 0 || (step > 0 && start > end) || (step < 0 && start < end),
    ensures
        range_values(start, end, step) == Seq::<int>::empty(),
{
}

/// The number of integers in a range that is not empty.
pub open spec fn range_count(start: int, end: int, step: int) -> int {
    if step > 0 {
        (end - start) / step + 1
    } else {
        (start - end) / (-step) + 1
    }
}

/// A range that leads toward its end holds `start`, `start + step`,
/// `start + 2 * step` and so on, up to the last of these that does not pass
/// `end`.
pub proof fn lemma_range_elements(start: int, end: int, step: int)
    requires
        (step > 0 && start <= end) || (step < 0 && start >= end),
    ensures
        range_values(start, end, step).len() == range_count(start, end, step),
        forall|k: int|
            0 <= k < range_count(start, end, step) ==> #[trigger] range_values(
                start,
                end,
                step,
            )[k] == start + k * step,
        step > 0 ==> start + (range_count(start, end, step) - 1) * step <= end < start
            + range_count(start, end, step) * step,
        step < 0 ==> start + (range_count(start, end, step) - 1) * step >= end > start
            + range_count(start, end, step) * step,
    decreases range_distance(start, end, step),
{
    let rest = range_values(start + step, end, step);
    let count = range_count(start, end, step);
    let all = range_values(start, end, step);
    assert(all == seq![start] + rest);
    if step > 0 {
        lemma_fundamental_div_mod(end - start, step);
        lemma_mod_bound(end - start, step);
        if start + step <= end {
            lemma_range_elements(start + step, end, step);
            lemma_div_plus_one(end - start - step, step);
            assert(end - start - step + step == end - start);
            assert(range_count(start + step, end, step) == count - 1);
            assert forall|k: int| 0 <= k < count implies #[trigger] all[k] == start + k
                * step by {
                if k > 0 {
                    assert(all[k] == rest[k - 1]);
                    assert((start + step) + (k - 1) * step == start + k * step)
                        by (nonlinear_arith);
                }
            }
            assert((start + step) + (count - 1 - 1) * step == start + (count - 1) * step)
                by (nonlinear_arith);
            assert((start + step) + (count - 1) * step == start + count * step)
                by (nonlinear_arith);
        } else {
            lemma_basic_div(end - start, step);
            assert(rest =~= Seq::<int>::empty());
        }
    } else {
        let up = -step;
        lemma_fundamental_div_mod(start - end, up);
        lemma_mod_bound(start - end, up);
        if start + step >= end {
            lemma_range_elements(start + step, end, step);
            lemma_div_plus_one(start - end - up, up);
            assert(start - end - up + up == start - end);
            assert(start + step - end == start - end - up);
            assert(range_count(start + step, end, step) == count - 1);
            assert forall|k: int| 0 <= k < count implies #[trigger] all[k] == start + k
                * step by {
                if k > 0 {
                    assert(all[k] == rest[k - 1]);
                    assert((start + step) + (k - 1) * step == start + k * step)
                        by (nonlinear_arith);
                }
            }
            assert((start + step) + (count - 1 - 1) * step == start + (count - 1) * step)
                by (nonlinear_arith);
            assert((start + step) + (count - 1) * step == start + count * step)
                by (nonlinear_arith);
        } else {
            lemma_basic_div(start - end, up);
            assert(rest =~= Seq::<int>::empty());
        }
    }
}

/// With a step of one, a range from `start` up to `end` holds every integer
/// from `start` to `end`, in order.
pub proof fn lemma_range_by_one(start: int, end: int)
    requires
        start <= end,
    ensures
        range_values(start, end, 1) == Seq::new((end - start + 1) as nat, |k: int| start + k),
{
    lemma_range_elements(start, end, 1);
    assert(range_values(start, end, 1) =~= Seq::new((end - start + 1) as nat, |k: int| start + k));
}

/// The integers of a sequence as values.
pub open spec fn integers(numbers: Seq<int>) -> Seq<Value> {
    Seq::new(numbers.len(), |i: int| Value::Integer(numbers[i] as i64))
}

/// `Const`: pushes a constant. An index that the pool does not hold is
/// malformed bytecode.
pub open spec fn op_const(m: Machine, index: u16) -> Step {
    if index < m.constants.len() {
        Step::Next(m.push(m.constants[index as int]))
    } else {
        Step::Failed(RuntimeError::InvalidBytecode)
    }
}

/// `Pop`: takes the top off the stack and remembers it.
pub open spec fn op_pop(m: Machine) -> Step {
    if m.stack.len() == 0 {
        Step::Failed(RuntimeError::EmptyStack)
    } else {
        Step::Next(Machine { stack: m.stack.drop_last(), last_pop: Some(m.stack.last()), ..m })
    }
}

/// `SetGVar`: stores the top of the stack in a global slot and leaves it on
/// the stack. A slot that the program does not have is malformed bytecode.
pub open spec fn op_set_global(m: Machine, slot: u16) -> Step {
    if m.stack.len() == 0 {
        Step::Failed(RuntimeError::EmptyStack)
    } else if slot >= m.globals.len() {
        Step::Failed(RuntimeError::InvalidBytecode)
    } else {
        Step::Next(Machine { globals: m.globals.update(slot as int, Some(m.stack.last())), ..m })
    }
}

/// `GetGVar`: pushes the value of a global slot. Reading a slot that was
/// never assigned, or that the program does not have, fails.
pub open spec fn op_get_global(m: Machine, slot: u16) -> Step {
    if slot < m.globals.len() && m.globals[slot as int] is Some {
        Step::Next(m.push(m.globals[slot as int]->Some_0))
    } else {
        Step::Failed(RuntimeError::UninitVar)
    }
}

/// `SetLVar`: stores the top of the stack in a local slot and leaves it on
/// the stack. The slot lies `offset` above the running frame's base pointer;
/// one that lies beyond the stack is malformed bytecode.
pub open spec fn op_set_local(m: Machine, offset: u16) -> Step {
    let slot = m.frames.last().base_pointer + offset;
    if m.stack.len() == 0 {
        Step::Failed(RuntimeError::EmptyStack)
    } else if slot >= m.stack.len() {
        Step::Failed(RuntimeError::InvalidBytecode)
    } else {
        Step::Next(m.with_stack(m.stack.update(slot as int, m.stack.last())))
    }
}

/// `GetLVar`: pushes the value of a local slot. The slot lies `offset` above
/// the running frame's base pointer; one that lies beyond the stack is
/// malformed bytecode.
pub open spec fn op_get_local(m: Machine, offset: u16) -> Step {
    let slot = m.frames.last().base_pointer + offset;
    if slot >= m.stack.len() {
        Step::Failed(RuntimeError::InvalidBytecode)
    } else {
        Step::Next(m.push(m.stack[slot as int]))
    }
}

/// `ToTuple` and `ToSet`: replaces the top `count` values by the tuple or set
/// of them, in the order in which they were pushed.
pub open spec fn op_collect(m: Machine, count: u16, as_set: bool) -> Step {
    if m.stack.len() < count {
        Step::Failed(RuntimeError::EmptyStack)
    } else {
        let kept = m.stack.len() - count;
        let elements = m.stack.subrange(kept, m.stack.len() as int);
        let collection = if as_set {
            Value::SetValue(elements)
        } else {
            Value::Tuple(elements)
        };
        Step::Next(m.with_stack(m.stack.take(kept).push(collection)))
    }
}

/// `ToTupleRn` and `ToSetRn`: replaces the start of a range, its end below
/// it and, with three parts, its second element below that, by the tuple or
/// set of the range's integers. With two parts the step is one; with three
/// it is what separates the second element from the start. Another number of
/// parts is malformed bytecode, and a part that is no integer a type error.
pub open spec fn op_range(m: Machine, parts: u16, as_set: bool) -> Step {
    let len = m.stack.len() as int;
    if parts != 2 && parts != 3 {
        Step::Failed(RuntimeError::InvalidBytecode)
    } else if len < parts {
        Step::Failed(RuntimeError::EmptyStack)
    } else {
        match (m.stack[len - 1], m.stack[len - 2]) {
            (Value::Integer(start), Value::Integer(end)) => {
                let step: Option<int> = if parts == 2 {
                    Some(1int)
                } else {
                    match m.stack[len - 3] {
                        Value::Integer(second) => Some(second - start),
                        _ => None,
                    }
                };
                match step {
                    Some(step) => {
                        let elements = integers(range_values(start as int, end as int, step));
                        let collection = if as_set {
                            Value::SetValue(elements)
                        } else {
                            Value::Tuple(elements)
                        };
                        Step::Next(m.with_stack(m.stack.take(len - parts).push(collection)))
                    },
                    None => Step::Failed(RuntimeError::TypeError),
                }
            },
            _ => Step::Failed(RuntimeError::TypeError),
        }
    }
}

/// `ToFn`: replaces a function and the `count` values above it by the
/// function with those values captured. What lies below the values must be a
/// function.
pub open spec fn op_to_fn(m: Machine, count: u16) -> Step {
    let len = m.stack.len() as int;
    if len < count + 1 {
        Step::Failed(RuntimeError::EmptyStack)
    } else {
        match m.stack[len - count - 1] {
            Value::Function { code, locals, required, optional, captured } => Step::Next(
                m.with_stack(
                    m.stack.take(len - count - 1).push(
                        Value::Function {
                            code,
                            locals,
                            required,
                            optional,
                            captured: m.stack.subrange(len - count, len),
                        },
                    ),
                ),
            ),
            _ => Step::Failed(RuntimeError::TypeError),
        }
    }
}

/// `PushMatch`: moves the top of the stack to the match stack.
pub open spec fn op_push_match(m: Machine) -> Step {
    if m.stack.len() == 0 {
        Step::Failed(RuntimeError::EmptyStack)
    } else {
        Step::Next(
            Machine {
                stack: m.stack.drop_last(),
                match_stack: m.match_stack.push(m.stack.last()),
                ..m
            },
        )
    }
}

/// `PopMatch`: takes the top off the match stack, if there is one.
pub open spec fn op_pop_match(m: Machine) -> Step {
    if m.match_stack.len() == 0 {
        Step::Next(m)
    } else {
        Step::Next(Machine { match_stack: m.match_stack.drop_last(), ..m })
    }
}

/// `JumpNotTrue`: pops, and jumps unless the value is truthy.
pub open spec fn op_jump_not_true(m: Machine, target: u16) -> Step {
    if m.stack.len() == 0 {
        Step::Failed(RuntimeError::EmptyStack)
    } else {
        let rest = m.with_stack(m.stack.drop_last());
        if truthy(m.stack.last()) {
            Step::Next(rest)
        } else {
            Step::Next(rest.at(target as nat))
        }
    }
}

/// `JumpNotMatch`: pops, and jumps unless the value equals the subject on
/// top of the match stack. Without a subject nothing is equal, and the
/// machine jumps.
pub open spec fn op_jump_not_match(m: Machine, target: u16) -> Step {
    if m.stack.len() == 0 {
        Step::Failed(RuntimeError::EmptyStack)
    } else {
        let rest = m.with_stack(m.stack.drop_last());
        if m.match_stack.len() > 0 && equals(m.stack.last(), m.match_stack.last()) {
            Step::Next(rest)
        } else {
            Step::Next(rest.at(target as nat))
        }
    }
}

/// `Index`: replaces a container and the key above it by the container's
/// element at the key.
pub open spec fn op_index(m: Machine) -> Step {
    let len = m.stack.len() as int;
    if len < 2 {
        Step::Failed(RuntimeError::EmptyStack)
    } else {
        match index_of(m.stack[len - 2], m.stack[len - 1]) {
            Ok(element) => Step::Next(m.with_stack(m.stack.take(len - 2).push(element))),
            Err(e) => Step::Failed(e),
        }
    }
}

/// `Call`: enters the function that lies below `count` arguments.
///
/// Missing optional arguments are filled with null, the captured values and
/// a null for each local slot are pushed, and a frame is opened whose base
/// pointer is the position of the first argument and whose return cursor is
/// the position after the call.
///
/// What is called must be a function; fewer arguments than it requires, or
/// more than it takes, are an arity error; and a call that would open more
/// than `MAX_FRAMES` frames overflows the call stack.
pub open spec fn op_call(m: Machine, count: u16) -> Step {
    let len = m.stack.len() as int;
    if len < count + 1 {
        Step::Failed(RuntimeError::EmptyStack)
    } else {
        match m.stack[len - count - 1] {
            Value::Function { code, locals, required, optional, captured } => {
                if count < required || count > required + optional {
                    Step::Failed(RuntimeError::ArityError)
                } else if m.frames.len() >= MAX_FRAMES {
                    Step::Failed(RuntimeError::StackOverflow)
                } else {
                    Step::Next(
                        Machine {
                            stack: m.stack + nulls((required + optional - count) as nat) + captured
                                + nulls(locals),
                            frames: m.frames.push(
                                FrameView {
                                    code,
                                    return_cursor: m.cursor,
                                    base_pointer: (len - count) as nat,
                                },
                            ),
                            cursor: 0,
                            ..m
                        },
                    )
                }
            },
            _ => Step::Failed(RuntimeError::TypeError),
        }
    }
}

/// `Return`: leaves the running function with the top of the stack as its
/// result. The stack is cut back to the frame's base pointer, the function
/// below it is dropped, and the result pushed; the caller goes on at the
/// frame's return cursor. In the main frame there is nothing to return to:
/// the instruction is malformed bytecode there.
pub open spec fn op_return(m: Machine) -> Step {
    if m.frames.len() <= 1 {
        Step::Failed(RuntimeError::InvalidBytecode)
    } else if m.stack.len() == 0 {
        Step::Failed(RuntimeError::EmptyStack)
    } else {
        let frame = m.frames.last();
        let rest = m.stack.drop_last();
        let cut = if frame.base_pointer < rest.len() {
            rest.take(frame.base_pointer as int)
        } else {
            rest
        };
        let below = if cut.len() > 0 {
            cut.drop_last()
        } else {
            cut
        };
        Step::Next(
            Machine {
                stack: below.push(m.stack.last()),
                frames: m.frames.drop_last(),
                cursor: frame.return_cursor,
                ..m
            },
        )
    }
}

/// The binary operators but `Eq` and `Neq`: replaces two operands by what
/// the kernel gives for them, or waits for the host where the kernel leaves
/// the operation to it.
pub open spec fn op_binary(m: Machine, op: u8) -> Step {
    let len = m.stack.len() as int;
    if len < 2 {
        Step::Failed(RuntimeError::EmptyStack)
    } else {
        let rest = m.with_stack(m.stack.take(len - 2));
        match binary(op, m.stack[len - 2], m.stack[len - 1]) {
            Ok(Outcome::Done(value)) => Step::Next(rest.push(value)),
            Ok(Outcome::Deferred(request)) => Step::Float(rest, request),
            Err(e) => Step::Failed(e),
        }
    }
}

/// `Eq` and `Neq`: replaces two operands by whether they are equal, or
/// whether they are not.
pub open spec fn op_equality(m: Machine, negated: bool) -> Step {
    let len = m.stack.len() as int;
    if len < 2 {
        Step::Failed(RuntimeError::EmptyStack)
    } else {
        let same = equals(m.stack[len - 2], m.stack[len - 1]);
        Step::Next(m.with_stack(m.stack.take(len - 2).push(truth(same != negated))))
    }
}

/// `Negate` and `Not`: replaces the operand by its negation.
pub open spec fn op_unary(m: Machine, logical: bool) -> Step {
    if m.stack.len() == 0 {
        Step::Failed(RuntimeError::EmptyStack)
    } else {
        let result = if logical {
            not(m.stack.last())
        } else {
            negate(m.stack.last())
        };
        match result {
            Ok(value) => Step::Next(m.with_stack(m.stack.drop_last().push(value))),
            Err(e) => Step::Failed(e),
        }
    }
}

/// What an instruction with an operand leads to, the cursor being behind it.
pub open spec fn execute_wide(m: Machine, op: u8, operand: u16) -> Step {
    if op == Const::byte() {
        op_const(m, operand)
    } else if op == SetGVar::byte() {
        op_set_global(m, operand)
    } else if op == GetGVar::byte() {
        op_get_global(m, operand)
    } else if op == ToTuple::byte() {
        op_collect(m, operand, false)
    } else if op == ToSet::byte() {
        op_collect(m, operand, true)
    } else if op == ToTupleRn::byte() {
        op_range(m, operand, false)
    } else if op == ToSetRn::byte() {
        op_range(m, operand, true)
    } else if op == SetLVar::byte() {
        op_set_local(m, operand)
    } else if op == GetLVar::byte() {
        op_get_local(m, operand)
    } else if op == ToFn::byte() {
        op_to_fn(m, operand)
    } else if op == Jump::byte() {
        Step::Next(m.at(operand as nat))
    } else if op == JumpNotTrue::byte() {
        op_jump_not_true(m, operand)
    } else if op == JumpNotMatch::byte() {
        op_jump_not_match(m, operand)
    } else if op == Call::byte() {
        op_call(m, operand)
    } else {
        Step::Failed(RuntimeError::InvalidBytecode)
    }
}

/// What an instruction without an operand leads to, the cursor being behind
/// it. The reserved opcodes, and bytes that are no opcode, are malformed
/// bytecode.
pub open spec fn execute(m: Machine, op: u8) -> Step {
    if op == Null::byte() {
        Step::Next(m.push(Value::Null))
    } else if op == True::byte() {
        Step::Next(m.push(Value::True))
    } else if op == False::byte() {
        Step::Next(m.push(Value::False))
    } else if op == Pop::byte() {
        op_pop(m)
    } else if op == PushMatch::byte() {
        op_push_match(m)
    } else if op == PopMatch::byte() {
        op_pop_match(m)
    } else if op == Index::byte() {
        op_index(m)
    } else if op == Return::byte() {
        op_return(m)
    } else if op == crate::code::code::Eq::byte() {
        op_equality(m, false)
    } else if op == Neq::byte() {
        op_equality(m, true)
    } else if 200 <= op <= 223 {
        op_binary(m, op)
    } else if op == Negate::byte() {
        op_unary(m, false)
    } else if op == Not::byte() {
        op_unary(m, true)
    } else {
        Step::Failed(RuntimeError::InvalidBytecode)
    }
}

/// What the next instruction leads to. At the end of the running frame's code
/// the program has finished. An operand that the code breaks off in is
/// malformed bytecode.
pub open spec fn step(m: Machine) -> Step {
    let code = m.code();
    if m.cursor >= code.len() {
        Step::Finished(m.last_pop)
    } else {
        let op = code[m.cursor as int];
        if takes_operand(op) {
            if m.cursor + 3 > code.len() {
                Step::Failed(RuntimeError::InvalidBytecode)
            } else {
                execute_wide(
                    m.at(m.cursor + 3),
                    op,
                    from_be16(code[m.cursor as int + 1], code[m.cursor as int + 2]),
                )
            }
        } else {
            execute(m.at(m.cursor + 1), op)
        }
    }
}

/// The state after the host's answer to a floating-point request was pushed.
pub open spec fn resume(m: Machine, answer: FloatAnswer) -> Machine {
    m.push(answer_value(answer))
}

/// How a run of at most `fuel` instructions ends.
pub enum Run {
    /// The code has ended in this state, with this result.
    Finished(Machine, Option<Value>),
    /// The machine waits in this state for the host's answer to the request.
    Float(Machine, FloatRequest),
    /// The fuel is used up; the machine has reached this state.
    Paused(Machine),
    /// An instruction failed.
    Failed(RuntimeError),
}

/// Running at most `fuel` instructions.
pub open spec fn run(m: Machine, fuel: nat) -> Run
    decreases fuel,
{
    if fuel == 0 {
        Run::Paused(m)
    } else {
        match step(m) {
            Step::Next(next) => run(next, (fuel - 1) as nat),
            Step::Finished(result) => Run::Finished(m, result),
            Step::Float(waiting, request) => Run::Float(waiting, request),
            Step::Failed(e) => Run::Failed(e),
        }
    }
}

/// A run that pauses can be taken up again: running on from where it paused
/// is running longer from the start.
pub proof fn lemma_run_split(m: Machine, first: nat, second: nat)
    requires
        run(m, first) is Paused,
    ensures
        run(m, first + second) == run(run(m, first)->Paused_0, second),
    decreases first,
{
    if first > 0 {
        match step(m) {
            Step::Next(next) => {
                lemma_run_split(next, (first - 1) as nat, second);
            },
            _ => {},
        }
    }
}

/// One instruction that leads on is a run of one.
pub proof fn lemma_run_one(m: Machine)
    requires
        step(m) is Next,
    ensures
        run(m, 1) == Run::Paused(step(m)->Next_0),
{
    reveal_with_fuel(run, 2);
}

/// Whether the bytes of an instruction stand at the cursor of the running
/// frame.
pub open spec fn instruction_at(m: Machine, bytes: Seq<u8>) -> bool {
    &&& m.cursor + bytes.len() <= m.code().len()
    &&& m.code().subrange(m.cursor as int, m.cursor as int + bytes.len()) == bytes
}

/// At an instruction with an operand the machine carries that instruction
/// out, the cursor being behind it.
pub proof fn lemma_step_wide(m: Machine, op: u8, operand: u16)
    requires
        takes_operand(op),
        instruction_at(m, seq![op] + be16(operand)),
    ensures
        step(m) == execute_wide(m.at(m.cursor + 3), op, operand),
{
    let bytes = seq![op] + be16(operand);
    let found = m.code().subrange(m.cursor as int, m.cursor as int + 3);
    assert(bytes.len() == 3);
    assert(m.code()[m.cursor as int] == found[0]);
    assert(m.code()[m.cursor as int + 1] == found[1]);
    assert(m.code()[m.cursor as int + 2] == found[2]);
    crate::buffer::lemma_be16_round_trip(operand);
}

/// At an instruction without an operand the machine carries that instruction
/// out, the cursor being behind it.
pub proof fn lemma_step_narrow(m: Machine, op: u8)
    requires
        !takes_operand(op),
        instruction_at(m, seq![op]),
    ensures
        step(m) == execute(m.at(m.cursor + 1), op),
{
    let found = m.code().subrange(m.cursor as int, m.cursor as int + 1);
    assert(m.code()[m.cursor as int] == found[0]);
}

/// At `Const` the machine pushes the constant and goes on behind the
/// instruction.
pub proof fn lemma_step_const(m: Machine, index: u16)
    requires
        instruction_at(m, Const.encoding(index)),
        index < m.constants.len(),
    ensures
        step(m) == Step::Next(m.at(m.cursor + 3).push(m.constants[index as int])),
{
    lemma_step_wide(m, Const::byte(), index);
}

/// At `Pop` the machine takes the top off the stack, remembers it, and goes
/// on behind the instruction.
pub proof fn lemma_step_pop(m: Machine)
    requires
        instruction_at(m, Pop.encoding()),
        m.stack.len() > 0,
    ensures
        step(m) == Step::Next(
            Machine {
                stack: m.stack.drop_last(),
                last_pop: Some(m.stack.last()),
                ..m.at(m.cursor + 1)
            },
        ),
{
    lemma_step_narrow(m, Pop::byte());
}

/// At `ToTuple` the machine wraps the top values into a tuple and goes on
/// behind the instruction.
pub proof fn lemma_step_to_tuple(m: Machine, count: u16)
    requires
        instruction_at(m, ToTuple.encoding(count)),
        count <= m.stack.len(),
    ensures
        step(m) == Step::Next(
            m.at(m.cursor + 3).with_stack(
                m.stack.take(m.stack.len() - count).push(
                    Value::Tuple(m.stack.subrange(m.stack.len() - count, m.stack.len() as int)),
                ),
            ),
        ),
{
    lemma_step_wide(m, ToTuple::byte(), count);
}

/// At `Jump` the machine goes on at the target.
pub proof fn lemma_step_jump(m: Machine, target: u16)
    requires
        instruction_at(m, Jump.encoding(target)),
    ensures
        step(m) == Step::Next(m.at(target as nat)),
{
    lemma_step_wide(m, Jump::byte(), target);
}

/// At `JumpNotTrue` the machine takes the top off the stack and goes on
/// behind the instruction if the value is truthy, else at the target.
pub proof fn lemma_step_jump_not_true(m: Machine, target: u16)
    requires
        instruction_at(m, JumpNotTrue.encoding(target)),
        m.stack.len() > 0,
    ensures
        step(m) == Step::Next(
            m.with_stack(m.stack.drop_last()).at(
                if truthy(m.stack.last()) {
                    m.cursor + 3
                } else {
                    target as nat
                },
            ),
        ),
{
    lemma_step_wide(m, JumpNotTrue::byte(), target);
}

/// At `PopMatch` the machine takes the subject off the match stack, if there
/// is one, and goes on behind the instruction.
pub proof fn lemma_step_pop_match(m: Machine)
    requires
        instruction_at(m, PopMatch.encoding()),
    ensures
        step(m) == op_pop_match(m.at(m.cursor + 1)),
{
    lemma_step_narrow(m, PopMatch::byte());
}

/// At `Call` the machine enters the function, the return cursor being behind
/// the instruction.
pub proof fn lemma_step_call(m: Machine, count: u16)
    requires
        instruction_at(m, Call.encoding(count)),
    ensures
        step(m) == op_call(m.at(m.cursor + 3), count),
{
    lemma_step_wide(m, Call::byte(), count);
}

/// At `Return` the machine leaves the running function.
pub proof fn lemma_step_return(m: Machine)
    requires
        instruction_at(m, Return.encoding()),
    ensures
        step(m) == op_return(m.at(m.cursor + 1)),
{
    lemma_step_narrow(m, Return::byte());
}

/// At the end of the code the program has finished.
pub proof fn lemma_step_end(m: Machine)
    requires
        m.cursor >= m.code().len(),
    ensures
        step(m) == Step::Finished(m.last_pop),
        forall|fuel: nat| fuel > 0 ==> #[trigger] run(m, fuel) == Run::Finished(m, m.last_pop),
{
    assert forall|fuel: nat| fuel > 0 implies #[trigger] run(m, fuel) == Run::Finished(
        m,
        m.last_pop,
    ) by {
        reveal_with_fuel(run, 1);
    }
}

/// `ToFn` captures by value: the function that it leaves on the stack holds
/// the values that lay above the function, in their order.
pub proof fn lemma_to_fn_captures(m: Machine, count: u16)
    requires
        op_to_fn(m, count) is Next,
    ensures
        ({
            let after = op_to_fn(m, count)->Next_0;
            let len = m.stack.len() as int;
            &&& after.stack.len() == len - count
            &&& after.stack.last() is Function
            &&& after.stack.last()->captured == m.stack.subrange(len - count, len)
            &&& after.stack.last()->code == m.stack[len - count - 1]->code
            &&& after.stack.take(len - count - 1) == m.stack.take(len - count - 1)
        }),
{
    let after = op_to_fn(m, count)->Next_0;
    let len = m.stack.len() as int;
    assert(after.stack.take(len - count - 1) =~= m.stack.take(len - count - 1));
}

/// A call hands the captured values to the function, whatever has become of
/// the scope from which they were taken: the new frame's slots hold the
/// arguments, a null for each optional parameter that was not passed, the
/// values that the function holds captured, and a null for each local.
pub proof fn lemma_call_frame(m: Machine, count: u16)
    requires
        op_call(m, count) is Next,
    ensures
        ({
            let after = op_call(m, count)->Next_0;
            let len = m.stack.len() as int;
            let callee = m.stack[len - count - 1];
            let base = after.frames.last().base_pointer as int;
            let params = callee->required + callee->optional;
            &&& callee is Function
            &&& base == len - count
            &&& after.frames.len() == m.frames.len() + 1
            &&& after.frames.last().code == callee->code
            &&& after.frames.last().return_cursor == m.cursor
            &&& after.cursor == 0
            &&& after.stack.len() == base + params + callee->captured.len() + callee->locals
            &&& after.stack.take(len) == m.stack
            &&& after.stack.subrange(base, base + count) == m.stack.subrange(len - count, len)
            &&& after.stack.subrange(base + count, base + params) == nulls(
                (params - count) as nat,
            )
            &&& after.stack.subrange(base + params, base + params + callee->captured.len())
                == callee->captured
            &&& after.stack.subrange(
                base + params + callee->captured.len(),
                after.stack.len() as int,
            ) == nulls(callee->locals)
        }),
{
    let after = op_call(m, count)->Next_0;
    let len = m.stack.len() as int;
    let callee = m.stack[len - count - 1];
    let base = len - count;
    let params = callee->required + callee->optional;
    assert(after.stack.take(len) =~= m.stack);
    assert(after.stack.subrange(base, base + count) =~= m.stack.subrange(len - count, len));
    assert(after.stack.subrange(base + count, base + params) =~= nulls((params - count) as nat));
    assert(after.stack.subrange(base + params, base + params + callee->captured.len())
        =~= callee->captured);
    assert(after.stack.subrange(base + params + callee->captured.len(), after.stack.len() as int)
        =~= nulls(callee->locals));
}

/// A return leaves the caller's stack as it was below the function that was
/// called, with the result in the function's place.
pub proof fn lemma_return_restores(m: Machine, called: Machine, count: u16)
    requires
        op_call(m, count) is Next,
        op_return(called) is Next,
        called.frames == op_call(m, count)->Next_0.frames,
        called.stack.len() > m.stack.len(),
        called.stack.take(m.stack.len() as int) == m.stack,
    ensures
        ({
            let after = op_return(called)->Next_0;
            &&& after.frames == m.frames
            &&& after.cursor == m.cursor
            &&& after.stack == m.stack.take(m.stack.len() - count - 1).push(called.stack.last())
        }),
{
    let after = op_return(called)->Next_0;
    let len = m.stack.len() as int;
    let entered = op_call(m, count)->Next_0;
    assert(entered.frames.drop_last() =~= m.frames);
    let frame = called.frames.last();
    assert(frame.base_pointer == len - count);
    let rest = called.stack.drop_last();
    assert(rest.take(len - count) =~= m.stack.take(len - count)) by {
        assert(m.stack.take(len - count) =~= called.stack.take(len).take(len - count));
    }
    assert(rest.take(len - count).drop_last() =~= m.stack.take(len - count - 1));
    assert(after.stack =~= m.stack.take(len - count - 1).push(called.stack.last()));
}

} // verus!
