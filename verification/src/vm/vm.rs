//! The virtual machine.
//!
//! `step` carries out one instruction and `run` goes on until the program
//! ends, fails or needs the host: floating-point arithmetic is not done
//! here. When `run` returns `Status::NeedsFloat`, the host computes the
//! operation, hands the result to `resume` and calls `run` again.

use super::frame::{Frame, FrameView};
use super::model::{
    execute, execute_wide, initial, integers, nulls, op_binary, op_call, op_collect, op_const,
    op_equality, op_get_global, op_get_local, op_index, op_jump_not_match, op_jump_not_true,
    op_pop, op_pop_match, op_push_match, op_range, op_return, op_set_global, op_set_local,
    op_to_fn, op_unary, range_distance, range_values, resume, run, step, unset, Machine, Run,
    Step, MAX_FRAMES, STACK_SIZE,
};
use crate::buffer::{bytes_get_u16, bytes_get_u8, bytes_len, frozen_bytes};
use crate::code::code::{self, takes_operand, OpCode};
use crate::compiler::compiler::{constant_values, Bytecode};
use crate::error::RuntimeError;
use crate::object::math::{
    math_op, Computed, FloatAnswer, FloatRequest, ObjectMath,
};
use crate::object::object::{
    lemma_value_of_elements, lemma_values_of, share, values_of, BaseObject, Object, ObjectOps,
};
use crate::object::value::Value;
use std::rc::Rc;
use vstd::prelude::*;

verus! {

/// How the machine stands after `step` or `run`.
#[derive(Debug)]
pub enum Status {
    /// The program has not ended yet.
    Running,
    /// The program has ended; the result is the last value popped.
    Finished(Option<Object>),
    /// The machine waits for the host's answer to a floating-point request.
    NeedsFloat(FloatRequest),
}

/// The machine: its call stack, constants, global slots, match stack and
/// operand stack, the cursor in the running frame's code, and the value that
/// was popped last.
#[derive(Debug)]
pub struct VM {
    call_stack: Vec<Frame>,
    constants: Vec<Object>,
    globals: Vec<Option<Object>>,
    match_stack: Vec<Object>,
    stack: Vec<Object>,
    cursor: usize,
    last_pop: Option<Object>,
}

/// The value of a handle that may be missing.
pub open spec fn option_value(o: Option<Object>) -> Option<Value> {
    match o {
        Some(object) => Some(object@),
        None => None,
    }
}

/// The views of a sequence of frames.
pub open spec fn frame_views(frames: Seq<Frame>) -> Seq<FrameView> {
    Seq::new(frames.len(), |i: int| frames[i]@)
}

/// The values of a sequence of global slots.
pub open spec fn global_values(globals: Seq<Option<Object>>) -> Seq<Option<Value>> {
    Seq::new(globals.len(), |i: int| option_value(globals[i]))
}

/// Whether a result and the state reached are what an instruction leads to.
pub open spec fn follows(r: Result<Status, RuntimeError>, after: Machine, expected: Step) -> bool {
    match r {
        Ok(Status::Running) => expected == Step::Next(after),
        Ok(Status::Finished(result)) => expected == Step::Finished(option_value(result)),
        Ok(Status::NeedsFloat(request)) => expected == Step::Float(after, request),
        Err(e) => expected == Step::Failed(e),
    }
}

/// Whether a result and the state reached are how a run ends.
pub open spec fn ends(r: Result<Status, RuntimeError>, after: Machine, expected: Run) -> bool {
    match r {
        Ok(Status::Running) => expected == Run::Paused(after),
        Ok(Status::Finished(result)) => expected == Run::Finished(after, option_value(result)),
        Ok(Status::NeedsFloat(request)) => expected == Run::Float(after, request),
        Err(e) => expected == Run::Failed(e),
    }
}

impl View for VM {
    type V = Machine;

    closed spec fn view(&self) -> Machine {
        Machine {
            frames: frame_views(self.call_stack@),
            constants: values_of(self.constants@),
            globals: global_values(self.globals@),
            match_stack: values_of(self.match_stack@),
            stack: values_of(self.stack@),
            cursor: self.cursor as nat,
            last_pop: option_value(self.last_pop),
        }
    }
}

impl VM {
    /// The machine is well formed: a frame is running, the call stack is
    /// within its limit, and every return cursor is a position.
    pub closed spec fn wf(&self) -> bool {
        &&& 1 <= self.call_stack@.len() <= MAX_FRAMES
        &&& forall|i: int|
            0 <= i < self.call_stack@.len() ==> (#[trigger] self.call_stack@[i])@.return_cursor
                <= usize::MAX
    }

    /// A machine that is about to run the program.
    pub fn new(bytecode: Bytecode) -> (vm: VM)
        ensures
            vm.wf(),
            vm@ == initial(
                frozen_bytes(bytecode.instuctions),
                constant_values(bytecode.constants@),
                bytecode.global_count as nat,
            ),
    {
        let main_frame = Frame::new(Rc::new(bytecode.instuctions), 0, 0);
        let mut call_stack: Vec<Frame> = Vec::new();
        call_stack.push(main_frame);
        let constants = wrap_all(bytecode.constants);
        // every slot starts out unset, so that assignments can come in any order
        let mut globals: Vec<Option<Object>> = Vec::new();
        let mut i: usize = 0;
        while i < bytecode.global_count
            invariant
                i <= bytecode.global_count,
                globals@.len() == i,
                forall|k: int| 0 <= k < i ==> globals@[k] is None,
            decreases bytecode.global_count - i,
        {
            globals.push(None);
            i += 1;
        }
        let vm = VM {
            call_stack,
            constants,
            globals,
            match_stack: Vec::new(),
            stack: Vec::with_capacity(STACK_SIZE),
            cursor: 0,
            last_pop: None,
        };
        proof {
            let expected = initial(
                frozen_bytes(bytecode.instuctions),
                constant_values(bytecode.constants@),
                bytecode.global_count as nat,
            );
            assert(vm@.frames =~= expected.frames);
            assert(vm@.constants =~= expected.constants);
            assert(vm@.globals =~= expected.globals);
            assert(vm@.match_stack =~= expected.match_stack);
            assert(vm@.stack =~= expected.stack);
        }
        vm
    }

    /// The top of the operand stack.
    pub fn peek_top(&self) -> (top: Option<&Object>)
        ensures
            match top {
                Some(object) => self@.stack.len() > 0 && object@ == self@.stack.last(),
                None => self@.stack.len() == 0,
            },
    {
        if self.stack.len() == 0 {
            None
        } else {
            Some(&self.stack[self.stack.len() - 1])
        }
    }

    /// Runs the program until it ends, fails or needs the host, for at most
    /// `u64::MAX` instructions.
    pub fn run(&mut self) -> (r: Result<Status, RuntimeError>)
        requires
            old(self).wf(),
        ensures
            final(self).wf(),
            ends(r, final(self)@, run(old(self)@, u64::MAX as nat)),
    {
        self.run_steps(u64::MAX)
    }

    /// Runs the program until it ends, fails or needs the host, for at most
    /// `limit` instructions. `Status::Running` says that the limit was
    /// reached.
    pub fn run_steps(&mut self, limit: u64) -> (r: Result<Status, RuntimeError>)
        requires
            old(self).wf(),
        ensures
            final(self).wf(),
            ends(r, final(self)@, run(old(self)@, limit as nat)),
    {
        let mut remaining = limit;
        while remaining > 0
            invariant
                self.wf(),
                run(old(self)@, limit as nat) == run(self@, remaining as nat),
            decreases remaining,
        {
            match self.step() {
                Ok(Status::Running) => {},
                Ok(Status::Finished(result)) => {
                    return Ok(Status::Finished(result));
                },
                Ok(Status::NeedsFloat(request)) => {
                    return Ok(Status::NeedsFloat(request));
                },
                Err(e) => {
                    return Err(e);
                },
            }
            remaining -= 1;
        }
        Ok(Status::Running)
    }

    /// Pushes the host's answer to a floating-point request.
    pub fn resume(&mut self, answer: FloatAnswer)
        requires
            old(self).wf(),
        ensures
            final(self).wf(),
            final(self)@ == resume(old(self)@, answer),
    {
        let value = match answer {
            FloatAnswer::Number(bits) => BaseObject::Float(bits),
            FloatAnswer::Truth(b) => if b {
                BaseObject::True
            } else {
                BaseObject::False
            },
        };
        self.push(value.wrap());
    }

    /// Carries out the next instruction. At the end of the code the machine
    /// stays as it is.
    pub fn step(&mut self) -> (r: Result<Status, RuntimeError>)
        requires
            old(self).wf(),
        ensures
            final(self).wf(),
            follows(r, final(self)@, step(old(self)@)),
            r matches Ok(Status::Finished(_)) ==> final(self)@ == old(self)@,
    {
        let top = self.call_stack.len() - 1;
        let ins = self.call_stack[top].code();
        let len = bytes_len(ins);
        if self.cursor >= len {
            return Ok(
                Status::Finished(
                    match &self.last_pop {
                        Some(object) => Some(object.reference()),
                        None => None,
                    },
                ),
            );
        }
        let op = bytes_get_u8(ins, self.cursor);
        if is_wide(op) {
            if len - self.cursor < 3 {
                return Err(RuntimeError::InvalidBytecode);
            }
            let operand = bytes_get_u16(ins, self.cursor + 1);
            self.cursor = self.cursor + 3;
            self.execute_wide(op, operand)
        } else {
            self.cursor = self.cursor + 1;
            self.execute(op)
        }
    }

    fn execute_wide(&mut self, op: u8, operand: u16) -> (r: Result<Status, RuntimeError>)
        requires
            old(self).wf(),
        ensures
            final(self).wf(),
            follows(r, final(self)@, execute_wide(old(self)@, op, operand)),
    {
        proof {
            lemma_opcode_bytes();
        }
        if op == code::Const::VAL {
            self.op_const(operand)
        } else if op == code::SetGVar::VAL {
            self.op_set_global(operand)
        } else if op == code::GetGVar::VAL {
            self.op_get_global(operand)
        } else if op == code::ToTuple::VAL {
            self.op_collect(operand, false)
        } else if op == code::ToSet::VAL {
            self.op_collect(operand, true)
        } else if op == code::ToTupleRn::VAL {
            self.op_range(operand, false)
        } else if op == code::ToSetRn::VAL {
            self.op_range(operand, true)
        } else if op == code::SetLVar::VAL {
            self.op_set_local(operand)
        } else if op == code::GetLVar::VAL {
            self.op_get_local(operand)
        } else if op == code::ToFn::VAL {
            self.op_to_fn(operand)
        } else if op == code::Jump::VAL {
            self.cursor = operand as usize;
            Ok(Status::Running)
        } else if op == code::JumpNotTrue::VAL {
            self.op_jump_not_true(operand)
        } else if op == code::JumpNotMatch::VAL {
            self.op_jump_not_match(operand)
        } else if op == code::Call::VAL {
            self.op_call(operand)
        } else {
            Err(RuntimeError::InvalidBytecode)
        }
    }

    fn execute(&mut self, op: u8) -> (r: Result<Status, RuntimeError>)
        requires
            old(self).wf(),
        ensures
            final(self).wf(),
            follows(r, final(self)@, execute(old(self)@, op)),
    {
        proof {
            lemma_opcode_bytes();
        }
        if op == code::Null::VAL {
            self.push(BaseObject::Null.wrap());
            Ok(Status::Running)
        } else if op == code::True::VAL {
            self.push(BaseObject::True.wrap());
            Ok(Status::Running)
        } else if op == code::False::VAL {
            self.push(BaseObject::False.wrap());
            Ok(Status::Running)
        } else if op == code::Pop::VAL {
            self.op_pop()
        } else if op == code::PushMatch::VAL {
            self.op_push_match()
        } else if op == code::PopMatch::VAL {
            self.op_pop_match()
        } else if op == code::Index::VAL {
            self.op_index()
        } else if op == code::Return::VAL {
            self.op_return()
        } else if op == code::Eq::VAL {
            self.op_equality(false)
        } else if op == code::Neq::VAL {
            self.op_equality(true)
        } else if 200 <= op && op <= 223 {
            self.op_binary(op)
        } else if op == code::Negate::VAL {
            self.op_unary(false)
        } else if op == code::Not::VAL {
            self.op_unary(true)
        } else {
            Err(RuntimeError::InvalidBytecode)
        }
    }

    fn push(&mut self, object: Object)
        requires
            old(self).wf(),
        ensures
            final(self).wf(),
            final(self)@ == old(self)@.push(object@),
    {
        proof {
            lemma_values_of(self.stack@, Seq::empty(), object, 0, 0);
        }
        self.stack.push(object);
    }

    /// Takes the top `count` values off the operand stack, in the order in
    /// which they were pushed.
    fn take_top(&mut self, count: usize) -> (taken: Vec<Object>)
        requires
            old(self).wf(),
            count <= old(self)@.stack.len(),
        ensures
            final(self).wf(),
            final(self)@ == old(self)@.with_stack(
                old(self)@.stack.take(old(self)@.stack.len() - count),
            ),
            values_of(taken@) == old(self)@.stack.subrange(
                old(self)@.stack.len() - count,
                old(self)@.stack.len() as int,
            ),
    {
        let len = self.stack.len();
        proof {
            lemma_values_of(self.stack@, Seq::empty(), self.stack@[0], 0, len - count);
            lemma_values_of(self.stack@, Seq::empty(), self.stack@[0], len - count, len as int);
        }
        self.stack.split_off(len - count)
    }

    fn push_nulls(&mut self, count: usize)
        requires
            old(self).wf(),
        ensures
            final(self).wf(),
            final(self)@ == old(self)@.with_stack(old(self)@.stack + nulls(count as nat)),
    {
        let mut i: usize = 0;
        assert(old(self)@.stack + nulls(0) =~= old(self)@.stack);
        while i < count
            invariant
                self.wf(),
                i <= count,
                self@ == old(self)@.with_stack(old(self)@.stack + nulls(i as nat)),
            decreases count - i,
        {
            self.push(BaseObject::Null.wrap());
            assert(old(self)@.stack + nulls((i + 1) as nat) =~= (old(self)@.stack + nulls(
                i as nat,
            )).push(Value::Null));
            i += 1;
        }
    }

    fn push_all(&mut self, objects: &Vec<Object>)
        requires
            old(self).wf(),
        ensures
            final(self).wf(),
            final(self)@ == old(self)@.with_stack(old(self)@.stack + values_of(objects@)),
    {
        let mut i: usize = 0;
        assert(old(self)@.stack + values_of(objects@).take(0) =~= old(self)@.stack);
        while i < objects.len()
            invariant
                self.wf(),
                i <= objects@.len(),
                self@ == old(self)@.with_stack(
                    old(self)@.stack + values_of(objects@).take(i as int),
                ),
            decreases objects@.len() - i,
        {
            self.push(objects[i].reference());
            assert(old(self)@.stack + values_of(objects@).take(i + 1) =~= (old(self)@.stack
                + values_of(objects@).take(i as int)).push(objects@[i as int]@));
            i += 1;
        }
        assert(values_of(objects@).take(objects@.len() as int) =~= values_of(objects@));
    }

    fn op_const(&mut self, index: u16) -> (r: Result<Status, RuntimeError>)
        requires
            old(self).wf(),
        ensures
            final(self).wf(),
            follows(r, final(self)@, op_const(old(self)@, index)),
    {
        let ptr = index as usize;
        if ptr >= self.constants.len() {
            return Err(RuntimeError::InvalidBytecode);
        }
        let const_obj = self.constants[ptr].reference();
        self.push(const_obj);
        Ok(Status::Running)
    }

    fn op_pop(&mut self) -> (r: Result<Status, RuntimeError>)
        requires
            old(self).wf(),
        ensures
            final(self).wf(),
            follows(r, final(self)@, op_pop(old(self)@)),
    {
        proof {
            lemma_values_of(self.stack@, Seq::empty(), self.stack@[0], 0, self.stack@.len() - 1);
        }
        match self.stack.pop() {
            Some(object) => {
                self.last_pop = Some(object);
                Ok(Status::Running)
            },
            None => Err(RuntimeError::EmptyStack),
        }
    }

    fn op_set_global(&mut self, slot: u16) -> (r: Result<Status, RuntimeError>)
        requires
            old(self).wf(),
        ensures
            final(self).wf(),
            follows(r, final(self)@, op_set_global(old(self)@, slot)),
    {
        let ptr = slot as usize;
        if self.stack.len() == 0 {
            return Err(RuntimeError::EmptyStack);
        }
        if ptr >= self.globals.len() {
            return Err(RuntimeError::InvalidBytecode);
        }
        // the value stays on the stack: it is the value of the assignment
        let top = self.stack[self.stack.len() - 1].reference();
        self.globals[ptr] = Some(top);
        assert(self@.globals =~= old(self)@.globals.update(
            slot as int,
            Some(old(self)@.stack.last()),
        ));
        Ok(Status::Running)
    }

    fn op_get_global(&mut self, slot: u16) -> (r: Result<Status, RuntimeError>)
        requires
            old(self).wf(),
        ensures
            final(self).wf(),
            follows(r, final(self)@, op_get_global(old(self)@, slot)),
    {
        let ptr = slot as usize;
        if ptr >= self.globals.len() {
            return Err(RuntimeError::UninitVar);
        }
        let global = match &self.globals[ptr] {
            Some(object) => object.reference(),
            None => {
                return Err(RuntimeError::UninitVar);
            },
        };
        self.push(global);
        Ok(Status::Running)
    }

    fn base_pointer(&self) -> (pointer: usize)
        requires
            self.wf(),
        ensures
            pointer == self@.frames.last().base_pointer,
    {
        self.call_stack[self.call_stack.len() - 1].base_pointer()
    }

    fn op_set_local(&mut self, offset: u16) -> (r: Result<Status, RuntimeError>)
        requires
            old(self).wf(),
        ensures
            final(self).wf(),
            follows(r, final(self)@, op_set_local(old(self)@, offset)),
    {
        let stack_ptr = self.base_pointer();
        let len = self.stack.len();
        if len == 0 {
            return Err(RuntimeError::EmptyStack);
        }
        if stack_ptr >= len || offset as usize >= len - stack_ptr {
            return Err(RuntimeError::InvalidBytecode);
        }
        let top = self.stack[len - 1].reference();
        proof {
            lemma_values_of(self.stack@, Seq::empty(), top, stack_ptr + offset, 0);
        }
        self.stack[stack_ptr + offset as usize] = top;
        Ok(Status::Running)
    }

    fn op_get_local(&mut self, offset: u16) -> (r: Result<Status, RuntimeError>)
        requires
            old(self).wf(),
        ensures
            final(self).wf(),
            follows(r, final(self)@, op_get_local(old(self)@, offset)),
    {
        let stack_ptr = self.base_pointer();
        let len = self.stack.len();
        if stack_ptr >= len || offset as usize >= len - stack_ptr {
            return Err(RuntimeError::InvalidBytecode);
        }
        let value = self.stack[stack_ptr + offset as usize].reference();
        self.push(value);
        Ok(Status::Running)
    }

    fn op_collect(&mut self, count: u16, as_set: bool) -> (r: Result<Status, RuntimeError>)
        requires
            old(self).wf(),
        ensures
            final(self).wf(),
            follows(r, final(self)@, op_collect(old(self)@, count, as_set)),
    {
        let size = count as usize;
        if self.stack.len() < size {
            return Err(RuntimeError::EmptyStack);
        }
        let elements = self.take_top(size);
        let collection = if as_set {
            BaseObject::SetValue(elements)
        } else {
            BaseObject::Tuple(elements)
        };
        proof {
            lemma_value_of_elements(&collection);
        }
        self.push(collection.wrap());
        Ok(Status::Running)
    }

    fn op_range(&mut self, parts: u16, as_set: bool) -> (r: Result<Status, RuntimeError>)
        requires
            old(self).wf(),
        ensures
            final(self).wf(),
            follows(r, final(self)@, op_range(old(self)@, parts, as_set)),
    {
        let elements = match self.calculate_range(parts) {
            Ok(elements) => elements,
            Err(e) => {
                return Err(e);
            },
        };
        let collection = if as_set {
            BaseObject::SetValue(elements)
        } else {
            BaseObject::Tuple(elements)
        };
        proof {
            lemma_value_of_elements(&collection);
        }
        self.push(collection.wrap());
        Ok(Status::Running)
    }

    /// Takes the parts of a range off the stack and enumerates the range.
    fn calculate_range(&mut self, size: u16) -> (r: Result<Vec<Object>, RuntimeError>)
        requires
            old(self).wf(),
        ensures
            final(self).wf(),
            match r {
                Ok(elements) => op_range(old(self)@, size, false) == Step::Next(
                    final(self)@.push(Value::Tuple(values_of(elements@))),
                ) && op_range(old(self)@, size, true) == Step::Next(
                    final(self)@.push(Value::SetValue(values_of(elements@))),
                ),
                Err(e) => op_range(old(self)@, size, false) == Step::Failed(e) && op_range(
                    old(self)@,
                    size,
                    true,
                ) == Step::Failed(e),
            },
    {
        if size != 2 && size != 3 {
            return Err(RuntimeError::InvalidBytecode);
        }
        let len = self.stack.len();
        if len < size as usize {
            return Err(RuntimeError::EmptyStack);
        }
        let (start, end) = match (&*self.stack[len - 1].inner, &*self.stack[len - 2].inner) {
            (BaseObject::Integer(start), BaseObject::Integer(end)) => (*start, *end),
            _ => {
                return Err(RuntimeError::TypeError);
            },
        };
        // the step is what separates the first two elements
        let step: i128 = if size == 2 {
            1
        } else {
            match &*self.stack[len - 3].inner {
                BaseObject::Integer(second) => *second as i128 - start as i128,
                _ => {
                    return Err(RuntimeError::TypeError);
                },
            }
        };
        let _parts = self.take_top(size as usize);
        let values = enumerate_range(start, end, step);
        Ok(values)
    }

    fn op_to_fn(&mut self, count: u16) -> (r: Result<Status, RuntimeError>)
        requires
            old(self).wf(),
        ensures
            final(self).wf(),
            follows(r, final(self)@, op_to_fn(old(self)@, count)),
    {
        let locked_param_count = count as usize;
        let len = self.stack.len();
        if len < locked_param_count + 1 {
            return Err(RuntimeError::EmptyStack);
        }
        let func = self.stack[len - locked_param_count - 1].reference();
        proof {
            lemma_value_of_elements(&*func.inner);
        }
        match &*func.inner {
            BaseObject::Function { ins, locals, req_params, opt_params, .. } => {
                let locked_values = self.take_top(locked_param_count);
                let _constant = self.take_top(1);
                let closure = BaseObject::Function {
                    ins: share(ins),
                    locals: *locals,
                    req_params: *req_params,
                    opt_params: *opt_params,
                    locked_values,
                };
                proof {
                    lemma_value_of_elements(&closure);
                    assert(old(self)@.stack.take(len - count).take(len - count - 1)
                        =~= old(self)@.stack.take(len - count - 1));
                }
                self.push(closure.wrap());
                Ok(Status::Running)
            },
            _ => Err(RuntimeError::TypeError),
        }
    }

    fn op_push_match(&mut self) -> (r: Result<Status, RuntimeError>)
        requires
            old(self).wf(),
        ensures
            final(self).wf(),
            follows(r, final(self)@, op_push_match(old(self)@)),
    {
        proof {
            lemma_values_of(self.stack@, Seq::empty(), self.stack@[0], 0, self.stack@.len() - 1);
        }
        match self.stack.pop() {
            Some(val) => {
                proof {
                    lemma_values_of(self.match_stack@, Seq::empty(), val, 0, 0);
                }
                self.match_stack.push(val);
                Ok(Status::Running)
            },
            None => Err(RuntimeError::EmptyStack),
        }
    }

    fn op_pop_match(&mut self) -> (r: Result<Status, RuntimeError>)
        requires
            old(self).wf(),
        ensures
            final(self).wf(),
            follows(r, final(self)@, op_pop_match(old(self)@)),
    {
        proof {
            lemma_values_of(
                self.match_stack@,
                Seq::empty(),
                self.match_stack@[0],
                0,
                self.match_stack@.len() - 1,
            );
        }
        let _subject = self.match_stack.pop();
        Ok(Status::Running)
    }

    fn op_jump_not_true(&mut self, target: u16) -> (r: Result<Status, RuntimeError>)
        requires
            old(self).wf(),
        ensures
            final(self).wf(),
            follows(r, final(self)@, op_jump_not_true(old(self)@, target)),
    {
        proof {
            lemma_values_of(self.stack@, Seq::empty(), self.stack@[0], 0, self.stack@.len() - 1);
        }
        match self.stack.pop() {
            Some(top) => {
                if !top.truthy() {
                    self.cursor = target as usize;
                }
                Ok(Status::Running)
            },
            None => Err(RuntimeError::EmptyStack),
        }
    }

    fn op_jump_not_match(&mut self, target: u16) -> (r: Result<Status, RuntimeError>)
        requires
            old(self).wf(),
        ensures
            final(self).wf(),
            follows(r, final(self)@, op_jump_not_match(old(self)@, target)),
    {
        proof {
            lemma_values_of(self.stack@, Seq::empty(), self.stack@[0], 0, self.stack@.len() - 1);
        }
        match self.stack.pop() {
            Some(top) => {
                let matched = if self.match_stack.len() > 0 {
                    top.inner.equals(&self.match_stack[self.match_stack.len() - 1].inner)
                } else {
                    false
                };
                if !matched {
                    self.cursor = target as usize;
                }
                Ok(Status::Running)
            },
            None => Err(RuntimeError::EmptyStack),
        }
    }

    fn op_index(&mut self) -> (r: Result<Status, RuntimeError>)
        requires
            old(self).wf(),
        ensures
            final(self).wf(),
            follows(r, final(self)@, op_index(old(self)@)),
    {
        let len = self.stack.len();
        if len < 2 {
            return Err(RuntimeError::EmptyStack);
        }
        let element = match self.stack[len - 2].get_index(&self.stack[len - 1]) {
            Ok(element) => element,
            Err(e) => {
                return Err(e);
            },
        };
        let _operands = self.take_top(2);
        self.push(element);
        Ok(Status::Running)
    }

    fn op_call(&mut self, count: u16) -> (r: Result<Status, RuntimeError>)
        requires
            old(self).wf(),
        ensures
            final(self).wf(),
            follows(r, final(self)@, op_call(old(self)@, count)),
    {
        let arg_count = count as usize;
        let len = self.stack.len();
        if len < arg_count + 1 {
            return Err(RuntimeError::EmptyStack);
        }
        let fn_obj = self.stack[len - arg_count - 1].reference();
        proof {
            lemma_value_of_elements(&*fn_obj.inner);
        }
        match &*fn_obj.inner {
            BaseObject::Function { ins, locals, req_params, opt_params, locked_values } => {
                let total_passable_args = *req_params as usize + *opt_params as usize;
                if arg_count < *req_params as usize || arg_count > total_passable_args {
                    return Err(RuntimeError::ArityError);
                }
                if self.call_stack.len() >= MAX_FRAMES {
                    return Err(RuntimeError::StackOverflow);
                }
                let base_pointer = len - arg_count;
                // optional parameters that were not passed are null
                self.push_nulls(total_passable_args - arg_count);
                self.push_all(locked_values);
                // a null holds the place of each local
                self.push_nulls(*locals);
                let new_frame = Frame::new(share(ins), self.cursor as u64, base_pointer);
                self.call_stack.push(new_frame);
                self.cursor = 0;
                proof {
                    let expected = op_call(old(self)@, count)->Next_0;
                    assert(self@.frames =~= expected.frames);
                }
                Ok(Status::Running)
            },
            _ => Err(RuntimeError::TypeError),
        }
    }

    fn op_return(&mut self) -> (r: Result<Status, RuntimeError>)
        requires
            old(self).wf(),
        ensures
            final(self).wf(),
            follows(r, final(self)@, op_return(old(self)@)),
    {
        if self.call_stack.len() <= 1 {
            return Err(RuntimeError::InvalidBytecode);
        }
        let len = self.stack.len();
        if len == 0 {
            return Err(RuntimeError::EmptyStack);
        }
        let last_frame = self.call_stack.pop().unwrap();
        let return_value = self.stack.pop().unwrap();
        let base_pointer = last_frame.base_pointer();
        self.stack.truncate(base_pointer);
        // the function that was called lies below its arguments
        let _callee = self.stack.pop();
        self.stack.push(return_value);
        self.cursor = last_frame.return_cursor() as usize;
        proof {
            let expected = op_return(old(self)@)->Next_0;
            let before = old(self).stack@;
            let rest = before.drop_last();
            let cut = if base_pointer < rest.len() {
                rest.take(base_pointer as int)
            } else {
                rest
            };
            let below = if cut.len() > 0 {
                cut.drop_last()
            } else {
                cut
            };
            assert(self.stack@ =~= below.push(return_value));
            assert(self@.stack =~= expected.stack);
            assert(self@.frames =~= expected.frames);
        }
        Ok(Status::Running)
    }

    fn op_binary(&mut self, op: u8) -> (r: Result<Status, RuntimeError>)
        requires
            old(self).wf(),
        ensures
            final(self).wf(),
            follows(r, final(self)@, op_binary(old(self)@, op)),
    {
        let len = self.stack.len();
        if len < 2 {
            return Err(RuntimeError::EmptyStack);
        }
        let result = match math_op(&self.stack[len - 2].inner, &self.stack[len - 1].inner, op) {
            Ok(result) => result,
            Err(e) => {
                return Err(e);
            },
        };
        let _operands = self.take_top(2);
        match result {
            Computed::Value(value) => {
                self.push(value.wrap());
                Ok(Status::Running)
            },
            Computed::Float(request) => Ok(Status::NeedsFloat(request)),
        }
    }

    fn op_equality(&mut self, negated: bool) -> (r: Result<Status, RuntimeError>)
        requires
            old(self).wf(),
        ensures
            final(self).wf(),
            follows(r, final(self)@, op_equality(old(self)@, negated)),
    {
        let len = self.stack.len();
        if len < 2 {
            return Err(RuntimeError::EmptyStack);
        }
        let same = self.stack[len - 2].inner.equals(&self.stack[len - 1].inner);
        let _operands = self.take_top(2);
        let result = if same != negated {
            BaseObject::True
        } else {
            BaseObject::False
        };
        self.push(result.wrap());
        Ok(Status::Running)
    }

    fn op_unary(&mut self, logical: bool) -> (r: Result<Status, RuntimeError>)
        requires
            old(self).wf(),
        ensures
            final(self).wf(),
            follows(r, final(self)@, op_unary(old(self)@, logical)),
    {
        let len = self.stack.len();
        if len == 0 {
            return Err(RuntimeError::EmptyStack);
        }
        let result = if logical {
            self.stack[len - 1].inner.not()
        } else {
            self.stack[len - 1].inner.negate()
        };
        let value = match result {
            Ok(value) => value,
            Err(e) => {
                return Err(e);
            },
        };
        let _operand = self.take_top(1);
        self.push(value.wrap());
        Ok(Status::Running)
    }
}

/// Whether the opcode is followed by an operand.
fn is_wide(op: u8) -> (wide: bool)
    ensures
        wide == takes_operand(op),
{
    op == 0 || (4 <= op && op <= 12) || (23 <= op && op <= 25) || op == 103
}

/// The bytes of the opcodes that the machine carries out.
proof fn lemma_opcode_bytes()
    ensures
        code::Const::VAL == code::Const::byte(),
        code::Null::VAL == code::Null::byte(),
        code::True::VAL == code::True::byte(),
        code::False::VAL == code::False::byte(),
        code::SetGVar::VAL == code::SetGVar::byte(),
        code::GetGVar::VAL == code::GetGVar::byte(),
        code::ToTuple::VAL == code::ToTuple::byte(),
        code::ToSet::VAL == code::ToSet::byte(),
        code::ToTupleRn::VAL == code::ToTupleRn::byte(),
        code::ToSetRn::VAL == code::ToSetRn::byte(),
        code::SetLVar::VAL == code::SetLVar::byte(),
        code::GetLVar::VAL == code::GetLVar::byte(),
        code::ToFn::VAL == code::ToFn::byte(),
        code::Pop::VAL == code::Pop::byte(),
        code::PushMatch::VAL == code::PushMatch::byte(),
        code::PopMatch::VAL == code::PopMatch::byte(),
        code::Jump::VAL == code::Jump::byte(),
        code::JumpNotTrue::VAL == code::JumpNotTrue::byte(),
        code::JumpNotMatch::VAL == code::JumpNotMatch::byte(),
        code::Index::VAL == code::Index::byte(),
        code::Call::VAL == code::Call::byte(),
        code::Return::VAL == code::Return::byte(),
        code::Eq::VAL == code::Eq::byte(),
        code::Neq::VAL == code::Neq::byte(),
        code::Negate::VAL == code::Negate::byte(),
        code::Not::VAL == code::Not::byte(),
{
    code::Const::val_is_byte();
    code::Null::val_is_byte();
    code::True::val_is_byte();
    code::False::val_is_byte();
    code::SetGVar::val_is_byte();
    code::GetGVar::val_is_byte();
    code::ToTuple::val_is_byte();
    code::ToSet::val_is_byte();
    code::ToTupleRn::val_is_byte();
    code::ToSetRn::val_is_byte();
    code::SetLVar::val_is_byte();
    code::GetLVar::val_is_byte();
    code::ToFn::val_is_byte();
    code::Pop::val_is_byte();
    code::PushMatch::val_is_byte();
    code::PopMatch::val_is_byte();
    code::Jump::val_is_byte();
    code::JumpNotTrue::val_is_byte();
    code::JumpNotMatch::val_is_byte();
    code::Index::val_is_byte();
    code::Call::val_is_byte();
    code::Return::val_is_byte();
    code::Eq::val_is_byte();
    code::Neq::val_is_byte();
    code::Negate::val_is_byte();
    code::Not::val_is_byte();
}

/// Wraps each constant in a handle, keeping their order.
fn wrap_all(constants: Vec<BaseObject>) -> (objects: Vec<Object>)
    ensures
        values_of(objects@) == constant_values(constants@),
{
    let mut constants = constants;
    let ghost all = constants@;
    let mut reversed: Vec<Object> = Vec::new();
    while constants.len() > 0
        invariant
            constants@.len() + reversed@.len() == all.len(),
            constants@ == all.take(constants@.len() as int),
            forall|k: int|
                0 <= k < reversed@.len() ==> (#[trigger] reversed@[k])@ == all[all.len() - 1 - k]@,
        decreases constants@.len(),
    {
        let constant = constants.pop().unwrap();
        reversed.push(constant.wrap());
    }
    let mut objects: Vec<Object> = Vec::new();
    while reversed.len() > 0
        invariant
            objects@.len() + reversed@.len() == all.len(),
            forall|k: int|
                0 <= k < reversed@.len() ==> (#[trigger] reversed@[k])@ == all[all.len() - 1 - k]@,
            forall|k: int| 0 <= k < objects@.len() ==> (#[trigger] objects@[k])@ == all[k]@,
        decreases reversed@.len(),
    {
        let object = reversed.pop().unwrap();
        objects.push(object);
    }
    assert(values_of(objects@) =~= constant_values(all));
    objects
}

/// Enumerates a range: the integers from `start` toward `end` in steps of
/// `step`.
fn enumerate_range(start: i64, end: i64, step: i128) -> (values: Vec<Object>)
    requires
        -0x1_0000_0000_0000_0000 < step < 0x1_0000_0000_0000_0000,
    ensures
        values_of(values@) == integers(range_values(start as int, end as int, step as int)),
{
    let mut values: Vec<Object> = Vec::new();
    let mut x: i128 = start as i128;
    let limit: i128 = end as i128;
    let ghost all = range_values(start as int, end as int, step as int);
    assert(all.skip(0) =~= all);
    // A step of zero, or one that leads away from the end, would go on for
    // ever: such a range is empty.
    while !(step == 0 || (step > 0 && x > limit) || (step < 0 && x < limit))
        invariant
            limit == end,
            all == range_values(start as int, end as int, step as int),
            -0x1_0000_0000_0000_0000 < step < 0x1_0000_0000_0000_0000,
            -0x2_0000_0000_0000_0000 < x < 0x2_0000_0000_0000_0000,
            values@.len() <= all.len(),
            all.skip(values@.len() as int) == range_values(x as int, end as int, step as int),
            forall|k: int|
                0 <= k < values@.len() ==> (#[trigger] values@[k])@ == Value::Integer(all[k] as i64),
            i64::MIN <= x <= i64::MAX || step == 0 || (step > 0 && x > limit) || (step < 0 && x
                < limit),
        decreases range_distance(x as int, end as int, step as int),
    {
        let ghost rest = range_values(x as int, end as int, step as int);
        assert(rest.len() > 0 && rest[0] == x);
        assert(all[values@.len() as int] == all.skip(values@.len() as int)[0]);
        assert(rest.skip(1) =~= range_values(x + step, end as int, step as int));
        assert(all.skip(values@.len() as int + 1) =~= all.skip(values@.len() as int).skip(1));
        values.push(BaseObject::Integer(x as i64).wrap());
        x = x + step;
    }
    proof {
        assert(range_values(x as int, end as int, step as int) =~= Seq::<int>::empty());
        assert(values@.len() == all.len());
        assert(values_of(values@) =~= integers(all));
    }
    values
}

} // verus!
