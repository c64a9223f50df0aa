//! The compiler. It walks an expression tree and emits bytecode into the
//! instruction buffer of the current scope, collecting constants on the way.
//! Forward jumps are emitted with a placeholder operand and patched once
//! their target is known.

use super::decoding::{
    decodable, functions_whole, lemma_expr_decodable, lemma_list_decodable, whole,
};
use super::model::{
    binop_byte, compile_body, compile_cases, compile_expr, compile_former, compile_ident,
    compile_list, compile_store, emit, emit_const, enter, leave, load_all, patch, patch_all,
    preop_bytes, register, register_all, Compiled, CompilerState, MAX_CODE,
    MAX_CONSTANTS, PLACEHOLDER,
};
use super::symbols::{Scope, SymbolRegistry};
use crate::buffer::{
    be16, buffer_bytes, buffer_extend, buffer_freeze, buffer_len, buffer_new, buffer_put_u16,
    buffer_set, buffer_with_capacity, bytes_get_u8, bytes_len, frozen_bytes,
};
use crate::code::code::{self, OpCode, OpCodeMake, OpCodeMakeWithU16};
use crate::error::CompileError;
use crate::object::object::BaseObject;
use crate::object::value::{Value, FLOAT_SIGN};
use crate::parser::ast::{BinOp, Case, ExprST, Former, PreOp, Program, Selector, LHS};
use bytes::{Bytes, BytesMut};
use std::rc::Rc;
use vstd::prelude::*;

verus! {

/// A compiler: the constants collected so far, the names of the open scopes,
/// and the instructions of each open scope.
pub struct Compiler {
    constants: Vec<BaseObject>,
    symbol_map: SymbolRegistry,
    scopes: Vec<ScopeCtx>,
}

/// What a compiler has produced so far, borrowed from it.
pub struct BytecodeRef<'a> {
    pub instructions: &'a BytesMut,
    pub constants: &'a Vec<BaseObject>,
    pub global_count: usize,
}

/// A compiled program.
#[derive(Debug)]
pub struct Bytecode {
    pub instuctions: Bytes,
    pub constants: Vec<BaseObject>,
    pub global_count: usize,
}

struct ScopeCtx {
    pub instructions: BytesMut,
}

/// The values of a list of constants.
pub open spec fn constant_values(constants: Seq<BaseObject>) -> Seq<Value> {
    Seq::new(constants.len(), |i: int| constants[i]@)
}

/// The state of a new compiler: no constants, and the global scope with no
/// names and no instructions.
pub open spec fn initial_state() -> CompilerState {
    CompilerState {
        constants: Seq::empty(),
        symbols: seq![Seq::<Seq<char>>::empty()],
        scopes: seq![Seq::<u8>::empty()],
    }
}

/// Whether a result and the state reached are what compiling should give:
/// on success the state, on failure the error.
pub open spec fn agrees(
    r: Result<(), CompileError>,
    after: CompilerState,
    expected: Compiled,
) -> bool {
    match r {
        Ok(_) => expected == Ok::<CompilerState, CompileError>(after),
        Err(e) => expected == Err::<CompilerState, CompileError>(e),
    }
}

/// Whether a state continues another: the same scopes are open, and the
/// current scope has lost no instruction and no name, and the pool no
/// constant.
pub open spec fn extends(before: CompilerState, after: CompilerState) -> bool {
    &&& after.scopes.len() == before.scopes.len()
    &&& after.symbols.len() == before.symbols.len()
    &&& after.scopes.drop_last() == before.scopes.drop_last()
    &&& after.symbols.drop_last() == before.symbols.drop_last()
    &&& after.code().len() >= before.code().len()
    &&& after.symbols.last().len() >= before.symbols.last().len()
    &&& after.constants.len() >= before.constants.len()
}

/// Whether two states differ at most in the bytes of the current scope's
/// instructions, not in their number.
pub open spec fn same_but_code(before: CompilerState, after: CompilerState) -> bool {
    &&& after.constants == before.constants
    &&& after.symbols == before.symbols
    &&& after.scopes.len() == before.scopes.len()
    &&& after.scopes.drop_last() == before.scopes.drop_last()
    &&& after.code().len() == before.code().len()
}

impl View for Compiler {
    type V = CompilerState;

    closed spec fn view(&self) -> CompilerState {
        CompilerState {
            constants: constant_values(self.constants@),
            symbols: self.symbol_map.scopes(),
            scopes: Seq::new(
                self.scopes@.len(),
                |i: int| buffer_bytes(self.scopes@[i].instructions),
            ),
        }
    }
}

impl Compiler {
    /// The compiler is well formed: the registry is, every open scope has an
    /// instruction buffer, and the buffers and the pool are within their
    /// limits.
    pub closed spec fn wf(&self) -> bool {
        &&& self.symbol_map.wf()
        &&& self.scopes@.len() == self.symbol_map.scopes().len()
        &&& self.scopes@.len() >= 1
        &&& self.constants@.len() <= MAX_CONSTANTS
        &&& forall|i: int|
            0 <= i < self.scopes@.len() ==> buffer_bytes(
                #[trigger] self.scopes@[i].instructions,
            ).len() <= MAX_CODE
    }

    /// In a well-formed compiler as many scopes are open as instruction
    /// buffers, at least one, and nothing is over its limit.
    pub proof fn lemma_wf(&self)
        requires
            self.wf(),
        ensures
            self@.scopes.len() == self@.symbols.len(),
            self@.scopes.len() >= 1,
            self@.code().len() <= MAX_CODE,
            self@.constants.len() <= MAX_CONSTANTS,
            super::layout::well_scoped(self@),
    {
        self.symbol_map.lemma_wf_valid();
    }

    /// A compiler that has compiled nothing yet.
    pub fn new() -> (c: Compiler)
        ensures
            c.wf(),
            c@ == initial_state(),
            decodable(c@),
    {
        let global_scope = ScopeCtx { instructions: buffer_new() };
        let mut scopes: Vec<ScopeCtx> = Vec::new();
        scopes.push(global_scope);
        let c = Compiler { constants: Vec::new(), symbol_map: SymbolRegistry::new(), scopes };
        assert(c@.constants =~= initial_state().constants);
        assert(c@.scopes =~= initial_state().scopes);
        c
    }

    fn enter_scope(&mut self)
        requires
            old(self).wf(),
        ensures
            final(self).wf(),
            final(self)@ == enter(old(self)@),
    {
        let new_scope = ScopeCtx { instructions: buffer_new() };
        self.scopes.push(new_scope);
        self.symbol_map.enter_scope();
        assert(self@.scopes =~= enter(old(self)@).scopes);
    }

    fn leave_scope(&mut self) -> (r: (Bytes, usize))
        requires
            old(self).wf(),
            old(self)@.scopes.len() > 1,
        ensures
            final(self).wf(),
            final(self)@ == leave(old(self)@),
            frozen_bytes(r.0) == old(self)@.code(),
            r.1 == old(self)@.symbols.last().len(),
    {
        let local_count = self.symbol_map.size();
        let top_scope = self.scopes.pop().unwrap();
        self.symbol_map.exit_scope();
        assert(self@.scopes =~= leave(old(self)@).scopes);
        (buffer_freeze(top_scope.instructions), local_count)
    }

    fn ins_len(&self) -> (n: usize)
        requires
            self.wf(),
        ensures
            n == self@.code().len(),
            n <= MAX_CODE,
    {
        buffer_len(&self.scopes[self.scopes.len() - 1].instructions)
    }

    /// Compiles a program: each top-level expression, followed by `Pop`.
    pub fn compile_program(&mut self, node: Program) -> (r: Result<(), CompileError>)
        requires
            old(self).wf(),
        ensures
            final(self).wf(),
            agrees(r, final(self)@, compile_list(old(self)@, node.expressions@, 0, true)),
            r is Ok ==> extends(old(self)@, final(self)@),
            r is Ok && decodable(old(self)@) ==> decodable(final(self)@),
    {
        proof {
            self.lemma_wf();
            if decodable(self@) {
                lemma_list_decodable(self@, node.expressions@, true);
            }
        }
        self.compile_nodes(&node.expressions, true)
    }

    /// Compiles the expressions one after the other, each followed by `Pop`
    /// where `with_pop` says so.
    pub fn compile_expr_list(&mut self, exprs: Vec<ExprST>, with_pop: bool) -> (r: Result<
        (),
        CompileError,
    >)
        requires
            old(self).wf(),
        ensures
            final(self).wf(),
            agrees(r, final(self)@, compile_list(old(self)@, exprs@, 0, with_pop)),
            r is Ok ==> extends(old(self)@, final(self)@),
            r is Ok && decodable(old(self)@) ==> decodable(final(self)@),
    {
        proof {
            self.lemma_wf();
            if decodable(self@) {
                lemma_list_decodable(self@, exprs@, with_pop);
            }
        }
        self.compile_nodes(&exprs, with_pop)
    }

    /// Compiles an expression.
    pub fn compile_expr(&mut self, node: ExprST) -> (r: Result<(), CompileError>)
        requires
            old(self).wf(),
        ensures
            final(self).wf(),
            agrees(r, final(self)@, compile_expr(old(self)@, node)),
            r is Ok ==> extends(old(self)@, final(self)@),
            r is Ok && decodable(old(self)@) ==> decodable(final(self)@),
    {
        proof {
            self.lemma_wf();
            if decodable(self@) {
                lemma_expr_decodable(self@, node);
            }
        }
        self.compile_node(&node)
    }

    fn compile_nodes(&mut self, exprs: &Vec<ExprST>, with_pop: bool) -> (r: Result<
        (),
        CompileError,
    >)
        requires
            old(self).wf(),
        ensures
            final(self).wf(),
            agrees(r, final(self)@, compile_list(old(self)@, exprs@, 0, with_pop)),
            r is Ok ==> extends(old(self)@, final(self)@),
        decreases exprs, 0nat,
    {
        let mut i: usize = 0;
        while i < exprs.len()
            invariant
                self.wf(),
                i <= exprs@.len(),
                extends(old(self)@, self@),
                compile_list(old(self)@, exprs@, 0, with_pop) == compile_list(
                    self@,
                    exprs@,
                    i as int,
                    with_pop,
                ),
            decreases exprs@.len() - i,
        {
            match self.compile_node(&exprs[i]) {
                Ok(()) => {},
                Err(e) => {
                    return Err(e);
                },
            }
            if with_pop {
                match self.emit(&code::Pop.make()) {
                    Ok(()) => {},
                    Err(e) => {
                        return Err(e);
                    },
                }
            }
            i += 1;
        }
        Ok(())
    }

    /// Compiles the body of a function or of a case.
    fn compile_block(&mut self, exprs: &Vec<ExprST>, null_return: bool) -> (r: Result<
        (),
        CompileError,
    >)
        requires
            old(self).wf(),
        ensures
            final(self).wf(),
            agrees(r, final(self)@, compile_body(old(self)@, exprs@, 0, null_return)),
            r is Ok ==> extends(old(self)@, final(self)@),
        decreases exprs, 0nat,
    {
        let mut i: usize = 0;
        while i < exprs.len()
            invariant
                self.wf(),
                i <= exprs@.len(),
                extends(old(self)@, self@),
                compile_body(old(self)@, exprs@, 0, null_return) == compile_body(
                    self@,
                    exprs@,
                    i as int,
                    null_return,
                ),
            decreases exprs@.len() - i,
        {
            match self.compile_node(&exprs[i]) {
                Ok(()) => {},
                Err(e) => {
                    return Err(e);
                },
            }
            if i + 1 < exprs.len() || null_return {
                match self.emit(&code::Pop.make()) {
                    Ok(()) => {},
                    Err(e) => {
                        return Err(e);
                    },
                }
            }
            i += 1;
        }
        if exprs.len() == 0 || null_return {
            self.emit(&code::Null.make())
        } else {
            Ok(())
        }
    }

    fn compile_node(&mut self, node: &ExprST) -> (r: Result<(), CompileError>)
        requires
            old(self).wf(),
        ensures
            final(self).wf(),
            agrees(r, final(self)@, compile_expr(old(self)@, *node)),
            r is Ok ==> extends(old(self)@, final(self)@),
        decreases node, 2nat,
    {
        match node {
            ExprST::Null => self.emit(&code::Null.make()),
            ExprST::True => self.emit(&code::True.make()),
            ExprST::False => self.emit(&code::False.make()),
            ExprST::Integer(value) => self.push_const(BaseObject::Integer(*value)),
            ExprST::Float(bits) => self.push_const(BaseObject::Float(*bits)),
            ExprST::Ident(name) => self.compile_ident(name),
            ExprST::String(value) => self.push_const(BaseObject::String((*value).to_owned())),
            ExprST::TupleLiteral(former) => self.compile_former(
                former,
                code::ToTuple,
                code::ToTupleRn,
            ),
            ExprST::SetLiteral(former) => self.compile_former(former, code::ToSet, code::ToSetRn),
            ExprST::Infix { op, left, right } => self.compile_infix(
                *op,
                left,
                right,
                Ghost(*node),
            ),
            ExprST::Prefix { op, right } => self.compile_prefix(*op, right, Ghost(*node)),
            ExprST::Postfix { left, selector } => self.compile_postfix(
                left,
                selector,
                Ghost(*node),
            ),
            ExprST::Ternary { condition, consequence, alternative } => self.compile_ternary(
                condition,
                consequence,
                alternative,
                Ghost(*node),
            ),
            ExprST::Switch { input, cases } => match input {
                Some(expr) => self.compile_match_switch(expr, cases, Ghost(*node)),
                None => self.compile_bool_switch(cases),
            },
            ExprST::Assign { left, right } => self.compile_assignment(left, right, Ghost(*node)),
            ExprST::Function { req_params, opt_params, locked_params, body, null_return } => {
                self.compile_function(req_params, opt_params, locked_params, body, *null_return)
            },
            ExprST::Return(expr) => {
                match self.compile_node(expr) {
                    Ok(()) => {},
                    Err(e) => {
                        return Err(e);
                    },
                }
                self.emit(&code::Return.make())
            },
            _ => Err(CompileError::Unsupported),
        }
    }

    fn compile_infix(
        &mut self,
        op: BinOp,
        left: &ExprST,
        right: &ExprST,
        Ghost(node): Ghost<ExprST>,
    ) -> (r: Result<(), CompileError>)
        requires
            old(self).wf(),
            node == (ExprST::Infix { op, left: Box::new(*left), right: Box::new(*right) }),
        ensures
            final(self).wf(),
            agrees(r, final(self)@, compile_expr(old(self)@, node)),
            r is Ok ==> extends(old(self)@, final(self)@),
        decreases node, 1nat,
    {
        // `>` and `>=` are `<` and `<=` with the operands exchanged
        let (first, second) = match op {
            BinOp::GT | BinOp::GTEQ => (right, left),
            _ => (left, right),
        };
        match self.compile_node(first) {
            Ok(()) => {},
            Err(e) => {
                return Err(e);
            },
        }
        match self.compile_node(second) {
            Ok(()) => {},
            Err(e) => {
                return Err(e);
            },
        }
        self.emit_binop(op)
    }

    fn compile_prefix(&mut self, op: PreOp, right: &ExprST, Ghost(node): Ghost<ExprST>) -> (r:
        Result<(), CompileError>)
        requires
            old(self).wf(),
            node == (ExprST::Prefix { op, right: Box::new(*right) }),
        ensures
            final(self).wf(),
            agrees(r, final(self)@, compile_expr(old(self)@, node)),
            r is Ok ==> extends(old(self)@, final(self)@),
        decreases node, 1nat,
    {
        // the negation of a number literal is folded into the constant
        match (op, right) {
            (PreOp::Negate, ExprST::Integer(value)) => {
                let negated = if *value == i64::MIN {
                    *value
                } else {
                    -*value
                };
                self.push_const(BaseObject::Integer(negated))
            },
            (PreOp::Negate, ExprST::Float(bits)) => self.push_const(
                BaseObject::Float(*bits ^ FLOAT_SIGN),
            ),
            _ => {
                match self.compile_node(right) {
                    Ok(()) => {},
                    Err(e) => {
                        return Err(e);
                    },
                }
                self.emit_preop(op)
            },
        }
    }

    fn compile_postfix(
        &mut self,
        left: &ExprST,
        selector: &Selector,
        Ghost(node): Ghost<ExprST>,
    ) -> (r: Result<(), CompileError>)
        requires
            old(self).wf(),
            node == (ExprST::Postfix { left: Box::new(*left), selector: *selector }),
        ensures
            final(self).wf(),
            agrees(r, final(self)@, compile_expr(old(self)@, node)),
            r is Ok ==> extends(old(self)@, final(self)@),
        decreases node, 1nat,
    {
        match self.compile_node(left) {
            Ok(()) => {},
            Err(e) => {
                return Err(e);
            },
        }
        match selector {
            Selector::Index(index) => {
                match self.compile_node(index) {
                    Ok(()) => {},
                    Err(e) => {
                        return Err(e);
                    },
                }
                self.emit(&code::Index.make())
            },
            Selector::Call(args) => {
                if args.len() > 65535 {
                    return Err(CompileError::TooLarge);
                }
                let arg_count = args.len() as u16;
                match self.compile_nodes(args, false) {
                    Ok(()) => {},
                    Err(e) => {
                        return Err(e);
                    },
                }
                self.emit(&code::Call.make(arg_count))
            },
            _ => Err(CompileError::Unsupported),
        }
    }

    fn compile_ternary(
        &mut self,
        condition: &ExprST,
        consequence: &ExprST,
        alternative: &ExprST,
        Ghost(node): Ghost<ExprST>,
    ) -> (r: Result<(), CompileError>)
        requires
            old(self).wf(),
            node == (ExprST::Ternary {
                condition: Box::new(*condition),
                consequence: Box::new(*consequence),
                alternative: Box::new(*alternative),
            }),
        ensures
            final(self).wf(),
            agrees(r, final(self)@, compile_expr(old(self)@, node)),
            r is Ok ==> extends(old(self)@, final(self)@),
        decreases node, 1nat,
    {
        match self.compile_node(condition) {
            Ok(()) => {},
            Err(e) => {
                return Err(e);
            },
        }
        let jnt_operand_ptr = self.ins_len() + 1;
        match self.emit(&code::JumpNotTrue.make(u16::MAX)) {
            Ok(()) => {},
            Err(e) => {
                return Err(e);
            },
        }
        match self.compile_node(consequence) {
            Ok(()) => {},
            Err(e) => {
                return Err(e);
            },
        }
        let jump_operand_ptr = self.ins_len() + 1;
        match self.emit(&code::Jump.make(u16::MAX)) {
            Ok(()) => {},
            Err(e) => {
                return Err(e);
            },
        }
        let jnt_location = self.cur_ip();
        match self.compile_node(alternative) {
            Ok(()) => {},
            Err(e) => {
                return Err(e);
            },
        }
        self.overwrite_u16(jnt_operand_ptr, jnt_location);
        let end = self.cur_ip();
        self.overwrite_u16(jump_operand_ptr, end);
        Ok(())
    }

    fn compile_assignment(&mut self, left: &LHS, right: &ExprST, Ghost(node): Ghost<ExprST>) -> (r:
        Result<(), CompileError>)
        requires
            old(self).wf(),
            node == (ExprST::Assign { left: *left, right: Box::new(*right) }),
        ensures
            final(self).wf(),
            agrees(r, final(self)@, compile_expr(old(self)@, node)),
            r is Ok ==> extends(old(self)@, final(self)@),
        decreases node, 1nat,
    {
        match self.compile_node(right) {
            Ok(()) => {},
            Err(e) => {
                return Err(e);
            },
        }
        match left {
            LHS::Ident { target, selectors } => {
                if selectors.len() > 0 {
                    return Err(CompileError::Unsupported);
                }
                self.compile_assign(target)
            },
            LHS::Tilde => Err(CompileError::InvalidLHS),
            LHS::List(_) => Err(CompileError::Unsupported),
        }
    }

    fn compile_function(
        &mut self,
        req_params: &Vec<&str>,
        opt_params: &Vec<&str>,
        locked_params: &Vec<&str>,
        body: &Vec<ExprST>,
        null_return: bool,
    ) -> (r: Result<(), CompileError>)
        requires
            old(self).wf(),
        ensures
            final(self).wf(),
            agrees(
                r,
                final(self)@,
                compile_expr(
                    old(self)@,
                    ExprST::Function {
                        req_params: *req_params,
                        opt_params: *opt_params,
                        locked_params: *locked_params,
                        body: *body,
                        null_return,
                    },
                ),
            ),
            r is Ok ==> extends(old(self)@, final(self)@),
        decreases body, 1nat,
    {
        if req_params.len() > 65535 || opt_params.len() > 65535 || locked_params.len() > 65535 {
            return Err(CompileError::TooLarge);
        }
        let param_count = req_params.len() + opt_params.len() + locked_params.len();
        if param_count > 65535 {
            return Err(CompileError::TooLarge);
        }
        proof {
            old(self).lemma_wf();
        }
        self.enter_scope();
        let ghost entered = self@;
        assert(entered.scopes.drop_last() =~= old(self)@.scopes);
        assert(entered.symbols.drop_last() =~= old(self)@.symbols);
        match self.register_names(req_params) {
            Ok(()) => {},
            Err(e) => {
                return Err(e);
            },
        }
        match self.register_names(opt_params) {
            Ok(()) => {},
            Err(e) => {
                return Err(e);
            },
        }
        match self.register_names(locked_params) {
            Ok(()) => {},
            Err(e) => {
                return Err(e);
            },
        }
        if self.symbol_map.size() != param_count {
            return Err(CompileError::DuplicateParam);
        }
        match self.compile_block(body, null_return) {
            Ok(()) => {},
            Err(e) => {
                return Err(e);
            },
        }
        match self.emit(&code::Return.make()) {
            Ok(()) => {},
            Err(e) => {
                return Err(e);
            },
        }
        let (func_code, local_count) = self.leave_scope();
        assert(self@.scopes == old(self)@.scopes);
        assert(self@.symbols == old(self)@.symbols);
        let req_count = req_params.len() as u16;
        let opt_count = opt_params.len() as u16;
        let locked_count = locked_params.len() as u16;
        // The constant holds no captured values: `ToFn` attaches them when the
        // function value is built.
        let constant = BaseObject::Function {
            ins: Rc::new(func_code),
            locals: local_count - param_count,
            req_params: req_count,
            opt_params: opt_count,
            locked_values: Vec::new(),
        };
        proof {
            crate::object::object::lemma_value_of_elements(&constant);
            assert(constant@->captured =~= Seq::<Value>::empty());
        }
        match self.push_const(constant) {
            Ok(()) => {},
            Err(e) => {
                return Err(e);
            },
        }
        match self.load_names(locked_params) {
            Ok(()) => {},
            Err(e) => {
                return Err(e);
            },
        }
        self.emit(&code::ToFn.make(locked_count))
    }

    fn register_names(&mut self, names: &Vec<&str>) -> (r: Result<(), CompileError>)
        requires
            old(self).wf(),
        ensures
            final(self).wf(),
            agrees(r, final(self)@, register_all(old(self)@, names@, 0)),
            r is Ok ==> extends(old(self)@, final(self)@),
            final(self)@.scopes == old(self)@.scopes,
            final(self)@.constants == old(self)@.constants,
    {
        let mut i: usize = 0;
        while i < names.len()
            invariant
                self.wf(),
                i <= names@.len(),
                extends(old(self)@, self@),
                self@.scopes == old(self)@.scopes,
                self@.constants == old(self)@.constants,
                register_all(old(self)@, names@, 0) == register_all(self@, names@, i as int),
            decreases names@.len() - i,
        {
            let ghost before = self@;
            proof {
                self.symbol_map.lemma_wf_valid();
            }
            match self.symbol_map.register(names[i]) {
                Ok(_) => {
                    proof {
                        crate::compiler::symbols::lemma_with_name_valid(
                            before.symbols,
                            names@[i as int]@,
                        );
                        assert(self@ == register(before, names@[i as int]@)->Ok_0);
                        assert(self@.symbols.drop_last() =~= before.symbols.drop_last());
                    }
                },
                Err(e) => {
                    return Err(e);
                },
            }
            i += 1;
        }
        Ok(())
    }

    fn load_names(&mut self, names: &Vec<&str>) -> (r: Result<(), CompileError>)
        requires
            old(self).wf(),
        ensures
            final(self).wf(),
            agrees(r, final(self)@, load_all(old(self)@, names@, 0)),
            r is Ok ==> extends(old(self)@, final(self)@),
    {
        let mut i: usize = 0;
        while i < names.len()
            invariant
                self.wf(),
                i <= names@.len(),
                extends(old(self)@, self@),
                load_all(old(self)@, names@, 0) == load_all(self@, names@, i as int),
            decreases names@.len() - i,
        {
            match self.compile_ident(names[i]) {
                Ok(()) => {},
                Err(e) => {
                    return Err(e);
                },
            }
            i += 1;
        }
        Ok(())
    }

    /// What the compiler has produced so far.
    pub fn check(&self) -> (bytecode: BytecodeRef)
        requires
            self.wf(),
        ensures
            buffer_bytes(*bytecode.instructions) == self@.code(),
            constant_values(bytecode.constants@) == self@.constants,
            bytecode.global_count == self@.symbols.last().len(),
    {
        BytecodeRef {
            instructions: &self.scopes[self.scopes.len() - 1].instructions,
            constants: &self.constants,
            global_count: self.symbol_map.size(),
        }
    }

    /// The compiled program: the instructions of the current scope, the
    /// constants, and the number of names in the current scope.
    pub fn finish(self) -> (bytecode: Bytecode)
        requires
            self.wf(),
        ensures
            frozen_bytes(bytecode.instuctions) == self@.code(),
            constant_values(bytecode.constants@) == self@.constants,
            bytecode.global_count == self@.symbols.last().len(),
            decodable(self@) ==> whole(
                frozen_bytes(bytecode.instuctions),
                0,
                frozen_bytes(bytecode.instuctions).len() as int,
            ) && functions_whole(constant_values(bytecode.constants@)),
    {
        let global_count = self.symbol_map.size();
        let mut scopes = self.scopes;
        let instructions = scopes.pop().unwrap().instructions;
        Bytecode {
            instuctions: buffer_freeze(instructions),
            constants: self.constants,
            global_count,
        }
    }

    fn cur_ip(&self) -> (ip: u16)
        requires
            self.wf(),
        ensures
            ip == self@.code().len(),
    {
        self.ins_len() as u16
    }

    fn emit(&mut self, bytes: &Bytes) -> (r: Result<(), CompileError>)
        requires
            old(self).wf(),
        ensures
            final(self).wf(),
            agrees(r, final(self)@, emit(old(self)@, frozen_bytes(*bytes))),
            r is Ok ==> extends(old(self)@, final(self)@),
            r is Ok ==> final(self)@.symbols == old(self)@.symbols && final(self)@.constants
                == old(self)@.constants,
    {
        let len = self.ins_len();
        let extra = bytes_len(bytes);
        if extra > MAX_CODE || len + extra > MAX_CODE {
            return Err(CompileError::TooLarge);
        }
        let top = self.scopes.len() - 1;
        buffer_extend(&mut self.scopes[top].instructions, bytes);
        proof {
            let expected = emit(old(self)@, frozen_bytes(*bytes))->Ok_0;
            assert(self@.scopes =~= expected.scopes);
            assert(self@.scopes.drop_last() =~= old(self)@.scopes.drop_last());
            assert forall|i: int| 0 <= i < self.scopes@.len() implies buffer_bytes(
                #[trigger] self.scopes@[i].instructions,
            ).len() <= MAX_CODE by {
                if i < top {
                    assert(self.scopes@[i] == old(self).scopes@[i]);
                }
            }
        }
        Ok(())
    }

    fn emit_const(&mut self, const_ptr: usize) -> (r: Result<(), CompileError>)
        requires
            old(self).wf(),
            const_ptr <= u16::MAX,
        ensures
            final(self).wf(),
            agrees(r, final(self)@, emit(old(self)@, code::Const.encoding(const_ptr as u16))),
            r is Ok ==> extends(old(self)@, final(self)@),
    {
        self.emit(&code::Const.make(const_ptr as u16))
    }

    fn emit_binop(&mut self, binop: BinOp) -> (r: Result<(), CompileError>)
        requires
            old(self).wf(),
        ensures
            final(self).wf(),
            agrees(r, final(self)@, emit(old(self)@, seq![binop_byte(binop)])),
            r is Ok ==> extends(old(self)@, final(self)@),
    {
        let bytes = match binop {
            BinOp::NullCoal => code::NullCoal.make(),
            BinOp::TupleStart => code::TupleStart.make(),
            BinOp::Exp => code::Exp.make(),
            BinOp::Mult => code::Mult.make(),
            BinOp::Inter => code::Inter.make(),
            BinOp::Div => code::Div.make(),
            BinOp::Mod => code::Mod.make(),
            BinOp::IntDiv => code::IntDiv.make(),
            BinOp::Add => code::Add.make(),
            BinOp::Subtract => code::Subtract.make(),
            BinOp::With => code::With.make(),
            BinOp::Less => code::Less.make(),
            BinOp::Union => code::Union.make(),
            BinOp::In => code::In.make(),
            BinOp::Notin => code::Notin.make(),
            BinOp::Subset => code::Subset.make(),
            BinOp::LT => code::Lt.make(),
            BinOp::LTEQ => code::Lteq.make(),
            BinOp::GT => code::Lt.make(),
            BinOp::GTEQ => code::Lteq.make(),
            BinOp::EQ => code::Eq.make(),
            BinOp::NEQ => code::Neq.make(),
            BinOp::And => code::And.make(),
            BinOp::Or => code::Or.make(),
            BinOp::Impl => code::Impl.make(),
            BinOp::Iff => code::Iff.make(),
        };
        self.emit(&bytes)
    }

    fn emit_preop(&mut self, preop: PreOp) -> (r: Result<(), CompileError>)
        requires
            old(self).wf(),
        ensures
            final(self).wf(),
            agrees(r, final(self)@, emit(old(self)@, preop_bytes(preop))),
            r is Ok ==> extends(old(self)@, final(self)@),
    {
        match preop {
            PreOp::Id => {
                // the identity emits nothing
                proof {
                    old(self).lemma_wf();
                    assert(old(self)@.code() + Seq::<u8>::empty() =~= old(self)@.code());
                    assert(old(self)@.scopes.update(
                        old(self)@.scopes.len() - 1,
                        old(self)@.code(),
                    ) =~= old(self)@.scopes);
                }
                Ok(())
            },
            PreOp::Negate => self.emit(&code::Negate.make()),
            PreOp::DynVar => self.emit(&code::DynVar.make()),
            PreOp::Size => self.emit(&code::Size.make()),
            PreOp::Not => self.emit(&code::Not.make()),
        }
    }

    fn add_const(&mut self, constant: BaseObject) -> (r: Result<usize, CompileError>)
        requires
            old(self).wf(),
        ensures
            final(self).wf(),
            match r {
                Ok(ptr) => {
                    &&& ptr == old(self)@.constants.len()
                    &&& ptr < MAX_CONSTANTS
                    &&& final(self)@ == CompilerState {
                        constants: old(self)@.constants.push(constant@),
                        ..old(self)@
                    }
                },
                Err(e) => {
                    &&& e == CompileError::TooLarge
                    &&& old(self)@.constants.len() >= MAX_CONSTANTS
                    &&& final(self)@ == old(self)@
                },
            },
    {
        if self.constants.len() >= MAX_CONSTANTS {
            return Err(CompileError::TooLarge);
        }
        self.constants.push(constant);
        assert(self@.constants =~= old(self)@.constants.push(constant@));
        Ok(self.constants.len() - 1)
    }

    /// Adds a constant and emits the instruction that pushes it.
    fn push_const(&mut self, constant: BaseObject) -> (r: Result<(), CompileError>)
        requires
            old(self).wf(),
        ensures
            final(self).wf(),
            agrees(r, final(self)@, emit_const(old(self)@, constant@)),
            r is Ok ==> extends(old(self)@, final(self)@),
    {
        match self.add_const(constant) {
            Ok(const_ptr) => self.emit_const(const_ptr),
            Err(e) => Err(e),
        }
    }

    fn overwrite(&mut self, at: usize, value: Bytes)
        requires
            old(self).wf(),
            at + frozen_bytes(value).len() <= old(self)@.code().len(),
        ensures
            final(self).wf(),
            final(self)@.constants == old(self)@.constants,
            final(self)@.symbols == old(self)@.symbols,
            final(self)@.scopes.len() == old(self)@.scopes.len(),
            final(self)@.code().len() == old(self)@.code().len(),
            forall|i: int|
                0 <= i < final(self)@.scopes.len() - 1 ==> final(self)@.scopes[i] == old(
                    self,
                )@.scopes[i],
            forall|i: int|
                0 <= i < old(self)@.code().len() ==> final(self)@.code()[i] == if at <= i < at
                    + frozen_bytes(value).len() {
                    frozen_bytes(value)[i - at]
                } else {
                    old(self)@.code()[i]
                },
    {
        let top = self.scopes.len() - 1;
        let count = bytes_len(&value);
        let mut i: usize = 0;
        while i < count
            invariant
                self.wf(),
                i <= count,
                top == self.scopes@.len() - 1,
                self.scopes@.len() == old(self).scopes@.len(),
                count == frozen_bytes(value).len(),
                at + count <= old(self)@.code().len(),
                self@.constants == old(self)@.constants,
                self@.symbols == old(self)@.symbols,
                self@.code().len() == old(self)@.code().len(),
                forall|k: int|
                    0 <= k < self@.scopes.len() - 1 ==> self@.scopes[k] == old(self)@.scopes[k],
                forall|k: int|
                    0 <= k < old(self)@.code().len() ==> self@.code()[k] == if at <= k < at + i {
                        frozen_bytes(value)[k - at]
                    } else {
                        old(self)@.code()[k]
                    },
            decreases count - i,
        {
            let ghost before = *self;
            let byte = bytes_get_u8(&value, i);
            buffer_set(&mut self.scopes[top].instructions, at + i, byte);
            proof {
                assert forall|k: int| 0 <= k < self.scopes@.len() implies buffer_bytes(
                    #[trigger] self.scopes@[k].instructions,
                ).len() <= MAX_CODE by {
                    if k < top {
                        assert(self.scopes@[k] == before.scopes@[k]);
                    }
                }
                assert forall|k: int| 0 <= k < self@.scopes.len() - 1 implies self@.scopes[k]
                    == old(self)@.scopes[k] by {
                    assert(self.scopes@[k] == before.scopes@[k]);
                    assert(before@.scopes[k] == old(self)@.scopes[k]);
                }
            }
            i += 1;
        }
    }

    fn overwrite_u16(&mut self, at: usize, value: u16)
        requires
            old(self).wf(),
            at + 2 <= old(self)@.code().len(),
        ensures
            final(self).wf(),
            final(self)@ == patch(old(self)@, at as int, value as int),
            same_but_code(old(self)@, final(self)@),
    {
        let mut bytes = buffer_with_capacity(2);
        buffer_put_u16(&mut bytes, value);
        assert(buffer_bytes(bytes) =~= be16(value));
        self.overwrite(at, buffer_freeze(bytes));
        proof {
            let expected = patch(old(self)@, at as int, value as int);
            assert(self@.code() =~= expected.code());
            assert(self@.scopes =~= expected.scopes);
            assert(self@.scopes.drop_last() =~= old(self)@.scopes.drop_last());
        }
    }

    fn overwrite_all(&mut self, ats: &Vec<usize>, value: u16)
        requires
            old(self).wf(),
            forall|i: int| 0 <= i < ats@.len() ==> #[trigger] ats@[i] + 2 <= old(self)@.code().len(),
        ensures
            final(self).wf(),
            final(self)@ == patch_all(old(self)@, ats@.map_values(|at: usize| at as int), value as int),
            same_but_code(old(self)@, final(self)@),
    {
        let ghost targets = ats@.map_values(|at: usize| at as int);
        let mut i: usize = 0;
        assert(targets.skip(0) =~= targets);
        while i < ats.len()
            invariant
                self.wf(),
                i <= ats@.len(),
                targets == ats@.map_values(|at: usize| at as int),
                same_but_code(old(self)@, self@),
                forall|k: int| 0 <= k < ats@.len() ==> #[trigger] ats@[k] + 2 <= old(self)@.code().len(),
                patch_all(old(self)@, targets, value as int) == patch_all(
                    self@,
                    targets.skip(i as int),
                    value as int,
                ),
            decreases ats@.len() - i,
        {
            proof {
                assert(targets.skip(i as int)[0] == ats@[i as int] as int);
                assert(targets.skip(i as int).drop_first() =~= targets.skip(i as int + 1));
                self.lemma_wf();
            }
            self.overwrite_u16(ats[i], value);
            i += 1;
        }
    }

    fn compile_ident(&mut self, name: &str) -> (r: Result<(), CompileError>)
        requires
            old(self).wf(),
        ensures
            final(self).wf(),
            agrees(r, final(self)@, compile_ident(old(self)@, name@)),
            r is Ok ==> extends(old(self)@, final(self)@),
    {
        let (scope, index) = match self.symbol_map.lookup(name) {
            Some(sym) => (sym.scope, sym.index),
            None => {
                return Err(CompileError::UndefinedIdent);
            },
        };
        match scope {
            Scope::GLOBAL => self.emit(&code::GetGVar.make(index)),
            Scope::LOCAL => self.emit(&code::GetLVar.make(index)),
        }
    }

    fn compile_assign(&mut self, target: &str) -> (r: Result<(), CompileError>)
        requires
            old(self).wf(),
        ensures
            final(self).wf(),
            agrees(r, final(self)@, compile_store(old(self)@, target@)),
            r is Ok ==> extends(old(self)@, final(self)@),
    {
        proof {
            self.symbol_map.lemma_wf_valid();
        }
        let sym = match self.symbol_map.register(target) {
            Ok(sym) => sym,
            Err(e) => {
                return Err(e);
            },
        };
        proof {
            crate::compiler::symbols::lemma_with_name_valid(old(self)@.symbols, target@);
            assert(self@ == register(old(self)@, target@)->Ok_0);
            assert(self@.symbols.drop_last() =~= old(self)@.symbols.drop_last());
        }
        match sym.scope {
            Scope::GLOBAL => self.emit(&code::SetGVar.make(sym.index)),
            Scope::LOCAL => self.emit(&code::SetLVar.make(sym.index)),
        }
    }

    fn compile_match_switch(
        &mut self,
        input: &ExprST,
        cases: &Vec<Case>,
        Ghost(node): Ghost<ExprST>,
    ) -> (r: Result<(), CompileError>)
        requires
            old(self).wf(),
            node == (ExprST::Switch { input: Some(Box::new(*input)), cases: *cases }),
        ensures
            final(self).wf(),
            agrees(r, final(self)@, compile_expr(old(self)@, node)),
            r is Ok ==> extends(old(self)@, final(self)@),
        decreases node, 1nat,
    {
        match self.compile_node(input) {
            Ok(()) => {},
            Err(e) => {
                return Err(e);
            },
        }
        match self.emit(&code::PushMatch.make()) {
            Ok(()) => {},
            Err(e) => {
                return Err(e);
            },
        }
        match self.compile_switch_cases(cases, code::JumpNotMatch.make(u16::MAX)) {
            Ok(()) => {},
            Err(e) => {
                return Err(e);
            },
        }
        self.emit(&code::PopMatch.make())
    }

    fn compile_bool_switch(&mut self, cases: &Vec<Case>) -> (r: Result<(), CompileError>)
        requires
            old(self).wf(),
        ensures
            final(self).wf(),
            agrees(
                r,
                final(self)@,
                compile_cases(old(self)@, cases@, 0, code::JumpNotTrue::byte(), None, Seq::empty()),
            ),
            r is Ok ==> extends(old(self)@, final(self)@),
        decreases cases, 1nat,
    {
        self.compile_switch_cases(cases, code::JumpNotTrue.make(u16::MAX))
    }

    fn compile_switch_cases(&mut self, cases: &Vec<Case>, cond_jump_bytes: Bytes) -> (r: Result<
        (),
        CompileError,
    >)
        requires
            old(self).wf(),
            frozen_bytes(cond_jump_bytes).len() == 3,
            frozen_bytes(cond_jump_bytes) == seq![frozen_bytes(cond_jump_bytes)[0]] + be16(
                PLACEHOLDER,
            ),
        ensures
            final(self).wf(),
            agrees(
                r,
                final(self)@,
                compile_cases(
                    old(self)@,
                    cases@,
                    0,
                    frozen_bytes(cond_jump_bytes)[0],
                    None,
                    Seq::empty(),
                ),
            ),
            r is Ok ==> extends(old(self)@, final(self)@),
        decreases cases, 0nat,
    {
        let mut jmp_operand_ptrs: Vec<usize> = Vec::new();
        let mut last_cond_jump_operand_ptr: Option<usize> = None;
        let ghost jump_byte = frozen_bytes(cond_jump_bytes)[0];
        let mut i: usize = 0;
        assert(jmp_operand_ptrs@.map_values(|at: usize| at as int) =~= Seq::<int>::empty());
        while i < cases.len()
            invariant
                self.wf(),
                i <= cases@.len(),
                extends(old(self)@, self@),
                jump_byte == frozen_bytes(cond_jump_bytes)[0],
                frozen_bytes(cond_jump_bytes).len() == 3,
                frozen_bytes(cond_jump_bytes) == seq![jump_byte] + be16(PLACEHOLDER),
                forall|k: int|
                    0 <= k < jmp_operand_ptrs@.len() ==> #[trigger] jmp_operand_ptrs@[k] + 2
                        <= self@.code().len(),
                last_cond_jump_operand_ptr matches Some(at) ==> at + 2 <= self@.code().len(),
                compile_cases(old(self)@, cases@, 0, jump_byte, None, Seq::empty())
                    == compile_cases(
                    self@,
                    cases@,
                    i as int,
                    jump_byte,
                    match last_cond_jump_operand_ptr {
                        Some(at) => Some(at as int),
                        None => None,
                    },
                    jmp_operand_ptrs@.map_values(|at: usize| at as int),
                ),
            decreases cases@.len() - i,
        {
            let ghost exits = jmp_operand_ptrs@.map_values(|at: usize| at as int);
            if let Some(ptr) = last_cond_jump_operand_ptr {
                let ip = self.cur_ip();
                self.overwrite_u16(ptr, ip);
            }
            let case = &cases[i];
            match &case.condition {
                Some(expr) => {
                    match self.compile_node(expr) {
                        Ok(()) => {},
                        Err(e) => {
                            return Err(e);
                        },
                    }
                    let cond_ptr = self.ins_len() + 1;
                    last_cond_jump_operand_ptr = Some(cond_ptr);
                    match self.emit(&cond_jump_bytes) {
                        Ok(()) => {},
                        Err(e) => {
                            return Err(e);
                        },
                    }
                    match self.compile_block(&case.consequence, case.null_return) {
                        Ok(()) => {},
                        Err(e) => {
                            return Err(e);
                        },
                    }
                    let exit_ptr = self.ins_len() + 1;
                    match self.emit(&code::Jump.make(u16::MAX)) {
                        Ok(()) => {},
                        Err(e) => {
                            return Err(e);
                        },
                    }
                    jmp_operand_ptrs.push(exit_ptr);
                    assert(jmp_operand_ptrs@.map_values(|at: usize| at as int) =~= exits.push(
                        exit_ptr as int,
                    ));
                },
                None => {
                    // The default case ends the switch: what follows it cannot
                    // be reached and is not compiled.
                    match self.compile_block(&case.consequence, case.null_return) {
                        Ok(()) => {},
                        Err(e) => {
                            return Err(e);
                        },
                    }
                    let cur_pos = self.cur_ip();
                    self.overwrite_all(&jmp_operand_ptrs, cur_pos);
                    return Ok(());
                },
            }
            i += 1;
        }
        // No default case: a case that matches nothing falls through to an
        // instruction that pushes null.
        if let Some(ptr) = last_cond_jump_operand_ptr {
            let ip = self.cur_ip();
            self.overwrite_u16(ptr, ip);
        }
        match self.emit(&code::Null.make()) {
            Ok(()) => {},
            Err(e) => {
                return Err(e);
            },
        }
        let cur_pos = self.cur_ip();
        self.overwrite_all(&jmp_operand_ptrs, cur_pos);
        Ok(())
    }

    fn compile_former<L: OpCodeMakeWithU16 + OpCode, R: OpCodeMakeWithU16 + OpCode>(
        &mut self,
        former: &Former,
        lit_builder: L,
        range_builder: R,
    ) -> (r: Result<(), CompileError>)
        requires
            old(self).wf(),
            forall|operand: u16| lit_builder.encoding(operand) == seq![L::byte()] + be16(operand),
            forall|operand: u16|
                range_builder.encoding(operand) == seq![R::byte()] + be16(operand),
        ensures
            final(self).wf(),
            agrees(r, final(self)@, compile_former(old(self)@, *former, L::byte(), R::byte())),
            r is Ok ==> extends(old(self)@, final(self)@),
        decreases former, 0nat,
    {
        match former {
            Former::Literal(expressions) => {
                if expressions.len() > 65535 {
                    return Err(CompileError::TooLarge);
                }
                let size = expressions.len() as u16;
                match self.compile_nodes(expressions, false) {
                    Ok(()) => {},
                    Err(e) => {
                        return Err(e);
                    },
                }
                self.emit(&lit_builder.make(size))
            },
            Former::Range { range_start, range_step, range_end } => {
                let parts: u16 = if range_step.is_none() {
                    2
                } else {
                    3
                };
                match range_step {
                    Some(step) => {
                        match self.compile_node(step) {
                            Ok(()) => {},
                            Err(e) => {
                                return Err(e);
                            },
                        }
                    },
                    None => {},
                }
                match self.compile_node(range_end) {
                    Ok(()) => {},
                    Err(e) => {
                        return Err(e);
                    },
                }
                match self.compile_node(range_start) {
                    Ok(()) => {},
                    Err(e) => {
                        return Err(e);
                    },
                }
                self.emit(&range_builder.make(parts))
            },
            Former::Iterator { .. } => Err(CompileError::Unsupported),
        }
    }
}

} // verus!
