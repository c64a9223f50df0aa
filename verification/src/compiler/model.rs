//! What compiling means: the compiler's state as a mathematical value, and
//! the state that compiling an expression leads to.
//!
//! Each scope has an instruction buffer of its own. Jump addresses count from
//! the start of the buffer and fit 16 bits, so no buffer grows beyond
//! `MAX_CODE` bytes.

use super::symbols::{can_register, find_in, resolve, with_name, Names, Scope, SymbolView};
use crate::buffer::be16;
use crate::code::code::{
    Add, And, Call, Const, Div, DynVar, Exp, False, GetGVar, GetLVar, Iff, Impl, In, Index,
    IntDiv, Inter, Jump, JumpNotMatch, JumpNotTrue, Less, Lt, Lteq, Mod, Mult, Negate, Neq, Not,
    Notin, Null, NullCoal, OpCode, OpCodeMake, OpCodeMakeWithU16, Or, Pop, PopMatch, PushMatch,
    Return, SetGVar, SetLVar, Size, Subset, Subtract, ToFn, ToSet, ToSetRn, ToTuple, ToTupleRn,
    True, TupleStart, Union, With,
};
use crate::error::CompileError;
use crate::object::value::{float_negate, Value};
use crate::parser::ast::{BinOp, Case, ExprST, Former, PreOp, Selector, LHS};
use vstd::prelude::*;

verus! {

/// The most bytes that one scope's instruction buffer can hold.
pub const MAX_CODE: usize = 65535;

/// The most constants that a program can hold.
pub const MAX_CONSTANTS: usize = 65536;

/// The placeholder operand of a jump whose target is not known yet.
pub const PLACEHOLDER: u16 = 0xffff;

/// The state of a compiler.
pub struct CompilerState {
    /// The constant pool.
    pub constants: Seq<Value>,
    /// The names of each open scope, the global scope first.
    pub symbols: Seq<Names>,
    /// The instruction buffer of each open scope, the global scope first.
    pub scopes: Seq<Seq<u8>>,
}

/// What compiling leads to: the next state, or the error.
pub type Compiled = Result<CompilerState, CompileError>;

impl CompilerState {
    /// The instructions of the current scope.
    pub open spec fn code(self) -> Seq<u8> {
        self.scopes.last()
    }

    /// The state with the current scope's instructions replaced.
    pub open spec fn with_code(self, code: Seq<u8>) -> CompilerState {
        CompilerState { scopes: self.scopes.update(self.scopes.len() - 1, code), ..self }
    }
}

/// The state after the bytes were appended to the current scope.
pub open spec fn emit(st: CompilerState, bytes: Seq<u8>) -> Compiled {
    if st.code().len() + bytes.len() > MAX_CODE {
        Err(CompileError::TooLarge)
    } else {
        Ok(st.with_code(st.code() + bytes))
    }
}

/// The state after a jump operand at `at` was overwritten with the address
/// `target`.
pub open spec fn patch(st: CompilerState, at: int, target: int) -> CompilerState {
    let operand = be16(target as u16);
    st.with_code(st.code().update(at, operand[0]).update(at + 1, operand[1]))
}

/// The state after each of the jump operands at `ats` was overwritten with
/// the address `target`.
pub open spec fn patch_all(st: CompilerState, ats: Seq<int>, target: int) -> CompilerState
    decreases ats.len(),
{
    if ats.len() == 0 {
        st
    } else {
        patch_all(patch(st, ats[0], target), ats.drop_first(), target)
    }
}

/// The state after a pending jump, if there is one, was pointed at the
/// current end of the code.
pub open spec fn patch_pending(st: CompilerState, pending: Option<int>) -> CompilerState {
    match pending {
        Some(at) => patch(st, at, st.code().len() as int),
        None => st,
    }
}

/// The state after a constant was added to the pool and the instruction that
/// pushes it was emitted.
pub open spec fn emit_const(st: CompilerState, constant: Value) -> Compiled {
    if st.constants.len() >= MAX_CONSTANTS {
        Err(CompileError::TooLarge)
    } else {
        emit(
            CompilerState { constants: st.constants.push(constant), ..st },
            Const.encoding(st.constants.len() as u16),
        )
    }
}

/// The opcode of a binary operator. `>` and `>=` share the opcodes of `<` and
/// `<=`: their operands are compiled in the opposite order.
pub open spec fn binop_byte(op: BinOp) -> u8 {
    match op {
        BinOp::NullCoal => NullCoal::byte(),
        BinOp::TupleStart => TupleStart::byte(),
        BinOp::Exp => Exp::byte(),
        BinOp::Mult => Mult::byte(),
        BinOp::Inter => Inter::byte(),
        BinOp::Div => Div::byte(),
        BinOp::Mod => Mod::byte(),
        BinOp::IntDiv => IntDiv::byte(),
        BinOp::Add => Add::byte(),
        BinOp::Subtract => Subtract::byte(),
        BinOp::With => With::byte(),
        BinOp::Less => Less::byte(),
        BinOp::Union => Union::byte(),
        BinOp::In => In::byte(),
        BinOp::Notin => Notin::byte(),
        BinOp::Subset => Subset::byte(),
        BinOp::LT => Lt::byte(),
        BinOp::LTEQ => Lteq::byte(),
        BinOp::GT => Lt::byte(),
        BinOp::GTEQ => Lteq::byte(),
        BinOp::EQ => crate::code::code::Eq::byte(),
        BinOp::NEQ => Neq::byte(),
        BinOp::And => And::byte(),
        BinOp::Or => Or::byte(),
        BinOp::Impl => Impl::byte(),
        BinOp::Iff => Iff::byte(),
    }
}

/// The instruction of a prefix operator. The identity has none.
pub open spec fn preop_bytes(op: PreOp) -> Seq<u8> {
    match op {
        PreOp::Id => Seq::empty(),
        PreOp::Negate => Negate.encoding(),
        PreOp::DynVar => DynVar.encoding(),
        PreOp::Size => Size.encoding(),
        PreOp::Not => Not.encoding(),
    }
}

/// Whether the operands of a binary operator are compiled right before left.
pub open spec fn swaps_operands(op: BinOp) -> bool {
    op == BinOp::GT || op == BinOp::GTEQ
}

/// The instruction that reads a variable.
pub open spec fn load_bytes(symbol: SymbolView) -> Seq<u8> {
    match symbol.scope {
        Scope::GLOBAL => GetGVar.encoding(symbol.index),
        Scope::LOCAL => GetLVar.encoding(symbol.index),
    }
}

/// The instruction that writes a variable.
pub open spec fn store_bytes(symbol: SymbolView) -> Seq<u8> {
    match symbol.scope {
        Scope::GLOBAL => SetGVar.encoding(symbol.index),
        Scope::LOCAL => SetLVar.encoding(symbol.index),
    }
}

/// Reading a name: the instruction that loads what the name resolves to.
pub open spec fn compile_ident(st: CompilerState, name: Seq<char>) -> Compiled {
    match resolve(st.symbols, name) {
        Some(symbol) => emit(st, load_bytes(symbol)),
        None => Err(CompileError::UndefinedIdent),
    }
}

/// Registering a name in the current scope.
pub open spec fn register(st: CompilerState, name: Seq<char>) -> Compiled {
    if can_register(st.symbols, name) {
        Ok(CompilerState { symbols: with_name(st.symbols, name), ..st })
    } else {
        Err(CompileError::TooManySymbols)
    }
}

/// Registering the names from position `from` on, in order.
pub open spec fn register_all(st: CompilerState, names: Seq<&str>, from: int) -> Compiled
    decreases names.len() - from,
{
    if from < 0 || from >= names.len() {
        Ok(st)
    } else {
        match register(st, names[from]@) {
            Ok(next) => register_all(next, names, from + 1),
            Err(e) => Err(e),
        }
    }
}

/// Loading the names from position `from` on, in order.
pub open spec fn load_all(st: CompilerState, names: Seq<&str>, from: int) -> Compiled
    decreases names.len() - from,
{
    if from < 0 || from >= names.len() {
        Ok(st)
    } else {
        match compile_ident(st, names[from]@) {
            Ok(next) => load_all(next, names, from + 1),
            Err(e) => Err(e),
        }
    }
}

/// Assigning to a name: the name is registered in the current scope, and the
/// instruction that stores the top of the stack in its slot is emitted.
pub open spec fn compile_store(st: CompilerState, name: Seq<char>) -> Compiled {
    match register(st, name) {
        Ok(next) => emit(
            next,
            store_bytes(find_in(next.symbols.last(), next.symbols.len() - 1, name)->Some_0),
        ),
        Err(e) => Err(e),
    }
}

/// A new scope opened: an empty instruction buffer and no names.
pub open spec fn enter(st: CompilerState) -> CompilerState {
    CompilerState {
        symbols: st.symbols.push(Seq::empty()),
        scopes: st.scopes.push(Seq::empty()),
        ..st
    }
}

/// The current scope closed.
pub open spec fn leave(st: CompilerState) -> CompilerState {
    CompilerState { symbols: st.symbols.drop_last(), scopes: st.scopes.drop_last(), ..st }
}

/// Compiling an expression: the state after its instructions were emitted.
/// They leave the expression's value on top of the stack.
pub open spec fn compile_expr(st: CompilerState, node: ExprST) -> Compiled
    decreases node, 0nat,
{
    match node {
        ExprST::Null => emit(st, Null.encoding()),
        ExprST::True => emit(st, True.encoding()),
        ExprST::False => emit(st, False.encoding()),
        ExprST::Integer(value) => emit_const(st, Value::Integer(value)),
        ExprST::Float(bits) => emit_const(st, Value::Float(bits)),
        ExprST::String(value) => emit_const(st, Value::Str(value@)),
        ExprST::Ident(name) => compile_ident(st, name@),
        ExprST::TupleLiteral(former) => compile_former(
            st,
            former,
            ToTuple::byte(),
            ToTupleRn::byte(),
        ),
        ExprST::SetLiteral(former) => compile_former(st, former, ToSet::byte(), ToSetRn::byte()),
        ExprST::Infix { op, left, right } => {
            let (first, second) = if swaps_operands(op) {
                (right, left)
            } else {
                (left, right)
            };
            match compile_expr(st, *first) {
                Ok(s1) => match compile_expr(s1, *second) {
                    Ok(s2) => emit(s2, seq![binop_byte(op)]),
                    Err(e) => Err(e),
                },
                Err(e) => Err(e),
            }
        },
        ExprST::Prefix { op, right } => match (op, *right) {
            (PreOp::Negate, ExprST::Integer(value)) => emit_const(
                st,
                Value::Integer(
                    if value == i64::MIN {
                        value
                    } else {
                        (-value) as i64
                    },
                ),
            ),
            (PreOp::Negate, ExprST::Float(bits)) => emit_const(
                st,
                Value::Float(float_negate(bits)),
            ),
            _ => match compile_expr(st, *right) {
                Ok(s1) => emit(s1, preop_bytes(op)),
                Err(e) => Err(e),
            },
        },
        ExprST::Postfix { left, selector } => match compile_expr(st, *left) {
            Ok(s1) => match selector {
                Selector::Index(index) => match compile_expr(s1, *index) {
                    Ok(s2) => emit(s2, Index.encoding()),
                    Err(e) => Err(e),
                },
                Selector::Call(args) => if args@.len() > u16::MAX {
                    Err(CompileError::TooLarge)
                } else {
                    match compile_list(s1, args@, 0, false) {
                        Ok(s2) => emit(s2, Call.encoding(args@.len() as u16)),
                        Err(e) => Err(e),
                    }
                },
                _ => Err(CompileError::Unsupported),
            },
            Err(e) => Err(e),
        },
        ExprST::Ternary { condition, consequence, alternative } => match compile_expr(
            st,
            *condition,
        ) {
            Ok(s1) => match emit(s1, JumpNotTrue.encoding(PLACEHOLDER)) {
                Ok(s2) => match compile_expr(s2, *consequence) {
                    Ok(s3) => match emit(s3, Jump.encoding(PLACEHOLDER)) {
                        Ok(s4) => match compile_expr(s4, *alternative) {
                            Ok(s5) => Ok(
                                patch(
                                    patch(s5, s1.code().len() as int + 1, s4.code().len() as int),
                                    s3.code().len() as int + 1,
                                    s5.code().len() as int,
                                ),
                            ),
                            Err(e) => Err(e),
                        },
                        Err(e) => Err(e),
                    },
                    Err(e) => Err(e),
                },
                Err(e) => Err(e),
            },
            Err(e) => Err(e),
        },
        ExprST::Switch { input, cases } => match input {
            Some(subject) => match compile_expr(st, *subject) {
                Ok(s1) => match emit(s1, PushMatch.encoding()) {
                    Ok(s2) => match compile_cases(
                        s2,
                        cases@,
                        0,
                        JumpNotMatch::byte(),
                        None,
                        Seq::empty(),
                    ) {
                        Ok(s3) => emit(s3, PopMatch.encoding()),
                        Err(e) => Err(e),
                    },
                    Err(e) => Err(e),
                },
                Err(e) => Err(e),
            },
            None => compile_cases(st, cases@, 0, JumpNotTrue::byte(), None, Seq::empty()),
        },
        ExprST::Assign { left, right } => match compile_expr(st, *right) {
            Ok(s1) => match left {
                LHS::Ident { target, selectors } => if selectors@.len() > 0 {
                    Err(CompileError::Unsupported)
                } else {
                    compile_store(s1, target@)
                },
                LHS::Tilde => Err(CompileError::InvalidLHS),
                LHS::List(_) => Err(CompileError::Unsupported),
            },
            Err(e) => Err(e),
        },
        ExprST::Function { req_params, opt_params, locked_params, body, null_return } => {
            if req_params@.len() + opt_params@.len() + locked_params@.len() > u16::MAX {
                Err(CompileError::TooLarge)
            } else {
                match register_all(enter(st), req_params@, 0) {
                    Ok(s1) => match register_all(s1, opt_params@, 0) {
                        Ok(s2) => match register_all(s2, locked_params@, 0) {
                            Ok(s3) => if s3.symbols.last().len() != req_params@.len()
                                + opt_params@.len() + locked_params@.len() {
                                Err(CompileError::DuplicateParam)
                            } else {
                                match compile_body(s3, body@, 0, null_return) {
                                    Ok(s4) => match emit(s4, Return.encoding()) {
                                        Ok(s5) => match emit_const(
                                            leave(s5),
                                            Value::Function {
                                                code: s5.code(),
                                                locals: (s5.symbols.last().len() - (
                                                req_params@.len() + opt_params@.len()
                                                    + locked_params@.len())) as nat,
                                                required: req_params@.len() as u16,
                                                optional: opt_params@.len() as u16,
                                                captured: Seq::empty(),
                                            },
                                        ) {
                                            Ok(s6) => match load_all(s6, locked_params@, 0) {
                                                Ok(s7) => emit(
                                                    s7,
                                                    ToFn.encoding(locked_params@.len() as u16),
                                                ),
                                                Err(e) => Err(e),
                                            },
                                            Err(e) => Err(e),
                                        },
                                        Err(e) => Err(e),
                                    },
                                    Err(e) => Err(e),
                                }
                            },
                            Err(e) => Err(e),
                        },
                        Err(e) => Err(e),
                    },
                    Err(e) => Err(e),
                }
            }
        },
        ExprST::Return(value) => match compile_expr(st, *value) {
            Ok(s1) => emit(s1, Return.encoding()),
            Err(e) => Err(e),
        },
        _ => Err(CompileError::Unsupported),
    }
}

/// Compiling the expressions from position `from` on, one after the other,
/// each followed by `Pop` where `with_pop` says so.
pub open spec fn compile_list(
    st: CompilerState,
    exprs: Seq<ExprST>,
    from: int,
    with_pop: bool,
) -> Compiled
    decreases exprs, exprs.len() - from,
{
    if from < 0 || from >= exprs.len() {
        Ok(st)
    } else {
        match compile_expr(st, exprs[from]) {
            Ok(s1) => if with_pop {
                match emit(s1, Pop.encoding()) {
                    Ok(s2) => compile_list(s2, exprs, from + 1, with_pop),
                    Err(e) => Err(e),
                }
            } else {
                compile_list(s1, exprs, from + 1, with_pop)
            },
            Err(e) => Err(e),
        }
    }
}

/// Compiling the body of a function or of a case from position `from` on.
/// Each expression but the last is followed by `Pop`. The last one's value is
/// the body's value, unless `null_return` says that it is popped too and null
/// pushed in its place. An empty body pushes null.
pub open spec fn compile_body(
    st: CompilerState,
    exprs: Seq<ExprST>,
    from: int,
    null_return: bool,
) -> Compiled
    decreases exprs, exprs.len() - from,
{
    if from < 0 || from >= exprs.len() {
        if exprs.len() == 0 || null_return {
            emit(st, Null.encoding())
        } else {
            Ok(st)
        }
    } else {
        match compile_expr(st, exprs[from]) {
            Ok(s1) => if from + 1 < exprs.len() || null_return {
                match emit(s1, Pop.encoding()) {
                    Ok(s2) => compile_body(s2, exprs, from + 1, null_return),
                    Err(e) => Err(e),
                }
            } else {
                compile_body(s1, exprs, from + 1, null_return)
            },
            Err(e) => Err(e),
        }
    }
}

/// Compiling a tuple or set former. A literal compiles its elements and wraps
/// them. A range compiles its second element, if it has one, then its end,
/// then its start, and builds from those.
pub open spec fn compile_former(
    st: CompilerState,
    former: Former,
    literal_byte: u8,
    range_byte: u8,
) -> Compiled
    decreases former, 0nat,
{
    match former {
        Former::Literal(exprs) => if exprs@.len() > u16::MAX {
            Err(CompileError::TooLarge)
        } else {
            match compile_list(st, exprs@, 0, false) {
                Ok(s1) => emit(s1, seq![literal_byte] + be16(exprs@.len() as u16)),
                Err(e) => Err(e),
            }
        },
        Former::Range { range_start, range_step, range_end } => {
            let after_step = match range_step {
                Some(step) => compile_expr(st, *step),
                None => Ok(st),
            };
            match after_step {
                Ok(s1) => match compile_expr(s1, *range_end) {
                    Ok(s2) => match compile_expr(s2, *range_start) {
                        Ok(s3) => emit(
                            s3,
                            seq![range_byte] + be16(
                                if range_step is None {
                                    2u16
                                } else {
                                    3u16
                                },
                            ),
                        ),
                        Err(e) => Err(e),
                    },
                    Err(e) => Err(e),
                },
                Err(e) => Err(e),
            }
        },
        Former::Iterator { .. } => Err(CompileError::Unsupported),
    }
}

/// Compiling the cases of a switch from position `from` on.
///
/// `pending` is the operand of the previous case's conditional jump, which
/// is pointed at the start of this case. `exits` are the operands of the
/// jumps that end the cases compiled so far; they are pointed at the end of
/// the switch. A case with a condition compiles to the condition, a
/// conditional jump with opcode `jump_byte` to the next case, the body and a
/// jump to the end. The default case compiles to its body alone and ends the
/// switch: cases after it are dropped. A switch without a default ends in an
/// instruction that pushes null.
pub open spec fn compile_cases(
    st: CompilerState,
    cases: Seq<Case>,
    from: int,
    jump_byte: u8,
    pending: Option<int>,
    exits: Seq<int>,
) -> Compiled
    decreases cases, cases.len() - from,
{
    let s0 = patch_pending(st, pending);
    if from < 0 || from >= cases.len() {
        match emit(s0, Null.encoding()) {
            Ok(s1) => Ok(patch_all(s1, exits, s1.code().len() as int)),
            Err(e) => Err(e),
        }
    } else {
        match cases[from].condition {
            Some(condition) => match compile_expr(s0, *condition) {
                Ok(s1) => match emit(s1, seq![jump_byte] + be16(PLACEHOLDER)) {
                    Ok(s2) => match compile_body(
                        s2,
                        cases[from].consequence@,
                        0,
                        cases[from].null_return,
                    ) {
                        Ok(s3) => match emit(s3, Jump.encoding(PLACEHOLDER)) {
                            Ok(s4) => compile_cases(
                                s4,
                                cases,
                                from + 1,
                                jump_byte,
                                Some(s1.code().len() as int + 1),
                                exits.push(s3.code().len() as int + 1),
                            ),
                            Err(e) => Err(e),
                        },
                        Err(e) => Err(e),
                    },
                    Err(e) => Err(e),
                },
                Err(e) => Err(e),
            },
            None => match compile_body(
                s0,
                cases[from].consequence@,
                0,
                cases[from].null_return,
            ) {
                Ok(s1) => Ok(patch_all(s1, exits, s1.code().len() as int)),
                Err(e) => Err(e),
            },
        }
    }
}

} // verus!
