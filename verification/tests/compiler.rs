use bytes::Bytes;
use ysetl::code::code::{self, OpCode};
use ysetl::code::debug::disassemble;
use ysetl::compiler::compiler::{Bytecode, Compiler};
use ysetl::error::CompileError;
use ysetl::object::object::BaseObject::{self, Float, Function, Integer};
use ysetl::parser::ast::{ExprST, Former, PreOp, LHS};
use ysetl::parser::lexer::{float_literals, FloatBits};
use ysetl::parser::parser;

fn floats_of(input: &str) -> Vec<FloatBits> {
    float_literals(input)
        .into_iter()
        .map(|literal| FloatBits {
            at: literal.at,
            bits: literal.text.parse::<f64>().unwrap().to_bits(),
        })
        .collect()
}

fn compile(input: &str) -> Bytecode {
    let floats = floats_of(input);
    let mut c = Compiler::new();
    c.compile_expr(parser::parse_from_expr(input, &floats).unwrap())
        .unwrap();
    c.finish()
}

fn compile_program(input: &str) -> Bytecode {
    let wrapped_input = format!("program :any; {}", input);
    let floats = floats_of(&wrapped_input);
    let mut c = Compiler::new();
    c.compile_program(parser::parse_from_program(&wrapped_input, &floats).unwrap())
        .unwrap();
    c.finish()
}

fn error_of(input: &str) -> CompileError {
    let floats = floats_of(input);
    let mut c = Compiler::new();
    c.compile_expr(parser::parse_from_expr(input, &floats).unwrap())
        .unwrap_err()
}

fn assert_bytes(actual: &Bytes, expected: Vec<u8>) {
    let expected = &Bytes::from(expected);
    let equal = expected == actual;
    if !equal {
        panic!(
            "\n\nExpected:\n{:?}\n\nInstead, got:\n{:?}\n\n",
            expected, actual
        )
    }
}

fn assert_fn_bytes(function: &BaseObject, expected: Vec<u8>) {
    if let Function { ins, .. } = function {
        assert_bytes(ins, expected);
    } else {
        panic!("not a function");
    }
}

#[test]
fn literals() {
    let int_code = compile("3");
    assert_eq!(
        int_code.instuctions,
        Bytes::from(vec![code::Const::VAL, 0, 0])
    );
    assert_eq!(int_code.constants[0], Integer(3));

    let float_code = compile("3.0");
    assert_eq!(
        float_code.instuctions,
        Bytes::from(vec![code::Const::VAL, 0, 0])
    );
    assert_eq!(float_code.constants[0], Float(3.0f64.to_bits()));

    let true_code = compile("true");
    assert_eq!(true_code.instuctions, Bytes::from(vec![code::True::VAL]));
    assert!(true_code.constants.is_empty());

    let false_code = compile("false");
    assert_eq!(false_code.instuctions, Bytes::from(vec![code::False::VAL]));
    assert!(false_code.constants.is_empty());

    let null_code = compile("null");
    assert_eq!(null_code.instuctions, Bytes::from(vec![code::Null::VAL]));
    assert!(null_code.constants.is_empty());

    let negative_int = compile("-1");
    assert_eq!(
        negative_int.instuctions,
        Bytes::from(vec![code::Const::VAL, 0, 0])
    );
    assert_eq!(negative_int.constants[0], Integer(-1));

    let negative_float = compile("-1.0");
    assert_eq!(
        negative_float.instuctions,
        Bytes::from(vec![code::Const::VAL, 0, 0])
    );
    assert_eq!(negative_float.constants[0], Float((-1.0f64).to_bits()));
}

#[test]
fn simple_math() {
    assert_eq!(
        compile("3 + 4").instuctions,
        Bytes::from(vec![
            code::Const::VAL,
            0,
            0,
            code::Const::VAL,
            0,
            1,
            code::Add::VAL
        ])
    );
    assert_eq!(
        compile("3 - 4").instuctions,
        Bytes::from(vec![
            code::Const::VAL,
            0,
            0,
            code::Const::VAL,
            0,
            1,
            code::Subtract::VAL
        ])
    );
    assert_eq!(
        compile("3 + (4 / 5)").instuctions,
        Bytes::from(vec![
            code::Const::VAL,
            0,
            0,
            code::Const::VAL,
            0,
            1,
            code::Const::VAL,
            0,
            2,
            code::Div::VAL,
            code::Add::VAL
        ])
    );
}

#[test]
fn compiler_ternary() {
    assert_bytes(&compile_program("if true ? 1 : 2; 99;").instuctions, vec![
        // 0
        code::True::VAL,
        // 1
        code::JumpNotTrue::VAL, 0, 10,
        // 4
        code::Const::VAL, 0, 0,
        // 7
        code::Jump::VAL, 0, 13,
        // 10
        code::Const::VAL, 0, 1,
        // 13
        code::Pop::VAL,
        // 14
        code::Const::VAL, 0, 2,
        // 17
        code::Pop::VAL,
        // 18
    ]);
}

#[test]
fn compiler_functions() {
    let program = compile_program("func() { 1 };");
    let function = &program.constants.last().unwrap();
    assert_fn_bytes(function, vec![
        // 0
        code::Const::VAL, 0, 0,
        // 3
        code::Return::VAL,
    ]);

    let program = compile_program("func() {};");
    let function = &program.constants.last().unwrap();
    assert_fn_bytes(function, vec![
        // 0
        code::Null::VAL,
        // 1
        code::Return::VAL,
    ]);

    let program = compile_program("func() { 1; };");
    let function = &program.constants.last().unwrap();
    assert_fn_bytes(function, vec![
        // 0
        code::Const::VAL, 0, 0,
        // 3
        code::Pop::VAL,
        // 4
        code::Null::VAL,
        // 5
        code::Return::VAL,
    ]);

    let program = compile_program("func() { 1; 2 };");
    let function = &program.constants.last().unwrap();
    assert_fn_bytes(function, vec![
        // 0
        code::Const::VAL, 0, 0,
        // 3
        code::Pop::VAL,
        // 4
        code::Const::VAL, 0, 1,
        // 7
        code::Return::VAL,
    ]);

    let program = compile_program("func() { if false ? return 1 : return 5; };");
    let function = &program.constants.last().unwrap();
    assert_fn_bytes(function, vec![
        // 0
        code::False::VAL,
        // 1
        code::JumpNotTrue::VAL, 0, 11,
        // 4
        code::Const::VAL, 0, 0,
        // 7
        code::Return::VAL,
        // 8
        code::Jump::VAL, 0, 15, // Unreachable
        // 11
        code::Const::VAL, 0, 1,
        // 14
        code::Return::VAL,
        // 15
        code::Pop::VAL, // Unreachable
        // 16
        code::Null::VAL, // Unreachable
        // 17
        code::Return::VAL, // Unreachable
        // 18
    ]);
}

#[test]
fn integer_literals_become_constants() {
    for n in [0i64, 1, -1, 42, i64::MAX, i64::MIN, i64::MIN + 1] {
        let mut c = Compiler::new();
        c.compile_expr(ExprST::Integer(n)).unwrap();
        let code = c.finish();
        assert_eq!(code.instuctions, Bytes::from(vec![code::Const::VAL, 0, 0]));
        assert_eq!(code.constants.len(), 1);
        assert_eq!(code.constants[0], Integer(n));
    }
}

#[test]
fn negation_of_the_smallest_integer_wraps() {
    let mut c = Compiler::new();
    c.compile_expr(ExprST::Prefix {
        op: PreOp::Negate,
        right: Box::new(ExprST::Integer(i64::MIN)),
    })
    .unwrap();
    assert_eq!(c.finish().constants[0], Integer(i64::MIN));
}

#[test]
fn float_product_constants() {
    let code = compile("-1.0 * 2");
    assert_eq!(code.constants.len(), 2);
    assert_eq!(code.constants[0], Float((-1.0f64).to_bits()));
    assert_eq!(code.constants[1], Integer(2));
    assert_bytes(&code.instuctions, vec![
        code::Const::VAL, 0, 0,
        code::Const::VAL, 0, 1,
        code::Mult::VAL,
    ]);
}

#[test]
fn range_former_is_compiled_end_first() {
    let code = compile("[1..5]");
    assert_eq!(code.constants[0], Integer(5));
    assert_eq!(code.constants[1], Integer(1));
    assert_bytes(&code.instuctions, vec![
        code::Const::VAL, 0, 0,
        code::Const::VAL, 0, 1,
        code::ToTupleRn::VAL, 0, 2,
    ]);

    let code = compile("{1, 3 .. 9}");
    assert_eq!(code.constants[0], Integer(3));
    assert_eq!(code.constants[1], Integer(9));
    assert_eq!(code.constants[2], Integer(1));
    assert_bytes(&code.instuctions, vec![
        code::Const::VAL, 0, 0,
        code::Const::VAL, 0, 1,
        code::Const::VAL, 0, 2,
        code::ToSetRn::VAL, 0, 3,
    ]);
}

#[test]
fn literal_formers() {
    assert_bytes(&compile("[1, 2, 3]").instuctions, vec![
        code::Const::VAL, 0, 0,
        code::Const::VAL, 0, 1,
        code::Const::VAL, 0, 2,
        code::ToTuple::VAL, 0, 3,
    ]);
    assert_bytes(&compile("{}").instuctions, vec![code::ToSet::VAL, 0, 0]);
}

#[test]
fn greater_than_swaps_its_operands() {
    let code = compile("4 > 2");
    assert_eq!(code.constants[0], Integer(2));
    assert_eq!(code.constants[1], Integer(4));
    assert_bytes(&code.instuctions, vec![
        code::Const::VAL, 0, 0,
        code::Const::VAL, 0, 1,
        code::Lt::VAL,
    ]);
    assert_bytes(&compile("4 >= 2").instuctions, vec![
        code::Const::VAL, 0, 0,
        code::Const::VAL, 0, 1,
        code::Lteq::VAL,
    ]);
}

#[test]
fn statement_twice_is_twice_as_long() {
    for input in ["1 + 2", "if true ? [1, 2] : {3}", "func (a, b?) { a + 1; b }", "\"text\"(0)"] {
        let once = compile_program(&format!("{};", input));
        let twice = compile_program(&format!("{}; {};", input, input));
        assert_eq!(twice.instuctions.len(), 2 * once.instuctions.len(), "{}", input);
    }
}

#[test]
fn assignment_and_lookup() {
    let code = compile_program("x := 5; y := x; y;");
    assert_eq!(code.global_count, 2);
    assert_bytes(&code.instuctions, vec![
        code::Const::VAL, 0, 0,
        code::SetGVar::VAL, 0, 0,
        code::Pop::VAL,
        code::GetGVar::VAL, 0, 0,
        code::SetGVar::VAL, 0, 1,
        code::Pop::VAL,
        code::GetGVar::VAL, 0, 1,
        code::Pop::VAL,
    ]);
}

#[test]
fn function_with_parameters_and_locals() {
    let program = compile_program("k := 7; func (a, b?, k!) { t := a; t };");
    let function = program.constants.last().unwrap();
    if let Function { ins, locals, req_params, opt_params, locked_values } = function {
        assert_eq!(*locals, 1);
        assert_eq!(*req_params, 1);
        assert_eq!(*opt_params, 1);
        assert!(locked_values.is_empty());
        assert_bytes(ins, vec![
            code::GetLVar::VAL, 0, 0,
            code::SetLVar::VAL, 0, 3,
            code::Pop::VAL,
            code::GetLVar::VAL, 0, 3,
            code::Return::VAL,
        ]);
    } else {
        panic!("not a function");
    }
    assert_bytes(&program.instuctions, vec![
        code::Const::VAL, 0, 0,
        code::SetGVar::VAL, 0, 0,
        code::Pop::VAL,
        code::Const::VAL, 0, 1,
        code::GetGVar::VAL, 0, 0,
        code::ToFn::VAL, 0, 1,
        code::Pop::VAL,
    ]);
}

#[test]
fn match_switch_layout() {
    let code = compile("case (3) { 1: \"a\"; ~: \"d\" }");
    assert_bytes(&code.instuctions, vec![
        // 0
        code::Const::VAL, 0, 0,
        // 3
        code::PushMatch::VAL,
        // 4
        code::Const::VAL, 0, 1,
        // 7
        code::JumpNotMatch::VAL, 0, 16,
        // 10
        code::Const::VAL, 0, 2,
        // 13
        code::Jump::VAL, 0, 19,
        // 16
        code::Const::VAL, 0, 3,
        // 19
        code::PopMatch::VAL,
    ]);
}

#[test]
fn bool_switch_without_default_ends_in_null() {
    let code = compile("case { false: 1 }");
    assert_bytes(&code.instuctions, vec![
        // 0
        code::False::VAL,
        // 1
        code::JumpNotTrue::VAL, 0, 10,
        // 4
        code::Const::VAL, 0, 0,
        // 7
        code::Jump::VAL, 0, 11,
        // 10
        code::Null::VAL,
        // 11
    ]);
}

#[test]
fn case_bodies() {
    // an empty body pushes null; a body closed by a semicolon pops and pushes null
    let code = compile("case { true: 1; 2;; ~: 3 }");
    assert_bytes(&code.instuctions, vec![
        // 0
        code::True::VAL,
        // 1
        code::JumpNotTrue::VAL, 0, 16,
        // 4
        code::Const::VAL, 0, 0,
        // 7
        code::Pop::VAL,
        // 8
        code::Const::VAL, 0, 1,
        // 11
        code::Pop::VAL,
        // 12
        code::Null::VAL,
        // 13
        code::Jump::VAL, 0, 19,
        // 16
        code::Const::VAL, 0, 2,
        // 19
    ]);
}

#[test]
fn compile_errors() {
    assert_eq!(error_of("x"), CompileError::UndefinedIdent);
    assert_eq!(error_of("func (a!) { a }"), CompileError::UndefinedIdent);
    assert_eq!(error_of("func (a, a) { a }"), CompileError::DuplicateParam);
    assert_eq!(error_of(":atom"), CompileError::Unsupported);
    assert_eq!(error_of("x(1) := 2"), CompileError::Unsupported);
    assert_eq!(error_of("[a, b] := 2"), CompileError::Unsupported);
    assert_eq!(error_of("{x : x in [1, 2]}"), CompileError::Unsupported);
    assert_eq!(error_of("\"abc\"(1..2)"), CompileError::Unsupported);

    let mut c = Compiler::new();
    let tilde = ExprST::Assign { left: LHS::Tilde, right: Box::new(ExprST::Null) };
    assert_eq!(c.compile_expr(tilde).unwrap_err(), CompileError::InvalidLHS);
    assert!(!CompileError::InvalidLHS.message().is_empty());
}

#[test]
fn code_of_one_scope_is_limited() {
    // each element takes three bytes; 21845 of them and the builder go over the limit
    let elements: Vec<ExprST> = (0..21845).map(|_| ExprST::Ident("x")).collect();
    let mut c = Compiler::new();
    c.compile_expr(ExprST::Assign {
        left: LHS::Ident { target: "x", selectors: vec![] },
        right: Box::new(ExprST::Null),
    })
    .unwrap();
    let tuple = ExprST::TupleLiteral(Former::Literal(elements));
    assert_eq!(c.compile_expr(tuple).unwrap_err(), CompileError::TooLarge);
}

fn nested_functions(levels: usize, constants_each: usize) -> ExprST<'static> {
    let mut body: Vec<ExprST> = Vec::new();
    for level in 0..levels {
        let mut list: Vec<ExprST> = Vec::new();
        if level > 0 {
            list.push(ExprST::Function {
                req_params: vec![],
                opt_params: vec![],
                locked_params: vec![],
                body,
                null_return: true,
            });
        }
        list.extend((0..constants_each).map(|_| ExprST::Integer(2)));
        body = list;
    }
    ExprST::Function {
        req_params: vec![],
        opt_params: vec![],
        locked_params: vec![],
        body,
        null_return: true,
    }
}

#[test]
fn too_many_constants() {
    // 4 scopes of 16000 constants each stay within the code limit of a scope
    // and within the limit of the pool
    let mut c = Compiler::new();
    c.compile_expr(nested_functions(4, 16000)).unwrap();
    let code = c.finish();
    assert_eq!(code.constants.len(), 4 * 16000 + 4);

    // 1600 constants more at the top go over the limit of the pool
    let mut c = Compiler::new();
    for _ in 0..1600 {
        c.compile_expr(ExprST::Integer(1)).unwrap();
    }
    assert_eq!(
        c.compile_expr(nested_functions(4, 16000)).unwrap_err(),
        CompileError::TooLarge
    );
}

#[test]
fn expression_lists() {
    let list = || vec![ExprST::True, ExprST::Null, ExprST::False];
    let mut c = Compiler::new();
    c.compile_expr_list(list(), false).unwrap();
    assert_bytes(&c.finish().instuctions, vec![
        code::True::VAL,
        code::Null::VAL,
        code::False::VAL,
    ]);
    let mut c = Compiler::new();
    c.compile_expr_list(list(), true).unwrap();
    assert_bytes(&c.finish().instuctions, vec![
        code::True::VAL,
        code::Pop::VAL,
        code::Null::VAL,
        code::Pop::VAL,
        code::False::VAL,
        code::Pop::VAL,
    ]);
    let mut c = Compiler::new();
    c.compile_expr_list(vec![], true).unwrap();
    assert!(c.finish().instuctions.is_empty());
}

#[test]
fn compiled_code_is_whole_instructions() {
    let covered = |bytes: &Bytes| {
        let listing = disassemble(bytes);
        let taken: usize = listing
            .iter()
            .map(|instruction| if instruction.operand.is_some() { 3 } else { 1 })
            .sum();
        assert_eq!(taken, bytes.len());
    };
    for input in [
        "x := 1; if x ? [1, 2 .. 9] : {x};",
        "f := (a, b?, x!) => case (a) { 1: b; 2: x;; ~: a + b }; f(1);",
        "case { 1 < 2: 1; 2 < 1: 2 };",
        "func () { if true ? return 1 : return 2; };",
        "-(1 + 2) ** 3 div 4;",
    ] {
        let mut compiler = Compiler::new();
        if input.starts_with("f :=") {
            compiler.compile_expr(parser::parse_from_expr("x := 0", &vec![]).unwrap()).unwrap();
            compiler.compile_expr(ExprST::Null).unwrap();
        }
        let text = format!("program :any; {}", input);
        let floats = floats_of(&text);
        compiler
            .compile_program(parser::parse_from_program(&text, &floats).unwrap())
            .unwrap();
        let code = compiler.finish();
        covered(&code.instuctions);
        for constant in code.constants.iter() {
            if let Function { ins, .. } = constant {
                covered(ins);
            }
        }
    }
}

#[test]
fn check_shows_what_was_compiled() {
    let mut c = Compiler::new();
    c.compile_expr(ExprST::Integer(9)).unwrap();
    let view = c.check();
    assert_eq!(&view.instructions[..], &[code::Const::VAL, 0, 0]);
    assert_eq!(view.constants.len(), 1);
    assert_eq!(view.global_count, 0);
}
