use bytes::Bytes;
use std::rc::Rc;
use ysetl::code::code::{self, OpCode};
use ysetl::compiler::compiler::{Bytecode, Compiler};
use ysetl::error::RuntimeError;
use ysetl::object::math::{FloatAnswer, FloatRequest, Number};
use ysetl::object::object::BaseObject::{self, False, Float, Integer, Null, True, Tuple};
use ysetl::object::object::{Object, ObjectOps};
use ysetl::parser::ast::{ExprST, Former, Selector};
use ysetl::parser::lexer::{float_literals, FloatBits};
use ysetl::parser::parser;
use ysetl::vm::frame::Frame;
use ysetl::vm::vm::{Status, VM};

fn floats_of(input: &str) -> Vec<FloatBits> {
    float_literals(input)
        .into_iter()
        .map(|literal| FloatBits {
            at: literal.at,
            bits: literal.text.parse::<f64>().unwrap().to_bits(),
        })
        .collect()
}

fn vm_from(input: &str) -> VM {
    let floats = floats_of(input);
    let mut c = Compiler::new();
    c.compile_expr(parser::parse_from_expr(input, &floats).unwrap())
        .unwrap();
    VM::new(c.finish())
}

fn vm_from_program(input: &str) -> VM {
    let floats = floats_of(input);
    let mut c = Compiler::new();
    c.compile_program(parser::parse_from_program(input, &floats).unwrap())
        .unwrap();
    VM::new(c.finish())
}

fn as_float(number: Number) -> f64 {
    match number {
        Number::Integer(value) => value as f64,
        Number::Float(bits) => f64::from_bits(bits),
    }
}

fn answer(request: FloatRequest) -> FloatAnswer {
    let left = as_float(request.left);
    let right = as_float(request.right);
    let op = request.op;
    if op == code::Add::VAL {
        FloatAnswer::Number((left + right).to_bits())
    } else if op == code::Subtract::VAL {
        FloatAnswer::Number((left - right).to_bits())
    } else if op == code::Mult::VAL {
        FloatAnswer::Number((left * right).to_bits())
    } else if op == code::Div::VAL {
        FloatAnswer::Number((left / right).to_bits())
    } else if op == code::Exp::VAL {
        FloatAnswer::Number(left.powf(right).to_bits())
    } else if op == code::Lt::VAL {
        FloatAnswer::Truth(left < right)
    } else if op == code::Lteq::VAL {
        FloatAnswer::Truth(left <= right)
    } else {
        unreachable!("no floating-point operation: {}", op)
    }
}

fn run(vm: &mut VM) -> Result<Option<Object>, RuntimeError> {
    loop {
        match vm.run()? {
            Status::Finished(result) => return Ok(result),
            Status::NeedsFloat(request) => vm.resume(answer(request)),
            Status::Running => {}
        }
    }
}

fn test_input(input: &str, result: BaseObject) {
    let mut vm = vm_from(input);
    run(&mut vm).unwrap();
    assert!(
        vm.peek_top() == Some(&result.wrap()),
        "For input: {}",
        input
    );
}

fn last_pop(input: &str) -> BaseObject {
    let mut vm = vm_from_program(input);
    let result = run(&mut vm).unwrap().unwrap();
    match &*result.inner {
        Null => Null,
        True => True,
        False => False,
        Integer(value) => Integer(*value),
        Float(bits) => Float(*bits),
        BaseObject::String(text) => BaseObject::String(text.clone()),
        Tuple(elements) => Tuple(elements.iter().map(|e| e.reference()).collect()),
        BaseObject::SetValue(elements) => {
            BaseObject::SetValue(elements.iter().map(|e| e.reference()).collect())
        }
        BaseObject::Function { .. } => panic!("a function"),
    }
}

fn failure(input: &str) -> RuntimeError {
    let mut vm = vm_from(input);
    run(&mut vm).unwrap_err()
}

fn integers(values: &[i64]) -> Vec<Object> {
    values.iter().map(|v| Integer(*v).wrap()).collect()
}

fn text(value: &str) -> BaseObject {
    BaseObject::String(value.to_string())
}

#[test]
fn vm_op_const() {
    test_input("99", Integer(99));
}

#[test]
fn op_keyword_literals() {
    test_input("true", True);
    test_input("false", False);
    test_input("null", Null);
}

#[test]
fn equivalence() {
    test_input("true == true", True);
    test_input("true == false", False);
    test_input("true != true", False);
    test_input("true != false", True);

    test_input("3 == 3", True);
    test_input("3 == 5", False);
    test_input("3 != 3", False);
    test_input("3 != 5", True);
}

#[test]
fn math_ops() {
    test_input("3 + 4", Integer(7));
    test_input("3 - 4", Integer(-1));
    test_input("3.0 * 4", Float(12.0f64.to_bits()));
    test_input("4 / 2", Float(2.0f64.to_bits()));
    test_input("4 div 2", Integer(2));
    test_input("4 ** 2", Integer(16));
    test_input("4 < 2", False);
    test_input("4 <= 4", True);
    test_input("4 > 2", True);
    test_input("4 >= 2", True);

    test_input("-(9)", Integer(-9));
    test_input("-(1.0 * 2)", Float((-2.0f64).to_bits()));

    test_input("!true", False);
    test_input("!(false == true)", True);
}

#[test]
fn vm_ternary() {
    test_input("if (1 >= 5) ? 1 + 1 : 2 * 2", Integer(4));
    test_input("if (1 < 5) ? 1 + 1 : 2 * 2", Integer(2));
}

#[test]
fn integer_literal_is_the_last_pop() {
    for n in [0i64, 7, -7, i64::MAX, i64::MIN + 1] {
        assert_eq!(last_pop(&format!("program :p; {};", n)), Integer(n));
    }
}

#[test]
fn sum_of_three_and_four() {
    test_input("3 + 4", Integer(7));
    assert_eq!(last_pop("program :p; 3 + 4;"), Integer(7));
}

#[test]
fn ternary_program() {
    let mut vm = vm_from_program("program :p; if true ? 1 : 2; 99;");
    // True, JumpNotTrue, Const, Jump: the value of the first statement is on top
    for _ in 0..4 {
        assert!(matches!(vm.step(), Ok(Status::Running)));
    }
    assert!(vm.peek_top() == Some(&Integer(1).wrap()));
    let result = run(&mut vm).unwrap().unwrap();
    assert!(result == Integer(99).wrap());
    assert!(vm.peek_top().is_none());
}

#[test]
fn float_product() {
    test_input("-1.0 * 2", Float((-2.0f64).to_bits()));
}

#[test]
fn ranges() {
    test_input("[1..5]", Tuple(integers(&[1, 2, 3, 4, 5])));
    test_input("[1, 3 .. 10]", Tuple(integers(&[1, 3, 5, 7, 9])));
    test_input("[1, 3 .. 9]", Tuple(integers(&[1, 3, 5, 7, 9])));
    test_input("[5, 4 .. 1]", Tuple(integers(&[5, 4, 3, 2, 1])));
    test_input("[10, 7 .. 0]", Tuple(integers(&[10, 7, 4, 1])));
    test_input("[3..3]", Tuple(integers(&[3])));
    test_input("{1..3}", BaseObject::SetValue(integers(&[1, 2, 3])));
    // degenerate ranges are empty
    test_input("[5..1]", Tuple(vec![]));
    test_input("[1, 1 .. 5]", Tuple(vec![]));
    test_input("[1, 0 .. 5]", Tuple(vec![]));
    test_input("[5, 6 .. 1]", Tuple(vec![]));
    // the ends of the integers
    test_input(
        "[9223372036854775806 .. 9223372036854775807]",
        Tuple(integers(&[i64::MAX - 1, i64::MAX])),
    );
    assert_eq!(failure("[1 .. true]"), RuntimeError::TypeError);
    assert_eq!(failure("[1, null .. 4]"), RuntimeError::TypeError);
}

#[test]
fn tuple_literal_round_trip() {
    test_input("[]", Tuple(vec![]));
    test_input("[4]", Tuple(integers(&[4])));
    test_input("[3, 1, 2, 1]", Tuple(integers(&[3, 1, 2, 1])));
    test_input("[-5, 0, 5]", Tuple(integers(&[-5, 0, 5])));
    test_input("{2, 2}", BaseObject::SetValue(integers(&[2, 2])));
}

#[test]
fn function_bodies() {
    assert_eq!(last_pop("program :p; func() { 1; 2 }();"), Integer(2));
    assert_eq!(last_pop("program :p; (func() { 1; 2 })();"), Integer(2));
    assert_eq!(last_pop("program :p; (func() { 1; 2; })();"), Null);
    assert_eq!(last_pop("program :p; (func() {})();"), Null);
    assert_eq!(last_pop("program :p; (() => 17)();"), Integer(17));
    assert_eq!(
        last_pop("program :p; (func() { if false ? return 1 : return 5; })();"),
        Integer(5)
    );
}

#[test]
fn function_identity() {
    for value in ["7", "true", "null", "\"text\"", "[1, 2]"] {
        let direct = last_pop(&format!("program :p; {};", value));
        let called = last_pop(&format!("program :p; (func() {{ {} }})();", value));
        assert_eq!(direct, called, "{}", value);
    }
}

#[test]
fn parameters_and_locals() {
    assert_eq!(last_pop("program :p; ((a, b) => a - b)(10, 4);"), Integer(6));
    assert_eq!(last_pop("program :p; ((a, b?) => b)(10);"), Null);
    assert_eq!(last_pop("program :p; ((a, b?) => b)(10, 3);"), Integer(3));
    assert_eq!(
        last_pop("program :p; (func (a) { t := a + 1; u := t * 2; u - a })(5);"),
        Integer(7)
    );
    // the stack below a call is as it was
    assert_eq!(
        last_pop("program :p; [1, ((a) => a + 1)(1), 3];"),
        Tuple(integers(&[1, 2, 3]))
    );
    // calls nest
    assert_eq!(
        last_pop("program :p; f := (a) => a + 1; twice := (x, f!) => f(f(x)); twice(5);"),
        Integer(7)
    );
}

#[test]
fn closures_capture_by_value() {
    assert_eq!(
        last_pop("program :p; k := 7; f := (k!) => k; k := 8; f();"),
        Integer(7)
    );
    // the captured value outlives the scope it was taken from
    assert_eq!(
        last_pop("program :p; make := (n) => (d, n!) => n + d; add := make(40); add(2);"),
        Integer(42)
    );
}

#[test]
fn match_switch() {
    let program = |input: &str| {
        format!(
            "program :p; case ({}) {{ 1: \"a\"; 3: \"c\"; ~: \"d\" }};",
            input
        )
    };
    assert_eq!(last_pop(&program("3")), text("c"));
    assert_eq!(last_pop(&program("2")), text("d"));
    assert_eq!(last_pop(&program("1")), text("a"));
}

#[test]
fn switch_without_default_yields_null() {
    assert_eq!(last_pop("program :p; case (9) { 1: 10; 3: 30 };"), Null);
    assert_eq!(last_pop("program :p; case (3) { 1: 10; 3: 30 };"), Integer(30));
    assert_eq!(last_pop("program :p; case { false: 10; 1 > 2: 20 };"), Null);
    assert_eq!(last_pop("program :p; case { false: 10; 1 < 2: 20 };"), Integer(20));
    assert_eq!(last_pop("program :p; case { };"), Null);
    // the match stack is as it was: an outer switch still finds its subject
    assert_eq!(
        last_pop("program :p; case (1) { case (5) { 5: 1 }: 77; ~: 0 };"),
        Integer(77)
    );
}

#[test]
fn globals_and_uninitialised_reads() {
    assert_eq!(last_pop("program :p; x := 2; y := x + 1; x * y;"), Integer(6));
    // an assignment is an expression whose value is the value assigned
    assert_eq!(last_pop("program :p; x := 5;"), Integer(5));
    // a global that a function assigns only later is unset at the read
    let floats = vec![];
    let mut c = Compiler::new();
    c.compile_program(parser::parse_from_program("program :p; x := 1;", &floats).unwrap())
        .unwrap();
    let mut code = c.finish();
    code.instuctions = Bytes::from(vec![code::GetGVar::VAL, 0, 0]);
    assert_eq!(run(&mut VM::new(code)).unwrap_err(), RuntimeError::UninitVar);
}

#[test]
fn indexing() {
    let index = |container: ExprST<'static>, key: i64| {
        let mut c = Compiler::new();
        c.compile_expr(ExprST::Postfix {
            left: Box::new(container),
            selector: Selector::Index(Box::new(ExprST::Integer(key))),
        })
        .unwrap();
        let mut vm = VM::new(c.finish());
        run(&mut vm).map(|_| vm.peek_top().unwrap().reference())
    };
    let tuple = || {
        ExprST::TupleLiteral(Former::Literal(vec![
            ExprST::Integer(10),
            ExprST::Integer(20),
            ExprST::Integer(30),
        ]))
    };
    assert!(index(ExprST::String("hello"), 1).unwrap() == text("e").wrap());
    assert!(index(tuple(), 2).unwrap() == Integer(30).wrap());
    assert!(index(tuple(), 0).unwrap() == Integer(10).wrap());
    assert_eq!(index(tuple(), 3).unwrap_err(), RuntimeError::IndexError);
    assert_eq!(index(ExprST::Null, 0).unwrap_err(), RuntimeError::TypeError);
}

#[test]
fn index_by_opcode() {
    let program = |container: BaseObject, key: BaseObject| {
        let mut vm = VM::new(Bytecode {
            instuctions: Bytes::from(vec![
                code::Const::VAL, 0, 0,
                code::Const::VAL, 0, 1,
                code::Index::VAL,
            ]),
            constants: vec![container, key],
            global_count: 0,
        });
        let outcome = run(&mut vm);
        outcome.map(|_| vm.peek_top().unwrap().reference())
    };
    assert!(program(text("h\u{e9}llo"), Integer(1)).unwrap() == text("\u{e9}").wrap());
    assert!(program(text("hello"), Integer(0)).unwrap() == text("h").wrap());
    assert!(program(Tuple(integers(&[10, 20, 30])), Integer(2)).unwrap() == Integer(30).wrap());
    assert_eq!(program(text("hello"), Integer(5)).unwrap_err(), RuntimeError::IndexError);
    assert_eq!(program(text("hello"), Integer(-1)).unwrap_err(), RuntimeError::IndexError);
    assert_eq!(program(Tuple(vec![]), Integer(0)).unwrap_err(), RuntimeError::IndexError);
    assert_eq!(program(text("hello"), True).unwrap_err(), RuntimeError::TypeError);
    assert_eq!(program(Integer(5), Integer(0)).unwrap_err(), RuntimeError::TypeError);
    assert_eq!(
        program(BaseObject::SetValue(integers(&[1])), Integer(0)).unwrap_err(),
        RuntimeError::TypeError
    );
}

#[test]
fn not_law() {
    test_input("!(!true)", True);
    test_input("!(!false)", False);
    test_input("not not true", True);
    for other in ["1", "null", "\"text\"", "[true]", "1.5", "() => 1"] {
        assert_eq!(failure(&format!("!({})", other)), RuntimeError::TypeError, "{}", other);
    }
}

#[test]
fn equality_laws() {
    for value in ["1", "null", "true", "\"text\"", "[1, [2, 3]]", "{1, 2}", "1.5"] {
        test_input(&format!("{} == {}", value, value), True);
        test_input(&format!("{} != {}", value, value), False);
    }
    assert_eq!(last_pop("program :p; f := (a, b?) => a; f == f;"), True);
    assert_eq!(last_pop("program :p; f := (a, b?) => a; f != f;"), False);
    assert_eq!(last_pop("program :p; f := () => 1; g := () => 2; f == g;"), False);
    assert_eq!(last_pop("program :p; k := 1; f := (k!) => k; k := 2; g := (k!) => k; f == g;"), False);
    for (left, right) in [("1", "2"), ("1", "true"), ("[1, 2]", "[2, 1]"), ("[1]", "{1}"),
        ("\"a\"", "\"b\""), ("null", "false"), ("1", "1.0"), ("[1, 2]", "[1, 2, 3]")] {
        test_input(&format!("{} == {}", left, right), False);
        test_input(&format!("{} != {}", left, right), True);
    }
    // the two zeros are equal
    test_input("0.0 == -0.0", True);
}

#[test]
fn not_a_number_is_unequal_to_itself() {
    let nan = Float(f64::NAN.to_bits());
    assert!(!(nan == Float(f64::NAN.to_bits())));
    assert!(!(Tuple(vec![Float(f64::NAN.to_bits()).wrap()]) == Tuple(vec![Float(f64::NAN.to_bits()).wrap()])));
    assert!(Float(0.0f64.to_bits()) == Float((-0.0f64).to_bits()));
    assert!(Float(f64::INFINITY.to_bits()) == Float(f64::INFINITY.to_bits()));
    assert!(!(Float(f64::INFINITY.to_bits()) == Float(f64::NEG_INFINITY.to_bits())));
}

#[test]
fn truthiness() {
    for (value, expected) in [("true", 1), ("false", 2), ("null", 2), ("0", 2), ("5", 1), ("-5", 1),
        ("0.0", 2), ("-0.0", 2), ("0.5", 1), ("\"\"", 2), ("\"a\"", 1), ("[]", 2), ("[0]", 1),
        ("{}", 2), ("{null}", 1), ("() => null", 1)] {
        test_input(&format!("if {} ? 1 : 2", value), Integer(expected));
    }
    assert!(Float(f64::NAN.to_bits()).truthy());
    assert!(Integer(3).is_int());
    assert!(!Float(3.0f64.to_bits()).wrap().is_int());
}

#[test]
fn integer_arithmetic_wraps() {
    test_input("9223372036854775807 + 1", Integer(i64::MIN));
    test_input("-9223372036854775807 - 2", Integer(i64::MAX));
    test_input("4611686018427387904 * 2", Integer(i64::MIN));
    test_input("3037000500 * 3037000500", Integer(3037000500i64.wrapping_mul(3037000500)));
    test_input("2 ** 62", Integer(1 << 62));
    test_input("2 ** 63", Integer(i64::MIN));
    test_input("2 ** 64", Integer(0));
    test_input("3 ** 41", Integer(3i64.wrapping_pow(41)));
    test_input("(-3) ** 3", Integer(-27));
    test_input("7 ** 0", Integer(1));
    test_input("0 ** 0", Integer(1));
    // a negative exponent is read as its low 32 bits
    test_input("1 ** (-1)", Integer(1));
    test_input("2 ** (-1)", Integer(2i64.wrapping_pow(u32::MAX)));
    test_input("-(9223372036854775807 + 1)", Integer(i64::MIN));
}

#[test]
fn integer_division() {
    test_input("7 div 2", Integer(3));
    test_input("-7 div 2", Integer(-3));
    test_input("7 div (-2)", Integer(-3));
    test_input("-7 div (-2)", Integer(3));
    test_input("(-9223372036854775807 - 1) div (-1)", Integer(i64::MIN));
    assert_eq!(failure("1 div 0"), RuntimeError::DivByZero);
    assert_eq!(failure("1 / 0"), RuntimeError::DivByZero);
    assert_eq!(failure("1.5 / 0"), RuntimeError::DivByZero);
    assert_eq!(failure("1.5 / 0.0"), RuntimeError::DivByZero);
    assert_eq!(failure("1 / (-0.0)"), RuntimeError::DivByZero);
    assert_eq!(failure("1.5 div 2"), RuntimeError::TypeError);
    assert_eq!(failure("1 div 2.5"), RuntimeError::TypeError);
}

#[test]
fn float_arithmetic_goes_through_the_host() {
    test_input("1.5 + 2", Float(3.5f64.to_bits()));
    test_input("1 - 2.5", Float((-1.5f64).to_bits()));
    test_input("7 / 2", Float(3.5f64.to_bits()));
    test_input("2.0 ** 0.5", Float(2.0f64.powf(0.5).to_bits()));
    test_input("1.5 < 2", True);
    test_input("2 <= 1.5", False);
    test_input("2.5 > 2", True);
    test_input("1e3", Float(1000.0f64.to_bits()));
    test_input("01f2", Float(100.0f64.to_bits()));
    test_input("1.25E-2", Float(0.0125f64.to_bits()));

    let mut vm = vm_from("1.5 + 2");
    match vm.run().unwrap() {
        Status::NeedsFloat(request) => {
            assert_eq!(request.op, code::Add::VAL);
            assert_eq!(request.left, Number::Float(1.5f64.to_bits()));
            assert_eq!(request.right, Number::Integer(2));
            // both operands are off the stack while the machine waits
            assert!(vm.peek_top().is_none());
        }
        other => panic!("{:?}", other),
    }
}

#[test]
fn type_errors() {
    assert_eq!(failure("1 + true"), RuntimeError::TypeError);
    assert_eq!(failure("\"a\" + \"b\""), RuntimeError::TypeError);
    assert_eq!(failure("null < 1"), RuntimeError::TypeError);
    assert_eq!(failure("1 mod 2"), RuntimeError::TypeError);
    assert_eq!(failure("true and false"), RuntimeError::TypeError);
    assert_eq!(failure("{1} union {2}"), RuntimeError::TypeError);
    assert_eq!(failure("1.5 mod 2"), RuntimeError::TypeError);
    assert_eq!(failure("-true"), RuntimeError::TypeError);
    assert_eq!(failure("-\"a\""), RuntimeError::TypeError);
    assert_eq!(failure("5()"), RuntimeError::TypeError);
}

#[test]
fn arity_errors() {
    assert_eq!(failure("((a) => a)()"), RuntimeError::ArityError);
    assert_eq!(failure("((a) => a)(1, 2)"), RuntimeError::ArityError);
    assert_eq!(failure("((a, b?) => a)(1, 2, 3)"), RuntimeError::ArityError);
    assert_eq!(failure("(() => 1)(1)"), RuntimeError::ArityError);
}

#[test]
fn call_depth_is_limited() {
    // a function that calls itself through a global never returns
    let mut vm = vm_from_program("program :p; f := 0; f := () => f(); f();");
    assert_eq!(run(&mut vm).unwrap_err(), RuntimeError::StackOverflow);
    // 2047 calls deep is within the limit
    let mut vm = vm_from_program(
        "program :p; f := 0; f := (n) => if n == 0 ? 0 : 1 + f(n - 1); f(2046);",
    );
    assert!(run(&mut vm).unwrap().unwrap() == Integer(2046).wrap());
    let mut vm = vm_from_program(
        "program :p; f := 0; f := (n) => if n == 0 ? 0 : 1 + f(n - 1); f(2047);",
    );
    assert_eq!(run(&mut vm).unwrap_err(), RuntimeError::StackOverflow);
}

#[test]
fn malformed_bytecode() {
    let raw = |instructions: Vec<u8>| {
        let mut vm = VM::new(Bytecode {
            instuctions: Bytes::from(instructions),
            constants: vec![Integer(1)],
            global_count: 1,
        });
        run(&mut vm)
    };
    assert_eq!(raw(vec![code::Pop::VAL]).unwrap_err(), RuntimeError::EmptyStack);
    assert_eq!(raw(vec![code::Add::VAL]).unwrap_err(), RuntimeError::EmptyStack);
    assert_eq!(raw(vec![code::Null::VAL, code::Add::VAL]).unwrap_err(), RuntimeError::EmptyStack);
    assert_eq!(raw(vec![code::Not::VAL]).unwrap_err(), RuntimeError::EmptyStack);
    assert_eq!(raw(vec![code::Index::VAL]).unwrap_err(), RuntimeError::EmptyStack);
    assert_eq!(raw(vec![code::PushMatch::VAL]).unwrap_err(), RuntimeError::EmptyStack);
    assert_eq!(raw(vec![code::JumpNotTrue::VAL, 0, 0]).unwrap_err(), RuntimeError::EmptyStack);
    assert_eq!(raw(vec![code::JumpNotMatch::VAL, 0, 0]).unwrap_err(), RuntimeError::EmptyStack);
    assert_eq!(raw(vec![code::SetGVar::VAL, 0, 0]).unwrap_err(), RuntimeError::EmptyStack);
    assert_eq!(raw(vec![code::ToTuple::VAL, 0, 1]).unwrap_err(), RuntimeError::EmptyStack);
    assert_eq!(raw(vec![code::ToTupleRn::VAL, 0, 2]).unwrap_err(), RuntimeError::EmptyStack);
    assert_eq!(raw(vec![code::ToFn::VAL, 0, 0]).unwrap_err(), RuntimeError::EmptyStack);
    assert_eq!(raw(vec![code::Call::VAL, 0, 0]).unwrap_err(), RuntimeError::EmptyStack);
    assert_eq!(raw(vec![code::Const::VAL, 0]).unwrap_err(), RuntimeError::InvalidBytecode);
    assert_eq!(raw(vec![code::Const::VAL, 0, 1]).unwrap_err(), RuntimeError::InvalidBytecode);
    assert_eq!(raw(vec![code::Null::VAL, code::SetGVar::VAL, 0, 1]).unwrap_err(), RuntimeError::InvalidBytecode);
    assert_eq!(raw(vec![code::Null::VAL, code::SetLVar::VAL, 0, 1]).unwrap_err(), RuntimeError::InvalidBytecode);
    assert_eq!(raw(vec![code::GetLVar::VAL, 0, 0]).unwrap_err(), RuntimeError::InvalidBytecode);
    assert_eq!(raw(vec![code::Null::VAL, code::Return::VAL]).unwrap_err(), RuntimeError::InvalidBytecode);
    assert_eq!(raw(vec![code::Null::VAL, code::Null::VAL, code::ToTupleRn::VAL, 0, 4]).unwrap_err(), RuntimeError::InvalidBytecode);
    assert_eq!(raw(vec![code::Size::VAL]).unwrap_err(), RuntimeError::InvalidBytecode);
    assert_eq!(raw(vec![code::DynVar::VAL]).unwrap_err(), RuntimeError::InvalidBytecode);
    assert_eq!(raw(vec![code::Range::VAL]).unwrap_err(), RuntimeError::InvalidBytecode);
    assert_eq!(raw(vec![code::Pick::VAL]).unwrap_err(), RuntimeError::InvalidBytecode);
    assert_eq!(raw(vec![99]).unwrap_err(), RuntimeError::InvalidBytecode);
    assert_eq!(raw(vec![code::GetGVar::VAL, 0, 0]).unwrap_err(), RuntimeError::UninitVar);
    assert_eq!(raw(vec![code::GetGVar::VAL, 0, 9]).unwrap_err(), RuntimeError::UninitVar);
    assert_eq!(raw(vec![code::Null::VAL, code::ToFn::VAL, 0, 0]).unwrap_err(), RuntimeError::TypeError);
    // a jump behind the end ends the program
    assert!(raw(vec![code::Jump::VAL, 0, 9]).unwrap().is_none());
    assert!(raw(vec![]).unwrap().is_none());
    // popping the match stack when it is empty changes nothing
    assert!(raw(vec![code::PopMatch::VAL]).unwrap().is_none());
    assert!(!RuntimeError::InvalidBytecode.message().is_empty());
}

#[test]
fn run_steps_pauses_at_the_limit() {
    let mut vm = vm_from_program("program :p; 1; 2; 3;");
    assert!(matches!(vm.run_steps(0), Ok(Status::Running)));
    assert!(matches!(vm.run_steps(3), Ok(Status::Running)));
    assert!(vm.peek_top() == Some(&Integer(2).wrap()));
    match vm.run_steps(100) {
        Ok(Status::Finished(Some(result))) => assert!(result == Integer(3).wrap()),
        other => panic!("{:?}", other),
    }
    // at the end of the code nothing changes any more
    assert!(matches!(vm.step(), Ok(Status::Finished(Some(_)))));
}

#[test]
fn empty_program_yields_nothing() {
    let mut vm = VM::new(Compiler::new().finish());
    assert!(run(&mut vm).unwrap().is_none());
}

#[test]
fn frames() {
    let frame = Frame::new(Rc::new(Bytes::from(vec![1u8, 2, 3])), 7, 9);
    assert_eq!(frame.ins_ptr, 7);
    assert_eq!(frame.stack_ptr, 9);
    assert_eq!(frame.return_cursor(), 7);
    assert_eq!(frame.base_pointer(), 9);
    assert_eq!(&frame.instructions()[..], &[1u8, 2, 3]);
}
