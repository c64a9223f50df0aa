use bytes::Bytes;
use ysetl::code::code::{self, OpCode};
use ysetl::code::debug::{decode, disassemble, Instruction};
use ysetl::parser::ast::{BinOp, ExprST, Former, IteratorType, PreOp, SelectOp, Selector, LHS};
use ysetl::parser::grammar::{Rule, YsetlParser};
use ysetl::parser::lexer::{float_literals, FloatBits, Source};
use ysetl::parser::parser::{
    construct_number, parse_from_expr, parse_from_program, precedence, to_binop, to_prefix, LOWEST,
    PREFIX,
};

fn floats_of(input: &str) -> Vec<FloatBits> {
    float_literals(input)
        .into_iter()
        .map(|literal| FloatBits {
            at: literal.at,
            bits: literal.text.parse::<f64>().unwrap().to_bits(),
        })
        .collect()
}

/// The parsed expression in a form that shows how operators group.
fn shape(input: &str) -> String {
    let floats = floats_of(input);
    let parsed = parse_from_expr(input, &floats).unwrap();
    show(&parsed)
}

fn show(node: &ExprST) -> String {
    match node {
        ExprST::Null => "null".to_string(),
        ExprST::True => "true".to_string(),
        ExprST::False => "false".to_string(),
        ExprST::Newat => "newat".to_string(),
        ExprST::Atom(name) => format!(":{}", name),
        ExprST::String(text) => format!("{:?}", text),
        ExprST::Ident(name) => name.to_string(),
        ExprST::Integer(value) => format!("{}", value),
        ExprST::Float(bits) => format!("{:?}", f64::from_bits(*bits)),
        ExprST::Infix { op, left, right } => format!("({} {:?} {})", show(left), op, show(right)),
        ExprST::Prefix { op, right } => format!("({:?} {})", op, show(right)),
        ExprST::Postfix { left, selector } => match selector {
            Selector::Call(args) => format!("{}({})", show(left), show_all(args)),
            Selector::Range(low, high) => format!(
                "{}({}..{})",
                show(left),
                low.as_ref().map(|e| show(e)).unwrap_or_default(),
                high.as_ref().map(|e| show(e)).unwrap_or_default()
            ),
            other => format!("{}{:?}", show(left), other),
        },
        ExprST::Ternary { condition, consequence, alternative } => format!(
            "(if {} ? {} : {})",
            show(condition),
            show(consequence),
            show(alternative)
        ),
        ExprST::ReduceWithOp { op, left, right } => {
            format!("({} %{:?} {})", show(left), op, show(right))
        }
        ExprST::ReduceWithExpr { apply, left, right } => {
            format!("({} %[{}] {})", show(left), show(apply), show(right))
        }
        ExprST::InfixInject { apply, left, right } => {
            format!("({} .[{}] {})", show(left), show(apply), show(right))
        }
        ExprST::Return(value) => format!("(return {})", show(value)),
        ExprST::TupleLiteral(Former::Literal(elements)) => format!("[{}]", show_all(elements)),
        ExprST::SetLiteral(Former::Literal(elements)) => format!("{{{}}}", show_all(elements)),
        other => format!("{:?}", other),
    }
}

fn show_all(nodes: &[ExprST]) -> String {
    nodes.iter().map(show).collect::<Vec<_>>().join(", ")
}

#[test]
fn operators_group_by_precedence() {
    assert_eq!(shape("1 + 2 * 3"), "(1 Add (2 Mult 3))");
    assert_eq!(shape("1 * 2 + 3"), "((1 Mult 2) Add 3)");
    assert_eq!(shape("1 - 2 - 3"), "((1 Subtract 2) Subtract 3)");
    assert_eq!(shape("a ** b ** c"), "(a Exp (b Exp c))");
    assert_eq!(shape("a ?? b ?? c"), "(a NullCoal (b NullCoal c))");
    assert_eq!(shape("a @ b @ c"), "(a TupleStart (b TupleStart c))");
    assert_eq!(shape("a or b and c"), "(a Or (b And c))");
    assert_eq!(shape("a || b && c"), "(a Or (b And c))");
    assert_eq!(shape("a iff b impl c"), "(a Iff (b Impl c))");
    assert_eq!(shape("a < b == c <= d"), "(((a LT b) EQ c) LTEQ d)");
    assert_eq!(shape("a in b + c"), "(a In (b Add c))");
    assert_eq!(shape("a + b in c"), "((a Add b) In c)");
    assert_eq!(shape("a notin s union t"), "(a Notin (s Union t))");
    assert_eq!(shape("a mod b div c inter d"), "(((a Mod b) IntDiv c) Inter d)");
    assert_eq!(shape("a with b less c"), "((a With b) Less c)");
    assert_eq!(shape("1 + (2 + 3)"), "(1 Add (2 Add 3))");
    assert_eq!(shape("a >= b != c > d"), "(((a GTEQ b) NEQ c) GT d)");
    assert_eq!(shape("a subset b"), "(a Subset b)");
    assert_eq!(shape("3 + (4 / 5)"), "(3 Add (4 Div 5))");
}

#[test]
fn prefix_operators_bind_before_infix_ones() {
    assert_eq!(shape("-a ** b"), "((Negate a) Exp b)");
    assert_eq!(shape("-1.0 * 2"), "((Negate 1.0) Mult 2)");
    assert_eq!(shape("#s + 1"), "((Size s) Add 1)");
    assert_eq!(shape("!a == b"), "((Not a) EQ b)");
    assert_eq!(shape("not a == b"), "(Not (a EQ b))");
    assert_eq!(shape("not a and b"), "(Not (a And b))");
    assert_eq!(shape("a + not b == c"), "(a Add (Not (b EQ c)))");
    assert_eq!(shape("- - a"), "(Negate (Negate a))");
    assert_eq!(shape("+a"), "(Id a)");
    assert_eq!(shape("@a"), "(DynVar a)");
    assert_eq!(shape("-f(x)"), "(Negate f(x))");
}

#[test]
fn selectors_reductions_and_injections() {
    assert_eq!(shape("f(a)(b, c)"), "f(a)(b, c)");
    assert_eq!(shape("f()"), "f()");
    assert_eq!(shape("t(1..2)"), "t(1..2)");
    assert_eq!(shape("t(..2)"), "t(..2)");
    assert_eq!(shape("t(1..)"), "t(1..)");
    assert_eq!(shape("t(..)"), "t(..)");
    assert_eq!(shape("a %+ b"), "(a %Add b)");
    assert_eq!(shape("a %** b"), "(a %Exp b)");
    assert_eq!(shape("a %foo b"), "(a %[foo] b)");
    assert_eq!(shape("a %(f(1)) b"), "(a %[f(1)] b)");
    assert_eq!(shape("a .foo b"), "(a .[foo] b)");
    assert_eq!(shape("a .(foo) b + c"), "(a .[foo] (b Add c))");
    assert_eq!(shape("a %+ b %+ c"), "(a %Add (b %Add c))");
    assert_eq!(shape("a + b .f c"), "((a Add b) .[f] c)");
    let floats = vec![];
    match parse_from_expr("(func() { x })()", &floats).unwrap() {
        ExprST::Postfix { left, selector: Selector::Call(args) } => {
            assert!(matches!(*left, ExprST::Function { .. }));
            assert!(args.is_empty());
        }
        other => panic!("{:?}", other),
    }
}

#[test]
fn literals_and_names() {
    assert_eq!(shape("null"), "null");
    assert_eq!(shape("newat"), "newat");
    assert_eq!(shape(" true "), "true");
    assert_eq!(shape(":abc"), ":abc");
    assert_eq!(shape("nullable"), "nullable");
    assert_eq!(shape("in_"), "in_");
    assert_eq!(shape("_x1"), "_x1");
    assert_eq!(shape("\"hello, \\\"world\\\"\""), "\"hello, \\\\\\\"world\\\\\\\"\"");
    assert_eq!(shape("\"h\u{e9}\""), "\"h\u{e9}\"");
    assert_eq!(shape("9223372036854775807"), "9223372036854775807");
    assert_eq!(shape("007"), "7");
    assert_eq!(shape("123.456"), "123.456");
    assert_eq!(shape("1.23456e-2"), "0.0123456");
    assert_eq!(shape("01e2"), "100.0");
    assert_eq!(shape("01f2"), "100.0");
    assert_eq!(shape("01E+2"), "100.0");
    assert_eq!(shape("01F2"), "100.0");
    assert_eq!(shape("[1, 2.5, \"a\"]"), "[1, 2.5, \"a\"]");
    assert_eq!(shape("{}"), "{}");
    assert_eq!(shape("if a ? b : c"), "(if a ? b : c)");
    assert_eq!(shape("if a ?? b ? :x : :y"), "(if (a NullCoal b) ? :x : :y)");
    assert_eq!(shape("return a + 1"), "(return (a Add 1))");
}

#[test]
fn formers() {
    let floats = vec![];
    match parse_from_expr("[1..10]", &floats).unwrap() {
        ExprST::TupleLiteral(Former::Range { range_start, range_step, range_end }) => {
            assert!(matches!(*range_start, ExprST::Integer(1)));
            assert!(range_step.is_none());
            assert!(matches!(*range_end, ExprST::Integer(10)));
        }
        other => panic!("{:?}", other),
    }
    match parse_from_expr("{1, 3 .. 10}", &floats).unwrap() {
        ExprST::SetLiteral(Former::Range { range_start, range_step, range_end }) => {
            assert!(matches!(*range_start, ExprST::Integer(1)));
            assert!(matches!(range_step.as_deref(), Some(ExprST::Integer(3))));
            assert!(matches!(*range_end, ExprST::Integer(10)));
        }
        other => panic!("{:?}", other),
    }
    match parse_from_expr("[[x,y] : x in Z, y=W(x), z=V{x, ~} | not x | y]", &floats).unwrap() {
        ExprST::TupleLiteral(Former::Iterator { iterator, output }) => {
            assert!(matches!(*output, ExprST::TupleLiteral(Former::Literal(_))));
            assert_eq!(iterator.iterators.len(), 3);
            assert!(matches!(iterator.iterators[0], IteratorType::In { .. }));
            assert!(matches!(
                iterator.iterators[1],
                IteratorType::SelectSingle { collection_ident: "W", .. }
            ));
            assert!(matches!(
                iterator.iterators[2],
                IteratorType::SelectMulti { collection_ident: "V", .. }
            ));
            assert_eq!(iterator.filter.len(), 2);
        }
        other => panic!("{:?}", other),
    }
    match parse_from_expr("exists x, y in S | x > y", &floats).unwrap() {
        ExprST::Select { op, iterator } => {
            assert_eq!(op, SelectOp::Exists);
            match &iterator.iterators[0] {
                IteratorType::In { list, .. } => assert_eq!(list.len(), 2),
                other => panic!("{:?}", other),
            }
        }
        other => panic!("{:?}", other),
    }
}

#[test]
fn functions_and_switches() {
    let floats = vec![];
    match parse_from_expr("func (a, b?, c?, d!) { a; b; }", &floats).unwrap() {
        ExprST::Function { req_params, opt_params, locked_params, body, null_return } => {
            assert_eq!(req_params, vec!["a"]);
            assert_eq!(opt_params, vec!["b", "c"]);
            assert_eq!(locked_params, vec!["d"]);
            assert_eq!(body.len(), 2);
            assert!(null_return);
        }
        other => panic!("{:?}", other),
    }
    match parse_from_expr("(a) => a; ", &floats) {
        Err(error) => assert_eq!(error.position, 8),
        other => panic!("{:?}", other),
    }
    match parse_from_expr("case (x) { 1: a; b; 2: c;; ~: d; }", &floats).unwrap() {
        ExprST::Switch { input, cases } => {
            assert!(matches!(input.as_deref(), Some(ExprST::Ident("x"))));
            assert_eq!(cases.len(), 3);
            assert_eq!(cases[0].consequence.len(), 2);
            assert!(!cases[0].null_return);
            assert_eq!(cases[1].consequence.len(), 1);
            assert!(cases[1].null_return);
            assert!(cases[2].condition.is_none());
            assert!(cases[2].null_return);
        }
        other => panic!("{:?}", other),
    }
    match parse_from_expr("case { a < b: 1; ~: 2 }", &floats).unwrap() {
        ExprST::Switch { input, cases } => {
            assert!(input.is_none());
            assert_eq!(cases.len(), 2);
        }
        other => panic!("{:?}", other),
    }
}

#[test]
fn assignments() {
    let floats = vec![];
    match parse_from_expr("x := y := 3", &floats).unwrap() {
        ExprST::Assign { left: LHS::Ident { target, selectors }, right } => {
            assert_eq!(target, "x");
            assert!(selectors.is_empty());
            assert!(matches!(*right, ExprST::Assign { .. }));
        }
        other => panic!("{:?}", other),
    }
    match parse_from_expr("t(3)(1..2) := 0", &floats).unwrap() {
        ExprST::Assign { left: LHS::Ident { target, selectors }, .. } => {
            assert_eq!(target, "t");
            assert_eq!(selectors.len(), 2);
        }
        other => panic!("{:?}", other),
    }
    match parse_from_expr("[a, ~, [b, c]] := t", &floats).unwrap() {
        ExprST::Assign { left: LHS::List(elements), .. } => {
            assert_eq!(elements.len(), 3);
            assert!(matches!(elements[1], LHS::Tilde));
            assert!(matches!(elements[2], LHS::List(_)));
        }
        other => panic!("{:?}", other),
    }
}

#[test]
fn programs() {
    let floats = vec![];
    let program = parse_from_program("program :p; if true ? 1 : 2; 99;", &floats).unwrap();
    assert_eq!(program.expressions.len(), 2);
    let program = parse_from_program(" program :p ;\n 1 ;\n 2", &floats).unwrap();
    assert_eq!(program.expressions.len(), 2);
    assert!(parse_from_program("program :p;", &floats).is_err());
    assert!(parse_from_program("program p; 1;", &floats).is_err());
    assert!(parse_from_program("1;", &floats).is_err());
    assert_eq!(parse_from_program("program :p; 1; )", &floats).unwrap_err().position, 15);
}

#[test]
fn what_is_no_expression() {
    let floats = vec![];
    for input in ["", "   ", "1 +", "(1", "[1, 2", "if a ? b", "func (a { }", "a := ", "\"open",
        "1 2", "case (x) { 1 }", "99999999999999999999", "(a?, b) => a", "(a!, b?) => a", "in",
        "a ? b", "{x : }"] {
        assert!(parse_from_expr(input, &floats).is_err(), "{:?}", input);
    }
    assert!(!parse_from_expr("1 2", &floats).unwrap_err().message().is_empty());
}

#[test]
fn nesting_is_limited() {
    let floats = vec![];
    let deep = |depth: usize| format!("{}1{}", "(".repeat(depth), ")".repeat(depth));
    assert!(parse_from_expr(&deep(150), &floats).is_ok());
    assert!(parse_from_expr(&deep(250), &floats).is_err());
    let negations = format!("{}1", "-".repeat(250));
    assert!(parse_from_expr(&negations, &floats).is_err());
}

#[test]
fn float_literals_are_found() {
    let found: Vec<(usize, String)> = float_literals("x := 1.5 + 2e3 * 7 - 01F2")
        .into_iter()
        .map(|literal| (literal.at, literal.text))
        .collect();
    assert!(found.contains(&(5, "1.5".to_string())));
    assert!(found.contains(&(11, "2e3".to_string())));
    assert!(found.contains(&(21, "01e2".to_string())));
    assert!(found.iter().all(|(at, _)| *at != 17));
    assert!(float_literals("1 + 2").is_empty());
    assert!(float_literals("").is_empty());
    // a float literal whose bits the host has not handed over is refused
    let none = vec![];
    assert!(parse_from_expr("1.5", &none).is_err());
    let wrong_place = vec![FloatBits { at: 1, bits: 0 }];
    assert!(parse_from_expr("1.5", &wrong_place).is_err());
    let right_place = vec![FloatBits { at: 0, bits: 1.5f64.to_bits() }];
    assert!(matches!(parse_from_expr("1.5", &right_place), Ok(ExprST::Float(bits)) if bits == 1.5f64.to_bits()));
    // the recogniser does not ask for them
    assert!(YsetlParser::parse(Rule::expr, "1.5 + 2").is_ok());
}

#[test]
fn scanners() {
    let floats = vec![];
    let text = "  foo_1 + 12.5e-3.. \"a\\\"b\" :atom null";
    let src = Source::new(text, &floats, true);
    assert_eq!(src.len(), text.len());
    assert_eq!(src.skip_ws(0), 2);
    assert_eq!(src.skip_ws(2), 2);
    assert_eq!(src.ident(0), Some(("foo_1", 7)));
    assert_eq!(src.ident(7), None);
    assert_eq!(src.symbol(7, "+"), Some(9));
    assert_eq!(src.symbol(7, "-"), None);
    assert_eq!(src.symbol(7, ""), None);
    let number = src.number(9).unwrap();
    assert_eq!((number.start, number.digits_end, number.fraction_end, number.end), (10, 12, 14, 17));
    assert_eq!(src.float_text(number), "12.5e-3");
    assert_eq!(src.integer(10, 12), Some(12));
    assert_eq!(src.symbol(17, ".."), Some(19));
    assert_eq!(src.symbol_not_before(17, ".", b'.'), None);
    assert_eq!(src.string(19), Some(("a\\\"b", 26)));
    assert_eq!(src.atom(26), Some(("atom", 32)));
    assert_eq!(src.keyword(32, "null"), Some(37));
    assert_eq!(src.keyword(32, "nul"), None);
    assert_eq!(src.match_text(33, "null"), Some(37));
    assert_eq!(src.slice(2, 7), Some("foo_1"));
    assert_eq!(src.slice(7, 2), None);
    assert!(src.reserved(33, 37));
    assert!(!src.reserved(2, 7));
    assert_eq!(src.float_bits(3), Some(0));
    assert_eq!(Source::new(text, &floats, false).float_bits(3), None);
    let euro = Source::new("\u{20ac}", &floats, true);
    assert_eq!(euro.slice(0, 1), None);
    assert_eq!(euro.slice(0, 3), Some("\u{20ac}"));
}

#[test]
fn operator_tokens() {
    let floats = vec![];
    for (text, op) in [("iff", BinOp::Iff), ("impl", BinOp::Impl), ("or", BinOp::Or), ("||", BinOp::Or),
        ("and", BinOp::And), ("&&", BinOp::And), ("<", BinOp::LT), ("<=", BinOp::LTEQ), (">", BinOp::GT),
        (">=", BinOp::GTEQ), ("==", BinOp::EQ), ("!=", BinOp::NEQ), ("in", BinOp::In),
        ("notin", BinOp::Notin), ("subset", BinOp::Subset), ("+", BinOp::Add), ("-", BinOp::Subtract),
        ("with", BinOp::With), ("less", BinOp::Less), ("union", BinOp::Union), ("*", BinOp::Mult),
        ("/", BinOp::Div), ("mod", BinOp::Mod), ("div", BinOp::IntDiv), ("inter", BinOp::Inter),
        ("**", BinOp::Exp), ("??", BinOp::NullCoal), ("@", BinOp::TupleStart)] {
        let padded = format!(" {} x", text);
        let src = Source::new(&padded, &floats, true);
        assert_eq!(to_binop(&src, 0), Some((op, 1 + text.len())), "{}", text);
    }
    let src = Source::new("input", &floats, true);
    assert_eq!(to_binop(&src, 0), None);
    let src = Source::new("=", &floats, true);
    assert_eq!(to_binop(&src, 0), None);
    assert_eq!(precedence(BinOp::Iff), (2, false));
    assert_eq!(precedence(BinOp::Add), (9, false));
    assert_eq!(precedence(BinOp::Mult), (10, false));
    assert_eq!(precedence(BinOp::Exp), (11, true));
    assert_eq!(precedence(BinOp::TupleStart), (14, true));
}

#[test]
fn disassembly() {
    let code = Bytes::from(vec![
        code::True::VAL,
        code::JumpNotTrue::VAL, 0, 10,
        code::Const::VAL, 1, 2,
        code::Jump::VAL, 0, 13,
        code::Const::VAL, 0, 1,
        code::Pop::VAL,
    ]);
    let listing = disassemble(&code);
    assert_eq!(listing, vec![
        Instruction { at: 0, op: code::True::VAL, operand: None },
        Instruction { at: 1, op: code::JumpNotTrue::VAL, operand: Some(10) },
        Instruction { at: 4, op: code::Const::VAL, operand: Some(258) },
        Instruction { at: 7, op: code::Jump::VAL, operand: Some(13) },
        Instruction { at: 10, op: code::Const::VAL, operand: Some(1) },
        Instruction { at: 13, op: code::Pop::VAL, operand: None },
    ]);
    assert_eq!(decode(&code, 14), None);
    assert_eq!(decode(&code, 2), Some(Instruction { at: 2, op: 0, operand: Some(10 * 256) }));
    // a listing stops at a byte that is no opcode, and at an operand that is cut off
    assert_eq!(disassemble(&Bytes::from(vec![code::Null::VAL, 99, code::Null::VAL])).len(), 1);
    assert_eq!(disassemble(&Bytes::from(vec![code::Null::VAL, code::Const::VAL, 0])).len(), 1);
    assert!(disassemble(&Bytes::new()).is_empty());
}

#[test]
fn prefix_tokens() {
    let floats = vec![];
    let src = Source::new(" not x", &floats, true);
    assert_eq!(to_prefix(&src, 0), Some((PreOp::Not, LOWEST, 4)));
    for (text, op) in [("-", PreOp::Negate), ("+", PreOp::Id), ("@", PreOp::DynVar),
        ("#", PreOp::Size), ("!", PreOp::Not)] {
        let padded = format!("  {}x", text);
        let src = Source::new(&padded, &floats, true);
        assert_eq!(to_prefix(&src, 0), Some((op, PREFIX, 3)), "{}", text);
    }
    // a word that goes on is no operator, and neither is the beginning of `!=`
    let src = Source::new("nothing", &floats, true);
    assert_eq!(to_prefix(&src, 0), None);
    let src = Source::new("!= x", &floats, true);
    assert_eq!(to_prefix(&src, 0), None);
    let src = Source::new("", &floats, true);
    assert_eq!(to_prefix(&src, 0), None);
}

#[test]
fn numbers_are_constructed() {
    let none = vec![];
    let src = Source::new(" 42 ", &none, false);
    let span = src.number(0).unwrap();
    assert_eq!((span.start, span.end), (1, 3));
    assert!(matches!(construct_number(&src, span), Some(ExprST::Integer(42))));
    // the greatest integer, and the one behind it
    let src = Source::new("9223372036854775807", &none, false);
    let span = src.number(0).unwrap();
    assert!(matches!(construct_number(&src, span), Some(ExprST::Integer(i64::MAX))));
    let src = Source::new("9223372036854775808", &none, false);
    let span = src.number(0).unwrap();
    assert!(construct_number(&src, span).is_none());
    // a float has the bits that the table holds for its position
    let table = vec![FloatBits { at: 2, bits: 2.5f64.to_bits() }];
    let src = Source::new("  2.5", &table, false);
    let span = src.number(0).unwrap();
    assert!(matches!(construct_number(&src, span), Some(ExprST::Float(bits)) if bits == 2.5f64.to_bits()));
    let src = Source::new("  2.5", &none, false);
    let span = src.number(0).unwrap();
    assert!(construct_number(&src, span).is_none());
    let src = Source::new("  2.5", &none, true);
    let span = src.number(0).unwrap();
    assert!(matches!(construct_number(&src, span), Some(ExprST::Float(0))));
}

#[test]
fn what_stops_reading() {
    let floats = vec![];
    // nothing was read: the beginning of the text
    assert_eq!(parse_from_expr("", &floats).unwrap_err().position, 0);
    assert_eq!(parse_from_expr("  )", &floats).unwrap_err().position, 0);
    // something was read: behind it and the white space that follows it
    assert_eq!(parse_from_expr("1 + 2   ]", &floats).unwrap_err().position, 8);
    assert_eq!(parse_from_expr("f(1) 2", &floats).unwrap_err().position, 5);
    assert!(parse_from_expr("1 + 2   ", &floats).is_ok());
}
