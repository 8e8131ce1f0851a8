use calc::ast::{Node, NodeType};
use calc::bytecode::{BinOpCode, ByteCode, ByteCodes, RuntimeError, Value};
use calc::compiler::compile;
use calc::lexer::{LexError, Lexer};
use calc::parser::{ParseError, Parser};
use calc::printer::print_node;
use calc::token::{int_to_string, to_string, Token};
use calc::vm::{FloatReq, VmOutcome, VM};

#[derive(Debug)]
enum EvalErr {
    Lex(LexError),
    Parse(ParseError),
    Run(RuntimeError),
}

#[derive(Debug, PartialEq)]
enum Out {
    I(i64),
    F(f64),
}

fn promote(v: Value) -> f64 {
    match v {
        Value::Int(i) => i as f64,
        Value::Float(bits) => f64::from_bits(bits),
    }
}

fn answer(req: FloatReq) -> u64 {
    match req {
        FloatReq::Lit(s) => s.parse::<f64>().unwrap().to_bits(),
        FloatReq::Bin(op, a, b) => {
            let x = promote(a);
            let y = promote(b);
            let r = match op {
                BinOpCode::Add => x + y,
                BinOpCode::Sub => x - y,
                BinOpCode::Mul => x * y,
                BinOpCode::Div => x / y,
                BinOpCode::Pow => x.powf(y),
            };
            r.to_bits()
        }
    }
}

fn parse_text(input: &str) -> Result<Node, EvalErr> {
    let mut lexer = Lexer::new(input.to_string());
    let tokens = lexer.next_token().map_err(EvalErr::Lex)?;
    let mut parser = Parser::new(tokens);
    parser.parse().map_err(EvalErr::Parse)
}

fn eval(input: &str) -> Result<Out, EvalErr> {
    let ast = parse_text(input)?;
    let codes = compile(&ast);
    let mut vm = VM::new(codes);
    let mut step = vm.run().map_err(EvalErr::Run)?;
    loop {
        match step {
            VmOutcome::Done => break,
            VmOutcome::Need(req) => {
                let bits = answer(req);
                step = vm.resume(bits).map_err(EvalErr::Run)?;
            }
        }
    }
    match vm.result().unwrap() {
        Value::Int(i) => Ok(Out::I(i)),
        Value::Float(bits) => Ok(Out::F(f64::from_bits(bits))),
    }
}

fn eval_int(input: &str) -> i64 {
    match eval(input) {
        Ok(Out::I(i)) => i,
        other => panic!("expected an integer result, got {:?}", other),
    }
}

fn eval_float(input: &str) -> f64 {
    match eval(input) {
        Ok(Out::F(f)) => f,
        other => panic!("expected a float result, got {:?}", other),
    }
}

#[test]
fn tokenize_mixed_literals() {
    let mut lexer = Lexer::new("12+3.5*2".to_string());
    let tokens = lexer.next_token().unwrap();
    assert_eq!(
        tokens,
        vec![
            Token::Int(12),
            Token::Add,
            Token::Float("3.5".to_string()),
            Token::Mul,
            Token::Int(2),
            Token::EOF,
        ]
    );
    assert_eq!("3.5".parse::<f64>().unwrap(), 3.5);
}

#[test]
fn precedence_mul_before_add() {
    assert_eq!(eval_int("2+3*4"), 14);
    assert_ne!(eval_int("2+3*4"), 20);
}

#[test]
fn power_right_associative() {
    assert_eq!(eval_int("2^3^2"), 512);
    assert_eq!(eval_int("2^3"), 8);
    assert_eq!(eval_int("0^0"), 1);
}

#[test]
fn type_promotion() {
    assert_eq!(eval_float("1+2.0"), 3.0);
    assert_eq!(eval_int("4/2"), 2);
    assert_eq!(eval_int("5/2"), 2);
    assert_eq!(eval_float("5.0/2"), 2.5);
    assert_eq!(eval_float("2*3.5"), 7.0);
    assert_eq!(eval_float("2.0^0.5"), 2.0f64.powf(0.5));
}

#[test]
fn unary_chains() {
    assert_eq!(eval_int("--5"), 5);
    assert_eq!(eval_int("-+-5"), 5);
    assert_eq!(eval_int("-5+7"), 2);
    assert_eq!(eval_float("-2.5"), -2.5);
    assert_eq!(eval_float("+2.5"), 2.5);
}

#[test]
fn parentheses_override_precedence() {
    assert_eq!(eval_int("(2+3)*4"), 20);
    assert_eq!(eval_int("2+3*4"), 14);
}

#[test]
fn malformed_inputs() {
    assert!(matches!(
        eval("1.2.3"),
        Err(EvalErr::Lex(LexError::TooManyDecimalPoints))
    ));
    assert!(matches!(
        eval("1+"),
        Err(EvalErr::Parse(ParseError::UnexpectedEndOfInput))
    ));
    assert!(matches!(
        eval("(1+2"),
        Err(EvalErr::Parse(ParseError::ExpectedCloseParen))
    ));
    assert!(matches!(
        eval("@"),
        Err(EvalErr::Lex(LexError::UnexpectedCharacter('@')))
    ));
    assert!(matches!(
        eval("1+*2"),
        Err(EvalErr::Parse(ParseError::ExpectedAtom))
    ));
    assert!(matches!(eval("3."), Err(EvalErr::Lex(LexError::InvalidFloat))));
    assert!(matches!(
        eval("9223372036854775808"),
        Err(EvalErr::Lex(LexError::InvalidInteger))
    ));
}

#[test]
fn runtime_failures() {
    assert!(matches!(
        eval("1/0"),
        Err(EvalErr::Run(RuntimeError::DivisionByZero))
    ));
    assert!(matches!(
        eval("2^(0-3)"),
        Err(EvalErr::Run(RuntimeError::NegativeIntegerExponent))
    ));
    assert!(matches!(
        eval("9223372036854775807+1"),
        Err(EvalErr::Run(RuntimeError::IntegerOverflow))
    ));
    assert!(matches!(
        eval("2^64"),
        Err(EvalErr::Run(RuntimeError::IntegerOverflow))
    ));
    assert!(matches!(
        eval("-(0-9223372036854775807-1)"),
        Err(EvalErr::Run(RuntimeError::IntegerOverflow))
    ));
}

#[test]
fn integer_arithmetic_edges() {
    assert_eq!(eval_int("0-9223372036854775807-1"), i64::MIN);
    assert_eq!(eval_int("(0-5)/2"), -2);
    assert_eq!(eval_int("5/(0-2)"), -2);
    assert_eq!(eval_int("(0-5)/(0-2)"), 2);
    assert_eq!(eval_int("(0-2)^63"), i64::MIN);
    assert_eq!(eval_int("1^9999999999"), 1);
    assert_eq!(eval_int("(0-1)^9999999999"), -1);
    assert_eq!(eval_int("0^9999999999"), 0);
}

#[test]
fn division_by_zero_on_floats_is_ieee() {
    assert_eq!(eval_float("1.0/0"), f64::INFINITY);
}

#[test]
fn stack_underflow_is_reported() {
    let mut b = ByteCodes::new();
    b.add_code(ByteCode::BINOP(BinOpCode::Add));
    let mut vm = VM::new(b);
    assert!(matches!(vm.run(), Err(RuntimeError::StackUnderflow)));
}

#[test]
fn empty_program_has_no_result() {
    let mut vm = VM::new(ByteCodes::new());
    assert!(matches!(vm.run(), Ok(VmOutcome::Done)));
    assert!(vm.result().is_none());
}

#[test]
fn whitespace_is_skipped() {
    assert_eq!(eval_int("1 +\t2 * 3\n"), 7);
}

#[test]
fn trailing_tokens_are_ignored() {
    assert_eq!(eval_int("1 2"), 1);
}

fn round_trip(input: &str) {
    let ast = parse_text(input).unwrap();
    let printed = print_node(&ast);
    let ast2 = parse_text(printed.as_str()).unwrap();
    assert_eq!(ast, ast2);
}

#[test]
fn reprint_round_trip() {
    round_trip("2+3*4");
    round_trip("2^3^2");
    round_trip("-+-5");
    round_trip("(2+3)*4");
    round_trip("1+2.0");
    round_trip("12+3.5*2");
    round_trip("1-2-3");
    round_trip("8/4/2");
    round_trip("-(2^3)^2");
}

#[test]
fn token_texts() {
    assert_eq!(to_string(&Token::Int(12)), "12");
    assert_eq!(to_string(&Token::Int(-5)), "-5");
    assert_eq!(int_to_string(i64::MIN), "-9223372036854775808");
    assert_eq!(int_to_string(i64::MAX), "9223372036854775807");
    assert_eq!(int_to_string(0), "0");
    assert_eq!(to_string(&Token::Float("3.5".to_string())), "3.5");
    assert_eq!(to_string(&Token::Add), "Add");
    assert_eq!(to_string(&Token::Pow), "Pow");
    assert_eq!(to_string(&Token::LParen), "(");
    assert_eq!(to_string(&Token::EOF), "EOF");
}

#[test]
fn node_children_accessors() {
    let mut node = Node::new("BinOp".to_string());
    node.add_child(NodeType::Text("Add".to_string()));
    node.add_child(NodeType::Node(Node::new("Int".to_string())));
    assert_eq!(node.children.len(), 2);
    assert_eq!(node.children[0].get_s(), "Add");
    assert_eq!(node.children[0].get_n().name, "");
    assert_eq!(node.children[1].get_s(), "");
    assert_eq!(node.children[1].get_n().name, "Int");
}

#[test]
fn lexer_new_starts_at_origin() {
    let lexer = Lexer::new("1+2".to_string());
    assert_eq!(lexer.position, 0);
    assert_eq!(lexer.input, "1+2");
}

#[test]
fn history_records_every_value() {
    let ast = parse_text("2+3*4").unwrap();
    let codes = compile(&ast);
    let mut vm = VM::new(codes);
    assert!(matches!(vm.run(), Ok(VmOutcome::Done)));
    let hist = vm.history().clone();
    assert_eq!(
        hist,
        vec![
            Value::Int(2),
            Value::Int(3),
            Value::Int(4),
            Value::Int(12),
            Value::Int(14),
        ]
    );
    assert_eq!(vm.result(), Some(Value::Int(14)));
}
