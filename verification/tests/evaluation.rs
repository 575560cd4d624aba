use entropyc::ast::{BinaryExpr, BinaryOp, Expression, UnaryExpr, UnaryOp};
use entropyc::float_bits::{float_gt, float_lt};
use entropyc::interpreter::{Env, Fault, Interpreter, Value};
use entropyc::parser::program_parser;

fn arith(op: BinaryOp, a: u64, b: u64) -> u64 {
    let x = f64::from_bits(a);
    let y = f64::from_bits(b);
    let r = match op {
        BinaryOp::Add => x + y,
        BinaryOp::Sub => x - y,
        BinaryOp::Mul => x * y,
        BinaryOp::Div => x / y,
        _ => 0.0,
    };
    r.to_bits()
}

fn parse_num(s: String) -> Option<u64> {
    s.parse::<f64>().ok().map(f64::to_bits)
}

const FUEL: u64 = 1_000_000;

fn run(src: &str) -> Vec<f64> {
    let prog = program_parser(src).expect("parse");
    let mut it = Interpreter::default();
    it.execute(&prog, arith, parse_num, FUEL).expect("execute");
    it.output().iter().map(|b| f64::from_bits(*b)).collect()
}

fn run_fault(src: &str, fuel: u64) -> Fault {
    let prog = program_parser(src).expect("parse");
    let mut it = Interpreter::default();
    it.execute(&prog, arith, parse_num, fuel)
        .expect_err("expected a fault")
}

#[test]
fn round_trip_arithmetic() {
    let pairs: [(f64, f64); 6] = [
        (1.5, 2.25),
        (-3.0, 7.0),
        (0.1, 0.2),
        (1e10, -1e-10),
        (5.0, 0.0),
        (123.456, 789.012),
    ];
    for (a, b) in pairs {
        let src = format!(
            "Program t t [ print {a} + {b}; print {a} - {b}; print {a} * {b}; print {a} / {b}; ]",
            a = a,
            b = b
        );
        let out = run(&src);
        assert_eq!(out.len(), 4);
        assert_eq!(out[0].to_bits(), (a + b).to_bits());
        assert_eq!(out[1].to_bits(), (a - b).to_bits());
        assert_eq!(out[2].to_bits(), (a * b).to_bits());
        assert_eq!(out[3].to_bits(), (a / b).to_bits());
    }
}

#[test]
fn division_by_zero_is_not_a_fault() {
    let out = run("Program t t [ print 1 / 0; print -1 / 0; ]");
    assert_eq!(out[0], f64::INFINITY);
    assert_eq!(out[1], f64::NEG_INFINITY);
    let out = run("Program t t [ print 0 / 0; ]");
    assert!(out[0].is_nan());
}

#[test]
fn precedence() {
    let out = run("Program t t [ print 2 + 3 * 4; ]");
    assert_eq!(out, vec![14.0]);
}

#[test]
fn left_associativity() {
    let out = run("Program t t [ print 10 - 3 - 2; ]");
    assert_eq!(out, vec![5.0]);
}

#[test]
fn comparison_prints_coerced_boolean() {
    let out = run("Program t t [ print 1 < 2; print 2 < 1; print 2 > 1; ]");
    assert_eq!(out, vec![1.0, 0.0, 1.0]);
    let prog = program_parser("Program t t [ print 1 < 2; ]").expect("parse");
    let mut it = Interpreter::default();
    it.execute(&prog, arith, parse_num, FUEL).expect("execute");
    assert_eq!(format!("{}", f64::from_bits(it.output()[0])), "1");
}

#[test]
fn conditional_gating() {
    let out = run("Program t t [ let x = 5; if x > 3 [ print x; ] ]");
    assert_eq!(out.len(), 1);
    assert_eq!(format!("{}", out[0]), "5");
    let out = run("Program t t [ let x = 5; if x > 10 [ print x; ] ]");
    assert!(out.is_empty());
}

#[test]
fn condition_must_be_exactly_boolean_true() {
    // A numeric condition is not truthy: only a comparison's true passes.
    let out = run("Program t t [ if 1 [ print 9; ] ]");
    assert!(out.is_empty());
}

#[test]
fn loop_termination() {
    let out = run("Program t t [ let i = 0; while i < 3 [ print i; let i = i + 1; ] ]");
    assert_eq!(out, vec![0.0, 1.0, 2.0]);
}

#[test]
fn variable_rebinding() {
    let out = run("Program t t [ let x = 1; let x = 2; print x; ]");
    assert_eq!(out, vec![2.0]);
    let prog = program_parser("Program t t [ let x = 1; let x = 2; ]").expect("parse");
    let mut it = Interpreter::default();
    it.execute(&prog, arith, parse_num, FUEL).expect("execute");
    let bound = it.value_of(&String::from("x")).expect("bound");
    assert_eq!(f64::from_bits(bound), 2.0);
}

#[test]
fn boolean_stored_as_number() {
    let out = run("Program t t [ let b = 1 < 2; print b + 1; ]");
    assert_eq!(out, vec![2.0]);
}

#[test]
fn unbound_variable_faults() {
    assert_eq!(
        run_fault("Program t t [ print nope; ]", FUEL),
        Fault::UnboundVariable
    );
}

#[test]
fn step_limit_faults() {
    assert_eq!(run_fault("Program t t [ while 1 < 2 [ ] ]", 10), Fault::StepLimit);
}

#[test]
fn failed_let_leaves_environment_unchanged() {
    let prog =
        program_parser("Program t t [ let a = 1; let a = nope; ]").expect("parse");
    let mut it = Interpreter::default();
    let fault = it
        .execute(&prog, arith, parse_num, FUEL)
        .expect_err("expected a fault");
    assert_eq!(fault, Fault::UnboundVariable);
    let bound = it.value_of(&String::from("a")).expect("bound");
    assert_eq!(f64::from_bits(bound), 1.0);
}

#[test]
fn unary_evaluation_is_unsupported() {
    let e = Expression::Unary(Box::new(UnaryExpr {
        op: UnaryOp::Minus,
        expr: Expression::Literal(String::from("1")),
    }));
    let env = Env::new();
    assert_eq!(e.eval(&env, arith, parse_num), Err(Fault::Unsupported));
}

#[test]
fn call_evaluation_is_unsupported() {
    let e = Expression::Call(String::from("f"), vec![]);
    let env = Env::new();
    assert_eq!(e.eval(&env, arith, parse_num), Err(Fault::Unsupported));
}

#[test]
fn malformed_literal_faults() {
    let e = Expression::Literal(String::from("abc"));
    let env = Env::new();
    assert_eq!(e.eval(&env, arith, parse_num), Err(Fault::MalformedLiteral));
}

#[test]
fn binary_eval_orders_left_first() {
    // Both operands fault; the left one decides.
    let b = BinaryExpr {
        op: BinaryOp::Add,
        lhs: Expression::Variable(String::from("missing")),
        rhs: Expression::Literal(String::from("abc")),
    };
    let env = Env::new();
    assert_eq!(b.eval(&env, arith, parse_num), Err(Fault::UnboundVariable));
}

#[test]
fn value_coercion() {
    assert_eq!(u64::from(Value::Bool(true)), 1.0f64.to_bits());
    assert_eq!(u64::from(Value::Bool(false)), 0.0f64.to_bits());
    assert_eq!(u64::from(Value::Float(2.5f64.to_bits())), 2.5f64.to_bits());
}

#[test]
fn comparison_on_encodings_matches_doubles() {
    let samples: [f64; 9] = [
        f64::NAN,
        f64::NEG_INFINITY,
        -2.5,
        -0.0,
        0.0,
        1.0e-300,
        1.5,
        f64::INFINITY,
        f64::MAX,
    ];
    for &x in samples.iter() {
        for &y in samples.iter() {
            assert_eq!(float_lt(x.to_bits(), y.to_bits()), x < y);
            assert_eq!(float_gt(x.to_bits(), y.to_bits()), x > y);
        }
    }
}

#[test]
fn environment_get_and_set() {
    let mut env = Env::new();
    assert!(env.get(&String::from("k")).is_none());
    env.set(String::from("k"), 7u64);
    assert_eq!(env.get(&String::from("k")), Some(7u64));
    env.set(String::from("k"), 9u64);
    assert_eq!(env.get(&String::from("k")), Some(9u64));
    assert!(env.get(&String::from("other")).is_none());
}

#[test]
fn scientific_literals_evaluate() {
    let out = run("Program t t [ print 1.5e2; print 2E-1; print -3; ]");
    assert_eq!(out, vec![150.0, 0.2, -3.0]);
}

#[test]
fn empty_program_produces_no_output() {
    let out = run("Program t t [ ]");
    assert!(out.is_empty());
}

#[test]
fn false_loop_runs_with_no_fuel() {
    // The condition is evaluated before any step is spent, so a loop
    // that never runs needs no budget.
    let prog = program_parser("Program t t [ while 1 > 2 [ print 1; ] ]").expect("parse");
    let mut it = Interpreter::default();
    assert!(it.execute(&prog, arith, parse_num, 0).is_ok());
    assert!(it.output().is_empty());
}

#[test]
fn nested_loops_and_conditionals() {
    let src = "Program t t [         let i = 0;         while i < 3 [             let j = 0;             while j < 2 [                 if j < 1 [ print i; ]                 let j = j + 1;             ]             let i = i + 1;         ]     ]";
    let out = run(src);
    assert_eq!(out, vec![0.0, 1.0, 2.0]);
}

#[test]
fn comparison_of_arithmetic_sums() {
    let out = run("Program t t [ if 2 + 2 > 3 [ print 1; ] if 1 * 2 < 2 [ print 2; ] ]");
    assert_eq!(out, vec![1.0]);
}

#[test]
fn parenthesized_comparison_as_operand() {
    // Parentheses re-enter the full grammar, so a comparison may sit
    // inside another expression without chaining.
    let out = run("Program t t [ print ( 1 < 2 ) + 5; ]");
    assert_eq!(out, vec![6.0]);
}
