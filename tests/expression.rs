use std::collections::HashSet;
use std::hash::{Hash, Hasher};

use num_complex::Complex64;
use quil::canonical::_hash_to_u64;
use quil::complex::Complex;
use quil::dispatch::Token;
use quil::evaluation::{EvaluationEnvironment, NumericOperation, NumericResults, PatchValues};
use quil::expression::{
    EvaluationError, Expression, ExpressionFunction, InfixOperator, MemoryReference,
    PrefixOperator,
};
use quil::render::Piece;
use quil::table::NameTable;

fn real_number(x: f64) -> Complex {
    Complex::from_real(x.to_bits())
}

fn to_c64(c: Complex) -> Complex64 {
    Complex64::new(f64::from_bits(c.re), f64::from_bits(c.im))
}

fn from_c64(c: Complex64) -> Complex {
    Complex { re: c.re.to_bits(), im: c.im.to_bits() }
}

fn compute(op: &NumericOperation) -> Complex {
    match op {
        NumericOperation::Function { function, argument } => {
            let x = to_c64(*argument);
            from_c64(match function {
                ExpressionFunction::Sine => x.sin(),
                ExpressionFunction::Cis => x.cos() + Complex64::new(0.0, 1.0) * x.sin(),
                ExpressionFunction::Cosine => x.cos(),
                ExpressionFunction::Exponent => x.exp(),
                ExpressionFunction::SquareRoot => x.sqrt(),
            })
        }
        NumericOperation::Infix { left, operator, right } => {
            let (l, r) = (to_c64(*left), to_c64(*right));
            from_c64(match operator {
                InfixOperator::Caret => l.powc(r),
                InfixOperator::Plus => l + r,
                InfixOperator::Minus => l - r,
                InfixOperator::Slash => l / r,
                InfixOperator::Star => l * r,
            })
        }
    }
}

fn run(
    e: &Expression,
    env: &EvaluationEnvironment,
    patches: Option<&PatchValues>,
) -> Expression {
    let mut results = NumericResults::new();
    loop {
        match e.evaluate(env, patches, &results) {
            Ok(x) => return x,
            Err(op) => {
                let value = compute(&op);
                results.insert(op, value);
            }
        }
    }
}

fn run_to_complex(
    e: &Expression,
    env: &EvaluationEnvironment,
    patches: Option<&PatchValues>,
) -> Result<Complex64, EvaluationError> {
    let mut results = NumericResults::new();
    loop {
        match e.evaluate_to_complex(env, patches, &results) {
            Ok(r) => return r.map(to_c64),
            Err(op) => {
                let value = compute(&op);
                results.insert(op, value);
            }
        }
    }
}

fn num(x: f64) -> Expression {
    Expression::Number(real_number(x))
}

fn var(name: &str) -> Expression {
    Expression::Variable(name.to_owned())
}

fn addr(name: &str, index: u64) -> Expression {
    Expression::Address(MemoryReference { name: name.to_owned(), index })
}

fn infix(l: Expression, operator: InfixOperator, r: Expression) -> Expression {
    Expression::Infix { left: Box::new(l), operator, right: Box::new(r) }
}

fn prefix(operator: PrefixOperator, e: Expression) -> Expression {
    Expression::Prefix { operator, expression: Box::new(e) }
}

fn call(function: ExpressionFunction, e: Expression) -> Expression {
    Expression::FunctionCall { function, expression: Box::new(e) }
}

#[test]
fn evaluate() {
    let one = Complex64::new(1.0, 0.0);
    let empty_environment: EvaluationEnvironment = NameTable::new();

    let mut environment: EvaluationEnvironment = NameTable::new();
    environment.insert("foo".to_owned(), real_number(10f64));
    environment.insert("bar".to_owned(), real_number(100f64));

    let mut patch_values: PatchValues = NameTable::new();
    patch_values.insert("theta".to_owned(), vec![1.0f64.to_bits(), 2.0f64.to_bits()]);
    patch_values.insert("beta".to_owned(), vec![3.0f64.to_bits(), 4.0f64.to_bits()]);

    struct TestCase<'a> {
        expression: Expression,
        environment: &'a EvaluationEnvironment,
        patch_values: Option<&'a PatchValues>,
        evaluated_expression: Expression,
        evaluated_complex: Result<Complex64, EvaluationError>,
    }

    let cases: Vec<TestCase> = vec![
        TestCase {
            expression: num(1.0),
            environment: &empty_environment,
            patch_values: None,
            evaluated_expression: num(1.0),
            evaluated_complex: Ok(one),
        },
        TestCase {
            expression: prefix(PrefixOperator::Minus, num(1f64)),
            environment: &empty_environment,
            patch_values: None,
            evaluated_expression: num(-1f64),
            evaluated_complex: Ok(Complex64::new(-1f64, 0.0)),
        },
        TestCase {
            expression: var("foo"),
            environment: &environment,
            patch_values: None,
            evaluated_expression: num(10f64),
            evaluated_complex: Ok(Complex64::new(10f64, 0.0)),
        },
        TestCase {
            expression: Expression::from_tokens(&vec![
                Token::Variable("foo".to_owned()),
                Token::Operator(InfixOperator::Plus),
                Token::Variable("bar".to_owned()),
            ])
            .unwrap(),
            environment: &environment,
            patch_values: None,
            evaluated_expression: num(110f64),
            evaluated_complex: Ok(Complex64::new(110f64, 0.0)),
        },
        TestCase {
            expression: call(ExpressionFunction::Sine, num(std::f64::consts::PI / 2f64)),
            environment: &environment,
            patch_values: None,
            evaluated_expression: num(1f64),
            evaluated_complex: Ok(Complex64::new(1f64, 0.0)),
        },
        TestCase {
            expression: Expression::from_tokens(&vec![
                Token::Identifier("theta".to_owned()),
                Token::LBracket,
                Token::Integer(1),
                Token::RBracket,
                Token::Operator(InfixOperator::Star),
                Token::Identifier("beta".to_owned()),
                Token::LBracket,
                Token::Integer(0),
                Token::RBracket,
            ])
            .unwrap(),
            environment: &empty_environment,
            patch_values: Some(&patch_values),
            evaluated_expression: Expression::from_tokens(&vec![Token::Float(6.0f64.to_bits())]).unwrap(),
            evaluated_complex: Ok(Complex64::new(6.0, 0.0)),
        },
    ];

    for case in cases {
        let evaluated = run(&case.expression, case.environment, case.patch_values);
        assert_eq!(evaluated, case.evaluated_expression);

        let evaluated_complex = run_to_complex(&evaluated, case.environment, case.patch_values);
        assert_eq!(evaluated_complex, case.evaluated_complex)
    }
}

#[test]
fn sum_commutes_in_equality_and_hash() {
    let a = infix(num(1.5), InfixOperator::Plus, var("x"));
    let b = infix(var("x"), InfixOperator::Plus, num(1.5));
    assert_eq!(a, b);
    assert_eq!(_hash_to_u64(&a), _hash_to_u64(&b));
    let mut set = HashSet::new();
    set.insert(a);
    assert!(set.contains(&b));
    assert!(!set.contains(&num(1.5)));
}

#[test]
fn product_commutes_in_equality_and_hash() {
    let a = infix(addr("ro", 2), InfixOperator::Star, Expression::PiConstant);
    let b = infix(Expression::PiConstant, InfixOperator::Star, addr("ro", 2));
    assert_eq!(a, b);
    assert_eq!(_hash_to_u64(&a), _hash_to_u64(&b));
}

#[test]
fn order_matters_for_minus_slash_caret() {
    for op in [InfixOperator::Minus, InfixOperator::Slash, InfixOperator::Caret] {
        let a = infix(num(1.0), op, num(2.0));
        let b = infix(num(2.0), op, num(1.0));
        assert_ne!(a, b);
    }
}

#[test]
fn equal_expressions_hash_equal() {
    let a = infix(call(ExpressionFunction::Cis, var("t")), InfixOperator::Minus, num(0.25));
    let b = a.clone();
    assert_eq!(a, b);
    assert_eq!(_hash_to_u64(&a), _hash_to_u64(&b));
    let c = infix(call(ExpressionFunction::Cis, var("u")), InfixOperator::Minus, num(0.25));
    assert_ne!(a, c);
}

#[test]
fn zero_parts_are_suppressed_in_equality() {
    let positive = Expression::Number(Complex { re: 2.0f64.to_bits(), im: 0.0f64.to_bits() });
    let negative = Expression::Number(Complex { re: 2.0f64.to_bits(), im: (-0.0f64).to_bits() });
    assert_eq!(positive, negative);
    assert_eq!(_hash_to_u64(&positive), _hash_to_u64(&negative));
    assert_ne!(num(2.0), num(3.0));
}

#[test]
fn evaluation_leaves_unknowns_symbolic() {
    let env: EvaluationEnvironment = NameTable::new();
    let e = infix(var("x"), InfixOperator::Plus, addr("ro", 3));
    let evaluated = run(&e, &env, None);
    assert_eq!(evaluated, e);
    assert_eq!(run_to_complex(&e, &env, None), Err(EvaluationError::Incomplete));
}

#[test]
fn evaluation_substitutes_only_present_cells() {
    let env: EvaluationEnvironment = NameTable::new();
    let mut patches: PatchValues = NameTable::new();
    patches.insert("theta".to_owned(), vec![1.0f64.to_bits()]);
    let e = infix(addr("theta", 0), InfixOperator::Plus, addr("theta", 1));
    let evaluated = run(&e, &env, Some(&patches));
    assert_eq!(evaluated, infix(num(1.0), InfixOperator::Plus, addr("theta", 1)));
}

#[test]
fn evaluation_is_idempotent() {
    let mut env: EvaluationEnvironment = NameTable::new();
    env.insert("a".to_owned(), real_number(3.0));
    let e = infix(
        call(ExpressionFunction::Cosine, infix(var("a"), InfixOperator::Caret, num(2.0))),
        InfixOperator::Slash,
        var("b"),
    );
    let once = run(&e, &env, None);
    let twice = run(&once, &env, None);
    assert_eq!(once, twice);
    let numeric = run(&num(4.0), &env, None);
    assert_eq!(run(&numeric, &env, None), num(4.0));
}

#[test]
fn negated_one() {
    let env: EvaluationEnvironment = NameTable::new();
    let e = prefix(PrefixOperator::Minus, num(1.0));
    assert_eq!(run(&e, &env, None), num(-1.0));
}

#[test]
fn prefix_plus_is_dropped_and_minus_pi_folds() {
    let env: EvaluationEnvironment = NameTable::new();
    assert_eq!(run(&prefix(PrefixOperator::Plus, var("q")), &env, None), var("q"));
    assert_eq!(
        run(&prefix(PrefixOperator::Minus, Expression::PiConstant), &env, None),
        num(-std::f64::consts::PI)
    );
    assert_eq!(
        run(&prefix(PrefixOperator::Minus, var("q")), &env, None),
        prefix(PrefixOperator::Minus, var("q"))
    );
}

#[test]
fn sine_of_half_pi() {
    let env: EvaluationEnvironment = NameTable::new();
    let e = call(
        ExpressionFunction::Sine,
        infix(Expression::PiConstant, InfixOperator::Slash, num(2.0)),
    );
    assert_eq!(run(&e, &env, None), num(1.0));
}

#[test]
fn pi_with_pi_stays_symbolic() {
    let env: EvaluationEnvironment = NameTable::new();
    let e = infix(Expression::PiConstant, InfixOperator::Plus, Expression::PiConstant);
    assert_eq!(run(&e, &env, None), e);
    assert_eq!(
        run_to_complex(&Expression::PiConstant, &env, None),
        Ok(Complex64::new(std::f64::consts::PI, 0.0))
    );
}

#[test]
fn evaluation_asks_for_a_missing_result() {
    let env: EvaluationEnvironment = NameTable::new();
    let results = NumericResults::new();
    let e = infix(num(2.0), InfixOperator::Caret, num(3.0));
    let asked = e.evaluate(&env, None, &results);
    assert_eq!(
        asked,
        Err(NumericOperation::Infix { left: real_number(2.0), operator: InfixOperator::Caret, right: real_number(3.0) })
    );
    let value = run_to_complex(&e, &env, None).unwrap();
    assert!((value - Complex64::new(8.0, 0.0)).norm() < 1e-12);
}

#[test]
fn later_environment_entry_replaces_earlier() {
    let mut env: EvaluationEnvironment = NameTable::new();
    env.insert("x".to_owned(), real_number(1.0));
    env.insert("x".to_owned(), real_number(5.0));
    assert_eq!(env.get(&"x".to_owned()), Some(&real_number(5.0)));
    assert_eq!(env.get(&"y".to_owned()), None);
}

#[test]
fn symbols_of_functions_and_operators() {
    assert_eq!(ExpressionFunction::Cis.fmt(), "cis");
    assert_eq!(ExpressionFunction::Cosine.fmt(), "cos");
    assert_eq!(ExpressionFunction::Exponent.fmt(), "exp");
    assert_eq!(ExpressionFunction::Sine.fmt(), "sin");
    assert_eq!(ExpressionFunction::SquareRoot.fmt(), "sqrt");
    assert_eq!(PrefixOperator::Plus.fmt(), "+");
    assert_eq!(PrefixOperator::Minus.fmt(), "-");
    assert_eq!(InfixOperator::Caret.fmt(), "^");
    assert_eq!(InfixOperator::Plus.fmt(), "+");
    assert_eq!(InfixOperator::Minus.fmt(), "-");
    assert_eq!(InfixOperator::Slash.fmt(), "/");
    assert_eq!(InfixOperator::Star.fmt(), "*");
}

fn text_of(pieces: &[Piece]) -> String {
    let mut s = String::new();
    for p in pieces {
        match p {
            Piece::Symbol(t) => s.push_str(t),
            Piece::Name(n) => s.push_str(n),
            Piece::Variable(v) => {
                s.push('%');
                s.push_str(v);
            }
            Piece::Index(i) => s.push_str(&i.to_string()),
            Piece::Real(b) => s.push_str(&format!("{}", f64::from_bits(*b))),
            Piece::Imaginary(b) => s.push_str(&format!("{}i", f64::from_bits(*b))),
        }
    }
    s
}

#[test]
fn canonical_rendering() {
    let e = infix(
        call(ExpressionFunction::Sine, var("theta")),
        InfixOperator::Star,
        prefix(PrefixOperator::Minus, addr("ro", 1)),
    );
    assert_eq!(text_of(&e.fmt()), "(sin(%theta)*(-ro[1]))");
    assert_eq!(text_of(&Expression::PiConstant.fmt()), "pi");
}

#[test]
fn numbers_render_without_zero_parts() {
    let c = |re: f64, im: f64| Expression::Number(Complex { re: re.to_bits(), im: im.to_bits() });
    assert_eq!(text_of(&c(1.5, 0.0).fmt()), "1.5");
    assert_eq!(text_of(&c(0.0, 2.0).fmt()), "2i");
    assert_eq!(text_of(&c(1.0, 2.0).fmt()), "1+2i");
    assert_eq!(text_of(&c(1.0, -2.0).fmt()), "1-2i");
    assert_eq!(text_of(&c(0.0, -3.0).fmt()), "-3i");
}

#[test]
fn canonical_key_ignores_commutative_order() {
    let a = infix(var("b"), InfixOperator::Plus, var("a"));
    let b = infix(var("a"), InfixOperator::Plus, var("b"));
    assert_eq!(a.canonical_key(), b.canonical_key());
    let c = infix(var("b"), InfixOperator::Minus, var("a"));
    let d = infix(var("a"), InfixOperator::Minus, var("b"));
    assert_ne!(c.canonical_key(), d.canonical_key());
}

#[test]
fn hash_impl_matches_hash_to_u64() {
    let e = infix(var("x"), InfixOperator::Star, call(ExpressionFunction::Exponent, num(0.5)));
    let mut s = std::collections::hash_map::DefaultHasher::new();
    e.hash(&mut s);
    assert_eq!(s.finish(), _hash_to_u64(&e));
    let swapped = infix(call(ExpressionFunction::Exponent, num(0.5)), InfixOperator::Star, var("x"));
    let mut t = std::collections::hash_map::DefaultHasher::new();
    swapped.hash(&mut t);
    assert_eq!(t.finish(), _hash_to_u64(&e));
}

#[test]
fn names_that_extend_each_other_differ() {
    let a = infix(var("a"), InfixOperator::Minus, var("ab"));
    let b = infix(var("ab"), InfixOperator::Minus, var("a"));
    assert_ne!(a, b);
    assert_ne!(addr("r", 1), addr("r", 2));
    assert_ne!(var("r"), addr("r", 0));
}

#[test]
fn integers_convert_to_nearest_binary64() {
    let samples: [u64; 16] = [
        0,
        1,
        2,
        3,
        7,
        1000,
        (1 << 52) - 1,
        1 << 52,
        (1 << 53) - 1,
        1 << 53,
        (1 << 53) + 1,
        (1 << 53) + 3,
        (1 << 54) + 2,
        12345678901234567,
        u64::MAX - 1024,
        u64::MAX,
    ];
    for n in samples {
        assert_eq!(quil::complex::binary64_of_integer(n), (n as f64).to_bits(), "n = {}", n);
    }
}
