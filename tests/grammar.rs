use quil::complex::Complex;
use quil::dispatch::Token;
use quil::expression::{Expression, ExpressionFunction, InfixOperator, MemoryReference, PrefixOperator};
use quil::grammar::{parse_expression, ExpressionParseError};

fn float(x: f64) -> Token {
    Token::Float(x.to_bits())
}

fn op(o: InfixOperator) -> Token {
    Token::Operator(o)
}

fn ident(s: &str) -> Token {
    Token::Identifier(s.to_owned())
}

fn num(x: f64) -> Expression {
    Expression::Number(Complex::from_real(x.to_bits()))
}

fn infix(l: Expression, operator: InfixOperator, r: Expression) -> Expression {
    Expression::Infix { left: Box::new(l), operator, right: Box::new(r) }
}

fn is_structurally(e: &Expression, f: &Expression) -> bool {
    format!("{:?}", e) == format!("{:?}", f)
}

#[test]
fn sum_of_variables() {
    let tokens = vec![Token::Variable("foo".to_owned()), op(InfixOperator::Plus), Token::Variable("bar".to_owned())];
    let e = Expression::from_tokens(&tokens).unwrap();
    let expected = infix(
        Expression::Variable("foo".to_owned()),
        InfixOperator::Plus,
        Expression::Variable("bar".to_owned()),
    );
    assert!(is_structurally(&e, &expected));
}

#[test]
fn product_of_memory_cells() {
    let tokens = vec![
        ident("theta"),
        Token::LBracket,
        Token::Integer(1),
        Token::RBracket,
        op(InfixOperator::Star),
        ident("beta"),
        Token::LBracket,
        Token::Integer(0),
        Token::RBracket,
    ];
    let e = Expression::from_tokens(&tokens).unwrap();
    let cell = |name: &str, index: u64| Expression::Address(MemoryReference { name: name.to_owned(), index });
    assert!(is_structurally(&e, &infix(cell("theta", 1), InfixOperator::Star, cell("beta", 0))));
    let bare = Expression::from_tokens(&vec![ident("ro")]).unwrap();
    assert!(is_structurally(&bare, &cell("ro", 0)));
}

#[test]
fn precedence_and_associativity() {
    // 1 + 2 * 3
    let e = Expression::from_tokens(&vec![
        float(1.0),
        op(InfixOperator::Plus),
        float(2.0),
        op(InfixOperator::Star),
        float(3.0),
    ])
    .unwrap();
    let expected = infix(num(1.0), InfixOperator::Plus, infix(num(2.0), InfixOperator::Star, num(3.0)));
    assert!(is_structurally(&e, &expected));
    // 8 - 2 - 1
    let e = Expression::from_tokens(&vec![
        float(8.0),
        op(InfixOperator::Minus),
        float(2.0),
        op(InfixOperator::Minus),
        float(1.0),
    ])
    .unwrap();
    let expected = infix(infix(num(8.0), InfixOperator::Minus, num(2.0)), InfixOperator::Minus, num(1.0));
    assert!(is_structurally(&e, &expected));
    // 2 ^ 3 ^ 2
    let e = Expression::from_tokens(&vec![
        float(2.0),
        op(InfixOperator::Caret),
        float(3.0),
        op(InfixOperator::Caret),
        float(2.0),
    ])
    .unwrap();
    let expected = infix(num(2.0), InfixOperator::Caret, infix(num(3.0), InfixOperator::Caret, num(2.0)));
    assert!(is_structurally(&e, &expected));
}

#[test]
fn functions_pi_and_prefix() {
    // sin(-pi / 2)
    let e = Expression::from_tokens(&vec![
        ident("sin"),
        Token::LParenthesis,
        op(InfixOperator::Minus),
        ident("pi"),
        op(InfixOperator::Slash),
        float(2.0),
        Token::RParenthesis,
    ])
    .unwrap();
    let expected = Expression::FunctionCall {
        function: ExpressionFunction::Sine,
        expression: Box::new(infix(
            Expression::Prefix { operator: PrefixOperator::Minus, expression: Box::new(Expression::PiConstant) },
            InfixOperator::Slash,
            num(2.0),
        )),
    };
    assert!(is_structurally(&e, &expected));
    let i = Expression::from_tokens(&vec![Token::Imaginary(2.0f64.to_bits())]).unwrap();
    assert!(is_structurally(&i, &Expression::Number(Complex { re: 0, im: 2.0f64.to_bits() })));
}

#[test]
fn trailing_tokens_are_an_error() {
    let r = Expression::from_tokens(&vec![float(1.0), float(2.0), Token::Comma]);
    match r {
        Err(ExpressionParseError::ExtraTokens { parsed, count }) => {
            assert_eq!(count, 2);
            assert!(is_structurally(&parsed, &num(1.0)));
        }
        _ => panic!("expected extra tokens"),
    }
    let r = Expression::from_tokens(&vec![op(InfixOperator::Star), float(2.0)]);
    assert!(matches!(r, Err(ExpressionParseError::Invalid)));
    let r = Expression::from_tokens(&vec![Token::LParenthesis, float(2.0)]);
    assert!(matches!(r, Err(ExpressionParseError::Invalid)));
    let (e, end) = parse_expression(&vec![float(1.0), Token::RParenthesis], 0).unwrap();
    assert_eq!(end, 1);
    assert!(is_structurally(&e, &num(1.0)));
}

#[test]
fn canonical_tokens_read_back() {
    let e = infix(
        Expression::FunctionCall {
            function: ExpressionFunction::Cis,
            expression: Box::new(Expression::Variable("t".to_owned())),
        },
        InfixOperator::Minus,
        infix(
            Expression::Prefix { operator: PrefixOperator::Minus, expression: Box::new(Expression::PiConstant) },
            InfixOperator::Caret,
            Expression::Address(MemoryReference { name: "ro".to_owned(), index: 7 }),
        ),
    );
    let tokens = e.to_tokens();
    assert_eq!(tokens.len(), 18);
    let back = Expression::from_tokens(&tokens).unwrap();
    assert_eq!(back, e);
    assert!(is_structurally(&back, &e));
    let product = infix(num(1.5), InfixOperator::Star, Expression::Number(Complex { re: 0, im: 3.0f64.to_bits() }));
    assert_eq!(Expression::from_tokens(&product.to_tokens()).unwrap(), product);
}

#[test]
fn two_part_numbers_read_as_a_sum() {
    let plus = Expression::Number(Complex { re: 1.0f64.to_bits(), im: 2.0f64.to_bits() });
    let tokens = plus.to_tokens();
    assert_eq!(tokens.len(), 3);
    assert!(matches!(tokens[1], Token::Operator(InfixOperator::Plus)));
    let back = Expression::from_tokens(&tokens).unwrap();
    let sum = infix(
        num(1.0),
        InfixOperator::Plus,
        Expression::Number(Complex { re: 0, im: 2.0f64.to_bits() }),
    );
    assert!(is_structurally(&back, &sum));
    let minus = Expression::Number(Complex { re: 1.0f64.to_bits(), im: (-2.0f64).to_bits() });
    let tokens = minus.to_tokens();
    assert_eq!(tokens.len(), 2);
    assert!(matches!(
        Expression::from_tokens(&tokens),
        Err(ExpressionParseError::ExtraTokens { count: 1, .. })
    ));
}

fn integer(n: u64) -> Token {
    Token::Integer(n)
}

#[test]
fn integer_literals_bind_by_precedence() {
    // 1 + 2 * 3
    let e = Expression::from_tokens(&vec![integer(1), op(InfixOperator::Plus), integer(2), op(InfixOperator::Star), integer(3)]).unwrap();
    let expected = infix(num(1.0), InfixOperator::Plus, infix(num(2.0), InfixOperator::Star, num(3.0)));
    assert!(is_structurally(&e, &expected));
    // 2^3^4
    let e = Expression::from_tokens(&vec![integer(2), op(InfixOperator::Caret), integer(3), op(InfixOperator::Caret), integer(4)]).unwrap();
    let expected = infix(num(2.0), InfixOperator::Caret, infix(num(3.0), InfixOperator::Caret, num(4.0)));
    assert!(is_structurally(&e, &expected));
    // 8 - 4 - 2
    let e = Expression::from_tokens(&vec![integer(8), op(InfixOperator::Minus), integer(4), op(InfixOperator::Minus), integer(2)]).unwrap();
    let expected = infix(infix(num(8.0), InfixOperator::Minus, num(4.0)), InfixOperator::Minus, num(2.0));
    assert!(is_structurally(&e, &expected));
    // -(1)
    let e = Expression::from_tokens(&vec![op(InfixOperator::Minus), Token::LParenthesis, integer(1), Token::RParenthesis]).unwrap();
    let expected = Expression::Prefix { operator: PrefixOperator::Minus, expression: Box::new(num(1.0)) };
    assert!(is_structurally(&e, &expected));
    // sin(pi/2)
    let e = Expression::from_tokens(&vec![
        ident("sin"),
        Token::LParenthesis,
        ident("pi"),
        op(InfixOperator::Slash),
        integer(2),
        Token::RParenthesis,
    ])
    .unwrap();
    let expected = Expression::FunctionCall {
        function: ExpressionFunction::Sine,
        expression: Box::new(infix(Expression::PiConstant, InfixOperator::Slash, num(2.0))),
    };
    assert!(is_structurally(&e, &expected));
}
