use quil::dispatch::{
    parse_block_instruction, parse_block_step, parse_instruction, parse_instructions_step,
    skip_insignificant, ArithmeticOperator, Command, Dispatch, ErrorKind, Grammar, Modifier,
    Token,
};

fn ident(s: &str) -> Token {
    Token::Identifier(s.to_owned())
}

#[test]
fn semicolons_are_newlines() {
    // X 0; Y 1\nZ 2
    let tokens = vec![
        ident("X"),
        Token::Integer(0),
        Token::Semicolon,
        ident("Y"),
        Token::Integer(1),
        Token::NewLine,
        ident("Z"),
        Token::Integer(2),
    ];
    let gate = |at: usize| Dispatch { grammar: Grammar::Gate, command: None, position: at, start: at };
    assert_eq!(parse_instructions_step(&tokens, 0).unwrap(), Some(gate(0)));
    assert_eq!(parse_instructions_step(&tokens, 2).unwrap(), Some(gate(3)));
    assert_eq!(parse_instructions_step(&tokens, 5).unwrap(), Some(gate(6)));
    assert_eq!(parse_instructions_step(&tokens, 8).unwrap(), None);
}

#[test]
fn arithmetic() {
    // ADD ro 2\nMUL ro 1.0
    let tokens = vec![
        Token::Command(Command::Add),
        ident("ro"),
        Token::Integer(2),
        Token::NewLine,
        Token::Command(Command::Mul),
        ident("ro"),
        Token::Float(1.0f64.to_bits()),
    ];
    assert_eq!(
        parse_instructions_step(&tokens, 0).unwrap(),
        Some(Dispatch {
            grammar: Grammar::Arithmetic(ArithmeticOperator::Add),
            command: Some(Command::Add),
            position: 0,
            start: 1,
        })
    );
    assert_eq!(
        parse_instructions_step(&tokens, 3).unwrap(),
        Some(Dispatch {
            grammar: Grammar::Arithmetic(ArithmeticOperator::Multiply),
            command: Some(Command::Mul),
            position: 4,
            start: 5,
        })
    );
    assert_eq!(parse_instructions_step(&tokens, 7).unwrap(), None);
}

#[test]
fn trailing_garbage_fails_the_document() {
    // X 0 )
    let tokens = vec![ident("X"), Token::Integer(0), Token::RParenthesis, Token::NewLine];
    assert!(parse_instructions_step(&tokens, 0).unwrap().is_some());
    let err = parse_instructions_step(&tokens, 2).unwrap_err();
    assert_eq!(err.position, 2);
    assert!(matches!(err.kind, ErrorKind::NotACommandOrGate));
    assert!(err.committed);
}

#[test]
fn comments_and_blank_lines_only() {
    let tokens = vec![Token::Comment(" Questions:".to_owned()), Token::NewLine, Token::NewLine];
    assert_eq!(skip_insignificant(&tokens, 0), 3);
    assert_eq!(parse_instructions_step(&tokens, 0).unwrap(), None);
    let err = parse_instruction(&tokens, 0).unwrap_err();
    assert!(matches!(err.kind, ErrorKind::EndOfInput));
    assert!(!err.committed);
    let empty: Vec<Token> = Vec::new();
    assert!(matches!(parse_instruction(&empty, 0).unwrap_err().kind, ErrorKind::EndOfInput));
}

#[test]
fn pulse_reads_its_keyword_and_nonblocking_marker() {
    let tokens = vec![Token::Command(Command::Pulse), Token::NewLine, Token::NonBlocking];
    assert_eq!(
        parse_instruction(&tokens, 0).unwrap(),
        Dispatch { grammar: Grammar::Pulse, command: Some(Command::Pulse), position: 0, start: 0 }
    );
    assert_eq!(
        parse_instruction(&tokens, 1).unwrap(),
        Dispatch { grammar: Grammar::Pulse, command: None, position: 2, start: 2 }
    );
}

#[test]
fn modifier_starts_a_gate_and_halt_is_complete() {
    let tokens = vec![Token::Modifier(Modifier::Dagger), Token::Command(Command::Halt)];
    assert_eq!(parse_instruction(&tokens, 0).unwrap().grammar, Grammar::Gate);
    assert_eq!(
        parse_instruction(&tokens, 1).unwrap(),
        Dispatch { grammar: Grammar::Halt, command: Some(Command::Halt), position: 1, start: 2 }
    );
}

#[test]
fn unsupported_keyword_is_reported() {
    let tokens = vec![Token::Semicolon, Token::Command(Command::Wait)];
    let err = parse_instruction(&tokens, 0).unwrap_err();
    assert_eq!(err.position, 1);
    assert!(matches!(err.kind, ErrorKind::UnsupportedInstruction { command: Command::Wait }));
    assert!(err.committed);
}

#[test]
fn grammar_failure_is_wrapped_with_its_keyword() {
    let tokens = vec![Token::Command(Command::Declare), Token::Integer(3)];
    let d = parse_instruction(&tokens, 0).unwrap();
    let cause = parse_instruction(&tokens, 1).unwrap_err();
    let err = d.grammar_failed(cause, "expected a name".to_owned());
    assert_eq!(err.position, 0);
    match err.kind {
        ErrorKind::InvalidCommand { command, error } => {
            assert_eq!(command, Command::Declare);
            assert_eq!(error, "expected a name");
        }
        _ => panic!("wrong error kind"),
    }
    let gate = parse_instruction(&vec![ident("X")], 0).unwrap();
    let own = parse_instruction(&tokens, 1).unwrap_err();
    assert!(matches!(gate.grammar_failed(own, "bad".to_owned()).kind, ErrorKind::NotACommandOrGate));
}

#[test]
fn block_needs_newline_and_indentation() {
    // DEFCAL ... :\n\tPULSE ...
    let tokens = vec![
        Token::Colon,
        Token::NewLine,
        Token::Indentation,
        Token::Command(Command::Pulse),
        Token::NewLine,
        ident("X"),
    ];
    let d = parse_block_instruction(&tokens, 1).unwrap();
    assert_eq!(d.grammar, Grammar::Pulse);
    assert_eq!(d.position, 3);
    let none = parse_block_instruction(&tokens, 4).unwrap_err();
    assert!(matches!(none.kind, ErrorKind::NoBlock));
    assert!(!none.committed);
    assert_eq!(parse_block_step(&tokens, 4, 1).unwrap(), None);
    assert!(matches!(parse_block_step(&tokens, 4, 0).unwrap_err().kind, ErrorKind::NoBlock));
    assert!(parse_block_step(&tokens, 1, 0).unwrap().is_some());
}

#[test]
fn committed_block_failure_stays_a_failure() {
    let tokens = vec![Token::NewLine, Token::Indentation, Token::Comma];
    let err = parse_block_instruction(&tokens, 0).unwrap_err();
    assert!(matches!(err.kind, ErrorKind::NotACommandOrGate));
    assert!(err.committed);
    assert!(parse_block_step(&tokens, 0, 2).is_err());
    let ended = vec![Token::NewLine, Token::Indentation];
    let err = parse_block_step(&ended, 0, 1).unwrap_err();
    assert!(matches!(err.kind, ErrorKind::EndOfInput));
    assert!(err.committed);
}

#[test]
fn grammar_must_read_a_token() {
    let tokens = vec![ident("X"), Token::Integer(0)];
    let d = parse_instruction(&tokens, 0).unwrap();
    assert_eq!(d.accept_read(2, tokens.len()).unwrap(), 2);
    let err = d.accept_read(0, tokens.len()).unwrap_err();
    assert!(matches!(err.kind, ErrorKind::NoProgress));
    assert!(err.committed);
    assert!(d.accept_read(3, tokens.len()).is_err());
}

#[test]
fn grammar_failure_of_a_keyword_wins() {
    let tokens = vec![Token::Command(Command::Move), ident("X")];
    let d = parse_instruction(&tokens, 0).unwrap();
    let inner = parse_instruction(&vec![Token::Colon], 0).unwrap_err();
    let err = d.grammar_failed(inner, "bad operand".to_owned());
    assert!(matches!(err.kind, ErrorKind::InvalidCommand { command: Command::Move, .. }));
    let gate = parse_instruction(&tokens, 1).unwrap();
    let cause = parse_instruction(&vec![Token::Comma], 0).unwrap_err();
    let kept = gate.grammar_failed(cause, "ignored".to_owned());
    assert!(matches!(kept.kind, ErrorKind::NotACommandOrGate));
}
