//! Classification of instructions in a token stream.
//!
//! Before each instruction, blank lines, comments and semicolons are skipped.
//! The next token then decides which grammar reads the instruction: a command
//! keyword through a fixed table, the non-blocking marker the pulse grammar,
//! and an identifier or a gate modifier the grammar of gates.
use vstd::prelude::*;
use crate::expression::InfixOperator;

verus! {

/// A reserved command keyword.
#[derive(Clone, Copy, Debug, PartialEq, Eq, Structural, Hash)]
pub enum Command {
    Add,
    And,
    Capture,
    Convert,
    Declare,
    DefCal,
    DefCircuit,
    DefFrame,
    DefGate,
    DefWaveform,
    Delay,
    Div,
    Eq,
    Exchange,
    Fence,
    GE,
    GT,
    Halt,
    Include,
    Ior,
    Jump,
    JumpUnless,
    JumpWhen,
    Label,
    LE,
    Load,
    LT,
    Measure,
    Move,
    Mul,
    Neg,
    Nop,
    Not,
    Pragma,
    Pulse,
    RawCapture,
    Reset,
    SetFrequency,
    SetPhase,
    SetScale,
    ShiftFrequency,
    ShiftPhase,
    Store,
    Sub,
    Wait,
    Xor,
}

/// A modifier that may precede a gate.
#[derive(Clone, Copy, Debug, PartialEq, Eq, Structural, Hash)]
pub enum Modifier {
    Controlled,
    Dagger,
    Forked,
}

/// A token of instruction text.
#[derive(Clone, Debug)]
pub enum Token {
    Colon,
    Comma,
    Command(Command),
    Comment(String),
    /// A binary64 literal, by bit pattern.
    Float(u64),
    Identifier(String),
    /// A binary64 literal with the imaginary-unit marker, by bit pattern.
    Imaginary(u64),
    Indentation,
    Integer(u64),
    Label(String),
    LBracket,
    LParenthesis,
    Modifier(Modifier),
    NewLine,
    NonBlocking,
    Operator(InfixOperator),
    RBracket,
    RParenthesis,
    Semicolon,
    Text(String),
    Variable(String),
}

/// The operator of an arithmetic instruction.
#[derive(Clone, Copy, Debug, PartialEq, Eq, Structural, Hash)]
pub enum ArithmeticOperator {
    Add,
    Subtract,
    Multiply,
    Divide,
}

/// The grammar that reads an instruction.
#[derive(Clone, Copy, Debug, PartialEq, Eq, Structural)]
pub enum Grammar {
    Arithmetic(ArithmeticOperator),
    Calibration,
    Capture,
    CircuitDefinition,
    Declare,
    Delay,
    Exchange,
    FrameDefinition,
    Gate,
    /// `HALT` takes no operands: the instruction is complete.
    Halt,
    Jump,
    JumpUnless,
    JumpWhen,
    Label,
    Load,
    Measurement,
    Move,
    Pragma,
    Pulse,
    RawCapture,
    Store,
    WaveformDefinition,
}

/// Where an instruction starts and which grammar reads it.
#[derive(Clone, Copy, Debug, PartialEq, Eq, Structural)]
pub struct Dispatch {
    pub grammar: Grammar,
    /// The keyword that chose the grammar, if a keyword did.
    pub command: Option<Command>,
    /// Position of the instruction's first token.
    pub position: usize,
    /// Position at which the grammar starts to read.
    pub start: usize,
}

/// What went wrong.
#[derive(Clone, Debug)]
pub enum ErrorKind {
    /// Only blank lines, comments and semicolons were left.
    EndOfInput,
    /// No line break followed by an indentation opens a block here.
    NoBlock,
    /// The token starts neither a command nor a gate.
    NotACommandOrGate,
    /// The keyword is reserved but no grammar reads it.
    UnsupportedInstruction { command: Command },
    /// The grammar of a keyword failed with the given message.
    InvalidCommand { command: Command, error: String },
    /// The grammar read no token, or claimed to read past the end.
    NoProgress,
}

/// A failure to read an instruction, at a token position.
#[derive(Clone, Debug)]
pub struct ParseError {
    pub position: usize,
    pub kind: ErrorKind,
    /// Whether the failure is final. A failure that is not may be taken as
    /// "nothing here" by a caller that has alternatives.
    pub committed: bool,
}

/// A token that carries nothing between instructions.
pub open spec fn is_insignificant(t: Token) -> bool {
    t is NewLine || t is Comment || t is Semicolon
}

/// The first position from `i` on that holds no insignificant token.
pub open spec fn skip_from(tokens: Seq<Token>, i: nat) -> nat
    decreases tokens.len() - i,
{
    if i < tokens.len() && is_insignificant(tokens[i as int]) {
        skip_from(tokens, i + 1)
    } else {
        i
    }
}

/// The grammar that reads the instruction a keyword opens, where one does.
pub open spec fn command_grammar(c: Command) -> Option<Grammar> {
    match c {
        Command::Add => Some(Grammar::Arithmetic(ArithmeticOperator::Add)),
        Command::Capture => Some(Grammar::Capture),
        Command::Declare => Some(Grammar::Declare),
        Command::DefCal => Some(Grammar::Calibration),
        Command::DefCircuit => Some(Grammar::CircuitDefinition),
        Command::DefFrame => Some(Grammar::FrameDefinition),
        Command::DefWaveform => Some(Grammar::WaveformDefinition),
        Command::Delay => Some(Grammar::Delay),
        Command::Div => Some(Grammar::Arithmetic(ArithmeticOperator::Divide)),
        Command::Exchange => Some(Grammar::Exchange),
        Command::Halt => Some(Grammar::Halt),
        Command::Jump => Some(Grammar::Jump),
        Command::JumpUnless => Some(Grammar::JumpUnless),
        Command::JumpWhen => Some(Grammar::JumpWhen),
        Command::Label => Some(Grammar::Label),
        Command::Load => Some(Grammar::Load),
        Command::Measure => Some(Grammar::Measurement),
        Command::Move => Some(Grammar::Move),
        Command::Mul => Some(Grammar::Arithmetic(ArithmeticOperator::Multiply)),
        Command::Pragma => Some(Grammar::Pragma),
        Command::Pulse => Some(Grammar::Pulse),
        Command::RawCapture => Some(Grammar::RawCapture),
        Command::Store => Some(Grammar::Store),
        Command::Sub => Some(Grammar::Arithmetic(ArithmeticOperator::Subtract)),
        _ => None,
    }
}

/// The classification of the instruction that follows position `start`.
/// The pulse grammar reads its own keyword; other keyword grammars start
/// after it; the grammar of gates and the non-blocking pulse start at the
/// instruction's first token.
pub open spec fn dispatched(tokens: Seq<Token>, start: nat) -> Result<Dispatch, ParseError> {
    let i = skip_from(tokens, start);
    if i >= tokens.len() {
        Err(ParseError { position: i as usize, kind: ErrorKind::EndOfInput, committed: false })
    } else {
        match tokens[i as int] {
            Token::Command(c) => match command_grammar(c) {
                Some(g) => Ok(
                    Dispatch {
                        grammar: g,
                        command: Some(c),
                        position: i as usize,
                        start: if g is Pulse {
                            i as usize
                        } else {
                            (i + 1) as usize
                        },
                    },
                ),
                None => Err(
                    ParseError {
                        position: i as usize,
                        kind: ErrorKind::UnsupportedInstruction { command: c },
                        committed: true,
                    },
                ),
            },
            Token::NonBlocking => Ok(
                Dispatch {
                    grammar: Grammar::Pulse,
                    command: None,
                    position: i as usize,
                    start: i as usize,
                },
            ),
            Token::Identifier(_) => Ok(
                Dispatch {
                    grammar: Grammar::Gate,
                    command: None,
                    position: i as usize,
                    start: i as usize,
                },
            ),
            Token::Modifier(_) => Ok(
                Dispatch {
                    grammar: Grammar::Gate,
                    command: None,
                    position: i as usize,
                    start: i as usize,
                },
            ),
            _ => Err(
                ParseError {
                    position: i as usize,
                    kind: ErrorKind::NotACommandOrGate,
                    committed: true,
                },
            ),
        }
    }
}

/// The classification of a block instruction at `start`: a line break and an
/// indentation, then an instruction. Without the two there is no block, which
/// is not final; once they are read, every failure is.
pub open spec fn block_dispatched(tokens: Seq<Token>, start: nat) -> Result<Dispatch, ParseError> {
    if start + 1 < tokens.len() && tokens[start as int] is NewLine && tokens[start + 1 as int] is Indentation {
        match dispatched(tokens, start + 2) {
            Ok(d) => Ok(d),
            Err(e) => Err(ParseError { position: e.position, kind: e.kind, committed: true }),
        }
    } else {
        Err(ParseError { position: start as usize, kind: ErrorKind::NoBlock, committed: false })
    }
}

/// One step of reading a whole document: the next instruction, `None` where
/// only insignificant tokens are left, or the failure.
pub open spec fn document_step(tokens: Seq<Token>, position: nat) -> Result<
    Option<Dispatch>,
    ParseError,
> {
    match dispatched(tokens, position) {
        Ok(d) => Ok(Some(d)),
        Err(e) => if e.kind is EndOfInput {
            Ok(None)
        } else {
            Err(e)
        },
    }
}

/// One step of reading a block after `parsed` of its instructions: the next
/// instruction, `None` where the block has ended, or the failure. A block
/// holds at least one instruction.
pub open spec fn block_step(tokens: Seq<Token>, position: nat, parsed: nat) -> Result<
    Option<Dispatch>,
    ParseError,
> {
    match block_dispatched(tokens, position) {
        Ok(d) => Ok(Some(d)),
        Err(e) => if !e.committed && parsed > 0 {
            Ok(None)
        } else {
            Err(e)
        },
    }
}

fn is_insignificant_token(t: &Token) -> (r: bool)
    ensures
        r == is_insignificant(*t),
{
    match t {
        Token::NewLine => true,
        Token::Comment(_) => true,
        Token::Semicolon => true,
        _ => false,
    }
}

/// The first position from `start` on that holds no blank line, comment or
/// semicolon (the length of `tokens` where there is none).
pub fn skip_insignificant(tokens: &Vec<Token>, start: usize) -> (r: usize)
    ensures
        r == skip_from(tokens@, start as nat),
{
    let mut i = start;
    while i < tokens.len() && is_insignificant_token(&tokens[i])
        invariant
            start <= i,
            skip_from(tokens@, start as nat) == skip_from(tokens@, i as nat),
        decreases tokens.len() - i,
    {
        i = i + 1;
    }
    i
}

fn grammar_of(c: Command) -> (r: Option<Grammar>)
    ensures
        r == command_grammar(c),
{
    match c {
        Command::Add => Some(Grammar::Arithmetic(ArithmeticOperator::Add)),
        Command::Capture => Some(Grammar::Capture),
        Command::Declare => Some(Grammar::Declare),
        Command::DefCal => Some(Grammar::Calibration),
        Command::DefCircuit => Some(Grammar::CircuitDefinition),
        Command::DefFrame => Some(Grammar::FrameDefinition),
        Command::DefWaveform => Some(Grammar::WaveformDefinition),
        Command::Delay => Some(Grammar::Delay),
        Command::Div => Some(Grammar::Arithmetic(ArithmeticOperator::Divide)),
        Command::Exchange => Some(Grammar::Exchange),
        Command::Halt => Some(Grammar::Halt),
        Command::Jump => Some(Grammar::Jump),
        Command::JumpUnless => Some(Grammar::JumpUnless),
        Command::JumpWhen => Some(Grammar::JumpWhen),
        Command::Label => Some(Grammar::Label),
        Command::Load => Some(Grammar::Load),
        Command::Measure => Some(Grammar::Measurement),
        Command::Move => Some(Grammar::Move),
        Command::Mul => Some(Grammar::Arithmetic(ArithmeticOperator::Multiply)),
        Command::Pragma => Some(Grammar::Pragma),
        Command::Pulse => Some(Grammar::Pulse),
        Command::RawCapture => Some(Grammar::RawCapture),
        Command::Store => Some(Grammar::Store),
        Command::Sub => Some(Grammar::Arithmetic(ArithmeticOperator::Subtract)),
        _ => None,
    }
}

/// Skips blank lines, comments and semicolons from `start` on and decides
/// which grammar reads the instruction that follows.
pub fn parse_instruction(tokens: &Vec<Token>, start: usize) -> (r: Result<Dispatch, ParseError>)
    ensures
        r == dispatched(tokens@, start as nat),
{
    let i = skip_insignificant(tokens, start);
    if i >= tokens.len() {
        return Err(ParseError { position: i, kind: ErrorKind::EndOfInput, committed: false });
    }
    match &tokens[i] {
        Token::Command(c) => match grammar_of(*c) {
            Some(g) => {
                let begin = match g {
                    Grammar::Pulse => i,
                    _ => i + 1,
                };
                Ok(Dispatch { grammar: g, command: Some(*c), position: i, start: begin })
            },
            None => Err(
                ParseError {
                    position: i,
                    kind: ErrorKind::UnsupportedInstruction { command: *c },
                    committed: true,
                },
            ),
        },
        Token::NonBlocking => Ok(
            Dispatch { grammar: Grammar::Pulse, command: None, position: i, start: i },
        ),
        Token::Identifier(_) => Ok(
            Dispatch { grammar: Grammar::Gate, command: None, position: i, start: i },
        ),
        Token::Modifier(_) => Ok(
            Dispatch { grammar: Grammar::Gate, command: None, position: i, start: i },
        ),
        _ => Err(
            ParseError { position: i, kind: ErrorKind::NotACommandOrGate, committed: true },
        ),
    }
}

/// Reads the line break and indentation that open a block instruction at
/// `start`, then decides which grammar reads the instruction.
pub fn parse_block_instruction(tokens: &Vec<Token>, start: usize) -> (r: Result<
    Dispatch,
    ParseError,
>)
    ensures
        r == block_dispatched(tokens@, start as nat),
{
    if start < tokens.len() && tokens.len() - start > 1 {
        let opens = match (&tokens[start], &tokens[start + 1]) {
            (Token::NewLine, Token::Indentation) => true,
            _ => false,
        };
        if opens {
            return match parse_instruction(tokens, start + 2) {
                Ok(d) => Ok(d),
                Err(e) => Err(ParseError { position: e.position, kind: e.kind, committed: true }),
            };
        }
    }
    Err(ParseError { position: start, kind: ErrorKind::NoBlock, committed: false })
}

/// One step of reading a whole document from `position`: the next
/// instruction, `None` where only blank lines, comments and semicolons are
/// left, or the failure. Any other leftover token is a failure.
pub fn parse_instructions_step(tokens: &Vec<Token>, position: usize) -> (r: Result<
    Option<Dispatch>,
    ParseError,
>)
    ensures
        r == document_step(tokens@, position as nat),
{
    match parse_instruction(tokens, position) {
        Ok(d) => Ok(Some(d)),
        Err(e) => match e.kind {
            ErrorKind::EndOfInput => Ok(None),
            _ => Err(e),
        },
    }
}

/// One step of reading an indented block from `position`, after `parsed` of
/// its instructions: the next instruction, `None` where the block has ended,
/// or the failure.
pub fn parse_block_step(tokens: &Vec<Token>, position: usize, parsed: usize) -> (r: Result<
    Option<Dispatch>,
    ParseError,
>)
    ensures
        r == block_step(tokens@, position as nat, parsed as nat),
{
    match parse_block_instruction(tokens, position) {
        Ok(d) => Ok(Some(d)),
        Err(e) => if !e.committed && parsed > 0 {
            Ok(None)
        } else {
            Err(e)
        },
    }
}

impl Dispatch {
    /// The failure to report where the grammar failed with `error`, which
    /// `message` describes: a keyword's grammar failure becomes
    /// `InvalidCommand` with the keyword at the instruction's start; any other
    /// grammar's failure stands as it is.
    pub fn grammar_failed(&self, error: ParseError, message: String) -> (r: ParseError)
        ensures
            r == match self.command {
                Some(c) => ParseError {
                    position: self.position,
                    kind: ErrorKind::InvalidCommand { command: c, error: message },
                    committed: true,
                },
                None => error,
            },
    {
        match self.command {
            Some(c) => ParseError {
                position: self.position,
                kind: ErrorKind::InvalidCommand { command: c, error: message },
                committed: true,
            },
            None => error,
        }
    }

    /// Where reading goes on after the grammar stopped at `next`: there, if
    /// the grammar read at least one token of the instruction and stayed
    /// within the `len` tokens; else a final `NoProgress` failure.
    pub fn accept_read(&self, next: usize, len: usize) -> (r: Result<usize, ParseError>)
        ensures
            r == if self.position < next && next <= len {
                Ok::<usize, ParseError>(next)
            } else {
                Err(ParseError { position: self.position, kind: ErrorKind::NoProgress, committed: true })
            },
    {
        if self.position < next && next <= len {
            Ok(next)
        } else {
            Err(ParseError { position: self.position, kind: ErrorKind::NoProgress, committed: true })
        }
    }
}

/// Skipping stops only at the end or at a significant token, and passes over
/// insignificant tokens alone.
pub proof fn lemma_skip_passes_insignificant(tokens: Seq<Token>, i: nat)
    ensures
        i <= skip_from(tokens, i),
        skip_from(tokens, i) < tokens.len() ==> !is_insignificant(tokens[skip_from(tokens, i) as int]),
        skip_from(tokens, i) > tokens.len() ==> skip_from(tokens, i) == i,
        forall|j: int| i <= j < skip_from(tokens, i) && j < tokens.len() ==> is_insignificant(#[trigger] tokens[j]),
    decreases tokens.len() - i,
{
    if i < tokens.len() && is_insignificant(tokens[i as int]) {
        lemma_skip_passes_insignificant(tokens, i + 1);
    }
}

/// A document ends only where every token left is a blank line, a comment or
/// a semicolon: no leftover token is ever dropped.
pub proof fn lemma_document_ends_only_at_end(tokens: Seq<Token>, position: nat)
    requires
        document_step(tokens, position) == Ok::<Option<Dispatch>, ParseError>(None),
        tokens.len() <= usize::MAX,
    ensures
        forall|j: int| position <= j < tokens.len() ==> is_insignificant(#[trigger] tokens[j]),
{
    lemma_skip_passes_insignificant(tokens, position);
}

} // verus!
