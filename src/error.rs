use vstd::prelude::*;
use crate::text::push_char;
use vstd::string::StringExecFns;

verus! {

/// What went wrong while scanning source text.
#[derive(Clone, Copy, Debug, PartialEq, Eq, Structural)]
pub enum LexerError {
    UnexpectedCharacter { line: usize, character: char },
    UnterminatedString { line: usize },
}

pub open spec fn decimal_digits() -> Seq<char> {
    seq!['0', '1', '2', '3', '4', '5', '6', '7', '8', '9']
}

/// The decimal numeral of `n`, without leading zeros.
pub open spec fn decimal(n: nat) -> Seq<char>
    decreases n,
{
    if n < 10 {
        seq![decimal_digits()[n as int]]
    } else {
        decimal(n / 10).push(decimal_digits()[(n % 10) as int])
    }
}

fn digit_char(d: usize) -> (r: char)
    requires
        d < 10,
    ensures
        r == decimal_digits()[d as int],
{
    let table = ['0', '1', '2', '3', '4', '5', '6', '7', '8', '9'];
    assert(table@ =~= decimal_digits());
    table[d]
}

/// The decimal numeral of `n`.
pub fn decimal_text(n: usize) -> (r: String)
    ensures
        r@ == decimal(n as nat),
    decreases n,
{
    if n < 10 {
        let mut s = String::new();
        push_char(&mut s, digit_char(n));
        assert(s@ =~= decimal(n as nat));
        s
    } else {
        let mut s = decimal_text(n / 10);
        push_char(&mut s, digit_char(n % 10));
        s
    }
}

impl LexerError {
    /// The text that describes the error.
    pub open spec fn message_spec(&self) -> Seq<char> {
        match self {
            LexerError::UnexpectedCharacter { line, character } => "Unexpected character '"@
                + seq![*character] + "' at line "@ + decimal(*line as nat),
            LexerError::UnterminatedString { line } => "Unterminated string at line "@ + decimal(
                *line as nat,
            ),
        }
    }

    /// `Unexpected character 'c' at line n` or `Unterminated string at line n`.
    pub fn message(&self) -> (r: String)
        ensures
            r@ == self.message_spec(),
    {
        match self {
            LexerError::UnexpectedCharacter { line, character } => {
                let mut s = String::from_str("Unexpected character '");
                push_char(&mut s, *character);
                s.append("' at line ");
                s.append(decimal_text(*line).as_str());
                s
            },
            LexerError::UnterminatedString { line } => {
                let mut s = String::from_str("Unterminated string at line ");
                s.append(decimal_text(*line).as_str());
                s
            },
        }
    }
}

/// A syntax error: a description and the line of the offending token.
#[derive(Debug)]
pub struct ParserError {
    pub message: String,
    pub line: usize,
}

impl ParserError {
    pub fn new(message: String, line: usize) -> (r: Self)
        ensures
            r.message@ == message@,
            r.line == line,
    {
        Self { message, line }
    }
}

/// An error raised while evaluating: a description and the line of the
/// operator or name that caused it.
#[derive(Debug)]
pub struct RuntimeError {
    pub message: String,
    pub line: usize,
}

impl RuntimeError {
    pub fn new(message: String, line: usize) -> (r: Self)
        ensures
            r.message@ == message@,
            r.line == line,
    {
        Self { message, line }
    }
}

/// The three independent ways a run can fail.
#[derive(Debug)]
pub enum InterpreterError {
    LexerError(LexerError),
    ParserError(ParserError),
    RuntimeError(RuntimeError),
}

} // verus!
