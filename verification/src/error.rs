//! The errors of the front end and of the checker.
use vstd::prelude::*;
use vstd::string::*;

use crate::text::{decimal_text, push_decimal};

verus! {

/// An error of lexing, parsing or checking a program.
#[derive(Debug)]
pub enum CompileError {
    Lex { line: usize, col: usize, msg: String },
    Parse { line: usize, col: usize, msg: String },
    Verify(String),
    Io(String),
}

/// The model of a [`CompileError`]: messages are character sequences.
pub enum SpecCompileError {
    Lex { line: usize, col: usize, msg: Seq<char> },
    Parse { line: usize, col: usize, msg: Seq<char> },
    Verify(Seq<char>),
    Io(Seq<char>),
}

impl View for CompileError {
    type V = SpecCompileError;

    open spec fn view(&self) -> SpecCompileError {
        match self {
            CompileError::Lex { line, col, msg } => SpecCompileError::Lex {
                line: *line,
                col: *col,
                msg: msg@,
            },
            CompileError::Parse { line, col, msg } => SpecCompileError::Parse {
                line: *line,
                col: *col,
                msg: msg@,
            },
            CompileError::Verify(m) => SpecCompileError::Verify(m@),
            CompileError::Io(m) => SpecCompileError::Io(m@),
        }
    }
}


/// The text of an error, as it is shown to the user.
pub open spec fn spec_message(e: SpecCompileError) -> Seq<char> {
    match e {
        SpecCompileError::Lex { line, col, msg } => "Lex error at "@ + decimal_text(line as nat) + ":"@
            + decimal_text(col as nat) + ": "@ + msg,
        SpecCompileError::Parse { line, col, msg } => "Parse error at "@ + decimal_text(line as nat)
            + ":"@ + decimal_text(col as nat) + ": "@ + msg,
        SpecCompileError::Verify(m) => "Linearity error: "@ + m,
        SpecCompileError::Io(m) => "I/O error: "@ + m,
    }
}

/// `prefix` + `line:col` + `": "` + `msg`.
fn located(prefix: &str, line: usize, col: usize, msg: &String) -> (s: String)
    ensures
        s@ == prefix@ + decimal_text(line as nat) + ":"@ + decimal_text(col as nat) + ": "@ + msg@,
{
    let mut s = String::from_str(prefix);
    push_decimal(&mut s, line as u64);
    s.append(":");
    push_decimal(&mut s, col as u64);
    s.append(": ");
    s.append(msg.as_str());
    assert(s@ =~= prefix@ + decimal_text(line as nat) + ":"@ + decimal_text(col as nat) + ": "@ + msg@);
    s
}

impl CompileError {
    /// The text of the error, as it is shown to the user.
    pub fn message(&self) -> (s: String)
        ensures
            s@ == spec_message(self@),
    {
        match self {
            CompileError::Lex { line, col, msg } => located("Lex error at ", *line, *col, msg),
            CompileError::Parse { line, col, msg } => located("Parse error at ", *line, *col, msg),
            CompileError::Verify(m) => {
                let mut s = String::from_str("Linearity error: ");
                s.append(m.as_str());
                s
            },
            CompileError::Io(m) => {
                let mut s = String::from_str("I/O error: ");
                s.append(m.as_str());
                s
            },
        }
    }
}

} // verus!
