//! Lowers programs of a small stack machine to assembly text for a
//! single-accumulator target.
//!
//! The library has two parts that a driver uses in turn.  `parser` reads one
//! line of source text into a [`VmCommand`].  `code_writer` turns each
//! command into a fragment of assembly text and carries the state that the
//! fragments depend on: the current file and function, the counters behind
//! the labels it makes up, and whether the shared return routine is out.
//!
//! The other modules say what that text is and what it does:
//! - `decimal`: numbers as text;
//! - `assembly`: the assembly language, as listings of instructions, and
//!   the text of a listing;
//! - `program`: the listing of a whole program, and why its labels are
//!   all different;
//! - `labels`: the labels that each step defines, and what tells them
//!   apart;
//! - `machine`: the target machine, as a step function on listings;
//! - `fragments`: what each fragment of generated code computes;
//! - `semantics`: what each command does, and how call and return work
//!   together;
//! - `recursion`: a function that calls itself, followed through all its
//!   levels.

use vstd::prelude::*;
use vstd::string::*;

use crate::decimal::{decimal, decimal_text};

pub mod assembly;
pub mod code_writer;
pub mod decimal;
pub mod fragments;
pub mod labels;
pub mod machine;
pub mod parser;
pub mod program;
pub mod recursion;
pub mod semantics;

verus! {

/// The three relational tests of the stack machine.
#[derive(Clone, Copy, Debug, PartialEq, Eq, Structural)]
pub enum Comparison {
    Eq,
    GT,
    LT,
}

/// The regions that `push` and `pop` address.
///
/// `Argument`, `Local`, `This` and `That` are reached through a base pointer;
/// `Static`, `Pointer` and `Temp` sit at fixed addresses; `Constant` is no
/// memory at all: pushing from it pushes the offset itself.
#[derive(Clone, Copy, Debug, PartialEq, Eq, Structural)]
pub enum MemSegment {
    Argument,
    Local,
    Static,
    Constant,
    This,
    That,
    Pointer,
    Temp,
}

/// One instruction of the stack machine, with names borrowed from the line
/// it was read from.
#[derive(Clone, Copy, Debug, PartialEq, Eq)]
pub enum VmCommand<'a> {
    Add,
    Sub,
    Neg,
    Compare(Comparison),
    And,
    Or,
    Not,
    Push(MemSegment, u16),
    Pop(MemSegment, u16),
    Label(&'a str),
    Goto(&'a str),
    IfGoto(&'a str),
    Function(&'a str, u16),
    Call(&'a str, u16),
    Return,
}

/// What a [`VmCommand`] says, with each name as the sequence of its
/// characters.
pub enum Command {
    Add,
    Sub,
    Neg,
    Compare(Comparison),
    And,
    Or,
    Not,
    Push(MemSegment, u16),
    Pop(MemSegment, u16),
    Label(Seq<char>),
    Goto(Seq<char>),
    IfGoto(Seq<char>),
    Function(Seq<char>, u16),
    Call(Seq<char>, u16),
    Return,
}

impl Comparison {
    /// The keyword of the comparison.
    pub open spec fn text(self) -> Seq<char> {
        match self {
            Comparison::Eq => "eq"@,
            Comparison::GT => "gt"@,
            Comparison::LT => "lt"@,
        }
    }

    pub fn as_str(self) -> (s: &'static str)
        ensures
            s@ == self.text(),
    {
        match self {
            Comparison::Eq => "eq",
            Comparison::GT => "gt",
            Comparison::LT => "lt",
        }
    }

    pub fn to_string(&self) -> (s: String)
        ensures
            s@ == self.text(),
    {
        String::from_str(self.as_str())
    }
}

impl MemSegment {
    /// The keyword of the segment.
    pub open spec fn text(self) -> Seq<char> {
        match self {
            MemSegment::Local => "local"@,
            MemSegment::Argument => "argument"@,
            MemSegment::This => "this"@,
            MemSegment::That => "that"@,
            MemSegment::Constant => "constant"@,
            MemSegment::Static => "static"@,
            MemSegment::Pointer => "pointer"@,
            MemSegment::Temp => "temp"@,
        }
    }

    pub fn as_str(self) -> (s: &'static str)
        ensures
            s@ == self.text(),
    {
        match self {
            MemSegment::Local => "local",
            MemSegment::Argument => "argument",
            MemSegment::This => "this",
            MemSegment::That => "that",
            MemSegment::Constant => "constant",
            MemSegment::Static => "static",
            MemSegment::Pointer => "pointer",
            MemSegment::Temp => "temp",
        }
    }

    pub fn to_string(&self) -> (s: String)
        ensures
            s@ == self.text(),
    {
        String::from_str(self.as_str())
    }
}

impl Command {
    /// The instruction as one line of source text: the keyword, then the
    /// operands, with one blank between them and numbers in decimal.
    pub open spec fn text(self) -> Seq<char> {
        match self {
            Command::Add => "add"@,
            Command::Sub => "sub"@,
            Command::Neg => "neg"@,
            Command::Compare(c) => c.text(),
            Command::And => "and"@,
            Command::Or => "or"@,
            Command::Not => "not"@,
            Command::Push(seg, n) => "push "@ + seg.text() + " "@ + decimal_text(n as nat),
            Command::Pop(seg, n) => "pop "@ + seg.text() + " "@ + decimal_text(n as nat),
            Command::Label(l) => "label "@ + l,
            Command::Goto(l) => "goto "@ + l,
            Command::IfGoto(l) => "if-goto "@ + l,
            Command::Function(f, n) => "function "@ + f + " "@ + decimal_text(n as nat),
            Command::Call(f, n) => "call "@ + f + " "@ + decimal_text(n as nat),
            Command::Return => "return"@,
        }
    }

    /// `pop constant` does not exist: a constant is no place to store to.
    pub open spec fn well_formed(self) -> bool {
        !(self matches Command::Pop(MemSegment::Constant, _))
    }
}

impl<'a> View for VmCommand<'a> {
    type V = Command;

    open spec fn view(&self) -> Command {
        match *self {
            VmCommand::Add => Command::Add,
            VmCommand::Sub => Command::Sub,
            VmCommand::Neg => Command::Neg,
            VmCommand::Compare(c) => Command::Compare(c),
            VmCommand::And => Command::And,
            VmCommand::Or => Command::Or,
            VmCommand::Not => Command::Not,
            VmCommand::Push(seg, n) => Command::Push(seg, n),
            VmCommand::Pop(seg, n) => Command::Pop(seg, n),
            VmCommand::Label(l) => Command::Label(l@),
            VmCommand::Goto(l) => Command::Goto(l@),
            VmCommand::IfGoto(l) => Command::IfGoto(l@),
            VmCommand::Function(f, n) => Command::Function(f@, n),
            VmCommand::Call(f, n) => Command::Call(f@, n),
            VmCommand::Return => Command::Return,
        }
    }
}

/// `keyword`, a blank, `name`, a blank and `n` in decimal.
fn three_words(keyword: &str, name: &str, n: u16) -> (s: String)
    ensures
        s@ == keyword@ + " "@ + name@ + " "@ + decimal_text(n as nat),
{
    let mut s = String::from_str(keyword);
    s.append(" ");
    s.append(name);
    s.append(" ");
    let number = decimal(n as u64);
    s.append(number.as_str());
    s
}

/// `keyword`, a blank and `name`.
fn two_words(keyword: &str, name: &str) -> (s: String)
    ensures
        s@ == keyword@ + " "@ + name@,
{
    let mut s = String::from_str(keyword);
    s.append(" ");
    s.append(name);
    s
}

impl<'a> VmCommand<'a> {
    /// The instruction as one line of source text.
    pub fn to_string(&self) -> (s: String)
        ensures
            s@ == self@.text(),
    {
        proof {
            reveal_strlit("push ");
            reveal_strlit("push");
            reveal_strlit("pop ");
            reveal_strlit("pop");
            reveal_strlit("label ");
            reveal_strlit("label");
            reveal_strlit("goto ");
            reveal_strlit("goto");
            reveal_strlit("if-goto ");
            reveal_strlit("if-goto");
            reveal_strlit("function ");
            reveal_strlit("function");
            reveal_strlit("call ");
            reveal_strlit("call");
            reveal_strlit(" ");
        }
        let s = match *self {
            VmCommand::Add => String::from_str("add"),
            VmCommand::Sub => String::from_str("sub"),
            VmCommand::Neg => String::from_str("neg"),
            VmCommand::Compare(c) => c.to_string(),
            VmCommand::And => String::from_str("and"),
            VmCommand::Or => String::from_str("or"),
            VmCommand::Not => String::from_str("not"),
            VmCommand::Push(seg, n) => three_words("push", seg.as_str(), n),
            VmCommand::Pop(seg, n) => three_words("pop", seg.as_str(), n),
            VmCommand::Label(l) => two_words("label", l),
            VmCommand::Goto(l) => two_words("goto", l),
            VmCommand::IfGoto(l) => two_words("if-goto", l),
            VmCommand::Function(f, n) => three_words("function", f, n),
            VmCommand::Call(f, n) => three_words("call", f, n),
            VmCommand::Return => String::from_str("return"),
        };
        assert(s@ =~= self@.text());
        s
    }
}

} // verus!
