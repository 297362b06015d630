//! VM commands, their memory segments, and their surface text.
use vstd::prelude::*;
use vstd::string::*;
use crate::text::{append_dec, dec};

verus! {

/// A memory segment of the VM.
#[derive(Debug, Clone, Copy, PartialEq, Eq, Structural)]
pub enum MemorySegment {
    Constant,
    Local,
    Argument,
    This,
    That,
    Temp,
    Pointer,
    Static,
}

/// A parsed VM command.
#[derive(Debug, PartialEq, Eq)]
pub enum Command {
    Add,
    Sub,
    Neg,
    Eq,
    Gt,
    Lt,
    And,
    Or,
    Not,
    Push(MemorySegment, u16),
    Pop(MemorySegment, u16),
    Label(String),
    Goto(String),
    IfGoto(String),
    Function(String, u16),
    Call(String, u16),
    Return,
}

/// The mathematical value of a [`Command`]: names are character sequences.
pub enum VmCommand {
    Add,
    Sub,
    Neg,
    Eq,
    Gt,
    Lt,
    And,
    Or,
    Not,
    Push(MemorySegment, u16),
    Pop(MemorySegment, u16),
    Label(Seq<char>),
    Goto(Seq<char>),
    IfGoto(Seq<char>),
    Function(Seq<char>, u16),
    Call(Seq<char>, u16),
    Return,
}

impl View for Command {
    type V = VmCommand;

    open spec fn view(&self) -> VmCommand {
        match self {
            Command::Add => VmCommand::Add,
            Command::Sub => VmCommand::Sub,
            Command::Neg => VmCommand::Neg,
            Command::Eq => VmCommand::Eq,
            Command::Gt => VmCommand::Gt,
            Command::Lt => VmCommand::Lt,
            Command::And => VmCommand::And,
            Command::Or => VmCommand::Or,
            Command::Not => VmCommand::Not,
            Command::Push(s, i) => VmCommand::Push(*s, *i),
            Command::Pop(s, i) => VmCommand::Pop(*s, *i),
            Command::Label(l) => VmCommand::Label(l@),
            Command::Goto(l) => VmCommand::Goto(l@),
            Command::IfGoto(l) => VmCommand::IfGoto(l@),
            Command::Function(n, k) => VmCommand::Function(n@, *k),
            Command::Call(n, k) => VmCommand::Call(n@, *k),
            Command::Return => VmCommand::Return,
        }
    }
}

/// The keyword that names a segment in VM source.
pub open spec fn segment_name(s: MemorySegment) -> Seq<char> {
    match s {
        MemorySegment::Constant => "constant"@,
        MemorySegment::Local => "local"@,
        MemorySegment::Argument => "argument"@,
        MemorySegment::This => "this"@,
        MemorySegment::That => "that"@,
        MemorySegment::Temp => "temp"@,
        MemorySegment::Pointer => "pointer"@,
        MemorySegment::Static => "static"@,
    }
}

/// The surface form of a command, as written in VM source.
pub open spec fn surface(c: VmCommand) -> Seq<char> {
    match c {
        VmCommand::Add => "add"@,
        VmCommand::Sub => "sub"@,
        VmCommand::Neg => "neg"@,
        VmCommand::Eq => "eq"@,
        VmCommand::Gt => "gt"@,
        VmCommand::Lt => "lt"@,
        VmCommand::And => "and"@,
        VmCommand::Or => "or"@,
        VmCommand::Not => "not"@,
        VmCommand::Push(s, i) => "push "@ + segment_name(s) + " "@ + dec(i as nat),
        VmCommand::Pop(s, i) => "pop "@ + segment_name(s) + " "@ + dec(i as nat),
        VmCommand::Label(l) => "label "@ + l,
        VmCommand::Goto(l) => "goto "@ + l,
        VmCommand::IfGoto(l) => "if-goto "@ + l,
        VmCommand::Function(n, k) => "function "@ + n + " "@ + dec(k as nat),
        VmCommand::Call(n, k) => "call "@ + n + " "@ + dec(k as nat),
        VmCommand::Return => "return"@,
    }
}

impl MemorySegment {
    /// The keyword of this segment.
    pub fn name(&self) -> (r: &'static str)
        ensures
            r@ == segment_name(*self),
    {
        match self {
            MemorySegment::Constant => "constant",
            MemorySegment::Local => "local",
            MemorySegment::Argument => "argument",
            MemorySegment::This => "this",
            MemorySegment::That => "that",
            MemorySegment::Temp => "temp",
            MemorySegment::Pointer => "pointer",
            MemorySegment::Static => "static",
        }
    }
}

impl Command {
    /// The surface form of this command, as written in VM source.
    pub fn to_text(&self) -> (r: String)
        ensures
            r@ == surface(self@),
    {
        let mut s = String::new();
        match self {
            Command::Add => s.append("add"),
            Command::Sub => s.append("sub"),
            Command::Neg => s.append("neg"),
            Command::Eq => s.append("eq"),
            Command::Gt => s.append("gt"),
            Command::Lt => s.append("lt"),
            Command::And => s.append("and"),
            Command::Or => s.append("or"),
            Command::Not => s.append("not"),
            Command::Push(seg, i) => {
                s.append("push ");
                s.append(seg.name());
                s.append(" ");
                append_dec(&mut s, *i as usize);
            },
            Command::Pop(seg, i) => {
                s.append("pop ");
                s.append(seg.name());
                s.append(" ");
                append_dec(&mut s, *i as usize);
            },
            Command::Label(l) => {
                s.append("label ");
                s.append(l.as_str());
            },
            Command::Goto(l) => {
                s.append("goto ");
                s.append(l.as_str());
            },
            Command::IfGoto(l) => {
                s.append("if-goto ");
                s.append(l.as_str());
            },
            Command::Function(n, k) => {
                s.append("function ");
                s.append(n.as_str());
                s.append(" ");
                append_dec(&mut s, *k as usize);
            },
            Command::Call(n, k) => {
                s.append("call ");
                s.append(n.as_str());
                s.append(" ");
                append_dec(&mut s, *k as usize);
            },
            Command::Return => s.append("return"),
        }
        s
    }
}

} // verus!
