//! The data of the language: tokens, operands, guard expressions,
//! instructions and lines, each with its mathematical value.

use vstd::prelude::*;

verus! {

/// One of the four symbolic registers of the machine.
#[derive(Debug, Clone, Copy, PartialEq, Eq, Structural)]
pub enum Register {
    A,
    B,
    C,
    D,
}

/// A lexical token. `Newlines` carries the length of a run of line breaks,
/// `Nop` stands for discarded text (comments, blanks).
#[derive(Debug, PartialEq, Eq)]
pub enum Token {
    Num(usize),
    Reg(Register),
    Literal,
    Identifier(String),
    Label,
    Open,
    Close,
    Deref,
    Jump,
    From,
    Inc,
    Halt,
    Backwards,
    Forwards,
    Reverse,
    Io,
    If,
    Eq,
    Gt,
    Gte,
    Lt,
    Lte,
    And,
    Or,
    Nop,
    Newlines(usize),
}

/// The mathematical value of a `Token`: an identifier is its characters.
pub enum TokenView {
    Num(usize),
    Reg(Register),
    Literal,
    Identifier(Seq<char>),
    Label,
    Open,
    Close,
    Deref,
    Jump,
    From,
    Inc,
    Halt,
    Backwards,
    Forwards,
    Reverse,
    Io,
    If,
    Eq,
    Gt,
    Gte,
    Lt,
    Lte,
    And,
    Or,
    Nop,
    Newlines(usize),
}

impl View for Token {
    type V = TokenView;

    open spec fn view(&self) -> TokenView {
        match *self {
            Token::Num(n) => TokenView::Num(n),
            Token::Reg(r) => TokenView::Reg(r),
            Token::Literal => TokenView::Literal,
            Token::Identifier(s) => TokenView::Identifier(s@),
            Token::Label => TokenView::Label,
            Token::Open => TokenView::Open,
            Token::Close => TokenView::Close,
            Token::Deref => TokenView::Deref,
            Token::Jump => TokenView::Jump,
            Token::From => TokenView::From,
            Token::Inc => TokenView::Inc,
            Token::Halt => TokenView::Halt,
            Token::Backwards => TokenView::Backwards,
            Token::Forwards => TokenView::Forwards,
            Token::Reverse => TokenView::Reverse,
            Token::Io => TokenView::Io,
            Token::If => TokenView::If,
            Token::Eq => TokenView::Eq,
            Token::Gt => TokenView::Gt,
            Token::Gte => TokenView::Gte,
            Token::Lt => TokenView::Lt,
            Token::Lte => TokenView::Lte,
            Token::And => TokenView::And,
            Token::Or => TokenView::Or,
            Token::Nop => TokenView::Nop,
            Token::Newlines(n) => TokenView::Newlines(n),
        }
    }
}

/// The values of a sequence of tokens, in order.
pub open spec fn token_views(tokens: Seq<Token>) -> Seq<TokenView> {
    tokens.map_values(|t: Token| t@)
}

/// A write target: a register, a memory cell, or the cell that another
/// target's value points at.
#[derive(Debug, PartialEq, Eq)]
pub enum Dest {
    Reg(Register),
    Addr(usize),
    Deref(Box<Dest>),
}

/// A value-producing operand: like a `Dest`, plus immediate literals.
#[derive(Debug, PartialEq, Eq)]
pub enum Source {
    Reg(Register),
    Addr(usize),
    Literal(usize),
    Deref(Box<Source>),
}

/// A guard expression. Comparisons work on the truth values of their
/// operands; `Lit` is true when its operand is not zero.
#[derive(Debug, PartialEq, Eq)]
pub enum Expr {
    Backwards,
    Forwards,
    Or(Box<Expr>, Box<Expr>),
    And(Box<Expr>, Box<Expr>),
    Gte(Box<Expr>, Box<Expr>),
    Lte(Box<Expr>, Box<Expr>),
    Gt(Box<Expr>, Box<Expr>),
    Lt(Box<Expr>, Box<Expr>),
    Eq(Box<Expr>, Box<Expr>),
    Lit(Source),
}

/// One instruction. `Jump` and `From` without a label return through the
/// call stack of the line they stand on.
#[derive(Debug, PartialEq, Eq)]
pub enum Instruction {
    Inc(Dest, Source),
    Jump(Option<String>),
    From(Option<String>),
    Forwards,
    Backwards,
    Reverse,
    Halt,
    Io(Source),
}

/// The mathematical value of an `Instruction`: a label is its characters.
pub enum InstructionView {
    Inc(Dest, Source),
    Jump(Option<Seq<char>>),
    From(Option<Seq<char>>),
    Forwards,
    Backwards,
    Reverse,
    Halt,
    Io(Source),
}

/// The characters of an optional name.
pub open spec fn name_view(name: Option<String>) -> Option<Seq<char>> {
    match name {
        Some(s) => Some(s@),
        None => None,
    }
}

impl View for Instruction {
    type V = InstructionView;

    open spec fn view(&self) -> InstructionView {
        match *self {
            Instruction::Inc(d, s) => InstructionView::Inc(d, s),
            Instruction::Jump(l) => InstructionView::Jump(name_view(l)),
            Instruction::From(l) => InstructionView::From(name_view(l)),
            Instruction::Forwards => InstructionView::Forwards,
            Instruction::Backwards => InstructionView::Backwards,
            Instruction::Reverse => InstructionView::Reverse,
            Instruction::Halt => InstructionView::Halt,
            Instruction::Io(s) => InstructionView::Io(s),
        }
    }
}

impl InstructionView {
    /// The label that a `Jump` or `From` names, if it names one.
    pub open spec fn target(self) -> Option<Seq<char>> {
        match self {
            InstructionView::Jump(l) => l,
            InstructionView::From(l) => l,
            _ => None,
        }
    }
}

/// One line of a program: an optional label, the instruction, an optional
/// guard, and the stack of program counters from which this line was called.
#[derive(Debug, PartialEq, Eq)]
pub struct Line {
    pub label: Option<String>,
    pub inst: Instruction,
    pub cond: Option<Expr>,
    pub stack: Vec<usize>,
}

/// The mathematical value of a `Line`.
pub struct LineView {
    pub label: Option<Seq<char>>,
    pub inst: InstructionView,
    pub cond: Option<Expr>,
    pub stack: Seq<usize>,
}

impl View for Line {
    type V = LineView;

    open spec fn view(&self) -> LineView {
        LineView {
            label: name_view(self.label),
            inst: self.inst@,
            cond: self.cond,
            stack: self.stack@,
        }
    }
}

/// The values of the lines of a program, in order.
pub open spec fn line_views(lines: Seq<Line>) -> Seq<LineView> {
    lines.map_values(|l: Line| l@)
}

} // verus!
