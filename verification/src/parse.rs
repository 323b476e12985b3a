//! The parser: from tokens to lines. Operands, instructions and labels are
//! read by first-token dispatch; guard expressions by operator precedence
//! with two stacks.

use crate::ast::{
    Dest, Expr, Instruction, InstructionView, Line, LineView, Register, Source, Token, TokenView,
    line_views, name_view, token_views,
};
use crate::text::str_eq;
use std::collections::VecDeque;
use vstd::prelude::*;

verus! {

/// The register that a name spells: one capital letter from A to D.
pub open spec fn spec_parse_reg(name: Seq<char>) -> Option<Register> {
    if name == "A"@ {
        Some(Register::A)
    } else if name == "B"@ {
        Some(Register::B)
    } else if name == "C"@ {
        Some(Register::C)
    } else if name == "D"@ {
        Some(Register::D)
    } else {
        None
    }
}

/// The register that `input` spells, if it spells one.
pub fn parse_reg(input: &str) -> (r: Option<Register>)
    ensures
        r == spec_parse_reg(input@),
{
    if str_eq(input, "A") {
        Some(Register::A)
    } else if str_eq(input, "B") {
        Some(Register::B)
    } else if str_eq(input, "C") {
        Some(Register::C)
    } else if str_eq(input, "D") {
        Some(Register::D)
    } else {
        None
    }
}

/// How many dereference markers stand at the front of `q`.
pub open spec fn leading_derefs(q: Seq<TokenView>) -> nat
    decreases q.len(),
{
    if q.len() > 0 && q[0] == TokenView::Deref {
        1 + leading_derefs(q.skip(1))
    } else {
        0
    }
}

/// `s` inside `n` dereferences.
pub open spec fn wrap_source(s: Source, n: nat) -> Source
    decreases n,
{
    if n == 0 {
        s
    } else {
        wrap_source(Source::Deref(Box::new(s)), (n - 1) as nat)
    }
}

/// An operand without its dereference markers, read from the front of `q`,
/// and what is left of `q`: a register (a register token, or an identifier
/// that spells one), a number (an address), or the literal marker and a
/// number (an immediate value).
pub open spec fn spec_parse_base(q: Seq<TokenView>) -> (Result<Source, &'static str>, Seq<TokenView>) {
    if q.len() == 0 {
        (Err("unexpected end of program"), q)
    } else {
        match q[0] {
            TokenView::Identifier(name) => (
                match spec_parse_reg(name) {
                    Some(r) => Ok(Source::Reg(r)),
                    None => Err("invalid register"),
                },
                q.skip(1),
            ),
            TokenView::Reg(r) => (Ok(Source::Reg(r)), q.skip(1)),
            TokenView::Num(n) => (Ok(Source::Addr(n)), q.skip(1)),
            TokenView::Literal => if q.len() < 2 {
                (Err("unexpected end of program"), q.skip(1))
            } else {
                match q[1] {
                    TokenView::Num(n) => (Ok(Source::Literal(n)), q.skip(2)),
                    _ => (Err("expected number after $"), q.skip(2)),
                }
            },
            _ => (Err("invalid source or destination"), q.skip(1)),
        }
    }
}

/// An operand read from the front of `q`, and what is left of `q`: any
/// number of dereference markers (`*`), then the base operand, which each
/// marker wraps once more.
pub open spec fn spec_parse_src(q: Seq<TokenView>) -> (Result<Source, &'static str>, Seq<TokenView>) {
    let k = leading_derefs(q);
    let (base, rest) = spec_parse_base(q.skip(k as int));
    (
        match base {
            Ok(s) => Ok(wrap_source(s, k)),
            Err(e) => Err(e),
        },
        rest,
    )
}

/// The markers at the front of a queue are no more than its tokens; behind
/// them stands a token that is no marker, or nothing.
pub proof fn lemma_leading_derefs(q: Seq<TokenView>)
    ensures
        leading_derefs(q) <= q.len(),
        forall|i: int| 0 <= i < leading_derefs(q) ==> q[i] == TokenView::Deref,
        leading_derefs(q) < q.len() ==> q[leading_derefs(q) as int] != TokenView::Deref,
    decreases q.len(),
{
    if q.len() > 0 && q[0] == TokenView::Deref {
        lemma_leading_derefs(q.skip(1));
        assert forall|i: int| 0 <= i < leading_derefs(q) implies q[i] == TokenView::Deref by {
            if i > 0 {
                assert(q.skip(1)[i - 1] == q[i]);
            }
        }
        if leading_derefs(q) < q.len() {
            assert(q.skip(1)[leading_derefs(q.skip(1)) as int] == q[leading_derefs(q) as int]);
        }
    }
}

/// Reading an operand leaves a tail of the queue, and from a queue that is
/// not empty it takes at least one token.
pub proof fn lemma_parse_src_consumes(q: Seq<TokenView>)
    ensures
        spec_parse_src(q).1.len() <= q.len(),
        q.len() > 0 ==> spec_parse_src(q).1.len() < q.len(),
        spec_parse_src(q).1 == q.skip(q.len() - spec_parse_src(q).1.len()),
{
    lemma_leading_derefs(q);
    let k = leading_derefs(q) as int;
    let q1 = q.skip(k);
    let rest = spec_parse_base(q1).1;
    if q1.len() == 0 {
        assert(rest == q1);
    } else if q1[0] == TokenView::Literal && q1.len() >= 2 {
        assert(rest == q1.skip(2));
        assert(q1.skip(2) =~= q.skip(k + 2));
    } else {
        assert(rest == q1.skip(1));
        assert(q1.skip(1) =~= q.skip(k + 1));
    }
}

/// Taking the first token off a queue takes the first value off its values.
pub proof fn lemma_views_skip(tokens: Seq<Token>, n: int)
    requires
        0 <= n <= tokens.len(),
    ensures
        token_views(tokens.subrange(n, tokens.len() as int)) == token_views(tokens).skip(n),
{
    assert(token_views(tokens.subrange(n, tokens.len() as int)) =~= token_views(tokens).skip(n));
}

/// Reads an operand from the front of the queue.
pub fn parse_src(tokens: &mut VecDeque<Token>) -> (r: Result<Source, &'static str>)
    ensures
        (r, token_views(final(tokens)@)) == spec_parse_src(token_views(old(tokens)@)),
{
    let ghost q = token_views(tokens@);
    let mut derefs: usize = 0;
    let total = tokens.len();
    assert(q.len() == total);
    assert(q.skip(0) =~= q);
    loop
        invariant
            q.len() <= usize::MAX,
            derefs + tokens.len() == q.len(),
            token_views(tokens@) == q.skip(derefs as int),
            leading_derefs(q) == derefs + leading_derefs(token_views(tokens@)),
        ensures
            derefs + tokens.len() == q.len(),
            token_views(tokens@) == q.skip(derefs as int),
            leading_derefs(q) == derefs,
        decreases tokens.len(),
    {
        if tokens.len() == 0 {
            break ;
        }
        match tokens[0] {
            Token::Deref => {},
            _ => {
                break ;
            },
        }
        let ghost cur = tokens@;
        tokens.pop_front();
        proof {
            lemma_views_skip(cur, 1);
            assert(q.skip(derefs as int).skip(1) =~= q.skip(derefs + 1));
        }
        derefs += 1;
    }
    let ghost k = derefs as nat;
    let ghost q1 = token_views(tokens@);
    let ghost cur = tokens@;
    let first = match tokens.pop_front() {
        None => {
            return Err("unexpected end of program");
        },
        Some(t) => t,
    };
    proof {
        lemma_views_skip(cur, 1);
    }
    let base = match first {
        Token::Identifier(ident) => match parse_reg(ident.as_str()) {
            Some(r) => Source::Reg(r),
            None => {
                return Err("invalid register");
            },
        },
        Token::Reg(r) => Source::Reg(r),
        Token::Num(n) => Source::Addr(n),
        Token::Literal => {
            let ghost cur1 = tokens@;
            let second = tokens.pop_front();
            proof {
                if cur1.len() > 0 {
                    lemma_views_skip(cur1, 1);
                    assert(q1.skip(1).skip(1) =~= q1.skip(2));
                }
            }
            match second {
                None => {
                    return Err("unexpected end of program");
                },
                Some(Token::Num(n)) => Source::Literal(n),
                Some(_) => {
                    return Err("expected number after $");
                },
            }
        },
        _ => {
            return Err("invalid source or destination");
        },
    };
    let mut src = base;
    while derefs > 0
        invariant
            wrap_source(src, derefs as nat) == wrap_source(base, k),
        decreases derefs,
    {
        src = Source::Deref(Box::new(src));
        derefs -= 1;
    }
    Ok(src)
}

/// The write target that an operand names. A literal names none.
pub open spec fn spec_src2dest(src: Source) -> Result<Dest, &'static str>
    decreases src,
{
    match src {
        Source::Literal(_) => Err("Destination Can't Be Literal"),
        Source::Reg(r) => Ok(Dest::Reg(r)),
        Source::Addr(a) => Ok(Dest::Addr(a)),
        Source::Deref(inner) => match spec_src2dest(*inner) {
            Ok(dest) => Ok(Dest::Deref(Box::new(dest))),
            Err(e) => Err(e),
        },
    }
}

/// Turns an operand into a write target.
pub fn src2dest(src: Source) -> (r: Result<Dest, &'static str>)
    ensures
        r == spec_src2dest(src),
    decreases src,
{
    match src {
        Source::Literal(_) => Err("Destination Can't Be Literal"),
        Source::Reg(r) => Ok(Dest::Reg(r)),
        Source::Addr(a) => Ok(Dest::Addr(a)),
        Source::Deref(inner) => match src2dest(*inner) {
            Ok(dest) => Ok(Dest::Deref(Box::new(dest))),
            Err(e) => Err(e),
        },
    }
}

/// The name at the front of `q`, if an identifier stands there, and what
/// is left of `q`.
pub open spec fn spec_pop_if_ident(q: Seq<TokenView>) -> (Option<Seq<char>>, Seq<TokenView>) {
    if q.len() > 0 && q[0] is Identifier {
        (Some(q[0]->Identifier_0), q.skip(1))
    } else {
        (None, q)
    }
}

/// Takes the identifier at the front of the queue, if one stands there.
pub fn pop_if_ident(q: &mut VecDeque<Token>) -> (r: Option<String>)
    ensures
        (name_view(r), token_views(final(q)@)) == spec_pop_if_ident(token_views(old(q)@)),
{
    if q.len() == 0 {
        return None;
    }
    match q[0] {
        Token::Identifier(_) => {},
        _ => {
            return None;
        },
    }
    let ghost cur = q@;
    proof {
        lemma_views_skip(cur, 1);
    }
    match q.pop_front() {
        Some(Token::Identifier(ident)) => Some(ident),
        _ => None,
    }
}

/// An instruction read from the front of `q`, and what is left of `q`.
/// The first token decides: `halt`, `backwards`, `forwards` and `reverse`
/// stand alone; `jump` and `from` take the identifier behind them as their
/// label, if one stands there; `inc` takes a write target and an operand;
/// `io` takes an operand.
pub open spec fn spec_parse_inst(q: Seq<TokenView>) -> (
    Result<InstructionView, &'static str>,
    Seq<TokenView>,
) {
    if q.len() == 0 {
        (Err("unexpected end of program"), q)
    } else {
        let rest = q.skip(1);
        match q[0] {
            TokenView::Halt => (Ok(InstructionView::Halt), rest),
            TokenView::Backwards => (Ok(InstructionView::Backwards), rest),
            TokenView::Forwards => (Ok(InstructionView::Forwards), rest),
            TokenView::Reverse => (Ok(InstructionView::Reverse), rest),
            TokenView::Jump => {
                let (label, after) = spec_pop_if_ident(rest);
                (Ok(InstructionView::Jump(label)), after)
            },
            TokenView::From => {
                let (label, after) = spec_pop_if_ident(rest);
                (Ok(InstructionView::From(label)), after)
            },
            TokenView::Inc => {
                let (target, after) = spec_parse_src(rest);
                match target {
                    Err(e) => (Err(e), after),
                    Ok(t) => match spec_src2dest(t) {
                        Err(e) => (Err(e), after),
                        Ok(dest) => {
                            let (operand, last) = spec_parse_src(after);
                            match operand {
                                Err(e) => (Err(e), last),
                                Ok(src) => (Ok(InstructionView::Inc(dest, src)), last),
                            }
                        },
                    },
                }
            },
            TokenView::Io => {
                let (operand, after) = spec_parse_src(rest);
                match operand {
                    Err(e) => (Err(e), after),
                    Ok(src) => (Ok(InstructionView::Io(src)), after),
                }
            },
            _ => (Err("Not an Instruction"), rest),
        }
    }
}

/// The value of a parsed instruction, or the error in its place.
pub open spec fn inst_result_view(r: Result<Instruction, &'static str>) -> Result<
    InstructionView,
    &'static str,
> {
    match r {
        Ok(inst) => Ok(inst@),
        Err(e) => Err(e),
    }
}

/// Reads an instruction from the front of the queue.
pub fn parse_inst(q: &mut VecDeque<Token>) -> (r: Result<Instruction, &'static str>)
    ensures
        (inst_result_view(r), token_views(final(q)@)) == spec_parse_inst(token_views(old(q)@)),
{
    let ghost cur = q@;
    let first = match q.pop_front() {
        None => {
            return Err("unexpected end of program");
        },
        Some(tok) => tok,
    };
    proof {
        lemma_views_skip(cur, 1);
    }
    match first {
        Token::Halt => Ok(Instruction::Halt),
        Token::Backwards => Ok(Instruction::Backwards),
        Token::Forwards => Ok(Instruction::Forwards),
        Token::Reverse => Ok(Instruction::Reverse),
        Token::Jump => Ok(Instruction::Jump(pop_if_ident(q))),
        Token::From => Ok(Instruction::From(pop_if_ident(q))),
        Token::Inc => {
            let target = match parse_src(q) {
                Ok(t) => t,
                Err(e) => {
                    return Err(e);
                },
            };
            let dest = match src2dest(target) {
                Ok(d) => d,
                Err(e) => {
                    return Err(e);
                },
            };
            match parse_src(q) {
                Ok(src) => Ok(Instruction::Inc(dest, src)),
                Err(e) => Err(e),
            }
        },
        Token::Io => match parse_src(q) {
            Ok(src) => Ok(Instruction::Io(src)),
            Err(e) => Err(e),
        },
        _ => Err("Not an Instruction"),
    }
}

/// Reading an instruction leaves a tail of the queue, and from a queue
/// that is not empty it takes at least one token.
pub proof fn lemma_parse_inst_consumes(q: Seq<TokenView>)
    ensures
        spec_parse_inst(q).1.len() <= q.len(),
        q.len() > 0 ==> spec_parse_inst(q).1.len() < q.len(),
{
    if q.len() > 0 {
        let rest = q.skip(1);
        lemma_parse_src_consumes(rest);
        lemma_parse_src_consumes(spec_parse_src(rest).1);
    }
}

/// What a token is to a guard expression.
#[derive(Debug, Clone, Copy, PartialEq, Eq, Structural)]
pub enum ExprType {
    /// No part of an expression: the expression ends before it.
    Neither,
    /// An operand, the start of one, or a closing parenthesis.
    Terminal,
    /// A binary operator or an opening parenthesis.
    NonTerminal,
}

pub open spec fn spec_expr_type(tok: TokenView) -> ExprType {
    match tok {
        TokenView::Identifier(_) => ExprType::Terminal,
        TokenView::Reg(_) => ExprType::Terminal,
        TokenView::Backwards => ExprType::Terminal,
        TokenView::Forwards => ExprType::Terminal,
        TokenView::Literal => ExprType::Terminal,
        TokenView::Num(_) => ExprType::Terminal,
        TokenView::Close => ExprType::Terminal,
        TokenView::Deref => ExprType::Terminal,
        TokenView::Open => ExprType::NonTerminal,
        TokenView::Or => ExprType::NonTerminal,
        TokenView::And => ExprType::NonTerminal,
        TokenView::Gt => ExprType::NonTerminal,
        TokenView::Gte => ExprType::NonTerminal,
        TokenView::Eq => ExprType::NonTerminal,
        TokenView::Lte => ExprType::NonTerminal,
        TokenView::Lt => ExprType::NonTerminal,
        _ => ExprType::Neither,
    }
}

/// What `tok` is to a guard expression.
pub fn expr_type(tok: &Token) -> (r: ExprType)
    ensures
        r == spec_expr_type(tok@),
{
    match tok {
        Token::Identifier(_) => ExprType::Terminal,
        Token::Reg(_) => ExprType::Terminal,
        Token::Backwards => ExprType::Terminal,
        Token::Forwards => ExprType::Terminal,
        Token::Literal => ExprType::Terminal,
        Token::Num(_) => ExprType::Terminal,
        Token::Close => ExprType::Terminal,
        Token::Deref => ExprType::Terminal,
        Token::Open => ExprType::NonTerminal,
        Token::Or | Token::And => ExprType::NonTerminal,
        Token::Gt | Token::Gte | Token::Eq | Token::Lte | Token::Lt => ExprType::NonTerminal,
        _ => ExprType::Neither,
    }
}

/// How tightly an operator binds: `or` least, then `and`, then the
/// comparisons. An opening parenthesis binds less than any of them, so that
/// no operator reduces across it.
pub open spec fn spec_precedence(tok: TokenView) -> usize {
    match tok {
        TokenView::Open => 0,
        TokenView::Gte => 3,
        TokenView::Gt => 3,
        TokenView::Eq => 3,
        TokenView::Lt => 3,
        TokenView::Lte => 3,
        TokenView::And => 2,
        TokenView::Or => 1,
        _ => 5,
    }
}

/// How tightly the operator `a` binds.
pub fn precedence(a: &Token) -> (r: usize)
    ensures
        r == spec_precedence(a@),
{
    match a {
        Token::Open => 0,
        Token::Gte | Token::Gt | Token::Eq | Token::Lt | Token::Lte => 3,
        Token::And => 2,
        Token::Or => 1,
        _ => 5,
    }
}

/// The expression that the binary operator `tok` makes of `a` and `b`.
pub open spec fn spec_op_map(tok: TokenView, a: Expr, b: Expr) -> Option<Expr> {
    match tok {
        TokenView::Or => Some(Expr::Or(Box::new(a), Box::new(b))),
        TokenView::And => Some(Expr::And(Box::new(a), Box::new(b))),
        TokenView::Gte => Some(Expr::Gte(Box::new(a), Box::new(b))),
        TokenView::Gt => Some(Expr::Gt(Box::new(a), Box::new(b))),
        TokenView::Eq => Some(Expr::Eq(Box::new(a), Box::new(b))),
        TokenView::Lt => Some(Expr::Lt(Box::new(a), Box::new(b))),
        TokenView::Lte => Some(Expr::Lte(Box::new(a), Box::new(b))),
        _ => None,
    }
}

/// Applies the binary operator `tok` to `a` and `b`.
pub fn op_map(tok: Token, a: Expr, b: Expr) -> (r: Option<Expr>)
    ensures
        r == spec_op_map(tok@, a, b),
{
    let ba = Box::new(a);
    let bb = Box::new(b);
    match tok {
        Token::Or => Some(Expr::Or(ba, bb)),
        Token::And => Some(Expr::And(ba, bb)),
        Token::Gte => Some(Expr::Gte(ba, bb)),
        Token::Gt => Some(Expr::Gt(ba, bb)),
        Token::Eq => Some(Expr::Eq(ba, bb)),
        Token::Lt => Some(Expr::Lt(ba, bb)),
        Token::Lte => Some(Expr::Lte(ba, bb)),
        _ => None,
    }
}

/// The two stacks of the expression parser.
pub struct Stacks {
    pub operators: Seq<TokenView>,
    pub operands: Seq<Expr>,
}

/// One reduction: the top operator leaves its stack, the two top operands
/// leave theirs, and the expression made of them goes on the operands.
/// What was taken off before an error stays off.
pub open spec fn spec_op_pop(operators: Seq<TokenView>, operands: Seq<Expr>) -> (
    Result<(), &'static str>,
    Stacks,
) {
    if operators.len() == 0 {
        (Err("mismatched Parentheses"), Stacks { operators, operands })
    } else {
        let top = operators.last();
        let operators = operators.drop_last();
        if operands.len() == 0 {
            (Err("malformed expression, not enough operands"), Stacks { operators, operands })
        } else {
            let b = operands.last();
            let operands = operands.drop_last();
            if operands.len() == 0 {
                (Err("malformed expression, not enough operands"), Stacks { operators, operands })
            } else {
                let a = operands.last();
                let operands = operands.drop_last();
                match spec_op_map(top, a, b) {
                    Some(e) => (Ok(()), Stacks { operators, operands: operands.push(e) }),
                    None => (
                        Err("malformed expression, Invalid operator"),
                        Stacks { operators, operands },
                    ),
                }
            }
        }
    }
}

/// Taking the last token off a stack takes the last value off its values.
pub proof fn lemma_views_drop_last(tokens: Seq<Token>)
    requires
        tokens.len() > 0,
    ensures
        token_views(tokens.drop_last()) == token_views(tokens).drop_last(),
        token_views(tokens).last() == tokens.last()@,
{
    assert(token_views(tokens.drop_last()) =~= token_views(tokens).drop_last());
}

/// Putting a token on a stack puts its value on the values.
pub proof fn lemma_views_push(tokens: Seq<Token>, tok: Token)
    ensures
        token_views(tokens.push(tok)) == token_views(tokens).push(tok@),
{
    assert(token_views(tokens.push(tok)) =~= token_views(tokens).push(tok@));
}

/// Reduces once: applies the top operator to the two top operands.
pub fn op_pop(operators: &mut Vec<Token>, operands: &mut Vec<Expr>) -> (r: Result<
    (),
    &'static str,
>)
    ensures
        (r, Stacks { operators: token_views(final(operators)@), operands: final(operands)@ })
            == spec_op_pop(token_views(old(operators)@), old(operands)@),
{
    let ghost ops = operators@;
    let top = match operators.pop() {
        Some(op) => op,
        None => {
            return Err("mismatched Parentheses");
        },
    };
    proof {
        lemma_views_drop_last(ops);
    }
    let b = match operands.pop() {
        Some(expr) => expr,
        None => {
            return Err("malformed expression, not enough operands");
        },
    };
    let a = match operands.pop() {
        Some(expr) => expr,
        None => {
            return Err("malformed expression, not enough operands");
        },
    };
    match op_map(top, a, b) {
        Some(res) => {
            operands.push(res);
            Ok(())
        },
        None => Err("malformed expression, Invalid operator"),
    }
}

/// What a closing parenthesis does: reductions down to the nearest opening
/// parenthesis, which then leaves the operators. Without one the
/// parentheses do not match.
pub open spec fn spec_close(operators: Seq<TokenView>, operands: Seq<Expr>) -> Result<
    Stacks,
    &'static str,
>
    decreases operators.len(),
{
    if operators.len() == 0 {
        Err("mismatched Parentheses")
    } else if operators.last() == TokenView::Open {
        Ok(Stacks { operators: operators.drop_last(), operands })
    } else {
        match spec_op_pop(operators, operands) {
            (Ok(_), s) => spec_close(s.operators, s.operands),
            (Err(e), _) => Err(e),
        }
    }
}

/// What an incoming operator of precedence `prec` does first: reductions
/// while the top operator binds at least as tightly.
pub open spec fn spec_reduce_above(
    operators: Seq<TokenView>,
    operands: Seq<Expr>,
    prec: usize,
) -> Result<Stacks, &'static str>
    decreases operators.len(),
{
    if operators.len() == 0 || spec_precedence(operators.last()) < prec {
        Ok(Stacks { operators, operands })
    } else {
        match spec_op_pop(operators, operands) {
            (Ok(_), s) => spec_reduce_above(s.operators, s.operands, prec),
            (Err(e), _) => Err(e),
        }
    }
}

/// The operands once every operator that is left has been applied.
pub open spec fn spec_reduce_all(operators: Seq<TokenView>, operands: Seq<Expr>) -> Result<
    Seq<Expr>,
    &'static str,
>
    decreases operators.len(),
{
    if operators.len() == 0 {
        Ok(operands)
    } else {
        match spec_op_pop(operators, operands) {
            (Ok(_), s) => spec_reduce_all(s.operators, s.operands),
            (Err(e), _) => Err(e),
        }
    }
}

/// The stacks after the tokens of an expression have been taken from the
/// front of `q`, and what is left of `q`. The expression ends before the
/// first token that is no part of one. `forwards`, `backwards` and operands
/// go on the operand stack; an opening parenthesis goes on the operators;
/// a closing one reduces down to its partner; an operator first reduces
/// what binds at least as tightly, then goes on the operators.
pub open spec fn spec_shunt(q: Seq<TokenView>, operators: Seq<TokenView>, operands: Seq<Expr>) -> (
    Result<Stacks, &'static str>,
    Seq<TokenView>,
)
    decreases q.len(),
{
    if q.len() == 0 {
        (Ok(Stacks { operators, operands }), q)
    } else {
        let rest = q.skip(1);
        match spec_expr_type(q[0]) {
            ExprType::Neither => (Ok(Stacks { operators, operands }), q),
            ExprType::Terminal => match q[0] {
                TokenView::Backwards => spec_shunt(rest, operators, operands.push(Expr::Backwards)),
                TokenView::Forwards => spec_shunt(rest, operators, operands.push(Expr::Forwards)),
                TokenView::Close => match spec_close(operators, operands) {
                    Ok(s) => spec_shunt(rest, s.operators, s.operands),
                    Err(e) => (Err(e), rest),
                },
                _ => {
                    let (operand, after) = spec_parse_src(q);
                    match operand {
                        Ok(src) => {
                            proof {
                                lemma_parse_src_consumes(q);
                            }
                            spec_shunt(after, operators, operands.push(Expr::Lit(src)))
                        },
                        Err(e) => (Err(e), after),
                    }
                },
            },
            ExprType::NonTerminal => match q[0] {
                TokenView::Open => spec_shunt(rest, operators.push(TokenView::Open), operands),
                _ => match spec_reduce_above(operators, operands, spec_precedence(q[0])) {
                    Ok(s) => spec_shunt(rest, s.operators.push(q[0]), s.operands),
                    Err(e) => (Err(e), q),
                },
            },
        }
    }
}

/// A guard expression read from the front of `q`, and what is left of `q`:
/// the one operand that remains when the expression is shunted and every
/// operator applied. Any other number of operands is malformed.
pub open spec fn spec_parse_expr(q: Seq<TokenView>) -> (Result<Expr, &'static str>, Seq<TokenView>) {
    let (shunted, rest) = spec_shunt(q, Seq::empty(), Seq::empty());
    (
        match shunted {
            Err(e) => Err(e),
            Ok(s) => match spec_reduce_all(s.operators, s.operands) {
                Err(e) => Err(e),
                Ok(operands) => if operands.len() != 1 {
                    Err("malformed expression")
                } else {
                    Ok(operands[0])
                },
            },
        },
        rest,
    )
}

/// Reduces down to the nearest opening parenthesis and takes it off.
fn close_group(operators: &mut Vec<Token>, operands: &mut Vec<Expr>) -> (r: Result<
    (),
    &'static str,
>)
    ensures
        match spec_close(token_views(old(operators)@), old(operands)@) {
            Ok(s) => r == Ok::<(), &'static str>(()) && token_views(final(operators)@)
                == s.operators && final(operands)@ == s.operands,
            Err(e) => r == Err::<(), &'static str>(e),
        },
{
    let ghost goal = spec_close(token_views(operators@), operands@);
    loop
        invariant
            goal == spec_close(token_views(old(operators)@), old(operands)@),
            spec_close(token_views(operators@), operands@) == goal,
        decreases operators.len(),
    {
        if operators.len() == 0 {
            return Err("mismatched Parentheses");
        }
        proof {
            lemma_views_drop_last(operators@);
        }
        match operators[operators.len() - 1] {
            Token::Open => {
                operators.pop();
                return Ok(());
            },
            _ => {},
        }
        match op_pop(operators, operands) {
            Ok(_) => {},
            Err(e) => {
                return Err(e);
            },
        }
    }
}

/// Reduces while the top operator binds at least as tightly as `prec`.
fn reduce_above(operators: &mut Vec<Token>, operands: &mut Vec<Expr>, prec: usize) -> (r: Result<
    (),
    &'static str,
>)
    ensures
        match spec_reduce_above(token_views(old(operators)@), old(operands)@, prec) {
            Ok(s) => r == Ok::<(), &'static str>(()) && token_views(final(operators)@)
                == s.operators && final(operands)@ == s.operands,
            Err(e) => r == Err::<(), &'static str>(e),
        },
{
    let ghost goal = spec_reduce_above(token_views(operators@), operands@, prec);
    loop
        invariant
            goal == spec_reduce_above(token_views(old(operators)@), old(operands)@, prec),
            spec_reduce_above(token_views(operators@), operands@, prec) == goal,
        decreases operators.len(),
    {
        if operators.len() == 0 {
            return Ok(());
        }
        proof {
            lemma_views_drop_last(operators@);
        }
        if precedence(&operators[operators.len() - 1]) < prec {
            return Ok(());
        }
        match op_pop(operators, operands) {
            Ok(_) => {},
            Err(e) => {
                return Err(e);
            },
        }
    }
}

/// Applies every operator that is left.
fn reduce_all(operators: &mut Vec<Token>, operands: &mut Vec<Expr>) -> (r: Result<(), &'static str>)
    ensures
        match spec_reduce_all(token_views(old(operators)@), old(operands)@) {
            Ok(rest) => r == Ok::<(), &'static str>(()) && final(operands)@ == rest,
            Err(e) => r == Err::<(), &'static str>(e),
        },
{
    let ghost goal = spec_reduce_all(token_views(operators@), operands@);
    while operators.len() > 0
        invariant
            goal == spec_reduce_all(token_views(old(operators)@), old(operands)@),
            spec_reduce_all(token_views(operators@), operands@) == goal,
        decreases operators.len(),
    {
        match op_pop(operators, operands) {
            Ok(_) => {},
            Err(e) => {
                return Err(e);
            },
        }
    }
    Ok(())
}

/// Reads a guard expression from the front of the queue, up to the first
/// token that is no part of one.
pub fn parse_expr(q: &mut VecDeque<Token>) -> (r: Result<Expr, &'static str>)
    ensures
        (r, token_views(final(q)@)) == spec_parse_expr(token_views(old(q)@)),
{
    let mut operands: Vec<Expr> = Vec::new();
    let mut operators: Vec<Token> = Vec::new();
    let ghost goal = spec_shunt(token_views(q@), Seq::empty(), Seq::empty());
    assert(token_views(operators@) =~= Seq::<TokenView>::empty());
    loop
        invariant
            goal == spec_shunt(token_views(old(q)@), Seq::empty(), Seq::empty()),
            spec_shunt(token_views(q@), token_views(operators@), operands@) == goal,
        ensures
            goal == spec_shunt(token_views(old(q)@), Seq::empty(), Seq::empty()),
            goal == (
                Ok::<Stacks, &'static str>(
                    Stacks { operators: token_views(operators@), operands: operands@ },
                ),
                token_views(q@),
            ),
        decreases q.len(),
    {
        if q.len() == 0 {
            break ;
        }
        let ghost cur = q@;
        let ghost ops = operators@;
        proof {
            lemma_views_skip(cur, 1);
            lemma_parse_src_consumes(token_views(cur));
        }
        match expr_type(&q[0]) {
            ExprType::Neither => {
                break ;
            },
            ExprType::Terminal => {
                match q[0] {
                    Token::Backwards => {
                        q.pop_front();
                        operands.push(Expr::Backwards);
                    },
                    Token::Forwards => {
                        q.pop_front();
                        operands.push(Expr::Forwards);
                    },
                    Token::Close => {
                        q.pop_front();
                        match close_group(&mut operators, &mut operands) {
                            Ok(_) => {},
                            Err(e) => {
                                return Err(e);
                            },
                        }
                    },
                    _ => match parse_src(q) {
                        Ok(src) => {
                            operands.push(Expr::Lit(src));
                        },
                        Err(e) => {
                            return Err(e);
                        },
                    },
                }
            },
            ExprType::NonTerminal => {
                match q[0] {
                    Token::Open => {},
                    _ => {
                        let prec = precedence(&q[0]);
                        match reduce_above(&mut operators, &mut operands, prec) {
                            Ok(_) => {},
                            Err(e) => {
                                return Err(e);
                            },
                        }
                    },
                }
                let ghost reduced = operators@;
                match q.pop_front() {
                    Some(tok) => {
                        proof {
                            lemma_views_push(reduced, tok);
                        }
                        operators.push(tok);
                    },
                    None => {},
                }
            },
        }
    }
    match reduce_all(&mut operators, &mut operands) {
        Ok(_) => {},
        Err(e) => {
            return Err(e);
        },
    }
    if operands.len() != 1 {
        return Err("malformed expression");
    }
    match operands.pop() {
        Some(expr) => Ok(expr),
        None => Err("malformed expression"),
    }
}

/// What is left of `q` behind the discarded tokens at its front.
pub open spec fn skip_nops(q: Seq<TokenView>) -> Seq<TokenView>
    decreases q.len(),
{
    if q.len() > 0 && q[0] == TokenView::Nop {
        skip_nops(q.skip(1))
    } else {
        q
    }
}

/// The guard of a line read from the front of `q`, and what is left of
/// `q`. Discarded tokens are passed over. Then `if` brings an expression;
/// a line break or the end of the tokens means that there is no guard and
/// stays in the queue; anything else is an error.
pub open spec fn spec_parse_cond(q: Seq<TokenView>) -> (
    Result<Option<Expr>, &'static str>,
    Seq<TokenView>,
) {
    let q = skip_nops(q);
    if q.len() == 0 {
        (Ok(None), q)
    } else {
        match q[0] {
            TokenView::If => {
                let (guard, rest) = spec_parse_expr(q.skip(1));
                (
                    match guard {
                        Ok(e) => Ok(Some(e)),
                        Err(e) => Err(e),
                    },
                    rest,
                )
            },
            TokenView::Newlines(_) => (Ok(None), q),
            _ => (Err("Expected if condition or newline"), q),
        }
    }
}

/// Reads the guard of a line from the front of the queue.
pub fn parse_cond(q: &mut VecDeque<Token>) -> (r: Result<Option<Expr>, &'static str>)
    ensures
        (r, token_views(final(q)@)) == spec_parse_cond(token_views(old(q)@)),
{
    loop
        invariant
            skip_nops(token_views(q@)) == skip_nops(token_views(old(q)@)),
        ensures
            token_views(q@) == skip_nops(token_views(old(q)@)),
        decreases q.len(),
    {
        if q.len() == 0 {
            break ;
        }
        match q[0] {
            Token::Nop => {},
            _ => {
                break ;
            },
        }
        proof {
            lemma_views_skip(q@, 1);
        }
        q.pop_front();
    }
    if q.len() == 0 {
        return Ok(None);
    }
    proof {
        lemma_views_skip(q@, 1);
    }
    match q[0] {
        Token::If => {
            q.pop_front();
            match parse_expr(q) {
                Ok(expr) => Ok(Some(expr)),
                Err(e) => Err(e),
            }
        },
        Token::Newlines(_) => Ok(None),
        _ => Err("Expected if condition or newline"),
    }
}

/// Shunting the tokens of an expression leaves a tail of the queue.
pub proof fn lemma_shunt_consumes(q: Seq<TokenView>, operators: Seq<TokenView>, operands: Seq<Expr>)
    ensures
        spec_shunt(q, operators, operands).1.len() <= q.len(),
    decreases q.len(),
{
    if q.len() > 0 {
        let rest = q.skip(1);
        match spec_expr_type(q[0]) {
            ExprType::Neither => {},
            ExprType::Terminal => match q[0] {
                TokenView::Backwards => {
                    lemma_shunt_consumes(rest, operators, operands.push(Expr::Backwards));
                },
                TokenView::Forwards => {
                    lemma_shunt_consumes(rest, operators, operands.push(Expr::Forwards));
                },
                TokenView::Close => match spec_close(operators, operands) {
                    Ok(s) => {
                        lemma_shunt_consumes(rest, s.operators, s.operands);
                    },
                    Err(_) => {},
                },
                _ => {
                    lemma_parse_src_consumes(q);
                    let (operand, after) = spec_parse_src(q);
                    match operand {
                        Ok(src) => {
                            lemma_shunt_consumes(after, operators, operands.push(Expr::Lit(src)));
                        },
                        Err(_) => {},
                    }
                },
            },
            ExprType::NonTerminal => match q[0] {
                TokenView::Open => {
                    lemma_shunt_consumes(rest, operators.push(TokenView::Open), operands);
                },
                _ => match spec_reduce_above(operators, operands, spec_precedence(q[0])) {
                    Ok(s) => {
                        lemma_shunt_consumes(rest, s.operators.push(q[0]), s.operands);
                    },
                    Err(_) => {},
                },
            },
        }
    }
}

/// Passing over discarded tokens leaves a tail of the queue.
pub proof fn lemma_skip_nops(q: Seq<TokenView>)
    ensures
        skip_nops(q).len() <= q.len(),
    decreases q.len(),
{
    if q.len() > 0 && q[0] == TokenView::Nop {
        lemma_skip_nops(q.skip(1));
    }
}

/// Reading a guard leaves a tail of the queue.
pub proof fn lemma_parse_cond_consumes(q: Seq<TokenView>)
    ensures
        spec_parse_cond(q).1.len() <= q.len(),
{
    lemma_skip_nops(q);
    let q1 = skip_nops(q);
    if q1.len() > 0 {
        lemma_shunt_consumes(q1.skip(1), Seq::empty(), Seq::empty());
    }
}

/// The label at the front of a line, and what is left of `q` behind it.
/// An identifier opens a label and must be followed by the label marker;
/// a second label behind the first is refused. Any other token means that
/// the line has no label, and stays in the queue.
pub open spec fn spec_label(q: Seq<TokenView>) -> Result<
    (Option<Seq<char>>, Seq<TokenView>),
    &'static str,
> {
    if q.len() > 0 && q[0] is Identifier {
        if q.len() >= 2 && q[1] == TokenView::Label {
            let rest = q.skip(2);
            if rest.len() >= 2 && rest[0] is Identifier && rest[1] == TokenView::Label {
                Err("already labeled")
            } else {
                Ok((Some(q[0]->Identifier_0), rest))
            }
        } else {
            Err("malformed label")
        }
    } else {
        Ok((None, q))
    }
}

/// The line count after a run of `n` line breaks. It stops at the largest
/// number that fits.
pub open spec fn count_lines(lineno: usize, n: usize) -> usize {
    if lineno + n > usize::MAX {
        usize::MAX
    } else {
        (lineno + n) as usize
    }
}

/// The lines of a program, read from `q` and put behind `lines`, or the
/// first error with the number of the line it is on. `lineno` is the number
/// of the line at the front of `q`. Discarded tokens between lines are
/// passed over, and each run of line breaks adds its length to the line
/// number. A line is an optional label, an instruction and an optional
/// guard, and starts with an empty call stack.
pub open spec fn spec_parse_lines(q: Seq<TokenView>, lineno: usize, lines: Seq<LineView>) -> Result<
    Seq<LineView>,
    (usize, &'static str),
>
    decreases q.len(),
{
    if q.len() == 0 {
        Ok(lines)
    } else {
        match q[0] {
            TokenView::Nop => spec_parse_lines(q.skip(1), lineno, lines),
            TokenView::Newlines(n) => spec_parse_lines(q.skip(1), count_lines(lineno, n), lines),
            _ => match spec_label(q) {
                Err(e) => Err((lineno, e)),
                Ok((label, q1)) => {
                    let (inst, q2) = spec_parse_inst(q1);
                    match inst {
                        Err(e) => Err((lineno, e)),
                        Ok(inst) => {
                            let (cond, q3) = spec_parse_cond(q2);
                            match cond {
                                Err(e) => Err((lineno, e)),
                                Ok(cond) => {
                                    proof {
                                        lemma_parse_inst_consumes(q1);
                                        lemma_parse_cond_consumes(q2);
                                    }
                                    spec_parse_lines(
                                        q3,
                                        lineno,
                                        lines.push(
                                            LineView { label, inst, cond, stack: Seq::empty() },
                                        ),
                                    )
                                },
                            }
                        },
                    }
                },
            },
        }
    }
}

/// The program that a sequence of tokens spells, or the first error with
/// the number of the line it is on. Lines are counted from 1.
pub open spec fn spec_parse(tokens: Seq<TokenView>) -> Result<Seq<LineView>, (usize, &'static str)> {
    spec_parse_lines(tokens, 1, Seq::empty())
}

/// The tokens as a queue, first token at the front.
fn into_queue(tokens: Vec<Token>) -> (q: VecDeque<Token>)
    ensures
        q@ == tokens@,
{
    let mut tokens = tokens;
    let mut q: VecDeque<Token> = VecDeque::new();
    let ghost all = tokens@;
    while tokens.len() > 0
        invariant
            tokens@ + q@ == all,
        decreases tokens.len(),
    {
        let ghost before = tokens@;
        let ghost tail = q@;
        match tokens.pop() {
            Some(tok) => {
                q.push_front(tok);
                assert(tokens@ + q@ =~= before + tail);
            },
            None => {},
        }
    }
    assert(tokens@ + q@ =~= q@);
    q
}

/// Whether an identifier and the label marker stand at the front of `q`.
fn label_ahead(q: &VecDeque<Token>) -> (r: bool)
    ensures
        r == ({
            let v = token_views(q@);
            v.len() >= 2 && v[0] is Identifier && v[1] == TokenView::Label
        }),
{
    if q.len() < 2 {
        return false;
    }
    match q[0] {
        Token::Identifier(_) => {},
        _ => {
            return false;
        },
    }
    match q[1] {
        Token::Label => true,
        _ => false,
    }
}

/// Parses the tokens of a program into its lines. Stops at the first
/// malformed line, with its number and what is wrong with it.
pub fn parse(tokens: Vec<Token>) -> (r: Result<Vec<Line>, (usize, &'static str)>)
    ensures
        match spec_parse(token_views(tokens@)) {
            Ok(lines) => r matches Ok(program) && line_views(program@) == lines,
            Err(e) => r == Err::<Vec<Line>, (usize, &'static str)>(e),
        },
{
    let ghost goal = spec_parse(token_views(tokens@));
    let mut q = into_queue(tokens);
    let mut lines: Vec<Line> = Vec::new();
    let mut lineno: usize = 1;
    assert(line_views(lines@) =~= Seq::<LineView>::empty());
    loop
        invariant
            goal == spec_parse(token_views(tokens@)),
            spec_parse_lines(token_views(q@), lineno, line_views(lines@)) == goal,
        ensures
            goal == spec_parse(token_views(tokens@)),
            goal == Ok::<Seq<LineView>, (usize, &'static str)>(line_views(lines@)),
        decreases q.len(),
    {
        if q.len() == 0 {
            break ;
        }
        let ghost cur = q@;
        let ghost done = lines@;
        proof {
            lemma_views_skip(cur, 1);
            if cur.len() >= 2 {
                lemma_views_skip(cur, 2);
            }
        }
        let mut blank = false;
        match q[0] {
            Token::Nop => {
                blank = true;
            },
            Token::Newlines(n) => {
                lineno = lineno.saturating_add(n);
                blank = true;
            },
            _ => {},
        }
        if blank {
            q.pop_front();
        } else {
            let labelled = label_ahead(&q);
            let mut label: Option<String> = None;
            if labelled {
                match q.pop_front() {
                    Some(Token::Identifier(ident)) => {
                        label = Some(ident);
                    },
                    _ => {},
                }
                q.pop_front();
                assert(q@ =~= cur.subrange(2, cur.len() as int));
                if label_ahead(&q) {
                    return Err((lineno, "already labeled"));
                }
            } else {
                match q[0] {
                    Token::Identifier(_) => {
                        return Err((lineno, "malformed label"));
                    },
                    _ => {},
                }
            }
            proof {
                lemma_parse_inst_consumes(token_views(q@));
            }
            let inst = match parse_inst(&mut q) {
                Ok(inst) => inst,
                Err(e) => {
                    return Err((lineno, e));
                },
            };
            proof {
                lemma_parse_cond_consumes(token_views(q@));
            }
            let cond = match parse_cond(&mut q) {
                Ok(cond) => cond,
                Err(e) => {
                    return Err((lineno, e));
                },
            };
            let line = Line { label, inst, cond, stack: Vec::new() };
            assert(line_views(done.push(line)) =~= line_views(done).push(line@));
            lines.push(line);
        }
    }
    Ok(lines)
}

} // verus!
