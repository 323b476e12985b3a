use moonwalk::ast::{Dest, Expr, Instruction, Line, Register, Source, Token};
use moonwalk::lex::lex;
use moonwalk::parse::{
    expr_type, op_map, op_pop, parse, parse_cond, parse_expr, parse_inst, parse_reg, parse_src,
    pop_if_ident, precedence, src2dest, ExprType,
};
use std::collections::VecDeque;

fn queue(source: &str) -> VecDeque<Token> {
    VecDeque::from(lex(source.to_string()).unwrap())
}

fn program(source: &str) -> Result<Vec<Line>, (usize, &'static str)> {
    parse(lex(source.to_string()).unwrap())
}

fn lit(s: Source) -> Box<Expr> {
    Box::new(Expr::Lit(s))
}

fn reg_is_one(r: Register) -> Expr {
    Expr::Eq(lit(Source::Reg(r)), lit(Source::Addr(1)))
}

fn plain(inst: Instruction) -> Line {
    Line { label: None, inst, cond: None, stack: vec![] }
}

#[test]
fn parse_reg_capital_letters_only() {
    assert_eq!(parse_reg("A"), Some(Register::A));
    assert_eq!(parse_reg("B"), Some(Register::B));
    assert_eq!(parse_reg("C"), Some(Register::C));
    assert_eq!(parse_reg("D"), Some(Register::D));
    assert_eq!(parse_reg("a"), None);
    assert_eq!(parse_reg("AB"), None);
    assert_eq!(parse_reg(""), None);
}

#[test]
fn parse_src_register_address_literal() {
    assert_eq!(parse_src(&mut queue("A")), Ok(Source::Reg(Register::A)));
    assert_eq!(parse_src(&mut queue("17")), Ok(Source::Addr(17)));
    assert_eq!(parse_src(&mut queue("$17")), Ok(Source::Literal(17)));
}

#[test]
fn parse_src_identifier_token_names_register() {
    let mut q = VecDeque::from(vec![Token::Identifier("C".to_string())]);
    assert_eq!(parse_src(&mut q), Ok(Source::Reg(Register::C)));
    let mut q = VecDeque::from(vec![Token::Identifier("x".to_string()), Token::Halt]);
    assert_eq!(parse_src(&mut q), Err("invalid register"));
    assert_eq!(q, VecDeque::from(vec![Token::Halt]));
}

#[test]
fn parse_src_each_marker_wraps_once() {
    assert_eq!(
        parse_src(&mut queue("**5")),
        Ok(Source::Deref(Box::new(Source::Deref(Box::new(Source::Addr(5))))))
    );
    assert_eq!(
        parse_src(&mut queue("*B")),
        Ok(Source::Deref(Box::new(Source::Reg(Register::B))))
    );
}

#[test]
fn parse_src_leaves_the_rest() {
    let mut q = queue("*A $3 halt");
    assert_eq!(parse_src(&mut q), Ok(Source::Deref(Box::new(Source::Reg(Register::A)))));
    assert_eq!(q, VecDeque::from(vec![Token::Literal, Token::Num(3), Token::Halt]));
}

#[test]
fn parse_src_errors() {
    assert_eq!(parse_src(&mut queue("")), Err("unexpected end of program"));
    assert_eq!(parse_src(&mut queue("**")), Err("unexpected end of program"));
    assert_eq!(parse_src(&mut queue("$")), Err("unexpected end of program"));
    assert_eq!(parse_src(&mut queue("$A")), Err("expected number after $"));
    assert_eq!(parse_src(&mut queue("halt")), Err("invalid source or destination"));
    assert_eq!(parse_src(&mut queue("loop")), Err("invalid register"));
}

#[test]
fn src2dest_keeps_the_shape() {
    assert_eq!(src2dest(Source::Reg(Register::D)), Ok(Dest::Reg(Register::D)));
    assert_eq!(src2dest(Source::Addr(9)), Ok(Dest::Addr(9)));
    assert_eq!(
        src2dest(Source::Deref(Box::new(Source::Deref(Box::new(Source::Addr(9)))))),
        Ok(Dest::Deref(Box::new(Dest::Deref(Box::new(Dest::Addr(9))))))
    );
}

#[test]
fn src2dest_refuses_literals() {
    assert_eq!(src2dest(Source::Literal(1)), Err("Destination Can't Be Literal"));
    assert_eq!(
        src2dest(Source::Deref(Box::new(Source::Literal(1)))),
        Err("Destination Can't Be Literal")
    );
}

#[test]
fn pop_if_ident_takes_identifiers_only() {
    let mut q = queue("loop halt");
    assert_eq!(pop_if_ident(&mut q), Some("loop".to_string()));
    assert_eq!(q, VecDeque::from(vec![Token::Halt]));
    assert_eq!(pop_if_ident(&mut q), None);
    assert_eq!(q, VecDeque::from(vec![Token::Halt]));
    assert_eq!(pop_if_ident(&mut VecDeque::new()), None);
}

#[test]
fn parse_inst_nullary() {
    assert_eq!(parse_inst(&mut queue("halt")), Ok(Instruction::Halt));
    assert_eq!(parse_inst(&mut queue("backwards")), Ok(Instruction::Backwards));
    assert_eq!(parse_inst(&mut queue("forwards")), Ok(Instruction::Forwards));
    assert_eq!(parse_inst(&mut queue("reverse")), Ok(Instruction::Reverse));
}

#[test]
fn parse_inst_jump_and_from() {
    assert_eq!(
        parse_inst(&mut queue("jump loop")),
        Ok(Instruction::Jump(Some("loop".to_string())))
    );
    assert_eq!(parse_inst(&mut queue("jump")), Ok(Instruction::Jump(None)));
    assert_eq!(parse_inst(&mut queue("jump\n")), Ok(Instruction::Jump(None)));
    assert_eq!(
        parse_inst(&mut queue("from loop")),
        Ok(Instruction::From(Some("loop".to_string())))
    );
    assert_eq!(parse_inst(&mut queue("from if forwards")), Ok(Instruction::From(None)));
}

#[test]
fn parse_inst_inc_and_io() {
    assert_eq!(
        parse_inst(&mut queue("inc A $1")),
        Ok(Instruction::Inc(Dest::Reg(Register::A), Source::Literal(1)))
    );
    assert_eq!(
        parse_inst(&mut queue("inc *7 B")),
        Ok(Instruction::Inc(Dest::Deref(Box::new(Dest::Addr(7))), Source::Reg(Register::B)))
    );
    assert_eq!(parse_inst(&mut queue("io $65")), Ok(Instruction::Io(Source::Literal(65))));
}

#[test]
fn parse_inst_errors() {
    assert_eq!(parse_inst(&mut queue("")), Err("unexpected end of program"));
    assert_eq!(parse_inst(&mut queue("17")), Err("Not an Instruction"));
    assert_eq!(parse_inst(&mut queue("inc $1 A")), Err("Destination Can't Be Literal"));
    assert_eq!(parse_inst(&mut queue("inc A")), Err("unexpected end of program"));
    assert_eq!(parse_inst(&mut queue("inc")), Err("unexpected end of program"));
    assert_eq!(parse_inst(&mut queue("io halt")), Err("invalid source or destination"));
}

#[test]
fn expr_type_of_tokens() {
    assert_eq!(expr_type(&Token::Identifier("x".to_string())), ExprType::Terminal);
    assert_eq!(expr_type(&Token::Reg(Register::A)), ExprType::Terminal);
    assert_eq!(expr_type(&Token::Num(1)), ExprType::Terminal);
    assert_eq!(expr_type(&Token::Literal), ExprType::Terminal);
    assert_eq!(expr_type(&Token::Deref), ExprType::Terminal);
    assert_eq!(expr_type(&Token::Close), ExprType::Terminal);
    assert_eq!(expr_type(&Token::Forwards), ExprType::Terminal);
    assert_eq!(expr_type(&Token::Backwards), ExprType::Terminal);
    assert_eq!(expr_type(&Token::Open), ExprType::NonTerminal);
    assert_eq!(expr_type(&Token::And), ExprType::NonTerminal);
    assert_eq!(expr_type(&Token::Lte), ExprType::NonTerminal);
    assert_eq!(expr_type(&Token::Newlines(1)), ExprType::Neither);
    assert_eq!(expr_type(&Token::Nop), ExprType::Neither);
    assert_eq!(expr_type(&Token::Halt), ExprType::Neither);
    assert_eq!(expr_type(&Token::If), ExprType::Neither);
}

#[test]
fn precedence_orders_operators() {
    assert_eq!(precedence(&Token::Open), 0);
    assert_eq!(precedence(&Token::Or), 1);
    assert_eq!(precedence(&Token::And), 2);
    assert_eq!(precedence(&Token::Eq), 3);
    assert_eq!(precedence(&Token::Lt), 3);
    assert_eq!(precedence(&Token::Lte), 3);
    assert_eq!(precedence(&Token::Gt), 3);
    assert_eq!(precedence(&Token::Gte), 3);
    assert_eq!(precedence(&Token::Halt), 5);
}

#[test]
fn op_map_builds_binary_nodes() {
    assert_eq!(
        op_map(Token::And, Expr::Forwards, Expr::Backwards),
        Some(Expr::And(Box::new(Expr::Forwards), Box::new(Expr::Backwards)))
    );
    assert_eq!(
        op_map(Token::Gte, Expr::Forwards, Expr::Backwards),
        Some(Expr::Gte(Box::new(Expr::Forwards), Box::new(Expr::Backwards)))
    );
    assert_eq!(op_map(Token::Open, Expr::Forwards, Expr::Backwards), None);
    assert_eq!(op_map(Token::Halt, Expr::Forwards, Expr::Backwards), None);
}

#[test]
fn op_pop_reduces_once() {
    let mut operators = vec![Token::Or, Token::And];
    let mut operands = vec![Expr::Forwards, Expr::Backwards, Expr::Forwards];
    assert_eq!(op_pop(&mut operators, &mut operands), Ok(()));
    assert_eq!(operators, vec![Token::Or]);
    assert_eq!(
        operands,
        vec![Expr::Forwards, Expr::And(Box::new(Expr::Backwards), Box::new(Expr::Forwards))]
    );
}

#[test]
fn op_pop_errors() {
    let mut operands = vec![Expr::Forwards, Expr::Backwards];
    assert_eq!(op_pop(&mut vec![], &mut operands), Err("mismatched Parentheses"));
    assert_eq!(operands.len(), 2);
    assert_eq!(
        op_pop(&mut vec![Token::And], &mut vec![]),
        Err("malformed expression, not enough operands")
    );
    assert_eq!(
        op_pop(&mut vec![Token::And], &mut vec![Expr::Forwards]),
        Err("malformed expression, not enough operands")
    );
    let mut operators = vec![Token::Open];
    assert_eq!(
        op_pop(&mut operators, &mut operands),
        Err("malformed expression, Invalid operator")
    );
    assert_eq!(operators, vec![]);
    assert_eq!(operands, vec![]);
}

#[test]
fn parse_expr_and_binds_tighter_than_or() {
    let mut q = queue("a=1 or b=1 and c=1");
    let want = Expr::Or(
        Box::new(reg_is_one(Register::A)),
        Box::new(Expr::And(
            Box::new(reg_is_one(Register::B)),
            Box::new(reg_is_one(Register::C)),
        )),
    );
    assert_eq!(parse_expr(&mut q), Ok(want));
    assert!(q.is_empty());
}

#[test]
fn parse_expr_and_before_or_on_the_left() {
    let want = Expr::Or(
        Box::new(Expr::And(
            Box::new(reg_is_one(Register::A)),
            Box::new(reg_is_one(Register::B)),
        )),
        Box::new(reg_is_one(Register::C)),
    );
    assert_eq!(parse_expr(&mut queue("a=1 and b=1 or c=1")), Ok(want));
}

#[test]
fn parse_expr_equal_precedence_groups_left() {
    let want = Expr::Or(
        Box::new(Expr::Or(Box::new(Expr::Forwards), Box::new(Expr::Backwards))),
        lit(Source::Reg(Register::A)),
    );
    assert_eq!(parse_expr(&mut queue("forwards or backwards or A")), Ok(want));
    let want = Expr::Lt(
        Box::new(Expr::Eq(lit(Source::Addr(1)), lit(Source::Addr(2)))),
        lit(Source::Addr(3)),
    );
    assert_eq!(parse_expr(&mut queue("1 = 2 < 3")), Ok(want));
}

#[test]
fn parse_expr_parentheses_group() {
    let want = Expr::And(
        Box::new(Expr::Or(lit(Source::Reg(Register::A)), lit(Source::Reg(Register::B)))),
        lit(Source::Reg(Register::C)),
    );
    assert_eq!(parse_expr(&mut queue("(A or B) and C")), Ok(want));
    assert_eq!(parse_expr(&mut queue("((forwards))")), Ok(Expr::Forwards));
}

#[test]
fn parse_expr_operands() {
    assert_eq!(parse_expr(&mut queue("forwards")), Ok(Expr::Forwards));
    assert_eq!(parse_expr(&mut queue("backwards")), Ok(Expr::Backwards));
    assert_eq!(parse_expr(&mut queue("$0")), Ok(Expr::Lit(Source::Literal(0))));
    assert_eq!(
        parse_expr(&mut queue("*3 >= $2")),
        Ok(Expr::Gte(
            lit(Source::Deref(Box::new(Source::Addr(3)))),
            lit(Source::Literal(2))
        ))
    );
}

#[test]
fn parse_expr_stops_before_what_is_no_expression() {
    let mut q = queue("forwards and A\nhalt");
    assert_eq!(
        parse_expr(&mut q),
        Ok(Expr::And(Box::new(Expr::Forwards), lit(Source::Reg(Register::A))))
    );
    assert_eq!(q, VecDeque::from(vec![Token::Newlines(1), Token::Halt]));
}

#[test]
fn parse_expr_errors() {
    assert_eq!(parse_expr(&mut queue("A)")), Err("mismatched Parentheses"));
    assert_eq!(parse_expr(&mut queue(")")), Err("mismatched Parentheses"));
    assert_eq!(parse_expr(&mut queue("A and")), Err("malformed expression, not enough operands"));
    assert_eq!(parse_expr(&mut queue("(A")), Err("malformed expression, not enough operands"));
    assert_eq!(parse_expr(&mut queue("A (B")), Err("malformed expression, Invalid operator"));
    assert_eq!(parse_expr(&mut queue("A B")), Err("malformed expression"));
    assert_eq!(parse_expr(&mut queue("")), Err("malformed expression"));
    assert_eq!(parse_expr(&mut queue("A and $x")), Err("expected number after $"));
    assert_eq!(parse_expr(&mut queue("loop")), Err("invalid register"));
}

#[test]
fn parse_cond_guard_or_none() {
    assert_eq!(parse_cond(&mut queue("if backwards")), Ok(Some(Expr::Backwards)));
    assert_eq!(parse_cond(&mut queue("")), Ok(None));
    let mut q = queue("\nhalt");
    assert_eq!(parse_cond(&mut q), Ok(None));
    assert_eq!(q, VecDeque::from(vec![Token::Newlines(1), Token::Halt]));
}

#[test]
fn parse_cond_passes_over_discarded_tokens() {
    let mut q = queue("; note\nhalt");
    assert_eq!(parse_cond(&mut q), Ok(None));
    assert_eq!(q, VecDeque::from(vec![Token::Newlines(1), Token::Halt]));
    assert_eq!(parse_cond(&mut queue("\tif forwards")), Ok(Some(Expr::Forwards)));
}

#[test]
fn parse_cond_errors() {
    assert_eq!(parse_cond(&mut queue("halt")), Err("Expected if condition or newline"));
    assert_eq!(parse_cond(&mut queue("if")), Err("malformed expression"));
    assert_eq!(parse_cond(&mut queue("if )")), Err("mismatched Parentheses"));
}

#[test]
fn parse_program_lines() {
    let lines = program("forwards\nio $65 if forwards\nbackwards\nhalt\n").unwrap();
    assert_eq!(
        lines,
        vec![
            plain(Instruction::Forwards),
            Line {
                label: None,
                inst: Instruction::Io(Source::Literal(65)),
                cond: Some(Expr::Forwards),
                stack: vec![],
            },
            plain(Instruction::Backwards),
            plain(Instruction::Halt),
        ]
    );
}

#[test]
fn parse_guarded_inc() {
    let lines = program("inc A $1 if backwards\n").unwrap();
    assert_eq!(
        lines,
        vec![Line {
            label: None,
            inst: Instruction::Inc(Dest::Reg(Register::A), Source::Literal(1)),
            cond: Some(Expr::Backwards),
            stack: vec![],
        }]
    );
}

#[test]
fn parse_precedence_in_a_line() {
    let lines = program("halt if a=1 or b=1 and c=1\n").unwrap();
    assert_eq!(lines.len(), 1);
    assert_eq!(
        lines[0].cond,
        Some(Expr::Or(
            Box::new(reg_is_one(Register::A)),
            Box::new(Expr::And(
                Box::new(reg_is_one(Register::B)),
                Box::new(reg_is_one(Register::C)),
            )),
        ))
    );
}

#[test]
fn parse_labels() {
    let lines = program("start: from\njump start\n").unwrap();
    assert_eq!(
        lines,
        vec![
            Line {
                label: Some("start".to_string()),
                inst: Instruction::From(None),
                cond: None,
                stack: vec![],
            },
            plain(Instruction::Jump(Some("start".to_string()))),
        ]
    );
}

#[test]
fn parse_blank_lines_and_comments() {
    let lines = program("; a program\n\n\nhalt ; the end\n\n").unwrap();
    assert_eq!(lines, vec![plain(Instruction::Halt)]);
    assert_eq!(program(""), Ok(vec![]));
    assert_eq!(program("\n\n"), Ok(vec![]));
}

#[test]
fn parse_last_line_without_line_break() {
    assert_eq!(program("halt"), Ok(vec![plain(Instruction::Halt)]));
    assert_eq!(
        program("halt if forwards"),
        Ok(vec![Line {
            label: None,
            inst: Instruction::Halt,
            cond: Some(Expr::Forwards),
            stack: vec![],
        }])
    );
}

#[test]
fn parse_error_carries_line_number() {
    assert_eq!(program("17\n"), Err((1, "Not an Instruction")));
    assert_eq!(program("halt\nhalt\n17\n"), Err((3, "Not an Instruction")));
    assert_eq!(program("halt\n\n\n\ninc $1 A\n"), Err((5, "Destination Can't Be Literal")));
    assert_eq!(program("; note\nhalt halt\n"), Err((2, "Expected if condition or newline")));
}

#[test]
fn parse_label_errors() {
    assert_eq!(program("loop halt\n"), Err((1, "malformed label")));
    assert_eq!(program("halt\nloop"), Err((2, "malformed label")));
    assert_eq!(program("one: two: halt\n"), Err((1, "already labeled")));
    assert_eq!(program("loop:\nhalt\n"), Err((1, "Not an Instruction")));
    assert_eq!(program("loop:"), Err((1, "unexpected end of program")));
}

#[test]
fn parse_expression_errors_in_a_line() {
    assert_eq!(program("halt if (A\n"), Err((1, "malformed expression, not enough operands")));
    assert_eq!(program("halt\nhalt if A)\n"), Err((2, "mismatched Parentheses")));
    assert_eq!(program("halt if\n"), Err((1, "malformed expression")));
    assert_eq!(program("io $\n"), Err((1, "expected number after $")));
    assert_eq!(program("io loop\n"), Err((1, "invalid register")));
}

#[test]
fn parse_line_count_stops_at_the_largest_number() {
    let tokens = vec![Token::Newlines(usize::MAX), Token::Newlines(5), Token::Num(1)];
    assert_eq!(parse(tokens), Err((usize::MAX, "Not an Instruction")));
}
