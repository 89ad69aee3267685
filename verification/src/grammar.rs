//! The grammar as mathematics: a mirror of the whole recursive descent,
//! from parser states to trees. `spec_parse_program` plays the same role
//! for the parser that `spec_read` plays for the lexer and `eval_prog_s`
//! for the evaluator: every parsing method is proved to agree with it.
//!
//! Recursion here terminates by the same progress measure the executable
//! parser carries (`pm_s`, unread characters plus buffered non-end-of-file
//! tokens). Wherever a recursive call's state comes out of another
//! production, the definition first checks that the measure made progress;
//! a state that had not would end in the `Stalled` arm. The verified
//! parser's contracts prove that arm is never reached on its runs.

use vstd::prelude::*;

use crate::ast::{ExprModel, Operator, ProgramModel, StmtModel};
use crate::error::ErrorModel;
use crate::expression::{int_literal_val, spec_level, spec_order_of_operation};
use crate::lexer::{bounds_ok, lex_ch, spec_read, LexModel};
use crate::parser::token_weight;
use crate::token::{TokenModel, TokenType};

verus! {

/// The mathematical state of the parser: the lexer and the two buffered
/// tokens.
pub struct PState {
    pub lexer: LexModel,
    pub cur: TokenModel,
    pub peek: TokenModel,
}

/// The outcome of one production: a parsed piece with the state after it,
/// a failure, or the never-reached arm of the progress guards.
pub enum POut<T> {
    Parsed(T, PState),
    Failed(ErrorModel),
    Stalled,
}

/// The parser-state mirror of `Parser::wf`.
pub open spec fn pwf(st: PState) -> bool {
    &&& bounds_ok(st.lexer)
    &&& (st.peek.token_type == TokenType::EndOfFile ==> lex_ch(st.lexer) == '\0')
    &&& (st.cur.token_type == TokenType::EndOfFile ==> st.peek.token_type
        == TokenType::EndOfFile)
}

/// The parser-state mirror of `pmeasure`.
pub open spec fn pm_s(st: PState) -> int {
    (st.lexer.input.len() - st.lexer.position) + token_weight(st.cur) + token_weight(st.peek)
}

/// One shift of the lookahead: the current token is dropped, the peeked one
/// takes its place, and one more token is pulled. A lex-time failure leaves
/// the buffered tokens as they were.
pub open spec fn pstep(st: PState) -> (Result<(), ErrorModel>, PState) {
    let step = spec_read(st.lexer);
    match step.0 {
        Ok(t) => (Ok(()), PState { lexer: step.1, cur: st.peek, peek: t }),
        Err(e) => (Err(e), PState { lexer: step.1, cur: st.cur, peek: st.peek }),
    }
}

/// Demanding one token kind: a mismatch fails with the offending token and
/// leaves the state untouched; a match consumes it.
pub open spec fn pexpect(st: PState, token_type: TokenType) -> (Result<(), ErrorModel>, PState) {
    if st.cur.token_type != token_type {
        (Err(ErrorModel::InvalidTokenError(st.cur)), st)
    } else {
        pstep(st)
    }
}

/// One shift keeps the state well formed and never grows the measure; with
/// the current token not end-of-file a successful shift strictly shrinks
/// it.
pub proof fn lemma_pstep(st: PState)
    ensures
        pwf(st) ==> pwf(pstep(st).1),
        pwf(st) ==> 0 <= pm_s(pstep(st).1) <= pm_s(st),
        pwf(st) && pstep(st).0 is Ok && st.cur.token_type != TokenType::EndOfFile ==> pm_s(
            pstep(st).1,
        ) < pm_s(st),
        pwf(st) ==> 0 <= pm_s(st),
{
    if pwf(st) {
        crate::lexer::lemma_read_progress(st.lexer);
    }
}

/// As `lemma_pstep`, for a demanded token: meeting a demanded kind other
/// than end-of-file strictly shrinks the measure.
pub proof fn lemma_pexpect(st: PState, token_type: TokenType)
    ensures
        pwf(st) ==> pwf(pexpect(st, token_type).1),
        pwf(st) ==> 0 <= pm_s(pexpect(st, token_type).1) <= pm_s(st),
        pwf(st) && pexpect(st, token_type).0 is Ok && token_type != TokenType::EndOfFile
            ==> pm_s(pexpect(st, token_type).1) < pm_s(st),
{
    lemma_pstep(st);
}

/// Semicolons between statements are consumed greedily.
pub open spec fn spec_skip_semicolon(st: PState) -> POut<()>
    decreases pm_s(st), 1int
        when pwf(st)
        via spec_skip_semicolon_decreases
{
    if st.cur.token_type == TokenType::Semicolon {
        let step = pstep(st);
        match step.0 {
            Ok(u) => spec_skip_semicolon(step.1),
            Err(e) => POut::Failed(e),
        }
    } else {
        POut::Parsed((), st)
    }
}

#[via_fn]
proof fn spec_skip_semicolon_decreases(st: PState) {
    lemma_pstep(st);
}

/// Statements until end-of-file or a block-terminating `}`, which is left
/// unconsumed for the caller.
pub open spec fn spec_parse_program(st: PState) -> POut<ProgramModel>
    decreases pm_s(st), 7int
        when pwf(st)
        via spec_parse_program_decreases
{
    if st.cur.token_type == TokenType::EndOfFile || st.cur.token_type == TokenType::RightBrace {
        POut::Parsed(ProgramModel { statements: Seq::empty() }, st)
    } else {
        match spec_parse_statement(st) {
            POut::Parsed(s, st1) => {
                if pwf(st1) && pm_s(st1) <= pm_s(st) {
                    match spec_skip_semicolon(st1) {
                        POut::Parsed(u, st2) => {
                            if pwf(st2) && pm_s(st2) < pm_s(st) {
                                match spec_parse_program(st2) {
                                    POut::Parsed(rest, st3) => POut::Parsed(
                                        ProgramModel {
                                            statements: seq![s] + rest.statements,
                                        },
                                        st3,
                                    ),
                                    POut::Failed(e) => POut::Failed(e),
                                    POut::Stalled => POut::Stalled,
                                }
                            } else {
                                POut::Stalled
                            }
                        },
                        POut::Failed(e) => POut::Failed(e),
                        POut::Stalled => POut::Stalled,
                    }
                } else {
                    POut::Stalled
                }
            },
            POut::Failed(e) => POut::Failed(e),
            POut::Stalled => POut::Stalled,
        }
    }
}

#[via_fn]
proof fn spec_parse_program_decreases(st: PState) {
}

/// Statement dispatch: `let`, `return` and `if` own productions; anything
/// else is an expression statement.
pub open spec fn spec_parse_statement(st: PState) -> POut<StmtModel>
    decreases pm_s(st), 6int
        when pwf(st)
        via spec_parse_statement_decreases
{
    if st.cur.token_type == TokenType::Let {
        spec_parse_let(st)
    } else if st.cur.token_type == TokenType::Return {
        spec_parse_return(st)
    } else if st.cur.token_type == TokenType::If {
        spec_parse_if(st)
    } else {
        spec_parse_expression(st)
    }
}

#[via_fn]
proof fn spec_parse_statement_decreases(st: PState) {
}

/// `let <name> = <expression>`: the name is whatever token follows `let`;
/// only the `=` is demanded.
pub open spec fn spec_parse_let(st: PState) -> POut<StmtModel>
    decreases pm_s(st), 5int
        when pwf(st)
        via spec_parse_let_decreases
{
    let s1 = pstep(st);
    match s1.0 {
        Err(e) => POut::Failed(e),
        Ok(u1) => {
            let name = s1.1.cur.literal;
            let s2 = pstep(s1.1);
            match s2.0 {
                Err(e) => POut::Failed(e),
                Ok(u2) => {
                    let s3 = pexpect(s2.1, TokenType::Assign);
                    match s3.0 {
                        Err(e) => POut::Failed(e),
                        Ok(u3) => match spec_parse_expression_node(
                            s3.1,
                            crate::expression::OrderOfOps::Lowest,
                        ) {
                            POut::Parsed(e, st4) => {
                                let s5 = pstep(st4);
                                match s5.0 {
                                    Err(er) => POut::Failed(er),
                                    Ok(u5) => POut::Parsed(StmtModel::Let(name, e), s5.1),
                                }
                            },
                            POut::Failed(e) => POut::Failed(e),
                            POut::Stalled => POut::Stalled,
                        },
                    }
                },
            }
        },
    }
}

#[via_fn]
proof fn spec_parse_let_decreases(st: PState) {
    lemma_pstep(st);
    lemma_pstep(pstep(st).1);
    lemma_pexpect(pstep(pstep(st).1).1, TokenType::Assign);
}

/// `return <expression>`.
pub open spec fn spec_parse_return(st: PState) -> POut<StmtModel>
    decreases pm_s(st), 5int
        when pwf(st)
        via spec_parse_return_decreases
{
    let s1 = pstep(st);
    match s1.0 {
        Err(e) => POut::Failed(e),
        Ok(u1) => match spec_parse_expression_node(s1.1, crate::expression::OrderOfOps::Lowest) {
            POut::Parsed(e, st2) => {
                let s3 = pstep(st2);
                match s3.0 {
                    Err(er) => POut::Failed(er),
                    Ok(u3) => POut::Parsed(StmtModel::Return(e), s3.1),
                }
            },
            POut::Failed(e) => POut::Failed(e),
            POut::Stalled => POut::Stalled,
        },
    }
}

#[via_fn]
proof fn spec_parse_return_decreases(st: PState) {
    lemma_pstep(st);
}

/// `if ( <condition> ) { <consequence> }`, optionally `else { <alternative> }`.
pub open spec fn spec_parse_if(st: PState) -> POut<StmtModel>
    decreases pm_s(st), 5int
        when pwf(st)
        via spec_parse_if_decreases
{
    let s1 = pstep(st);
    match s1.0 {
        Err(e) => POut::Failed(e),
        Ok(u1) => {
            let s2 = pexpect(s1.1, TokenType::LeftParen);
            match s2.0 {
                Err(e) => POut::Failed(e),
                Ok(u2) => match spec_parse_expression_node(
                    s2.1,
                    crate::expression::OrderOfOps::Lowest,
                ) {
                    POut::Parsed(condition, stc) => {
                        let s3 = pstep(stc);
                        match s3.0 {
                            Err(e) => POut::Failed(e),
                            Ok(u3) => {
                                let s4 = pexpect(s3.1, TokenType::RightParen);
                                match s4.0 {
                                    Err(e) => POut::Failed(e),
                                    Ok(u4) => {
                                        let s5 = pexpect(s4.1, TokenType::LeftBrace);
                                        match s5.0 {
                                            Err(e) => POut::Failed(e),
                                            Ok(u5) => spec_parse_if_body(st, condition, s5.1),
                                        }
                                    },
                                }
                            },
                        }
                    },
                    POut::Failed(e) => POut::Failed(e),
                    POut::Stalled => POut::Stalled,
                },
            }
        },
    }
}

#[via_fn]
proof fn spec_parse_if_decreases(st: PState) {
    lemma_pstep(st);
    lemma_pexpect(pstep(st).1, TokenType::LeftParen);
}

/// The braced parts of an `if`, from the state just inside the first `{`.
/// `st0` is the state the whole statement started from; the blocks must
/// stand strictly inside what it had left.
pub open spec fn spec_parse_if_body(st0: PState, condition: ExprModel, st: PState) -> POut<
    StmtModel,
>
    decreases pm_s(st0), 4int
        when pwf(st0)
        via spec_parse_if_body_decreases
{
    if pwf(st) && pm_s(st) < pm_s(st0) {
        match spec_parse_program(st) {
            POut::Parsed(consequence, stb) => {
                let s6 = pexpect(stb, TokenType::RightBrace);
                match s6.0 {
                    Err(e) => POut::Failed(e),
                    Ok(u6) => {
                        if s6.1.cur.token_type == TokenType::Else {
                            let s7 = pstep(s6.1);
                            match s7.0 {
                                Err(e) => POut::Failed(e),
                                Ok(u7) => {
                                    let s8 = pexpect(s7.1, TokenType::LeftBrace);
                                    match s8.0 {
                                        Err(e) => POut::Failed(e),
                                        Ok(u8) => {
                                            if pwf(s8.1) && pm_s(s8.1) < pm_s(st0) {
                                                match spec_parse_program(s8.1) {
                                                    POut::Parsed(alt, sta) => {
                                                        let s9 = pstep(sta);
                                                        match s9.0 {
                                                            Err(e) => POut::Failed(e),
                                                            Ok(u9) => POut::Parsed(
                                                                StmtModel::If {
                                                                    condition,
                                                                    consequence,
                                                                    alternative: Some(alt),
                                                                },
                                                                s9.1,
                                                            ),
                                                        }
                                                    },
                                                    POut::Failed(e) => POut::Failed(e),
                                                    POut::Stalled => POut::Stalled,
                                                }
                                            } else {
                                                POut::Stalled
                                            }
                                        },
                                    }
                                },
                            }
                        } else {
                            POut::Parsed(
                                StmtModel::If { condition, consequence, alternative: None },
                                s6.1,
                            )
                        }
                    },
                }
            },
            POut::Failed(e) => POut::Failed(e),
            POut::Stalled => POut::Stalled,
        }
    } else {
        POut::Stalled
    }
}

#[via_fn]
proof fn spec_parse_if_body_decreases(st0: PState, condition: ExprModel, st: PState) {
}

/// An expression statement: one expression, then a step past its last
/// token.
pub open spec fn spec_parse_expression(st: PState) -> POut<StmtModel>
    decreases pm_s(st), 5int
        when pwf(st)
        via spec_parse_expression_decreases
{
    match spec_parse_expression_node(st, crate::expression::OrderOfOps::Lowest) {
        POut::Parsed(e, st1) => {
            let s2 = pstep(st1);
            match s2.0 {
                Err(er) => POut::Failed(er),
                Ok(u2) => POut::Parsed(StmtModel::Expression(e), s2.1),
            }
        },
        POut::Failed(e) => POut::Failed(e),
        POut::Stalled => POut::Stalled,
    }
}

#[via_fn]
proof fn spec_parse_expression_decreases(st: PState) {
}

/// One expression: the current token's prefix production, then the infix
/// productions the precedence threshold lets through.
pub open spec fn spec_parse_expression_node(
    st: PState,
    precedence: crate::expression::OrderOfOps,
) -> POut<ExprModel>
    decreases pm_s(st), 4int
        when pwf(st)
        via spec_parse_expression_node_decreases
{
    let prefix = spec_parse_prefix_production(st);
    match prefix {
        POut::Parsed(left, st1) => {
            if pwf(st1) && pm_s(st1) <= pm_s(st) {
                spec_parse_infix_loop(st1, left, precedence)
            } else {
                POut::Stalled
            }
        },
        POut::Failed(e) => POut::Failed(e),
        POut::Stalled => POut::Stalled,
    }
}

#[via_fn]
proof fn spec_parse_expression_node_decreases(
    st: PState,
    precedence: crate::expression::OrderOfOps,
) {
    lemma_pstep(st);
}

/// The prefix production the current token owns: a literal or name read in
/// place, or a bracketed form; a token with no production is the parse
/// failure that aborts the whole program.
pub open spec fn spec_parse_prefix_production(st: PState) -> POut<ExprModel>
    decreases pm_s(st), 3int
        when pwf(st)
        via spec_parse_prefix_production_decreases
{
    if st.cur.token_type == TokenType::Identifier {
        POut::Parsed(ExprModel::Identifier(st.cur.literal), st)
    } else if st.cur.token_type == TokenType::Integer {
        match int_literal_val(st.cur.literal) {
            Some(v) => POut::Parsed(ExprModel::Int(v), st),
            None => POut::Failed(ErrorModel::InvalidTokenError(st.cur)),
        }
    } else if st.cur.token_type == TokenType::Bang {
        spec_parse_prefix(st, Operator::Not)
    } else if st.cur.token_type == TokenType::Minus {
        spec_parse_prefix(st, Operator::Neg)
    } else if st.cur.token_type == TokenType::True || st.cur.token_type == TokenType::False {
        POut::Parsed(ExprModel::Bool(st.cur.token_type == TokenType::True), st)
    } else if st.cur.token_type == TokenType::LeftParen {
        spec_parse_group(st)
    } else if st.cur.token_type == TokenType::Function {
        spec_parse_fn(st)
    } else if st.cur.token_type == TokenType::String {
        POut::Parsed(ExprModel::Str(st.cur.literal), st)
    } else if st.cur.token_type == TokenType::LeftBracket {
        spec_parse_array_literal(st)
    } else if st.cur.token_type == TokenType::LeftBrace {
        spec_parse_hash_literal(st)
    } else {
        POut::Failed(ErrorModel::InvalidTokenError(st.cur))
    }
}

#[via_fn]
proof fn spec_parse_prefix_production_decreases(st: PState) {
}

/// The infix loop: while the upcoming operator binds tighter than the
/// threshold, fold it into the tree built so far.
pub open spec fn spec_parse_infix_loop(
    st: PState,
    left: ExprModel,
    precedence: crate::expression::OrderOfOps,
) -> POut<ExprModel>
    decreases pm_s(st), 2int
        when pwf(st)
        via spec_parse_infix_loop_decreases
{
    if st.peek.token_type == TokenType::Semicolon || !(spec_level(precedence) < spec_level(
        spec_order_of_operation(st.peek.token_type),
    )) {
        POut::Parsed(left, st)
    } else {
        let s1 = pstep(st);
        match s1.0 {
            Err(e) => POut::Failed(e),
            Ok(u1) => match spec_parse_infix_node(s1.1, left) {
                POut::Parsed(folded, st2) => {
                    if pwf(st2) && pm_s(st2) < pm_s(st) {
                        spec_parse_infix_loop(st2, folded, precedence)
                    } else {
                        POut::Stalled
                    }
                },
                POut::Failed(e) => POut::Failed(e),
                POut::Stalled => POut::Stalled,
            },
        }
    }
}

#[via_fn]
proof fn spec_parse_infix_loop_decreases(
    st: PState,
    left: ExprModel,
    precedence: crate::expression::OrderOfOps,
) {
    lemma_pstep(st);
}

/// The infix production the current operator token owns.
pub open spec fn spec_parse_infix_node(st: PState, left: ExprModel) -> POut<ExprModel>
    decreases pm_s(st), 1int
        when pwf(st)
        via spec_parse_infix_node_decreases
{
    if st.cur.token_type == TokenType::Plus {
        spec_parse_infix(st, left, Operator::Add)
    } else if st.cur.token_type == TokenType::Minus {
        spec_parse_infix(st, left, Operator::Sub)
    } else if st.cur.token_type == TokenType::Slash {
        spec_parse_infix(st, left, Operator::Div)
    } else if st.cur.token_type == TokenType::Asterisk {
        spec_parse_infix(st, left, Operator::Mul)
    } else if st.cur.token_type == TokenType::Equal {
        spec_parse_infix(st, left, Operator::Equal)
    } else if st.cur.token_type == TokenType::NotEqual {
        spec_parse_infix(st, left, Operator::NotEqual)
    } else if st.cur.token_type == TokenType::LessThan {
        spec_parse_infix(st, left, Operator::Less)
    } else if st.cur.token_type == TokenType::GreaterThan {
        spec_parse_infix(st, left, Operator::Greater)
    } else if st.cur.token_type == TokenType::LeftParen {
        spec_parse_call(st, left)
    } else if st.cur.token_type == TokenType::LeftBracket {
        spec_parse_index(st, left)
    } else {
        POut::Failed(ErrorModel::InvalidTokenError(st.cur))
    }
}

#[via_fn]
proof fn spec_parse_infix_node_decreases(st: PState, left: ExprModel) {
}

/// A binary operator: the right operand is parsed at the operator's own
/// precedence, which makes the operators left-associative.
pub open spec fn spec_parse_infix(st: PState, left: ExprModel, operator: Operator) -> POut<
    ExprModel,
>
    decreases pm_s(st), 0int
        when pwf(st)
        via spec_parse_infix_decreases
{
    let precedence = spec_order_of_operation(st.cur.token_type);
    let s1 = pstep(st);
    match s1.0 {
        Err(e) => POut::Failed(e),
        Ok(u1) => {
            if pwf(s1.1) && pm_s(s1.1) < pm_s(st) {
                match spec_parse_expression_node(s1.1, precedence) {
                    POut::Parsed(right, st2) => POut::Parsed(
                        ExprModel::Infix {
                            operator,
                            left: Box::new(left),
                            right: Box::new(right),
                        },
                        st2,
                    ),
                    POut::Failed(e) => POut::Failed(e),
                    POut::Stalled => POut::Stalled,
                }
            } else {
                POut::Stalled
            }
        },
    }
}

#[via_fn]
proof fn spec_parse_infix_decreases(st: PState, left: ExprModel, operator: Operator) {
}

/// `!` or unary `-`: the operand at prefix precedence.
pub open spec fn spec_parse_prefix(st: PState, operator: Operator) -> POut<ExprModel>
    decreases pm_s(st), 2int
        when pwf(st)
        via spec_parse_prefix_decreases
{
    let s1 = pstep(st);
    match s1.0 {
        Err(e) => POut::Failed(e),
        Ok(u1) => {
            if pwf(s1.1) && pm_s(s1.1) < pm_s(st) {
                match spec_parse_expression_node(s1.1, crate::expression::OrderOfOps::Prefix) {
                    POut::Parsed(e, st2) => POut::Parsed(
                        ExprModel::Prefix { operator, expression: Box::new(e) },
                        st2,
                    ),
                    POut::Failed(e) => POut::Failed(e),
                    POut::Stalled => POut::Stalled,
                }
            } else {
                POut::Stalled
            }
        },
    }
}

#[via_fn]
proof fn spec_parse_prefix_decreases(st: PState, operator: Operator) {
}

/// `( <expression> )`: the threshold resets inside; the production steps
/// past the expression's last token without demanding the `)`.
pub open spec fn spec_parse_group(st: PState) -> POut<ExprModel>
    decreases pm_s(st), 2int
        when pwf(st)
        via spec_parse_group_decreases
{
    let s1 = pstep(st);
    match s1.0 {
        Err(e) => POut::Failed(e),
        Ok(u1) => {
            if pwf(s1.1) && pm_s(s1.1) < pm_s(st) {
                match spec_parse_expression_node(s1.1, crate::expression::OrderOfOps::Lowest) {
                    POut::Parsed(e, st2) => {
                        let s3 = pstep(st2);
                        match s3.0 {
                            Err(er) => POut::Failed(er),
                            Ok(u3) => POut::Parsed(e, s3.1),
                        }
                    },
                    POut::Failed(e) => POut::Failed(e),
                    POut::Stalled => POut::Stalled,
                }
            } else {
                POut::Stalled
            }
        },
    }
}

#[via_fn]
proof fn spec_parse_group_decreases(st: PState) {
}

/// `fn ( <params> ) { <body> }`; the closing `}` is consumed only when a
/// semicolon follows it.
pub open spec fn spec_parse_fn(st: PState) -> POut<ExprModel>
    decreases pm_s(st), 2int
        when pwf(st)
        via spec_parse_fn_decreases
{
    let s1 = pstep(st);
    match s1.0 {
        Err(e) => POut::Failed(e),
        Ok(u1) => {
            let s2 = pexpect(s1.1, TokenType::LeftParen);
            match s2.0 {
                Err(e) => POut::Failed(e),
                Ok(u2) => match spec_parse_fn_param(s2.1) {
                    POut::Parsed(params, st3) => {
                        let s4 = pexpect(st3, TokenType::RightParen);
                        match s4.0 {
                            Err(e) => POut::Failed(e),
                            Ok(u4) => {
                                let s5 = pexpect(s4.1, TokenType::LeftBrace);
                                match s5.0 {
                                    Err(e) => POut::Failed(e),
                                    Ok(u5) => {
                                        if pwf(s5.1) && pm_s(s5.1) < pm_s(st) {
                                            spec_parse_fn_tail(params, spec_parse_program(s5.1))
                                        } else {
                                            POut::Stalled
                                        }
                                    },
                                }
                            },
                        }
                    },
                    POut::Failed(e) => POut::Failed(e),
                    POut::Stalled => POut::Stalled,
                },
            }
        },
    }
}

#[via_fn]
proof fn spec_parse_fn_decreases(st: PState) {
    lemma_pstep(st);
    lemma_pexpect(pstep(st).1, TokenType::LeftParen);
}

/// What follows a function literal's body: the closing `}` is consumed only
/// when the token after it is a semicolon.
pub open spec fn spec_parse_fn_tail(params: Seq<Seq<char>>, body: POut<ProgramModel>) -> POut<
    ExprModel,
> {
    match body {
        POut::Parsed(b, stb) => {
            if stb.peek.token_type == TokenType::Semicolon {
                let s6 = pexpect(stb, TokenType::RightBrace);
                match s6.0 {
                    Err(e) => POut::Failed(e),
                    Ok(u6) => POut::Parsed(ExprModel::Function { params, body: b }, s6.1),
                }
            } else {
                POut::Parsed(ExprModel::Function { params, body: b }, stb)
            }
        },
        POut::Failed(e) => POut::Failed(e),
        POut::Stalled => POut::Stalled,
    }
}

/// A comma-separated identifier list, empty allowed.
pub open spec fn spec_parse_fn_param(st: PState) -> POut<Seq<Seq<char>>>
    decreases pm_s(st), 1int
        when pwf(st)
        via spec_parse_fn_param_decreases
{
    if st.cur.token_type == TokenType::RightParen {
        POut::Parsed(Seq::empty(), st)
    } else {
        spec_parse_fn_param_items(st)
    }
}

#[via_fn]
proof fn spec_parse_fn_param_decreases(st: PState) {
}

/// The non-empty tail of a parameter list: a name, then either the closing
/// `)` or a comma and more names.
pub open spec fn spec_parse_fn_param_items(st: PState) -> POut<Seq<Seq<char>>>
    decreases pm_s(st), 0int
        when pwf(st)
        via spec_parse_fn_param_items_decreases
{
    let name = st.cur.literal;
    let s1 = pstep(st);
    match s1.0 {
        Err(e) => POut::Failed(e),
        Ok(u1) => {
            if s1.1.cur.token_type == TokenType::RightParen {
                POut::Parsed(seq![name], s1.1)
            } else {
                let s2 = pexpect(s1.1, TokenType::Comma);
                match s2.0 {
                    Err(e) => POut::Failed(e),
                    Ok(u2) => match spec_parse_fn_param_items(s2.1) {
                        POut::Parsed(rest, st3) => POut::Parsed(seq![name] + rest, st3),
                        POut::Failed(e) => POut::Failed(e),
                        POut::Stalled => POut::Stalled,
                    },
                }
            }
        },
    }
}

#[via_fn]
proof fn spec_parse_fn_param_items_decreases(st: PState) {
    lemma_pstep(st);
    lemma_pexpect(pstep(st).1, TokenType::Comma);
}

/// A call: the `(` already under consideration, then the arguments.
pub open spec fn spec_parse_call(st: PState, function: ExprModel) -> POut<ExprModel>
    decreases pm_s(st), 0int
        when pwf(st)
        via spec_parse_call_decreases
{
    let s1 = pexpect(st, TokenType::LeftParen);
    match s1.0 {
        Err(e) => POut::Failed(e),
        Ok(u1) => match spec_parse_expression_list(s1.1, TokenType::RightParen) {
            POut::Parsed(params, st2) => POut::Parsed(
                ExprModel::Call { function: Box::new(function), params },
                st2,
            ),
            POut::Failed(e) => POut::Failed(e),
            POut::Stalled => POut::Stalled,
        },
    }
}

#[via_fn]
proof fn spec_parse_call_decreases(st: PState, function: ExprModel) {
    lemma_pexpect(st, TokenType::LeftParen);
}

/// An index expression: the `[` already under consideration.
pub open spec fn spec_parse_index(st: PState, left: ExprModel) -> POut<ExprModel>
    decreases pm_s(st), 0int
        when pwf(st)
        via spec_parse_index_decreases
{
    let s1 = pexpect(st, TokenType::LeftBracket);
    match s1.0 {
        Err(e) => POut::Failed(e),
        Ok(u1) => match spec_parse_expression_node(s1.1, crate::expression::OrderOfOps::Lowest) {
            POut::Parsed(index, st2) => {
                let s3 = pstep(st2);
                match s3.0 {
                    Err(er) => POut::Failed(er),
                    Ok(u3) => POut::Parsed(
                        ExprModel::Index { left: Box::new(left), index: Box::new(index) },
                        s3.1,
                    ),
                }
            },
            POut::Failed(e) => POut::Failed(e),
            POut::Stalled => POut::Stalled,
        },
    }
}

#[via_fn]
proof fn spec_parse_index_decreases(st: PState, left: ExprModel) {
    lemma_pexpect(st, TokenType::LeftBracket);
}

/// A comma-separated expression list up to `end`, empty allowed.
pub open spec fn spec_parse_expression_list(st: PState, end: TokenType) -> POut<Seq<ExprModel>>
    decreases pm_s(st), 6int
        when pwf(st)
        via spec_parse_expression_list_decreases
{
    if st.cur.token_type == end {
        POut::Parsed(Seq::empty(), st)
    } else {
        spec_parse_expression_list_items(st, end)
    }
}

#[via_fn]
proof fn spec_parse_expression_list_decreases(st: PState, end: TokenType) {
}

/// The non-empty tail of an expression list: an element, then either the
/// end token or a comma and more elements.
pub open spec fn spec_parse_expression_list_items(st: PState, end: TokenType) -> POut<
    Seq<ExprModel>,
>
    decreases pm_s(st), 5int
        when pwf(st)
        via spec_parse_expression_list_items_decreases
{
    match spec_parse_expression_node(st, crate::expression::OrderOfOps::Lowest) {
        POut::Parsed(e, st1) => {
            let s2 = pstep(st1);
            match s2.0 {
                Err(er) => POut::Failed(er),
                Ok(u2) => {
                    if s2.1.cur.token_type == end {
                        POut::Parsed(seq![e], s2.1)
                    } else {
                        let s3 = pexpect(s2.1, TokenType::Comma);
                        match s3.0 {
                            Err(er) => POut::Failed(er),
                            Ok(u3) => {
                                if pwf(s3.1) && pm_s(s3.1) < pm_s(st) {
                                    match spec_parse_expression_list_items(s3.1, end) {
                                        POut::Parsed(rest, st4) => POut::Parsed(
                                            seq![e] + rest,
                                            st4,
                                        ),
                                        POut::Failed(er) => POut::Failed(er),
                                        POut::Stalled => POut::Stalled,
                                    }
                                } else {
                                    POut::Stalled
                                }
                            },
                        }
                    }
                },
            }
        },
        POut::Failed(e) => POut::Failed(e),
        POut::Stalled => POut::Stalled,
    }
}

#[via_fn]
proof fn spec_parse_expression_list_items_decreases(st: PState, end: TokenType) {
}

/// `[ <elements> ]`, empty allowed.
pub open spec fn spec_parse_array_literal(st: PState) -> POut<ExprModel>
    decreases pm_s(st), 2int
        when pwf(st)
        via spec_parse_array_literal_decreases
{
    let s1 = pexpect(st, TokenType::LeftBracket);
    match s1.0 {
        Err(e) => POut::Failed(e),
        Ok(u1) => match spec_parse_expression_list(s1.1, TokenType::RightBracket) {
            POut::Parsed(params, st2) => POut::Parsed(ExprModel::ArrayLiteral { params }, st2),
            POut::Failed(e) => POut::Failed(e),
            POut::Stalled => POut::Stalled,
        },
    }
}

#[via_fn]
proof fn spec_parse_array_literal_decreases(st: PState) {
    lemma_pexpect(st, TokenType::LeftBracket);
}

/// `{ <key> : <value> , ... }`, empty allowed; pairs in encounter order.
pub open spec fn spec_parse_hash_literal(st: PState) -> POut<ExprModel>
    decreases pm_s(st), 2int
        when pwf(st)
        via spec_parse_hash_literal_decreases
{
    let s1 = pexpect(st, TokenType::LeftBrace);
    match s1.0 {
        Err(e) => POut::Failed(e),
        Ok(u1) => {
            if s1.1.cur.token_type == TokenType::RightBrace {
                POut::Parsed(ExprModel::HashLiteral { params: Seq::empty() }, s1.1)
            } else {
                match spec_parse_hash_items(s1.1) {
                    POut::Parsed(params, st2) => POut::Parsed(
                        ExprModel::HashLiteral { params },
                        st2,
                    ),
                    POut::Failed(e) => POut::Failed(e),
                    POut::Stalled => POut::Stalled,
                }
            }
        },
    }
}

#[via_fn]
proof fn spec_parse_hash_literal_decreases(st: PState) {
    lemma_pexpect(st, TokenType::LeftBrace);
}

/// The non-empty tail of a hash literal: `key : value`, then either the
/// closing `}` or a comma and more pairs.
pub open spec fn spec_parse_hash_items(st: PState) -> POut<Seq<(ExprModel, ExprModel)>>
    decreases pm_s(st), 5int
        when pwf(st)
        via spec_parse_hash_items_decreases
{
    match spec_parse_expression_node(st, crate::expression::OrderOfOps::Lowest) {
        POut::Parsed(key, st1) => {
            let s2 = pstep(st1);
            match s2.0 {
                Err(er) => POut::Failed(er),
                Ok(u2) => {
                    let s3 = pexpect(s2.1, TokenType::Colon);
                    match s3.0 {
                        Err(er) => POut::Failed(er),
                        Ok(u3) => {
                            if pwf(s3.1) && pm_s(s3.1) <= pm_s(st) {
                                match spec_parse_expression_node(
                                    s3.1,
                                    crate::expression::OrderOfOps::Lowest,
                                ) {
                                    POut::Parsed(val, st4) => {
                                        let s5 = pstep(st4);
                                        match s5.0 {
                                            Err(er) => POut::Failed(er),
                                            Ok(u5) => {
                                                if s5.1.cur.token_type
                                                    == TokenType::RightBrace {
                                                    POut::Parsed(seq![(key, val)], s5.1)
                                                } else {
                                                    let s6 = pexpect(s5.1, TokenType::Comma);
                                                    match s6.0 {
                                                        Err(er) => POut::Failed(er),
                                                        Ok(u6) => {
                                                            if pwf(s6.1) && pm_s(s6.1) < pm_s(
                                                                st,
                                                            ) {
                                                                match spec_parse_hash_items(
                                                                    s6.1,
                                                                ) {
                                                                    POut::Parsed(
                                                                        rest,
                                                                        st7,
                                                                    ) => POut::Parsed(
                                                                        seq![(key, val)]
                                                                            + rest,
                                                                        st7,
                                                                    ),
                                                                    POut::Failed(er)
                                                                        => POut::Failed(er),
                                                                    POut::Stalled
                                                                        => POut::Stalled,
                                                                }
                                                            } else {
                                                                POut::Stalled
                                                            }
                                                        },
                                                    }
                                                }
                                            },
                                        }
                                    },
                                    POut::Failed(er) => POut::Failed(er),
                                    POut::Stalled => POut::Stalled,
                                }
                            } else {
                                POut::Stalled
                            }
                        },
                    }
                },
            }
        },
        POut::Failed(e) => POut::Failed(e),
        POut::Stalled => POut::Stalled,
    }
}

#[via_fn]
proof fn spec_parse_hash_items_decreases(st: PState) {
}


/// Already-parsed statements, put back in front of the rest of a program.
pub open spec fn prepend_stmts(acc: Seq<StmtModel>, out: POut<ProgramModel>) -> POut<
    ProgramModel,
> {
    match out {
        POut::Parsed(p, st) => POut::Parsed(
            ProgramModel { statements: acc + p.statements },
            st,
        ),
        POut::Failed(e) => POut::Failed(e),
        POut::Stalled => POut::Stalled,
    }
}

/// One statement, put in front of the rest of a program.
pub open spec fn cons_stmt(s: StmtModel, out: POut<ProgramModel>) -> POut<ProgramModel> {
    match out {
        POut::Parsed(p, st) => POut::Parsed(
            ProgramModel { statements: seq![s] + p.statements },
            st,
        ),
        POut::Failed(e) => POut::Failed(e),
        POut::Stalled => POut::Stalled,
    }
}

/// Putting nothing in front changes nothing.
pub proof fn lemma_prepend_stmts_nil(out: POut<ProgramModel>)
    ensures
        prepend_stmts(Seq::empty(), out) == out,
{
    match out {
        POut::Parsed(p, st) => {
            assert(Seq::<StmtModel>::empty() + p.statements =~= p.statements);
        },
        _ => {},
    }
}

/// Prepending one statement at a time agrees with prepending runs.
pub proof fn lemma_prepend_stmts_push(acc: Seq<StmtModel>, s: StmtModel, out: POut<ProgramModel>)
    ensures
        prepend_stmts(acc, cons_stmt(s, out)) == prepend_stmts(acc.push(s), out),
{
    match out {
        POut::Parsed(p, st) => {
            assert(acc + (seq![s] + p.statements) =~= acc.push(s) + p.statements);
        },
        _ => {},
    }
}

/// Already-read names, put back in front of the rest of a parameter list.
pub open spec fn prepend_names(acc: Seq<Seq<char>>, out: POut<Seq<Seq<char>>>) -> POut<
    Seq<Seq<char>>,
> {
    match out {
        POut::Parsed(ns, st) => POut::Parsed(acc + ns, st),
        POut::Failed(e) => POut::Failed(e),
        POut::Stalled => POut::Stalled,
    }
}

/// Putting nothing in front changes nothing.
pub proof fn lemma_prepend_names_nil(out: POut<Seq<Seq<char>>>)
    ensures
        prepend_names(Seq::empty(), out) == out,
{
    match out {
        POut::Parsed(ns, st) => {
            assert(Seq::<Seq<char>>::empty() + ns =~= ns);
        },
        _ => {},
    }
}

/// Prepending one name at a time agrees with prepending runs.
pub proof fn lemma_prepend_names_push(acc: Seq<Seq<char>>, n: Seq<char>, out: POut<Seq<Seq<char>>>)
    ensures
        prepend_names(
            acc,
            match out {
                POut::Parsed(ns, st) => POut::Parsed(seq![n] + ns, st),
                POut::Failed(e) => POut::Failed(e),
                POut::Stalled => POut::Stalled,
            },
        ) == prepend_names(acc.push(n), out),
{
    match out {
        POut::Parsed(ns, st) => {
            assert(acc + (seq![n] + ns) =~= acc.push(n) + ns);
        },
        _ => {},
    }
}

/// Already-parsed elements, put back in front of the rest of a list.
pub open spec fn prepend_exprs(acc: Seq<ExprModel>, out: POut<Seq<ExprModel>>) -> POut<
    Seq<ExprModel>,
> {
    match out {
        POut::Parsed(es, st) => POut::Parsed(acc + es, st),
        POut::Failed(e) => POut::Failed(e),
        POut::Stalled => POut::Stalled,
    }
}

/// Putting nothing in front changes nothing.
pub proof fn lemma_prepend_exprs_nil(out: POut<Seq<ExprModel>>)
    ensures
        prepend_exprs(Seq::empty(), out) == out,
{
    match out {
        POut::Parsed(es, st) => {
            assert(Seq::<ExprModel>::empty() + es =~= es);
        },
        _ => {},
    }
}

/// Prepending one element at a time agrees with prepending runs.
pub proof fn lemma_prepend_exprs_push(acc: Seq<ExprModel>, e: ExprModel, out: POut<Seq<ExprModel>>)
    ensures
        prepend_exprs(
            acc,
            match out {
                POut::Parsed(es, st) => POut::Parsed(seq![e] + es, st),
                POut::Failed(er) => POut::Failed(er),
                POut::Stalled => POut::Stalled,
            },
        ) == prepend_exprs(acc.push(e), out),
{
    match out {
        POut::Parsed(es, st) => {
            assert(acc + (seq![e] + es) =~= acc.push(e) + es);
        },
        _ => {},
    }
}

/// Already-parsed pairs, folded into the hash literal with the rest.
pub open spec fn wrap_hash(
    acc: Seq<(ExprModel, ExprModel)>,
    out: POut<Seq<(ExprModel, ExprModel)>>,
) -> POut<ExprModel> {
    match out {
        POut::Parsed(ps, st) => POut::Parsed(ExprModel::HashLiteral { params: acc + ps }, st),
        POut::Failed(e) => POut::Failed(e),
        POut::Stalled => POut::Stalled,
    }
}

/// Folding nothing in front keeps the literal's own pairs.
pub proof fn lemma_wrap_hash_nil(out: POut<Seq<(ExprModel, ExprModel)>>)
    ensures
        wrap_hash(Seq::empty(), out) == (match out {
            POut::Parsed(ps, st) => POut::Parsed(ExprModel::HashLiteral { params: ps }, st),
            POut::Failed(e) => POut::Failed(e),
            POut::Stalled => POut::Stalled,
        }),
{
    match out {
        POut::Parsed(ps, st) => {
            assert(Seq::<(ExprModel, ExprModel)>::empty() + ps =~= ps);
        },
        _ => {},
    }
}

/// Folding one pair at a time agrees with folding runs.
pub proof fn lemma_wrap_hash_push(
    acc: Seq<(ExprModel, ExprModel)>,
    p: (ExprModel, ExprModel),
    out: POut<Seq<(ExprModel, ExprModel)>>,
)
    ensures
        wrap_hash(
            acc,
            match out {
                POut::Parsed(ps, st) => POut::Parsed(seq![p] + ps, st),
                POut::Failed(e) => POut::Failed(e),
                POut::Stalled => POut::Stalled,
            },
        ) == wrap_hash(acc.push(p), out),
{
    match out {
        POut::Parsed(ps, st) => {
            assert(acc + (seq![p] + ps) =~= acc.push(p) + ps);
        },
        _ => {},
    }
}

} // verus!
