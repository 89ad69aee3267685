//! The parser core: two-token lookahead over the lexer, statement dispatch,
//! and the `let` / `if` / `return` productions.
//!
//! Every parsing method carries the parser's well-formedness and a progress
//! bound: `pmeasure`, the characters the lexer has not consumed yet plus the
//! buffered tokens that are not end-of-file, never grows, and each
//! successfully parsed statement strictly shrinks it. That measure is what
//! makes the whole recursive descent terminate.
//!
//! A required token of the wrong kind aborts the parse of the whole program
//! with `InvalidTokenError`; there is no recovery and no partial tree.

use vstd::prelude::*;

use crate::ast::{Identifier, Program, StatementNode};
use crate::error::{Error, ErrorModel};
use crate::grammar::{pexpect, pstep, spec_parse_if, spec_parse_let, spec_parse_program,
    spec_parse_return, spec_parse_statement, spec_skip_semicolon, POut, PState};
use crate::lexer::{lemma_read_progress, lex_ch, res_view, spec_read, Lexer, MonkeyLexer};
use crate::token::{Token, TokenModel, TokenType};

verus! {

/// Pulls the next token from the lexer.
pub fn next_token(lexer: &mut MonkeyLexer) -> (r: Result<Token, Error>)
    requires
        old(lexer).wf(),
    ensures
        final(lexer).wf(),
        (res_view(r), final(lexer)@) == spec_read(old(lexer)@),
{
    lexer.token()
}

/// The weight of a buffered token in the progress measure: an end-of-file
/// token is free, anything else counts one.
pub open spec fn token_weight(t: TokenModel) -> int {
    if t.token_type == TokenType::EndOfFile {
        0int
    } else {
        1int
    }
}

/// The parser over a lexer it owns, with the current token and one token of
/// lookahead.
pub struct Parser {
    pub lexer: MonkeyLexer,
    pub token_current: Token,
    pub token_peek: Token,
}

/// The mathematical state of a parser: its lexer and its two buffered
/// tokens, the form the grammar mirror speaks of.
pub open spec fn pstate(p: Parser) -> PState {
    PState { lexer: p.lexer@, cur: p.token_current@, peek: p.token_peek@ }
}

/// How much input is left in front of a parser: unread characters plus the
/// buffered tokens that are not end-of-file.
pub open spec fn pmeasure(p: Parser) -> int {
    (p.lexer@.input.len() - p.lexer@.position) + token_weight(p.token_current@) + token_weight(
        p.token_peek@,
    )
}

impl Parser {
    /// The lexer's counters are in range, and once an end-of-file token has
    /// been buffered nothing but end-of-file can follow it.
    pub open spec fn wf(&self) -> bool {
        &&& self.lexer.wf()
        &&& (self.token_peek@.token_type == TokenType::EndOfFile ==> lex_ch(self.lexer@) == '\0')
        &&& (self.token_current@.token_type == TokenType::EndOfFile
            ==> self.token_peek@.token_type == TokenType::EndOfFile)
    }

    /// Takes the lexer and buffers its first two tokens; a lex-time failure
    /// in those aborts construction.
    pub fn new(lexer: MonkeyLexer) -> (r: Result<Parser, Error>)
        requires
            lexer.wf(),
        ensures
            r matches Ok(p) ==> p.wf(),
            r matches Ok(p) ==> {
                &&& spec_read(lexer@).0 == Ok::<TokenModel, ErrorModel>(p.token_current@)
                &&& spec_read(spec_read(lexer@).1).0 == Ok::<TokenModel, ErrorModel>(
                    p.token_peek@,
                )
                &&& p.lexer@ == spec_read(spec_read(lexer@).1).1
            },
    {
        let mut lexer = lexer;
        proof {
            lemma_read_progress(lexer@);
        }
        let token_current = match next_token(&mut lexer) {
            Ok(t) => t,
            Err(e) => {
                return Err(e);
            },
        };
        proof {
            lemma_read_progress(lexer@);
        }
        let token_peek = match next_token(&mut lexer) {
            Ok(t) => t,
            Err(e) => {
                return Err(e);
            },
        };
        Ok(Parser { lexer, token_current, token_peek })
    }

    /// The token under consideration.
    pub fn current(&self) -> (r: &Token)
        ensures
            *r == self.token_current,
    {
        &self.token_current
    }

    /// The one token of lookahead.
    pub fn peek(&self) -> (r: &Token)
        ensures
            *r == self.token_peek,
    {
        &self.token_peek
    }

    /// Shifts the lookahead into the current slot and pulls a fresh token.
    pub fn next(&mut self) -> (r: Result<(), Error>)
        requires
            old(self).wf(),
        ensures
            final(self).wf(),
            pmeasure(*final(self)) <= pmeasure(*old(self)),
            r is Ok && old(self).token_current@.token_type != TokenType::EndOfFile ==> pmeasure(
                *final(self),
            ) < pmeasure(*old(self)),
            r is Ok ==> final(self).token_current == old(self).token_peek,
            r is Ok ==> spec_read(old(self).lexer@).0 == Ok::<TokenModel, ErrorModel>(
                final(self).token_peek@,
            ),
            r matches Err(e) ==> spec_read(old(self).lexer@).0 == Err::<TokenModel, ErrorModel>(
                e@,
            ),
            r matches Err(e) ==> final(self).token_current == old(self).token_current && final(self).token_peek == old(self).token_peek,
            final(self).lexer@ == spec_read(old(self).lexer@).1,
            r is Ok ==> pstep(pstate(*old(self))) == (
                Ok::<(), ErrorModel>(()),
                pstate(*final(self)),
            ),
            r matches Err(e) ==> pstep(pstate(*old(self))) == (
                Err::<(), ErrorModel>(e@),
                pstate(*final(self)),
            ),
    {
        proof {
            lemma_read_progress(self.lexer@);
        }
        let pulled = match next_token(&mut self.lexer) {
            Ok(t) => t,
            Err(e) => {
                return Err(e);
            },
        };
        let mut tmp = pulled;
        core::mem::swap(&mut self.token_peek, &mut tmp);
        self.token_current = tmp;
        Ok(())
    }

    /// Demands the current token's kind, consuming it; a mismatch aborts
    /// the parse with `InvalidTokenError` carrying the offending token.
    pub fn expect(&mut self, token_type: TokenType) -> (r: Result<(), Error>)
        requires
            old(self).wf(),
        ensures
            final(self).wf(),
            pmeasure(*final(self)) <= pmeasure(*old(self)),
            r is Ok ==> old(self).token_current@.token_type == token_type,
            r is Ok && token_type != TokenType::EndOfFile ==> pmeasure(*final(self)) < pmeasure(
                *old(self),
            ),
            r matches Err(e) ==> (e@ matches ErrorModel::InvalidTokenError(t) && t == old(self).token_current@) || (spec_read(old(self).lexer@).0 == Err::<TokenModel, ErrorModel>(
                e@,
            )),
            old(self).token_current@.token_type != token_type ==> (r matches Err(e) && e@
                == ErrorModel::InvalidTokenError(old(self).token_current@) && *final(self) == *old(self)),
            r is Ok ==> pexpect(pstate(*old(self)), token_type) == (
                Ok::<(), ErrorModel>(()),
                pstate(*final(self)),
            ),
            r matches Err(e) ==> pexpect(pstate(*old(self)), token_type) == (
                Err::<(), ErrorModel>(e@),
                pstate(*final(self)),
            ),
    {
        if !token_type_eq(self.token_current.token_type, token_type) {
            return Err(Error::InvalidTokenError(self.token_current.clone()));
        }
        match self.next() {
            Ok(()) => Ok(()),
            Err(e) => Err(e),
        }
    }

    /// Semicolons are optional statement terminators, consumed greedily.
    pub fn skip_semicolon(&mut self) -> (r: Result<(), Error>)
        requires
            old(self).wf(),
        ensures
            final(self).wf(),
            pmeasure(*final(self)) <= pmeasure(*old(self)),
            r is Ok ==> final(self).token_current@.token_type != TokenType::Semicolon,
            r is Ok ==> spec_skip_semicolon(pstate(*old(self))) == POut::<()>::Parsed(
                (),
                pstate(*final(self)),
            ),
            r matches Err(e) ==> spec_skip_semicolon(pstate(*old(self))) == POut::<()>::Failed(
                e@,
            ),
    {
        while token_type_eq(self.token_current.token_type, TokenType::Semicolon)
            invariant
                self.wf(),
                pmeasure(*self) <= pmeasure(*old(self)),
                spec_skip_semicolon(pstate(*self)) == spec_skip_semicolon(pstate(*old(self))),
            decreases pmeasure(*self),
        {
            match self.next() {
                Ok(()) => {
                },
                Err(e) => {
                    return Err(e);
                },
            }
        }
        Ok(())
    }

    /// Parses statements until end-of-file or a block-terminating `}`,
    /// which is left for the caller to consume.
    #[verifier::rlimit(100)]
    pub fn parse_program(&mut self) -> (r: Result<Box<Program>, Error>)
        requires
            old(self).wf(),
        ensures
            final(self).wf(),
            pmeasure(*final(self)) <= pmeasure(*old(self)),
            r is Ok ==> final(self).token_current@.token_type == TokenType::EndOfFile || final(self).token_current@.token_type == TokenType::RightBrace,
            r matches Ok(p) ==> spec_parse_program(pstate(*old(self))) == POut::<
                crate::ast::ProgramModel,
            >::Parsed(p@, pstate(*final(self))),
            r matches Err(e) ==> spec_parse_program(pstate(*old(self))) == POut::<
                crate::ast::ProgramModel,
            >::Failed(e@),
        decreases pmeasure(*old(self)), 6int,
    {
        let mut statements: Vec<StatementNode> = Vec::new();
        proof {
            crate::grammar::lemma_prepend_stmts_nil(spec_parse_program(pstate(*self)));
            assert(crate::ast::view_stmts(statements@) =~= Seq::<crate::ast::StmtModel>::empty());
        }
        while !token_type_eq(self.token_current.token_type, TokenType::EndOfFile)
            && !token_type_eq(self.token_current.token_type, TokenType::RightBrace)
            invariant
                self.wf(),
                pmeasure(*self) <= pmeasure(*old(self)),
                crate::grammar::prepend_stmts(
                    crate::ast::view_stmts(statements@),
                    spec_parse_program(pstate(*self)),
                ) == spec_parse_program(pstate(*old(self))),
            decreases pmeasure(*self),
        {
            let ghost st_top = pstate(*self);
            let ghost acc_top = crate::ast::view_stmts(statements@);
            let stmt = match self.parse_statement() {
                Ok(s) => s,
                Err(e) => {
                    return Err(e);
                },
            };
            let ghost statements_before = statements@;
            statements.push(stmt);
            proof {
                crate::ast::lemma_view_stmts_push(statements_before, stmt);
            }
            match self.skip_semicolon() {
                Ok(()) => {
                },
                Err(e) => {
                    return Err(e);
                },
            }
            proof {
                assert(spec_parse_program(st_top) == crate::grammar::cons_stmt(
                    stmt@,
                    spec_parse_program(pstate(*self)),
                ));
                crate::grammar::lemma_prepend_stmts_push(
                    acc_top,
                    stmt@,
                    spec_parse_program(pstate(*self)),
                );
            }
        }
        proof {
            assert(crate::ast::view_stmts(statements@) + Seq::<
                crate::ast::StmtModel,
            >::empty() =~= crate::ast::view_stmts(statements@));
        }
        Ok(Box::new(Program { statements }))
    }

    /// Statement dispatch: `let`, `return` and `if` have dedicated
    /// productions; anything else is an expression statement.
    #[verifier::rlimit(100)]
    pub fn parse_statement(&mut self) -> (r: Result<StatementNode, Error>)
        requires
            old(self).wf(),
        ensures
            final(self).wf(),
            pmeasure(*final(self)) <= pmeasure(*old(self)),
            r is Ok ==> pmeasure(*final(self)) < pmeasure(*old(self)),
            r matches Ok(s) ==> spec_parse_statement(pstate(*old(self))) == POut::<
                crate::ast::StmtModel,
            >::Parsed(s@, pstate(*final(self))),
            r matches Err(e) ==> spec_parse_statement(pstate(*old(self))) == POut::<
                crate::ast::StmtModel,
            >::Failed(e@),
        decreases pmeasure(*old(self)), 5int,
    {
        match self.token_current.token_type {
            TokenType::Let => self.parse_let(),
            TokenType::Return => self.parse_return(),
            TokenType::If => self.parse_if(),
            _ => self.parse_expression(),
        }
    }

    /// `let <name> = <expression>`.
    #[verifier::rlimit(100)]
    pub fn parse_let(&mut self) -> (r: Result<StatementNode, Error>)
        requires
            old(self).wf(),
            old(self).token_current@.token_type == TokenType::Let,
        ensures
            final(self).wf(),
            pmeasure(*final(self)) <= pmeasure(*old(self)),
            r is Ok ==> pmeasure(*final(self)) < pmeasure(*old(self)),
            r matches Ok(s) ==> (s matches StatementNode::Let(name, _e) && name@ == old(
                self,
            ).token_peek@.literal),
            r matches Ok(s) ==> spec_parse_let(pstate(*old(self))) == POut::<
                crate::ast::StmtModel,
            >::Parsed(s@, pstate(*final(self))),
            r matches Err(e) ==> spec_parse_let(pstate(*old(self))) == POut::<
                crate::ast::StmtModel,
            >::Failed(e@),
        decreases pmeasure(*old(self)), 4int,
    {
        match self.next() {
            Ok(()) => {
            },
            Err(e) => {
                return Err(e);
            },
        }
        let identifier = Identifier(self.token_current.literal.clone());
        match self.next() {
            Ok(()) => {
            },
            Err(e) => {
                return Err(e);
            },
        }
        match self.expect(TokenType::Assign) {
            Ok(()) => {
            },
            Err(e) => {
                return Err(e);
            },
        }
        let expression = match self.parse_expression_node(crate::expression::OrderOfOps::Lowest) {
            Ok(e) => e,
            Err(e) => {
                return Err(e);
            },
        };
        match self.next() {
            Ok(()) => {
            },
            Err(e) => {
                return Err(e);
            },
        }
        Ok(StatementNode::Let(identifier, expression))
    }

    /// `if ( <condition> ) { <consequence> }` with an optional
    /// `else { <alternative> }`.
    #[verifier::rlimit(100)]
    #[verifier::spinoff_prover]
    pub fn parse_if(&mut self) -> (r: Result<StatementNode, Error>)
        requires
            old(self).wf(),
            old(self).token_current@.token_type == TokenType::If,
        ensures
            final(self).wf(),
            pmeasure(*final(self)) <= pmeasure(*old(self)),
            r is Ok ==> pmeasure(*final(self)) < pmeasure(*old(self)),
            r matches Ok(s) ==> s is If,
            r matches Ok(s) ==> spec_parse_if(pstate(*old(self))) == POut::<
                crate::ast::StmtModel,
            >::Parsed(s@, pstate(*final(self))),
            r matches Err(e) ==> spec_parse_if(pstate(*old(self))) == POut::<
                crate::ast::StmtModel,
            >::Failed(e@),
        decreases pmeasure(*old(self)), 4int,
    {
        match self.next() {
            Ok(()) => {
            },
            Err(e) => {
                return Err(e);
            },
        }
        match self.expect(TokenType::LeftParen) {
            Ok(()) => {
            },
            Err(e) => {
                return Err(e);
            },
        }
        let condition = match self.parse_expression_node(crate::expression::OrderOfOps::Lowest) {
            Ok(e) => e,
            Err(e) => {
                return Err(e);
            },
        };
        match self.next() {
            Ok(()) => {
            },
            Err(e) => {
                return Err(e);
            },
        }
        match self.expect(TokenType::RightParen) {
            Ok(()) => {
            },
            Err(e) => {
                return Err(e);
            },
        }
        match self.expect(TokenType::LeftBrace) {
            Ok(()) => {
            },
            Err(e) => {
                return Err(e);
            },
        }
        let consequence = match self.parse_program() {
            Ok(p) => p,
            Err(e) => {
                return Err(e);
            },
        };
        match self.expect(TokenType::RightBrace) {
            Ok(()) => {
            },
            Err(e) => {
                return Err(e);
            },
        }
        let alternative: Option<Box<Program>> = if token_type_eq(
            self.token_current.token_type,
            TokenType::Else,
        ) {
            match self.next() {
                Ok(()) => {
                },
                Err(e) => {
                    return Err(e);
                },
            }
            match self.expect(TokenType::LeftBrace) {
                Ok(()) => {
                },
                Err(e) => {
                    return Err(e);
                },
            }
            match self.parse_program() {
                Ok(result) => {
                    match self.next() {
                        Ok(()) => {
                        },
                        Err(e) => {
                            return Err(e);
                        },
                    }
                    Some(result)
                },
                Err(e) => {
                    return Err(e);
                },
            }
        } else {
            None
        };
        Ok(StatementNode::If { condition, consequence, alternative })
    }

    /// `return <expression>`.
    #[verifier::rlimit(100)]
    pub fn parse_return(&mut self) -> (r: Result<StatementNode, Error>)
        requires
            old(self).wf(),
            old(self).token_current@.token_type == TokenType::Return,
        ensures
            final(self).wf(),
            pmeasure(*final(self)) <= pmeasure(*old(self)),
            r is Ok ==> pmeasure(*final(self)) < pmeasure(*old(self)),
            r matches Ok(s) ==> s is Return,
            r matches Ok(s) ==> spec_parse_return(pstate(*old(self))) == POut::<
                crate::ast::StmtModel,
            >::Parsed(s@, pstate(*final(self))),
            r matches Err(e) ==> spec_parse_return(pstate(*old(self))) == POut::<
                crate::ast::StmtModel,
            >::Failed(e@),
        decreases pmeasure(*old(self)), 4int,
    {
        match self.next() {
            Ok(()) => {
            },
            Err(e) => {
                return Err(e);
            },
        }
        let expression = match self.parse_expression_node(crate::expression::OrderOfOps::Lowest) {
            Ok(e) => e,
            Err(e) => {
                return Err(e);
            },
        };
        match self.next() {
            Ok(()) => {
            },
            Err(e) => {
                return Err(e);
            },
        }
        Ok(StatementNode::Return(expression))
    }
}

/// Token kind equality.
pub fn token_type_eq(a: TokenType, b: TokenType) -> (r: bool)
    ensures
        r == (a == b),
{
    a == b
}

} // verus!
