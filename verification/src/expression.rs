//! Expression parsing: precedence climbing with one prefix production per
//! token kind and an infix loop driven by the upcoming operator's
//! precedence.

use vstd::prelude::*;

use crate::ast::{ExprModel, ExpressionNode, Identifier, Operator, StatementNode};
use crate::error::{Error, ErrorModel};
use crate::grammar::{lemma_prepend_exprs_nil, lemma_prepend_exprs_push, lemma_prepend_names_nil,
    lemma_prepend_names_push, lemma_wrap_hash_nil, lemma_wrap_hash_push, prepend_exprs,
    prepend_names, spec_parse_array_literal, spec_parse_call, spec_parse_expression,
    spec_parse_expression_list, spec_parse_expression_list_items, spec_parse_expression_node,
    spec_parse_fn, spec_parse_fn_param, spec_parse_fn_param_items, spec_parse_group,
    spec_parse_hash_items, spec_parse_hash_literal, spec_parse_index, spec_parse_infix,
    spec_parse_infix_loop, spec_parse_infix_node, spec_parse_prefix,
    spec_parse_prefix_production, wrap_hash, POut};
use crate::parser::{pmeasure, pstate, token_type_eq, Parser};
use crate::text::chars_of;
use crate::token::TokenType;

verus! {

/// Operator precedence, lowest first. `Invalid` marks a token that is no
/// infix operator at all.
#[derive(Debug, Copy, Clone, PartialEq, Eq, Structural)]
pub enum OrderOfOps {
    Invalid,
    Lowest,
    Equals,
    LessGreater,
    Sum,
    Product,
    Prefix,
    Call,
    Index,
}

/// The numeric level of a precedence, for comparison.
pub open spec fn spec_level(o: OrderOfOps) -> int {
    match o {
        OrderOfOps::Invalid => 0,
        OrderOfOps::Lowest => 1,
        OrderOfOps::Equals => 2,
        OrderOfOps::LessGreater => 3,
        OrderOfOps::Sum => 4,
        OrderOfOps::Product => 5,
        OrderOfOps::Prefix => 6,
        OrderOfOps::Call => 7,
        OrderOfOps::Index => 8,
    }
}

/// The numeric level of a precedence.
pub fn level(o: OrderOfOps) -> (r: u8)
    ensures
        r as int == spec_level(o),
{
    match o {
        OrderOfOps::Invalid => 0,
        OrderOfOps::Lowest => 1,
        OrderOfOps::Equals => 2,
        OrderOfOps::LessGreater => 3,
        OrderOfOps::Sum => 4,
        OrderOfOps::Product => 5,
        OrderOfOps::Prefix => 6,
        OrderOfOps::Call => 7,
        OrderOfOps::Index => 8,
    }
}

/// The precedence a token owns as an infix operator.
pub open spec fn spec_order_of_operation(token_type: TokenType) -> OrderOfOps {
    match token_type {
        TokenType::Equal => OrderOfOps::Equals,
        TokenType::NotEqual => OrderOfOps::Equals,
        TokenType::LessThan => OrderOfOps::LessGreater,
        TokenType::GreaterThan => OrderOfOps::LessGreater,
        TokenType::Plus => OrderOfOps::Sum,
        TokenType::Minus => OrderOfOps::Sum,
        TokenType::Asterisk => OrderOfOps::Product,
        TokenType::Slash => OrderOfOps::Product,
        TokenType::LeftParen => OrderOfOps::Call,
        TokenType::LeftBracket => OrderOfOps::Index,
        _ => OrderOfOps::Invalid,
    }
}

/// Whether a character sequence is all ASCII digits.
pub open spec fn all_digits(s: Seq<char>) -> bool {
    forall|i: int| 0 <= i < s.len() ==> crate::helper::spec_is_digit(#[trigger] s[i])
}

/// The numeric value of a digit run, most significant digit first.
pub open spec fn digits_val(s: Seq<char>) -> int
    decreases s.len(),
{
    if s.len() == 0 {
        0
    } else {
        digits_val(s.drop_last()) * 10 + (s.last() as int - '0' as int)
    }
}

/// What an integer literal's text denotes: its value, provided the text is
/// a non-empty digit run whose value fits the integer type.
pub open spec fn int_literal_val(s: Seq<char>) -> Option<int> {
    if s.len() > 0 && all_digits(s) && digits_val(s) <= i64::MAX {
        Some(digits_val(s))
    } else {
        None
    }
}

/// The value of a digit run is never negative.
proof fn lemma_digits_val_nonneg(s: Seq<char>)
    requires
        all_digits(s),
    ensures
        digits_val(s) >= 0,
    decreases s.len(),
{
    if s.len() > 0 {
        assert(all_digits(s.drop_last()));
        lemma_digits_val_nonneg(s.drop_last());
    }
}

/// Extending a digit run only grows its value.
proof fn lemma_digits_val_monotone(s: Seq<char>, i: int)
    requires
        all_digits(s),
        0 <= i <= s.len(),
    ensures
        digits_val(s.subrange(0, i)) <= digits_val(s),
    decreases s.len() - i,
{
    if i < s.len() {
        let t = s.subrange(0, i + 1);
        assert(t.drop_last() =~= s.subrange(0, i));
        assert(all_digits(t));
        assert(all_digits(s.subrange(0, i)));
        lemma_digits_val_nonneg(s.subrange(0, i));
        assert(digits_val(t) == digits_val(s.subrange(0, i)) * 10 + (t.last() as int
            - '0' as int));
        assert(digits_val(s.subrange(0, i)) <= digits_val(t));
        lemma_digits_val_monotone(s, i + 1);
        assert(s.subrange(0, s.len() as int) =~= s);
    } else {
        assert(s.subrange(0, i) =~= s);
    }
}

/// Reads a non-empty digit run as an integer, refusing any other text and
/// any value that does not fit.
fn parse_digit_run(s: &str) -> (r: Option<i64>)
    ensures
        r matches Some(v) ==> int_literal_val(s@) == Some(v as int),
        r is None ==> int_literal_val(s@) is None,
{
    let chars = chars_of(s);
    if chars.len() == 0 {
        return None;
    }
    let mut acc: i64 = 0;
    let mut i: usize = 0;
    while i < chars.len()
        invariant
            i <= chars@.len(),
            chars@ == s@,
            0 <= acc,
            all_digits(s@.subrange(0, i as int)),
            acc as int == digits_val(s@.subrange(0, i as int)),
        decreases chars@.len() - i,
    {
        let c = chars[i];
        if !crate::helper::is_digit(c) {
            proof {
                assert(!all_digits(s@));
            }
            return None;
        }
        let d = (c as u32) - ('0' as u32);
        proof {
            assert(0 <= d <= 9);
        }
        if acc > (i64::MAX - (d as i64)) / 10 {
            proof {
                let t = s@.subrange(0, i + 1 as int);
                assert(t.drop_last() =~= s@.subrange(0, i as int));
                assert(t.last() == s@[i as int]);
                assert(all_digits(t));
                assert(digits_val(t) == acc as int * 10 + d);
                assert(digits_val(t) > i64::MAX);
                if all_digits(s@) {
                    lemma_digits_val_monotone(s@, i + 1);
                }
            }
            return None;
        }
        let ghost acc0 = acc as int;
        acc = acc * 10 + (d as i64);
        proof {
            let t = s@.subrange(0, i + 1 as int);
            assert(t.drop_last() =~= s@.subrange(0, i as int));
            assert(t.last() == s@[i as int]);
            assert(all_digits(t));
            assert(acc as int == digits_val(t));
        }
        i = i + 1;
    }
    proof {
        assert(s@.subrange(0, s@.len() as int) =~= s@);
    }
    Some(acc)
}

impl Parser {
    /// An expression statement: one expression, then a step past its last
    /// token.
    #[verifier::rlimit(100)]
    pub fn parse_expression(&mut self) -> (r: Result<StatementNode, Error>)
        requires
            old(self).wf(),
        ensures
            final(self).wf(),
            pmeasure(*final(self)) <= pmeasure(*old(self)),
            r is Ok ==> pmeasure(*final(self)) < pmeasure(*old(self)),
            r matches Ok(s) ==> s is Expression,
            r matches Ok(s) ==> spec_parse_expression(pstate(*old(self))) == POut::<
                crate::ast::StmtModel,
            >::Parsed(s@, pstate(*final(self))),
            r matches Err(e) ==> spec_parse_expression(pstate(*old(self))) == POut::<
                crate::ast::StmtModel,
            >::Failed(e@),
        decreases pmeasure(*old(self)), 4int,
    {
        let expression = match self.parse_expression_node(OrderOfOps::Lowest) {
            Ok(e) => e,
            Err(e) => {
                return Err(e);
            },
        };
        match self.next() {
            Ok(()) => {
            },
            Err(e) => {
                return Err(e);
            },
        }
        Ok(StatementNode::Expression { expression })
    }

    /// The precedence a token owns as an infix operator.
    pub fn order_of_operation(&self, token_type: TokenType) -> (r: OrderOfOps)
        ensures
            r == spec_order_of_operation(token_type),
    {
        match token_type {
            TokenType::Equal | TokenType::NotEqual => OrderOfOps::Equals,
            TokenType::LessThan | TokenType::GreaterThan => OrderOfOps::LessGreater,
            TokenType::Plus | TokenType::Minus => OrderOfOps::Sum,
            TokenType::Asterisk | TokenType::Slash => OrderOfOps::Product,
            TokenType::LeftParen => OrderOfOps::Call,
            TokenType::LeftBracket => OrderOfOps::Index,
            _ => OrderOfOps::Invalid,
        }
    }

    /// One expression: the current token's prefix production, then infix
    /// productions while the upcoming operator binds tighter than the
    /// threshold.
    #[verifier::rlimit(100)]
    #[verifier::spinoff_prover]
    pub fn parse_expression_node(&mut self, precedence: OrderOfOps) -> (r: Result<
        Box<ExpressionNode>,
        Error,
    >)
        requires
            old(self).wf(),
        ensures
            final(self).wf(),
            pmeasure(*final(self)) <= pmeasure(*old(self)),
            r is Ok ==> pmeasure(*final(self)) < pmeasure(*old(self)) || (*final(self) == *old(self) && old(self).token_current@.token_type != TokenType::EndOfFile),
            r matches Ok(e) ==> spec_parse_expression_node(pstate(*old(self)), precedence)
                == POut::<ExprModel>::Parsed(e@, pstate(*final(self))),
            r matches Err(er) ==> spec_parse_expression_node(pstate(*old(self)), precedence)
                == POut::<ExprModel>::Failed(er@),
        decreases pmeasure(*old(self)), 3int,
    {
        let mut left_result: Box<ExpressionNode> = match self.current().token_type {
            TokenType::Identifier => match self.parse_identifier() {
                Ok(e) => e,
                Err(e) => {
                    return Err(e);
                },
            },
            TokenType::Integer => match self.parse_integer_literal() {
                Ok(e) => e,
                Err(e) => {
                    return Err(e);
                },
            },
            TokenType::Bang => match self.parse_prefix(Operator::Not) {
                Ok(e) => e,
                Err(e) => {
                    return Err(e);
                },
            },
            TokenType::Minus => match self.parse_prefix(Operator::Neg) {
                Ok(e) => e,
                Err(e) => {
                    return Err(e);
                },
            },
            TokenType::True => match self.parse_bool() {
                Ok(e) => e,
                Err(e) => {
                    return Err(e);
                },
            },
            TokenType::False => match self.parse_bool() {
                Ok(e) => e,
                Err(e) => {
                    return Err(e);
                },
            },
            TokenType::LeftParen => match self.parse_group() {
                Ok(e) => e,
                Err(e) => {
                    return Err(e);
                },
            },
            TokenType::Function => match self.parse_fn() {
                Ok(e) => e,
                Err(e) => {
                    return Err(e);
                },
            },
            TokenType::String => match self.parse_string() {
                Ok(e) => e,
                Err(e) => {
                    return Err(e);
                },
            },
            TokenType::LeftBracket => match self.parse_array_literal() {
                Ok(e) => e,
                Err(e) => {
                    return Err(e);
                },
            },
            TokenType::LeftBrace => match self.parse_hash_literal() {
                Ok(e) => e,
                Err(e) => {
                    return Err(e);
                },
            },
            _ => {
                return Err(Error::InvalidTokenError(self.current().clone()));
            },
        };
        proof {
            assert(spec_parse_prefix_production(pstate(*old(self))) == POut::<
                ExprModel,
            >::Parsed(left_result@, pstate(*self)));
            assert(spec_parse_expression_node(pstate(*old(self)), precedence)
                == spec_parse_infix_loop(pstate(*self), left_result@, precedence));
        }
        let precedence_order = level(precedence);
        while !token_type_eq(self.peek().token_type, TokenType::Semicolon) && precedence_order
            < level(self.order_of_operation(self.peek().token_type))
            invariant
                self.wf(),
                pmeasure(*self) <= pmeasure(*old(self)),
                pmeasure(*self) < pmeasure(*old(self)) || (*self == *old(self) && old(self).token_current@.token_type != TokenType::EndOfFile),
                precedence_order as int == spec_level(precedence),
                spec_parse_infix_loop(pstate(*self), left_result@, precedence)
                    == spec_parse_expression_node(pstate(*old(self)), precedence),
            decreases pmeasure(*self),
        {
            let ghost st_top = pstate(*self);
            let ghost left_top = left_result@;
            proof {
                assert(spec_level(
                    spec_order_of_operation(self.token_peek@.token_type),
                ) > 0);
                assert(self.token_peek@.token_type != TokenType::EndOfFile);
                assert(self.token_current@.token_type != TokenType::EndOfFile);
            }
            match self.next() {
                Ok(()) => {
                },
                Err(e) => {
                    return Err(e);
                },
            }
            let infix = match self.parse_infix_node(left_result) {
                Ok(e) => e,
                Err(e) => {
                    return Err(e);
                },
            };
            left_result = infix;
            proof {
                assert(spec_parse_infix_loop(st_top, left_top, precedence)
                    == spec_parse_infix_loop(pstate(*self), left_result@, precedence));
            }
        }
        proof {
            assert(spec_parse_infix_loop(pstate(*self), left_result@, precedence) == POut::<
                ExprModel,
            >::Parsed(left_result@, pstate(*self)));
        }
        Ok(left_result)
    }

    /// The expression form of the current identifier token.
    pub fn parse_identifier(&self) -> (r: Result<Box<ExpressionNode>, Error>)
        ensures
            r matches Ok(e) ==> e@ == ExprModel::Identifier(self.token_current@.literal),
            r is Ok,
    {
        let result = ExpressionNode::Identifier(Identifier(self.current().literal.clone()));
        Ok(Box::new(result))
    }

    /// The infix production the current operator token owns.
    #[verifier::rlimit(100)]
    fn parse_infix_node(&mut self, left: Box<ExpressionNode>) -> (r: Result<
        Box<ExpressionNode>,
        Error,
    >)
        requires
            old(self).wf(),
        ensures
            final(self).wf(),
            pmeasure(*final(self)) <= pmeasure(*old(self)),
            r matches Ok(e) ==> spec_parse_infix_node(pstate(*old(self)), left@) == POut::<
                ExprModel,
            >::Parsed(e@, pstate(*final(self))),
            r matches Err(er) ==> spec_parse_infix_node(pstate(*old(self)), left@) == POut::<
                ExprModel,
            >::Failed(er@),
        decreases pmeasure(*old(self)), 2int,
    {
        match self.current().token_type {
            TokenType::Plus => self.parse_infix(left, Operator::Add),
            TokenType::Minus => self.parse_infix(left, Operator::Sub),
            TokenType::Slash => self.parse_infix(left, Operator::Div),
            TokenType::Asterisk => self.parse_infix(left, Operator::Mul),
            TokenType::Equal => self.parse_infix(left, Operator::Equal),
            TokenType::NotEqual => self.parse_infix(left, Operator::NotEqual),
            TokenType::LessThan => self.parse_infix(left, Operator::Less),
            TokenType::GreaterThan => self.parse_infix(left, Operator::Greater),
            TokenType::LeftParen => self.parse_call(left, Operator::Call),
            TokenType::LeftBracket => self.parse_index(left, Operator::Index),
            _ => Err(Error::InvalidTokenError(self.current().clone())),
        }
    }

    /// `!` or unary `-`: the operator, then its operand at prefix
    /// precedence.
    #[verifier::rlimit(100)]
    fn parse_prefix(&mut self, operator: Operator) -> (r: Result<Box<ExpressionNode>, Error>)
        requires
            old(self).wf(),
            old(self).token_current@.token_type != TokenType::EndOfFile,
        ensures
            final(self).wf(),
            pmeasure(*final(self)) <= pmeasure(*old(self)),
            r is Ok ==> pmeasure(*final(self)) < pmeasure(*old(self)),
            r matches Ok(e) ==> (e@ matches ExprModel::Prefix { operator: o, expression: _x } && o
                == operator),
            r matches Ok(e) ==> spec_parse_prefix(pstate(*old(self)), operator)
                == POut::<ExprModel>::Parsed(e@, pstate(*final(self))),
            r matches Err(er) ==> spec_parse_prefix(pstate(*old(self)), operator)
                == POut::<ExprModel>::Failed(er@),
        decreases pmeasure(*old(self)), 2int,
    {
        match self.next() {
            Ok(()) => {
            },
            Err(e) => {
                return Err(e);
            },
        }
        let expression = match self.parse_expression_node(OrderOfOps::Prefix) {
            Ok(e) => e,
            Err(e) => {
                return Err(e);
            },
        };
        Ok(Box::new(ExpressionNode::Prefix { operator, expression }))
    }

    /// A binary operator: its right operand is parsed at the operator's
    /// own precedence, making the operators left-associative.
    #[verifier::rlimit(100)]
    fn parse_infix(&mut self, left: Box<ExpressionNode>, operator: Operator) -> (r: Result<
        Box<ExpressionNode>,
        Error,
    >)
        requires
            old(self).wf(),
            old(self).token_current@.token_type != TokenType::EndOfFile,
        ensures
            final(self).wf(),
            pmeasure(*final(self)) <= pmeasure(*old(self)),
            r matches Ok(e) ==> (e@ matches ExprModel::Infix { operator: o, left: l, right: _x }
                && o == operator && *l == left@),
            r matches Ok(e) ==> spec_parse_infix(pstate(*old(self)), left@, operator)
                == POut::<ExprModel>::Parsed(e@, pstate(*final(self))),
            r matches Err(er) ==> spec_parse_infix(pstate(*old(self)), left@, operator)
                == POut::<ExprModel>::Failed(er@),
        decreases pmeasure(*old(self)), 1int,
    {
        let precedence = self.order_of_operation(self.current().token_type);
        match self.next() {
            Ok(()) => {
            },
            Err(e) => {
                return Err(e);
            },
        }
        let right = match self.parse_expression_node(precedence) {
            Ok(e) => e,
            Err(e) => {
                return Err(e);
            },
        };
        Ok(Box::new(ExpressionNode::Infix { operator, left, right }))
    }

    /// `( <expression> )`: resets the precedence threshold inside.
    #[verifier::rlimit(100)]
    fn parse_group(&mut self) -> (r: Result<Box<ExpressionNode>, Error>)
        requires
            old(self).wf(),
            old(self).token_current@.token_type != TokenType::EndOfFile,
        ensures
            final(self).wf(),
            pmeasure(*final(self)) <= pmeasure(*old(self)),
            r is Ok ==> pmeasure(*final(self)) < pmeasure(*old(self)),
            r matches Ok(e) ==> spec_parse_group(pstate(*old(self))) == POut::<
                ExprModel,
            >::Parsed(e@, pstate(*final(self))),
            r matches Err(er) ==> spec_parse_group(pstate(*old(self))) == POut::<
                ExprModel,
            >::Failed(er@),
        decreases pmeasure(*old(self)), 2int,
    {
        match self.next() {
            Ok(()) => {
            },
            Err(e) => {
                return Err(e);
            },
        }
        let expression = match self.parse_expression_node(OrderOfOps::Lowest) {
            Ok(e) => e,
            Err(e) => {
                return Err(e);
            },
        };
        match self.next() {
            Ok(()) => {
            },
            Err(e) => {
                return Err(e);
            },
        }
        Ok(expression)
    }

    /// `fn ( <params> ) { <body> }`.
    #[verifier::rlimit(100)]
    #[verifier::spinoff_prover]
    fn parse_fn(&mut self) -> (r: Result<Box<ExpressionNode>, Error>)
        requires
            old(self).wf(),
            old(self).token_current@.token_type != TokenType::EndOfFile,
        ensures
            final(self).wf(),
            pmeasure(*final(self)) <= pmeasure(*old(self)),
            r is Ok ==> pmeasure(*final(self)) < pmeasure(*old(self)),
            r matches Ok(e) ==> e@ is Function,
            r matches Ok(e) ==> spec_parse_fn(pstate(*old(self))) == POut::<ExprModel>::Parsed(
                e@,
                pstate(*final(self)),
            ),
            r matches Err(er) ==> spec_parse_fn(pstate(*old(self))) == POut::<
                ExprModel,
            >::Failed(er@),
        decreases pmeasure(*old(self)), 2int,
    {
        match self.next() {
            Ok(()) => {
            },
            Err(e) => {
                return Err(e);
            },
        }
        match self.expect(TokenType::LeftParen) {
            Ok(()) => {
            },
            Err(e) => {
                return Err(e);
            },
        }
        let params = match self.parse_fn_param() {
            Ok(p) => p,
            Err(e) => {
                return Err(e);
            },
        };
        match self.expect(TokenType::RightParen) {
            Ok(()) => {
            },
            Err(e) => {
                return Err(e);
            },
        }
        match self.expect(TokenType::LeftBrace) {
            Ok(()) => {
            },
            Err(e) => {
                return Err(e);
            },
        }
        let body = match self.parse_program() {
            Ok(p) => p,
            Err(e) => {
                return Err(e);
            },
        };
        if token_type_eq(self.peek().token_type, TokenType::Semicolon) {
            match self.expect(TokenType::RightBrace) {
                Ok(()) => {
                },
                Err(e) => {
                    return Err(e);
                },
            }
        }
        Ok(Box::new(ExpressionNode::Function { params, body }))
    }

    /// A comma-separated identifier list, empty allowed.
    #[verifier::rlimit(100)]
    fn parse_fn_param(&mut self) -> (r: Result<Vec<Identifier>, Error>)
        requires
            old(self).wf(),
        ensures
            final(self).wf(),
            pmeasure(*final(self)) <= pmeasure(*old(self)),
            r matches Ok(ps) ==> spec_parse_fn_param(pstate(*old(self))) == POut::<
                Seq<Seq<char>>,
            >::Parsed(crate::ast::view_idents(ps@), pstate(*final(self))),
            r matches Err(e) ==> spec_parse_fn_param(pstate(*old(self))) == POut::<
                Seq<Seq<char>>,
            >::Failed(e@),
    {
        let mut result: Vec<Identifier> = Vec::new();
        if token_type_eq(self.current().token_type, TokenType::RightParen) {
            proof {
                assert(crate::ast::view_idents(result@) =~= Seq::<Seq<char>>::empty());
            }
            return Ok(result);
        }
        proof {
            lemma_prepend_names_nil(spec_parse_fn_param_items(pstate(*self)));
            assert(crate::ast::view_idents(result@) =~= Seq::<Seq<char>>::empty());
        }
        loop
            invariant_except_break
                prepend_names(
                    crate::ast::view_idents(result@),
                    spec_parse_fn_param_items(pstate(*self)),
                ) == spec_parse_fn_param(pstate(*old(self))),
            invariant
                self.wf(),
                pmeasure(*self) <= pmeasure(*old(self)),
            ensures
                self.wf(),
                pmeasure(*self) <= pmeasure(*old(self)),
                spec_parse_fn_param(pstate(*old(self))) == POut::<Seq<Seq<char>>>::Parsed(
                    crate::ast::view_idents(result@),
                    pstate(*self),
                ),
            decreases pmeasure(*self),
        {
            let ghost st_top = pstate(*self);
            let ghost acc_top = crate::ast::view_idents(result@);
            let ghost name_top = self.token_current@.literal;
            result.push(Identifier(self.current().literal.clone()));
            proof {
                assert(crate::ast::view_idents(result@) =~= acc_top.push(name_top));
            }
            match self.next() {
                Ok(()) => {
                },
                Err(e) => {
                    return Err(e);
                },
            }
            if token_type_eq(self.current().token_type, TokenType::RightParen) {
                proof {
                    assert(spec_parse_fn_param_items(st_top) == POut::<
                        Seq<Seq<char>>,
                    >::Parsed(seq![name_top], pstate(*self)));
                    assert(acc_top + seq![name_top] =~= acc_top.push(name_top));
                }
                break ;
            }
            match self.expect(TokenType::Comma) {
                Ok(()) => {
                },
                Err(e) => {
                    return Err(e);
                },
            }
            proof {
                assert(spec_parse_fn_param_items(st_top) == (match spec_parse_fn_param_items(
                    pstate(*self),
                ) {
                    POut::Parsed(rest, st3) => POut::<Seq<Seq<char>>>::Parsed(
                        seq![name_top] + rest,
                        st3,
                    ),
                    POut::Failed(er) => POut::Failed(er),
                    POut::Stalled => POut::Stalled,
                }));
                lemma_prepend_names_push(
                    acc_top,
                    name_top,
                    spec_parse_fn_param_items(pstate(*self)),
                );
            }
        }
        Ok(result)
    }

    /// A call: `(` has been seen as an infix token; the arguments follow.
    #[verifier::rlimit(100)]
    fn parse_call(&mut self, function: Box<ExpressionNode>, _operator: Operator) -> (r: Result<
        Box<ExpressionNode>,
        Error,
    >)
        requires
            old(self).wf(),
        ensures
            final(self).wf(),
            pmeasure(*final(self)) <= pmeasure(*old(self)),
            r matches Ok(e) ==> e@ is Call,
            r matches Ok(e) ==> spec_parse_call(pstate(*old(self)), function@) == POut::<
                ExprModel,
            >::Parsed(e@, pstate(*final(self))),
            r matches Err(er) ==> spec_parse_call(pstate(*old(self)), function@) == POut::<
                ExprModel,
            >::Failed(er@),
        decreases pmeasure(*old(self)), 1int,
    {
        match self.expect(TokenType::LeftParen) {
            Ok(()) => {
            },
            Err(e) => {
                return Err(e);
            },
        }
        let params = match self.parse_expression_list(TokenType::RightParen) {
            Ok(p) => p,
            Err(e) => {
                return Err(e);
            },
        };
        Ok(Box::new(ExpressionNode::Call { function, params }))
    }

    /// An index expression: `[` has been seen as an infix token.
    #[verifier::rlimit(100)]
    fn parse_index(&mut self, left: Box<ExpressionNode>, _operator: Operator) -> (r: Result<
        Box<ExpressionNode>,
        Error,
    >)
        requires
            old(self).wf(),
        ensures
            final(self).wf(),
            pmeasure(*final(self)) <= pmeasure(*old(self)),
            r matches Ok(e) ==> e@ is Index,
            r matches Ok(e) ==> spec_parse_index(pstate(*old(self)), left@) == POut::<
                ExprModel,
            >::Parsed(e@, pstate(*final(self))),
            r matches Err(er) ==> spec_parse_index(pstate(*old(self)), left@) == POut::<
                ExprModel,
            >::Failed(er@),
        decreases pmeasure(*old(self)), 1int,
    {
        match self.expect(TokenType::LeftBracket) {
            Ok(()) => {
            },
            Err(e) => {
                return Err(e);
            },
        }
        let index = match self.parse_expression_node(OrderOfOps::Lowest) {
            Ok(e) => e,
            Err(e) => {
                return Err(e);
            },
        };
        match self.next() {
            Ok(()) => {
            },
            Err(e) => {
                return Err(e);
            },
        }
        Ok(Box::new(ExpressionNode::Index { left, index }))
    }

    /// A comma-separated expression list up to `end_token`, empty allowed.
    #[verifier::rlimit(100)]
    fn parse_expression_list(&mut self, end_token: TokenType) -> (r: Result<
        Vec<Box<ExpressionNode>>,
        Error,
    >)
        requires
            old(self).wf(),
        ensures
            final(self).wf(),
            pmeasure(*final(self)) <= pmeasure(*old(self)),
            r matches Ok(vs) ==> spec_parse_expression_list(pstate(*old(self)), end_token)
                == POut::<Seq<ExprModel>>::Parsed(
                crate::ast::view_exprs(vs@),
                pstate(*final(self)),
            ),
            r matches Err(e) ==> spec_parse_expression_list(pstate(*old(self)), end_token)
                == POut::<Seq<ExprModel>>::Failed(e@),
        decreases pmeasure(*old(self)), 4int,
    {
        let mut result: Vec<Box<ExpressionNode>> = Vec::new();
        if token_type_eq(self.current().token_type, end_token) {
            proof {
                assert(crate::ast::view_exprs(result@) =~= Seq::<ExprModel>::empty());
            }
            return Ok(result);
        }
        proof {
            lemma_prepend_exprs_nil(spec_parse_expression_list_items(pstate(*self), end_token));
            assert(crate::ast::view_exprs(result@) =~= Seq::<ExprModel>::empty());
        }
        loop
            invariant_except_break
                prepend_exprs(
                    crate::ast::view_exprs(result@),
                    spec_parse_expression_list_items(pstate(*self), end_token),
                ) == spec_parse_expression_list(pstate(*old(self)), end_token),
            invariant
                self.wf(),
                pmeasure(*self) <= pmeasure(*old(self)),
            ensures
                self.wf(),
                pmeasure(*self) <= pmeasure(*old(self)),
                spec_parse_expression_list(pstate(*old(self)), end_token) == POut::<
                    Seq<ExprModel>,
                >::Parsed(crate::ast::view_exprs(result@), pstate(*self)),
            decreases pmeasure(*self),
        {
            let ghost st_top = pstate(*self);
            let ghost acc_top = crate::ast::view_exprs(result@);
            let e = match self.parse_expression_node(OrderOfOps::Lowest) {
                Ok(e) => e,
                Err(e) => {
                    return Err(e);
                },
            };
            let ghost result_before = result@;
            result.push(e);
            proof {
                crate::ast::lemma_view_exprs_push(result_before, e);
            }
            match self.next() {
                Ok(()) => {
                },
                Err(e) => {
                    return Err(e);
                },
            }
            if token_type_eq(self.current().token_type, end_token) {
                proof {
                    assert(spec_parse_expression_list_items(st_top, end_token) == POut::<
                        Seq<ExprModel>,
                    >::Parsed(seq![e@], pstate(*self)));
                    assert(acc_top + seq![e@] =~= acc_top.push(e@));
                }
                break ;
            }
            match self.expect(TokenType::Comma) {
                Ok(()) => {
                },
                Err(e) => {
                    return Err(e);
                },
            }
            proof {
                assert(spec_parse_expression_list_items(st_top, end_token) == (
                match spec_parse_expression_list_items(pstate(*self), end_token) {
                    POut::Parsed(rest, st4) => POut::<Seq<ExprModel>>::Parsed(
                        seq![e@] + rest,
                        st4,
                    ),
                    POut::Failed(er) => POut::Failed(er),
                    POut::Stalled => POut::Stalled,
                }));
                lemma_prepend_exprs_push(
                    acc_top,
                    e@,
                    spec_parse_expression_list_items(pstate(*self), end_token),
                );
            }
        }
        Ok(result)
    }

    /// The expression form of the current integer token: its digits read as
    /// a number; text that is not a fitting digit run aborts the parse.
    pub fn parse_integer_literal(&mut self) -> (r: Result<Box<ExpressionNode>, Error>)
        ensures
            *final(self) == *old(self),
            r matches Ok(e) ==> (int_literal_val(old(self).token_current@.literal) matches Some(v)
                && e@ == ExprModel::Int(v)),
            r is Err ==> int_literal_val(old(self).token_current@.literal) is None,
            r matches Err(er) ==> er@ == ErrorModel::InvalidTokenError(
                old(self).token_current@,
            ),
    {
        match parse_digit_run(self.current().literal.as_str()) {
            Some(value) => Ok(Box::new(ExpressionNode::Int(value))),
            None => Err(Error::InvalidTokenError(self.current().clone())),
        }
    }

    /// The expression form of the current boolean keyword token.
    pub fn parse_bool(&mut self) -> (r: Result<Box<ExpressionNode>, Error>)
        ensures
            *final(self) == *old(self),
            r matches Ok(e) ==> e@ == ExprModel::Bool(
                old(self).token_current@.token_type == TokenType::True,
            ),
            r is Ok,
    {
        let value = match self.current().token_type {
            TokenType::True => true,
            TokenType::False => false,
            _ => false,
        };
        Ok(Box::new(ExpressionNode::Bool(value)))
    }

    /// The expression form of the current string token: its decoded text.
    fn parse_string(&self) -> (r: Result<Box<ExpressionNode>, Error>)
        ensures
            r matches Ok(e) ==> e@ == ExprModel::Str(self.token_current@.literal),
            r is Ok,
    {
        Ok(Box::new(ExpressionNode::String(self.current().literal.clone())))
    }

    /// `[ <elements> ]`, empty allowed.
    #[verifier::rlimit(100)]
    fn parse_array_literal(&mut self) -> (r: Result<Box<ExpressionNode>, Error>)
        requires
            old(self).wf(),
            old(self).token_current@.token_type != TokenType::EndOfFile,
        ensures
            final(self).wf(),
            pmeasure(*final(self)) <= pmeasure(*old(self)),
            r is Ok ==> pmeasure(*final(self)) < pmeasure(*old(self)),
            r matches Ok(e) ==> e@ is ArrayLiteral,
            r matches Ok(e) ==> spec_parse_array_literal(pstate(*old(self))) == POut::<
                ExprModel,
            >::Parsed(e@, pstate(*final(self))),
            r matches Err(er) ==> spec_parse_array_literal(pstate(*old(self))) == POut::<
                ExprModel,
            >::Failed(er@),
        decreases pmeasure(*old(self)), 2int,
    {
        match self.expect(TokenType::LeftBracket) {
            Ok(()) => {
            },
            Err(e) => {
                return Err(e);
            },
        }
        let params = match self.parse_expression_list(TokenType::RightBracket) {
            Ok(p) => p,
            Err(e) => {
                return Err(e);
            },
        };
        Ok(Box::new(ExpressionNode::ArrayLiteral { params }))
    }

    /// `{ <key> : <value> , ... }`, empty allowed; the pairs are kept in
    /// encounter order.
    #[verifier::rlimit(100)]
    #[verifier::spinoff_prover]
    fn parse_hash_literal(&mut self) -> (r: Result<Box<ExpressionNode>, Error>)
        requires
            old(self).wf(),
            old(self).token_current@.token_type != TokenType::EndOfFile,
        ensures
            final(self).wf(),
            pmeasure(*final(self)) <= pmeasure(*old(self)),
            r is Ok ==> pmeasure(*final(self)) < pmeasure(*old(self)),
            r matches Ok(e) ==> e@ is HashLiteral,
            r matches Ok(e) ==> spec_parse_hash_literal(pstate(*old(self))) == POut::<
                ExprModel,
            >::Parsed(e@, pstate(*final(self))),
            r matches Err(er) ==> spec_parse_hash_literal(pstate(*old(self))) == POut::<
                ExprModel,
            >::Failed(er@),
        decreases pmeasure(*old(self)), 2int,
    {
        let mut params: Vec<(Box<ExpressionNode>, Box<ExpressionNode>)> = Vec::new();
        match self.expect(TokenType::LeftBrace) {
            Ok(()) => {
            },
            Err(e) => {
                return Err(e);
            },
        }
        if token_type_eq(self.current().token_type, TokenType::RightBrace) {
            proof {
                assert(crate::ast::view_pairs(params@) =~= Seq::<
                    (ExprModel, ExprModel),
                >::empty());
            }
            return Ok(Box::new(ExpressionNode::HashLiteral { params }));
        }
        proof {
            lemma_wrap_hash_nil(spec_parse_hash_items(pstate(*self)));
            assert(crate::ast::view_pairs(params@) =~= Seq::<(ExprModel, ExprModel)>::empty());
        }
        loop
            invariant_except_break
                wrap_hash(
                    crate::ast::view_pairs(params@),
                    spec_parse_hash_items(pstate(*self)),
                ) == spec_parse_hash_literal(pstate(*old(self))),
            invariant
                self.wf(),
                pmeasure(*self) < pmeasure(*old(self)),
            ensures
                self.wf(),
                pmeasure(*self) < pmeasure(*old(self)),
                spec_parse_hash_literal(pstate(*old(self))) == POut::<ExprModel>::Parsed(
                    ExprModel::HashLiteral { params: crate::ast::view_pairs(params@) },
                    pstate(*self),
                ),
            decreases pmeasure(*self),
        {
            let ghost st_top = pstate(*self);
            let ghost acc_top = crate::ast::view_pairs(params@);
            let key = match self.parse_expression_node(OrderOfOps::Lowest) {
                Ok(e) => e,
                Err(e) => {
                    return Err(e);
                },
            };
            match self.next() {
                Ok(()) => {
                },
                Err(e) => {
                    return Err(e);
                },
            }
            match self.expect(TokenType::Colon) {
                Ok(()) => {
                },
                Err(e) => {
                    return Err(e);
                },
            }
            let val = match self.parse_expression_node(OrderOfOps::Lowest) {
                Ok(e) => e,
                Err(e) => {
                    return Err(e);
                },
            };
            match self.next() {
                Ok(()) => {
                },
                Err(e) => {
                    return Err(e);
                },
            }
            let ghost params_before = params@;
            params.push((key, val));
            proof {
                crate::ast::lemma_view_pairs_push(params_before, (key, val));
            }
            if token_type_eq(self.current().token_type, TokenType::RightBrace) {
                proof {
                    assert(spec_parse_hash_items(st_top) == POut::<
                        Seq<(ExprModel, ExprModel)>,
                    >::Parsed(seq![(key@, val@)], pstate(*self)));
                    assert(acc_top + seq![(key@, val@)] =~= acc_top.push((key@, val@)));
                }
                break ;
            }
            match self.expect(TokenType::Comma) {
                Ok(()) => {
                },
                Err(e) => {
                    return Err(e);
                },
            }
            proof {
                assert(spec_parse_hash_items(st_top) == (match spec_parse_hash_items(
                    pstate(*self),
                ) {
                    POut::Parsed(rest, st7) => POut::<Seq<(ExprModel, ExprModel)>>::Parsed(
                        seq![(key@, val@)] + rest,
                        st7,
                    ),
                    POut::Failed(er) => POut::Failed(er),
                    POut::Stalled => POut::Stalled,
                }));
                lemma_wrap_hash_push(
                    acc_top,
                    (key@, val@),
                    spec_parse_hash_items(pstate(*self)),
                );
            }
        }
        Ok(Box::new(ExpressionNode::HashLiteral { params }))
    }
}

} // verus!
