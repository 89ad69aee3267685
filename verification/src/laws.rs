//! Laws that relate several parts of the library, stated and proved once
//! and for all inputs.

use vstd::prelude::*;

use crate::ast::ExprModel;
use crate::env::EnvModel;
use crate::helper::spec_is_whitespace;
use crate::interpreter::{eval_expr_s, eval_exprs_s, eval_pairs_s, resolve_s};
use crate::lexer::{bounds_ok, digit_len, ident_len, lemma_advance_bounds,
    lemma_digit_len_bound, lemma_ident_len_bound, lemma_next_bounds, lemma_read_progress,
    lemma_skip_ws_bounds, lemma_string_body_bounds, lex_all, lex_ch, spec_next, spec_read,
    spec_skip_ws, LexModel};
use crate::builtin::spec_obj_key;
use crate::object::{HashKeyModel, ObjectModel};
use crate::text::escape_seq;
use crate::token::{TokenModel, TokenType};

verus! {

/// The source spelling a token stands for: a string literal with its quotes
/// and its escapes re-introduced, any other token its literal itself (the
/// end-of-file token's literal is empty).
pub open spec fn token_text(t: TokenModel) -> Seq<char> {
    if t.token_type == TokenType::String {
        seq!['"'] + escape_seq(t.literal) + seq!['"']
    } else {
        t.literal
    }
}

/// The source text as the lexer reads it back: for each token in turn, the
/// whitespace skipped in front of it followed by the token's spelling,
/// ending with the whitespace in front of the end-of-file token.
pub open spec fn spec_rebuild(m: LexModel) -> Seq<char>
    decreases m.input.len() - m.position
        when bounds_ok(m)
        via spec_rebuild_decreases
{
    let step = spec_read(m);
    let gap = m.input.subrange(m.position as int, spec_skip_ws(m).position as int);
    match step.0 {
        Err(e) => Seq::empty(),
        Ok(t) => {
            if t.token_type == TokenType::EndOfFile {
                gap
            } else {
                gap + token_text(t) + spec_rebuild(step.1)
            }
        },
    }
}

#[via_fn]
proof fn spec_rebuild_decreases(m: LexModel) {
    lemma_read_progress(m);
}

/// A token other than a string literal or end-of-file spells exactly the
/// characters the lexer consumed for it, whitespace aside.
proof fn lemma_token_text_exact(m: LexModel)
    requires
        bounds_ok(m),
        spec_read(m).0 is Ok,
        spec_read(m).0->Ok_0.token_type != TokenType::EndOfFile,
        spec_read(m).0->Ok_0.token_type != TokenType::String,
    ensures
        spec_read(m).0->Ok_0.literal == m.input.subrange(
            spec_skip_ws(m).position as int,
            spec_read(m).1.position as int,
        ),
        spec_skip_ws(m).position <= spec_read(m).1.position <= m.input.len(),
{
    lemma_skip_ws_bounds(m);
    let ms = spec_skip_ws(m);
    let c = lex_ch(ms);
    if c == '=' || c == '!' || c == '<' || c == '>' {
        if crate::lexer::lex_peek(ms) == '=' {
            lemma_next_bounds(ms);
            lemma_next_bounds(spec_next(ms));
        } else {
            lemma_next_bounds(ms);
        }
    } else if crate::lexer::single_token_type(c) is Some {
        lemma_next_bounds(ms);
    } else if c == '"' {
    } else if c == '\0' {
    } else if crate::helper::spec_is_identifier(c) {
        lemma_ident_len_bound(ms.input, ms.position);
        lemma_advance_bounds(ms, ident_len(ms.input, ms.position));
    } else if crate::helper::spec_is_digit(c) {
        lemma_digit_len_bound(ms.input, ms.position);
        lemma_advance_bounds(ms, digit_len(ms.input, ms.position));
    } else {
    }
}

/// Whether every string literal of the unread input is spelled
/// canonically: exactly as its decoded text re-escaped and re-quoted. A
/// string written with a raw tab or newline where the escape would stand is
/// not canonical; every other kind of token is indifferent.
pub open spec fn canonical_strings(m: LexModel) -> bool
    decreases m.input.len() - m.position
        when bounds_ok(m)
        via canonical_strings_decreases
{
    let step = spec_read(m);
    match step.0 {
        Err(e) => true,
        Ok(t) => {
            if t.token_type == TokenType::EndOfFile {
                true
            } else {
                &&& (t.token_type == TokenType::String ==> m.input.subrange(
                    spec_skip_ws(m).position as int,
                    step.1.position as int,
                ) == token_text(t))
                &&& canonical_strings(step.1)
            }
        },
    }
}

#[via_fn]
proof fn canonical_strings_decreases(m: LexModel) {
    lemma_read_progress(m);
}

/// Reading any token leaves the cursor at or past the end of the skipped
/// whitespace, within the input.
proof fn lemma_read_positions(m: LexModel)
    requires
        bounds_ok(m),
        spec_read(m).0 is Ok,
    ensures
        spec_skip_ws(m).position <= spec_read(m).1.position <= m.input.len(),
{
    lemma_skip_ws_bounds(m);
    let ms = spec_skip_ws(m);
    let c = lex_ch(ms);
    if c == '=' || c == '!' || c == '<' || c == '>' {
        if crate::lexer::lex_peek(ms) == '=' {
            lemma_next_bounds(ms);
            lemma_next_bounds(spec_next(ms));
        } else {
            lemma_next_bounds(ms);
        }
    } else if crate::lexer::single_token_type(c) is Some {
        lemma_next_bounds(ms);
    } else if c == '"' {
        lemma_next_bounds(ms);
        lemma_string_body_bounds(spec_next(ms), Seq::empty());
        let body = crate::lexer::spec_string_body(spec_next(ms), Seq::empty());
        match body.0 {
            Ok(lit) => {
                lemma_next_bounds(body.1);
            },
            Err(e) => {},
        }
    } else if c == '\0' {
    } else if crate::helper::spec_is_identifier(c) {
        lemma_ident_len_bound(ms.input, ms.position);
        lemma_advance_bounds(ms, ident_len(ms.input, ms.position));
    } else if crate::helper::spec_is_digit(c) {
        lemma_digit_len_bound(ms.input, ms.position);
        lemma_advance_bounds(ms, digit_len(ms.input, ms.position));
    } else {
    }
}

/// A run of tokens without string literals is canonical by itself.
pub proof fn lemma_no_strings_canonical(m: LexModel)
    requires
        bounds_ok(m),
        lex_all(m) is Ok,
        forall|i: int|
            0 <= i < lex_all(m)->Ok_0.len() ==> (#[trigger] lex_all(m)->Ok_0[i]).token_type
                != TokenType::String,
    ensures
        canonical_strings(m),
    decreases m.input.len() - m.position,
{
    lemma_read_progress(m);
    let step = spec_read(m);
    let ts = lex_all(m)->Ok_0;
    let t = step.0->Ok_0;
    assert(ts[0] == t);
    if t.token_type != TokenType::EndOfFile {
        let rest = lex_all(step.1)->Ok_0;
        assert(lex_all(m)->Ok_0 == seq![t] + rest);
        assert forall|i: int| 0 <= i < rest.len() implies (#[trigger] rest[i]).token_type
            != TokenType::String by {
            assert(rest[i] == ts[i + 1]);
        }
        lemma_no_strings_canonical(step.1);
    }
}

/// The rebuilt text equals the unread input, token by token.
proof fn lemma_rebuild_matches(m: LexModel)
    requires
        bounds_ok(m),
        lex_all(m) is Ok,
        canonical_strings(m),
        forall|k: int| m.position <= k < m.input.len() ==> #[trigger] m.input[k] != '\0',
    ensures
        spec_rebuild(m) == m.input.subrange(m.position as int, m.input.len() as int),
    decreases m.input.len() - m.position,
{
    lemma_read_progress(m);
    lemma_skip_ws_bounds(m);
    let step = spec_read(m);
    let ms = spec_skip_ws(m);
    let ts = lex_all(m)->Ok_0;
    let t = step.0->Ok_0;
    assert(ts[0] == t);
    if t.token_type == TokenType::EndOfFile {
        assert(lex_ch(step.1) == '\0');
        assert(step.1 == ms);
        if ms.position < m.input.len() {
            assert(m.input[ms.position as int] != '\0');
            assert(false);
        }
        assert(ms.position == m.input.len());
        assert(spec_rebuild(m) == m.input.subrange(m.position as int, ms.position as int));
    } else {
        let m2 = step.1;
        lemma_read_positions(m);
        if t.token_type == TokenType::String {
            assert(m.input.subrange(ms.position as int, m2.position as int) == token_text(t));
        } else {
            lemma_token_text_exact(m);
        }
        assert forall|k: int|
            m2.position <= k < m2.input.len() implies #[trigger] m2.input[k] != '\0' by {}
        lemma_rebuild_matches(m2);
        assert(token_text(t) == m.input.subrange(ms.position as int, m2.position as int));
        assert(m.input.subrange(m.position as int, m.input.len() as int) =~= m.input.subrange(
            m.position as int,
            ms.position as int,
        ) + m.input.subrange(ms.position as int, m2.position as int) + m.input.subrange(
            m2.position as int,
            m.input.len() as int,
        ));
    }
}

/// Tokenization round trip: for a source made only of recognized tokens,
/// concatenating each token's spelling with the whitespace that separated
/// it reproduces the source exactly. A string literal's spelling is its
/// re-escaped, re-quoted literal, so the source's string literals must be
/// written canonically (a tab as its escape, not as a raw tab) — that is
/// the `canonical_strings` premise, and exactly the boundary the property
/// draws; a NUL character, which ends lexing early, is likewise excluded.
pub proof fn lemma_tokenization_round_trip(input: Seq<char>)
    requires
        input.len() < usize::MAX,
        lex_all(LexModel { input, position: 0, column: 0, line: 0 }) is Ok,
        canonical_strings(LexModel { input, position: 0, column: 0, line: 0 }),
        forall|k: int| 0 <= k < input.len() ==> #[trigger] input[k] != '\0',
    ensures
        spec_rebuild(LexModel { input, position: 0, column: 0, line: 0 }) == input,
{
    let m = LexModel { input, position: 0, column: 0, line: 0 };
    lemma_rebuild_matches(m);
    assert(input.subrange(0, input.len() as int) =~= input);
}

/// The whitespace gap in front of each token really is whitespace: every
/// character the lexer skips before reading a token has the whitespace
/// property.
pub proof fn lemma_gap_is_whitespace(m: LexModel)
    requires
        bounds_ok(m),
    ensures
        forall|k: int|
            m.position <= k < spec_skip_ws(m).position ==> spec_is_whitespace(
                #[trigger] m.input[k],
            ),
{
    lemma_skip_ws_bounds(m);
}


/// Hash key restriction: constructing a hash never silently accepts a bad
/// key. Whatever outcome the entries of a hash literal evaluate to, it is
/// either a hash — whose keys, by type, can only be integers, booleans or
/// strings — or the defined in-language error; and the moment a key
/// evaluates to any other kind of value, that error is the result.
pub proof fn lemma_hash_key_restriction(
    pairs: Seq<(crate::ast::ExprModel, crate::ast::ExprModel)>,
    acc: Seq<(HashKeyModel, ObjectModel)>,
    frame: int,
    arena: Seq<EnvModel>,
    fuel: nat,
)
    ensures
        eval_pairs_s(pairs, acc, frame, arena, fuel).res matches Ok(v) ==> (v is Hash || v
            == ObjectModel::Error("unusable as hash key"@)),
        pairs.len() > 0 && (eval_expr_s(pairs[0].0, frame, arena, fuel).res matches Ok(kv)
            && spec_obj_key(kv) is None) ==> eval_pairs_s(pairs, acc, frame, arena, fuel).res
            == Ok::<ObjectModel, crate::error::ErrorModel>(
            ObjectModel::Error("unusable as hash key"@),
        ),
    decreases pairs.len(),
{
    if pairs.len() > 0 {
        let ko = eval_expr_s(pairs[0].0, frame, arena, fuel);
        match ko.res {
            Ok(kv) => match spec_obj_key(kv) {
                Some(k) => {
                    let vo = eval_expr_s(pairs[0].1, frame, ko.arena, fuel);
                    match vo.res {
                        Ok(vv) => {
                            lemma_hash_key_restriction(
                                pairs.drop_first(),
                                crate::object::hash_set(acc, k, vv),
                                frame,
                                vo.arena,
                                fuel,
                            );
                        },
                        Err(er) => {},
                    }
                },
                None => {},
            },
            Err(er) => {},
        }
    }
}

/// Evaluating a run of bare variable references changes no frame.
proof fn lemma_ident_args_pure(
    es: Seq<ExprModel>,
    acc: Seq<ObjectModel>,
    frame: int,
    arena: Seq<EnvModel>,
    fuel: nat,
)
    requires
        forall|i: int| 0 <= i < es.len() ==> (#[trigger] es[i]) is Identifier,
    ensures
        eval_exprs_s(es, acc, frame, arena, fuel).arena == arena,
        eval_exprs_s(es, acc, frame, arena, fuel).res is Ok,
    decreases es.len(),
{
    if es.len() > 0 {
        assert(es[0] is Identifier);
        let o = eval_expr_s(es[0], frame, arena, fuel);
        assert(o.arena == arena);
        assert(o.res is Ok);
        assert forall|i: int|
            0 <= i < es.drop_first().len() implies (#[trigger] es.drop_first()[i]) is Identifier
            by {
            assert(es.drop_first()[i] == es[i + 1]);
        }
        lemma_ident_args_pure(es.drop_first(), acc.push(o.res->Ok_0), frame, arena, fuel);
    }
}

/// Idempotence of the pure built-ins: a call of a built-in function on
/// variables — `push(a, x)`, `put(h, k, v)`, or any other — leaves every
/// binding of every frame exactly as it was. The original collection,
/// re-read afterward, is unchanged: built-ins return fresh values and never
/// mutate their input.
pub proof fn lemma_builtin_call_mutates_nothing(
    name: Seq<char>,
    params: Seq<ExprModel>,
    frame: int,
    arena: Seq<EnvModel>,
    fuel: nat,
)
    requires
        forall|i: int| 0 <= i < params.len() ==> (#[trigger] params[i]) is Identifier,
        resolve_s(arena, frame, name) matches Some(b) && b is BuiltIn,
    ensures
        eval_expr_s(
            ExprModel::Call { function: Box::new(ExprModel::Identifier(name)), params },
            frame,
            arena,
            fuel,
        ).arena == arena,
{
    let e = ExprModel::Call { function: Box::new(ExprModel::Identifier(name)), params };
    let fo = eval_expr_s(ExprModel::Identifier(name), frame, arena, fuel);
    assert(fo.arena == arena);
    lemma_ident_args_pure(params, Seq::empty(), frame, arena, fuel);
}

} // verus!
