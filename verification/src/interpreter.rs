//! The evaluator: walks the abstract syntax tree against a chain of scope
//! frames, producing a runtime value, propagating `Return` wrappers and
//! in-language `Error` values, and failing only on the fatal conditions
//! (calling a value that is not callable, or running out of evaluation
//! depth).
//!
//! The whole evaluation is mirrored by the specification functions
//! `eval_expr_s`, `eval_stmt_s`, `eval_block_s`, `eval_prog_s` over frame
//! models; every executable method is proved to agree with its mirror.
//! Frames live in an arena; a closure captures the arena index of the frame
//! where it was written down, and a call runs its body in a fresh child of
//! that frame, so later bindings in an enclosing scope stay visible to the
//! closure.
//!
//! Chosen behaviour for points the language itself leaves open: integer
//! overflow and division by zero yield in-language `Error` values; looking
//! up an absent hash key yields an in-language `Error` value (never a silent
//! `Null`); an operand of a prefix or infix operator, or of an index
//! expression, that evaluates to an `Error` short-circuits to that error
//! without evaluating what follows it.

use vstd::prelude::*;

use crate::ast::{ExprModel, ProgramModel, StmtModel};
use crate::builtin::{spec_apply_builtin, spec_obj_key};
use crate::env::{env_get_s, env_set_s, EnvModel};
use crate::error::ErrorModel;
use crate::error::Error;
use crate::object::{hash_get, hash_set, Object, ObjectModel};
use crate::text::{dec_digits, int_digits};

verus! {

/// What one evaluation step leaves behind: its outcome and the arena of
/// frames as it stands afterwards.
pub struct EvalOut {
    pub res: Result<ObjectModel, ErrorModel>,
    pub arena: Seq<EnvModel>,
}

/// As [`EvalOut`], for a run of expressions evaluated left to right.
pub struct EvalListOut {
    pub res: Result<Seq<ObjectModel>, ErrorModel>,
    pub arena: Seq<EnvModel>,
}

/// A value's closure references stay inside the first `n` frames.
pub open spec fn obj_ok(o: ObjectModel, n: int) -> bool
    decreases o,
{
    match o {
        ObjectModel::Return(inner) => obj_ok(*inner, n),
        ObjectModel::Function { ident, program, env } => 0 <= env < n,
        ObjectModel::Array(items) => forall|i: int|
            0 <= i < items.len() ==> obj_ok(#[trigger] items[i], n),
        ObjectModel::Hash(entries) => forall|i: int|
            0 <= i < entries.len() ==> obj_ok(#[trigger] entries[i].1, n),
        _ => true,
    }
}

/// Every value bound in a frame keeps its references inside the first `n`
/// frames.
pub open spec fn store_ok(store: Seq<(Seq<char>, ObjectModel)>, n: int) -> bool {
    forall|i: int| 0 <= i < store.len() ==> obj_ok((#[trigger] store[i]).1, n)
}

/// A frame at arena position `i`: its parent is an older frame, and its
/// bindings stay inside the arena of length `n`.
pub open spec fn env_ok(e: EnvModel, i: int, n: int) -> bool {
    &&& match e.parent {
        Some(p) => 0 <= p < i,
        None => true,
    }
    &&& store_ok(e.store, n)
}

/// The whole arena is well formed: parents point strictly backwards and
/// every binding's closure references are in range.
pub open spec fn arena_ok(arena: Seq<EnvModel>) -> bool {
    forall|i: int| 0 <= i < arena.len() ==> env_ok(#[trigger] arena[i], i, arena.len() as int)
}

/// Truthiness: `Null` and `Int(0)` are false, a boolean is itself, every
/// other value is true.
pub open spec fn spec_is_truthy(o: ObjectModel) -> bool {
    match o {
        ObjectModel::Null => false,
        ObjectModel::Int(n) => n != 0,
        ObjectModel::Bool(b) => b,
        _ => true,
    }
}

/// Division truncating toward zero, the `/` of the language.
pub open spec fn trunc_div(a: int, b: int) -> int {
    let q = abs_int(a) / abs_int(b);
    if (a < 0) != (b < 0) {
        -q
    } else {
        q
    }
}

/// The absolute value of an integer.
pub open spec fn abs_int(a: int) -> int {
    if a < 0 {
        -a
    } else {
        a
    }
}

/// The printed name of a value's kind, used in operator type errors.
pub open spec fn spec_type_name(o: ObjectModel) -> Seq<char> {
    match o {
        ObjectModel::Null => "Null"@,
        ObjectModel::Int(..) => "Int"@,
        ObjectModel::Bool(..) => "Bool"@,
        ObjectModel::Return(..) => "Return"@,
        ObjectModel::Function { .. } => "Function"@,
        ObjectModel::BuiltIn { .. } => "BuiltIn"@,
        ObjectModel::String(..) => "String"@,
        ObjectModel::Error(..) => "Error"@,
        ObjectModel::Array(..) => "Array"@,
        ObjectModel::Hash(..) => "Hash"@,
    }
}

/// What a prefix operator returns on an already evaluated, non-`Error`
/// operand. `!` negates truthiness; `-` needs an integer and fails in
/// language on overflow.
pub open spec fn spec_prefix(op: crate::ast::Operator, v: ObjectModel) -> ObjectModel {
    match op {
        crate::ast::Operator::Not => ObjectModel::Bool(!spec_is_truthy(v)),
        crate::ast::Operator::Neg => match v {
            ObjectModel::Int(n) => if i64::MIN <= -n <= i64::MAX {
                ObjectModel::Int(-n)
            } else {
                ObjectModel::Error("integer overflow"@)
            },
            _ => ObjectModel::Error("Unexpected value type"@),
        },
        _ => ObjectModel::Error("Unknown operator"@),
    }
}

/// The message of an operator applied to a pairing of kinds it does not
/// support.
pub open spec fn type_mismatch_msg(l: ObjectModel, r: ObjectModel) -> Seq<char> {
    "Expected number, got "@ + spec_type_name(l) + " and "@ + spec_type_name(r)
}

/// What an infix operator returns on two already evaluated, non-`Error`
/// operands: integer arithmetic and comparisons (checked: overflow and
/// division by zero are in-language errors), string concatenation, and the
/// type errors of every other pairing.
pub open spec fn spec_infix(
    op: crate::ast::Operator,
    l: ObjectModel,
    r: ObjectModel,
) -> ObjectModel {
    match (l, r) {
        (ObjectModel::Int(a), ObjectModel::Int(b)) => match op {
            crate::ast::Operator::Add => if i64::MIN <= a + b <= i64::MAX {
                ObjectModel::Int(a + b)
            } else {
                ObjectModel::Error("integer overflow"@)
            },
            crate::ast::Operator::Sub => if i64::MIN <= a - b <= i64::MAX {
                ObjectModel::Int(a - b)
            } else {
                ObjectModel::Error("integer overflow"@)
            },
            crate::ast::Operator::Mul => if i64::MIN <= a * b <= i64::MAX {
                ObjectModel::Int(a * b)
            } else {
                ObjectModel::Error("integer overflow"@)
            },
            crate::ast::Operator::Div => if b == 0 {
                ObjectModel::Error("division by zero"@)
            } else if i64::MIN <= trunc_div(a, b) <= i64::MAX {
                ObjectModel::Int(trunc_div(a, b))
            } else {
                ObjectModel::Error("integer overflow"@)
            },
            crate::ast::Operator::Greater => ObjectModel::Bool(a > b),
            crate::ast::Operator::Less => ObjectModel::Bool(a < b),
            crate::ast::Operator::Equal => ObjectModel::Bool(a == b),
            crate::ast::Operator::NotEqual => ObjectModel::Bool(a != b),
            _ => ObjectModel::Error("Unexpected Operator"@),
        },
        (ObjectModel::String(a), ObjectModel::String(b)) => match op {
            crate::ast::Operator::Add => ObjectModel::String(a + b),
            _ => ObjectModel::Error("Unexpected Operator"@),
        },
        (ObjectModel::String(a), ObjectModel::Int(b)) => match op {
            crate::ast::Operator::Add => ObjectModel::String(a + int_digits(b)),
            _ => ObjectModel::Error("Unexpected Operator"@),
        },
        _ => ObjectModel::Error(type_mismatch_msg(l, r)),
    }
}

/// Resolves a name by walking the frame chain from `frame` outwards,
/// innermost first. Walks only strictly backwards, as a well-formed arena
/// guarantees.
pub open spec fn resolve_s(arena: Seq<EnvModel>, frame: int, name: Seq<char>) -> Option<
    ObjectModel,
>
    decreases frame,
{
    if 0 <= frame < arena.len() {
        match env_get_s(arena[frame].store, name) {
            Some(v) => Some(v),
            None => match arena[frame].parent {
                Some(p) => if 0 <= p < frame {
                    resolve_s(arena, p, name)
                } else {
                    None
                },
                None => None,
            },
        }
    } else {
        None
    }
}

/// The bindings a call activation starts with: parameter names bound to the
/// evaluated arguments, positionally; extra arguments are ignored and
/// missing ones bind nothing.
pub open spec fn bind_params_s(
    store: Seq<(Seq<char>, ObjectModel)>,
    names: Seq<Seq<char>>,
    vals: Seq<ObjectModel>,
) -> Seq<(Seq<char>, ObjectModel)>
    decreases names.len(),
{
    if names.len() == 0 || vals.len() == 0 {
        store
    } else {
        bind_params_s(
            env_set_s(store, names[0], vals[0]),
            names.drop_first(),
            vals.drop_first(),
        )
    }
}

/// The message of a built-in called with the wrong number of arguments,
/// naming the built-in and the expected and actual counts.
pub open spec fn arity_msg(name: Seq<char>, expected: nat, got: nat) -> Seq<char> {
    name + "(): Invalid number of argument - expected "@ + dec_digits(expected) + " got "@
        + dec_digits(got)
}

/// One expression, evaluated in `frame` against `arena` with `fuel` call
/// depth left. The authoritative statement of the evaluator.
pub open spec fn eval_expr_s(e: ExprModel, frame: int, arena: Seq<EnvModel>, fuel: nat) -> EvalOut
    decreases fuel, e, 0int,
{
    match e {
        ExprModel::Int(n) => EvalOut { res: Ok(ObjectModel::Int(n)), arena },
        ExprModel::Bool(b) => EvalOut { res: Ok(ObjectModel::Bool(b)), arena },
        ExprModel::Str(s) => EvalOut { res: Ok(ObjectModel::String(s)), arena },
        ExprModel::Identifier(name) => match resolve_s(arena, frame, name) {
            Some(v) => EvalOut { res: Ok(v), arena },
            None => EvalOut {
                res: Ok(ObjectModel::Error("identifier not found: "@ + name)),
                arena,
            },
        },
        ExprModel::Prefix { operator, expression } => {
            let o = eval_expr_s(*expression, frame, arena, fuel);
            match o.res {
                Ok(v) => if v is Error {
                    o
                } else {
                    EvalOut { res: Ok(spec_prefix(operator, v)), arena: o.arena }
                },
                Err(e) => o,
            }
        },
        ExprModel::Infix { operator, left, right } => {
            let lo = eval_expr_s(*left, frame, arena, fuel);
            match lo.res {
                Ok(lv) => if lv is Error {
                    lo
                } else {
                    let ro = eval_expr_s(*right, frame, lo.arena, fuel);
                    match ro.res {
                        Ok(rv) => if rv is Error {
                            ro
                        } else {
                            EvalOut { res: Ok(spec_infix(operator, lv, rv)), arena: ro.arena }
                        },
                        Err(e) => ro,
                    }
                },
                Err(e) => lo,
            }
        },
        ExprModel::Function { params, body } => EvalOut {
            res: Ok(ObjectModel::Function { ident: params, program: body, env: frame }),
            arena,
        },
        ExprModel::Call { function, params } => {
            let fo = eval_expr_s(*function, frame, arena, fuel);
            match fo.res {
                Ok(fv) => match fv {
                    ObjectModel::Function { ident, program, env } => {
                        let ao = eval_exprs_s(params, Seq::empty(), frame, fo.arena, fuel);
                        match ao.res {
                            Ok(args) => if fuel == 0 {
                                EvalOut {
                                    res: Err(ErrorModel::FatalError(
                                        "evaluation depth exceeded"@,
                                    )),
                                    arena: ao.arena,
                                }
                            } else {
                                let child = EnvModel {
                                    store: bind_params_s(Seq::empty(), ident, args),
                                    parent: Some(env),
                                };
                                eval_prog_s(
                                    program,
                                    ao.arena.len() as int,
                                    ao.arena.push(child),
                                    (fuel - 1) as nat,
                                )
                            },
                            Err(er) => EvalOut { res: Err(er), arena: ao.arena },
                        }
                    },
                    ObjectModel::BuiltIn { name, params: arity, program } => {
                        let ao = eval_exprs_s(params, Seq::empty(), frame, fo.arena, fuel);
                        match ao.res {
                            Ok(args) => if args.len() != arity {
                                EvalOut {
                                    res: Ok(
                                        ObjectModel::Error(
                                            arity_msg(name, arity as nat, args.len()),
                                        ),
                                    ),
                                    arena: ao.arena,
                                }
                            } else {
                                EvalOut {
                                    res: Ok(spec_apply_builtin(program, args)),
                                    arena: ao.arena,
                                }
                            },
                            Err(er) => EvalOut { res: Err(er), arena: ao.arena },
                        }
                    },
                    ObjectModel::Error(m) => EvalOut {
                        res: Err(ErrorModel::FatalError(m)),
                        arena: fo.arena,
                    },
                    _ => EvalOut {
                        res: Err(ErrorModel::FatalError("call to a value that is not callable"@)),
                        arena: fo.arena,
                    },
                },
                Err(er) => fo,
            }
        },
        ExprModel::ArrayLiteral { params } => {
            let ao = eval_exprs_s(params, Seq::empty(), frame, arena, fuel);
            match ao.res {
                Ok(vals) => EvalOut { res: Ok(ObjectModel::Array(vals)), arena: ao.arena },
                Err(er) => EvalOut { res: Err(er), arena: ao.arena },
            }
        },
        ExprModel::Index { left, index } => {
            let lo = eval_expr_s(*left, frame, arena, fuel);
            match lo.res {
                Ok(lv) => if lv is Error {
                    lo
                } else {
                    match lv {
                        ObjectModel::Array(items) => {
                            let io = eval_expr_s(*index, frame, lo.arena, fuel);
                            match io.res {
                                Ok(iv) => if iv is Error {
                                    io
                                } else {
                                    match iv {
                                        ObjectModel::Int(n) => if n < 0 || n >= items.len() {
                                            EvalOut {
                                                res: Ok(ObjectModel::Null),
                                                arena: io.arena,
                                            }
                                        } else {
                                            EvalOut { res: Ok(items[n]), arena: io.arena }
                                        },
                                        _ => EvalOut {
                                            res: Ok(ObjectModel::Error("Invalid index value"@)),
                                            arena: io.arena,
                                        },
                                    }
                                },
                                Err(er) => io,
                            }
                        },
                        ObjectModel::Hash(entries) => {
                            let io = eval_expr_s(*index, frame, lo.arena, fuel);
                            match io.res {
                                Ok(iv) => if iv is Error {
                                    io
                                } else {
                                    match spec_obj_key(iv) {
                                        Some(k) => match hash_get(entries, k) {
                                            Some(v) => EvalOut { res: Ok(v), arena: io.arena },
                                            None => EvalOut {
                                                res: Ok(ObjectModel::Error("key not found"@)),
                                                arena: io.arena,
                                            },
                                        },
                                        None => EvalOut {
                                            res: Ok(
                                                ObjectModel::Error("unusable as hash key"@),
                                            ),
                                            arena: io.arena,
                                        },
                                    }
                                },
                                Err(er) => io,
                            }
                        },
                        _ => EvalOut {
                            res: Ok(ObjectModel::Error("Can not index object type"@)),
                            arena: lo.arena,
                        },
                    }
                },
                Err(er) => lo,
            }
        },
        ExprModel::HashLiteral { params } => eval_pairs_s(
            params,
            Seq::empty(),
            frame,
            arena,
            fuel,
        ),
    }
}

/// A run of expressions, evaluated left to right after those already in
/// `acc`.
pub open spec fn eval_exprs_s(
    es: Seq<ExprModel>,
    acc: Seq<ObjectModel>,
    frame: int,
    arena: Seq<EnvModel>,
    fuel: nat,
) -> EvalListOut
    decreases fuel, es, 1int,
{
    if es.len() == 0 {
        EvalListOut { res: Ok(acc), arena }
    } else {
        let o = eval_expr_s(es[0], frame, arena, fuel);
        match o.res {
            Ok(v) => eval_exprs_s(es.drop_first(), acc.push(v), frame, o.arena, fuel),
            Err(er) => EvalListOut { res: Err(er), arena: o.arena },
        }
    }
}

/// The entries of a hash literal, evaluated key then value in encounter
/// order after those already in `acc`, folding up to the hash value itself;
/// a later duplicate key overwrites the earlier entry; a key that is not an
/// integer, boolean or string is a defined failure, an in-language error.
pub open spec fn eval_pairs_s(
    pairs: Seq<(ExprModel, ExprModel)>,
    acc: Seq<(crate::object::HashKeyModel, ObjectModel)>,
    frame: int,
    arena: Seq<EnvModel>,
    fuel: nat,
) -> EvalOut
    decreases fuel, pairs, 1int,
{
    if pairs.len() == 0 {
        EvalOut { res: Ok(ObjectModel::Hash(acc)), arena }
    } else {
        let ko = eval_expr_s(pairs[0].0, frame, arena, fuel);
        match ko.res {
            Ok(kv) => match spec_obj_key(kv) {
                Some(k) => {
                    let vo = eval_expr_s(pairs[0].1, frame, ko.arena, fuel);
                    match vo.res {
                        Ok(vv) => eval_pairs_s(
                            pairs.drop_first(),
                            hash_set(acc, k, vv),
                            frame,
                            vo.arena,
                            fuel,
                        ),
                        Err(er) => EvalOut { res: Err(er), arena: vo.arena },
                    }
                },
                None => EvalOut {
                    res: Ok(ObjectModel::Error("unusable as hash key"@)),
                    arena: ko.arena,
                },
            },
            Err(er) => EvalOut { res: Err(er), arena: ko.arena },
        }
    }
}

/// One statement.
pub open spec fn eval_stmt_s(s: StmtModel, frame: int, arena: Seq<EnvModel>, fuel: nat) -> EvalOut
    decreases fuel, s, 1int,
{
    match s {
        StmtModel::Let(name, e) => {
            let o = eval_expr_s(e, frame, arena, fuel);
            match o.res {
                Ok(v) => if v is Error {
                    o
                } else {
                    if 0 <= frame < o.arena.len() {
                        let f = o.arena[frame];
                        let f2 = EnvModel { store: env_set_s(f.store, name, v), parent: f.parent };
                        EvalOut { res: Ok(v), arena: o.arena.update(frame, f2) }
                    } else {
                        o
                    }
                },
                Err(er) => o,
            }
        },
        StmtModel::Return(e) => {
            let o = eval_expr_s(e, frame, arena, fuel);
            match o.res {
                Ok(v) => EvalOut { res: Ok(ObjectModel::Return(Box::new(v))), arena: o.arena },
                Err(er) => o,
            }
        },
        StmtModel::If { condition, consequence, alternative } => {
            let o = eval_expr_s(condition, frame, arena, fuel);
            match o.res {
                Ok(v) => if spec_is_truthy(v) {
                    eval_block_s(consequence.statements, ObjectModel::Null, frame, o.arena, fuel)
                } else {
                    match alternative {
                        Some(p) => eval_block_s(
                            p.statements,
                            ObjectModel::Null,
                            frame,
                            o.arena,
                            fuel,
                        ),
                        None => EvalOut { res: Ok(ObjectModel::Null), arena: o.arena },
                    }
                },
                Err(er) => o,
            }
        },
        StmtModel::Expression(e) => eval_expr_s(e, frame, arena, fuel),
    }
}

/// A run of statements: each is evaluated in order, threading one folding
/// result that starts as `prev`; a `Return` result stops the remaining
/// statements of the block at once.
pub open spec fn eval_block_s(
    stmts: Seq<StmtModel>,
    prev: ObjectModel,
    frame: int,
    arena: Seq<EnvModel>,
    fuel: nat,
) -> EvalOut
    decreases fuel, stmts, 2int,
{
    if stmts.len() == 0 {
        EvalOut { res: Ok(prev), arena }
    } else {
        let o = eval_stmt_s(stmts[0], frame, arena, fuel);
        match o.res {
            Ok(v) => if v is Return {
                o
            } else {
                eval_block_s(stmts.drop_first(), v, frame, o.arena, fuel)
            },
            Err(er) => o,
        }
    }
}

/// A whole program or function body: its statements as a block, with a
/// `Return` wrapper unwrapped to its inner value at this outermost level.
pub open spec fn eval_prog_s(p: ProgramModel, frame: int, arena: Seq<EnvModel>, fuel: nat) -> EvalOut
    decreases fuel, p, 3int,
{
    let o = eval_block_s(p.statements, ObjectModel::Null, frame, arena, fuel);
    match o.res {
        Ok(v) => match v {
            ObjectModel::Return(inner) => EvalOut { res: Ok(*inner), arena: o.arena },
            _ => o,
        },
        Err(er) => o,
    }
}


/// Structural size of an expression model, the termination measure of the
/// evaluator within one call depth.
pub open spec fn size_expr(e: ExprModel) -> nat
    decreases e,
{
    match e {
        ExprModel::Identifier(..) => 1,
        ExprModel::Bool(..) => 1,
        ExprModel::Int(..) => 1,
        ExprModel::Str(..) => 1,
        ExprModel::Call { function, params } => 1 + size_expr(*function) + size_exprs(params),
        ExprModel::Function { .. } => 1,
        ExprModel::Infix { operator, left, right } => 1 + size_expr(*left) + size_expr(*right),
        ExprModel::Prefix { operator, expression } => 1 + size_expr(*expression),
        ExprModel::ArrayLiteral { params } => 1 + size_exprs(params),
        ExprModel::Index { left, index } => 1 + size_expr(*left) + size_expr(*index),
        ExprModel::HashLiteral { params } => 1 + size_pairs(params),
    }
}

/// Structural size of a run of expressions.
pub open spec fn size_exprs(es: Seq<ExprModel>) -> nat
    decreases es,
{
    if es.len() == 0 {
        0
    } else {
        size_expr(es[0]) + size_exprs(es.drop_first())
    }
}

/// Structural size of the entries of a hash literal.
pub open spec fn size_pairs(pairs: Seq<(ExprModel, ExprModel)>) -> nat
    decreases pairs,
{
    if pairs.len() == 0 {
        0
    } else {
        size_expr(pairs[0].0) + size_expr(pairs[0].1) + size_pairs(pairs.drop_first())
    }
}

/// Structural size of a statement model.
pub open spec fn size_stmt(s: StmtModel) -> nat
    decreases s,
{
    match s {
        StmtModel::Let(name, e) => 1 + size_expr(e),
        StmtModel::Return(e) => 1 + size_expr(e),
        StmtModel::If { condition, consequence, alternative } => 1 + size_expr(condition)
            + size_prog(consequence) + match alternative {
            Some(p) => size_prog(p),
            None => 0,
        },
        StmtModel::Expression(e) => 1 + size_expr(e),
    }
}

/// Structural size of a run of statements.
pub open spec fn size_stmts(stmts: Seq<StmtModel>) -> nat
    decreases stmts,
{
    if stmts.len() == 0 {
        0
    } else {
        size_stmt(stmts[0]) + size_stmts(stmts.drop_first())
    }
}

/// Structural size of a program model.
pub open spec fn size_prog(p: ProgramModel) -> nat
    decreases p,
{
    1 + size_stmts(p.statements)
}

/// Any expression of a run is bounded by the run's size.
pub proof fn lemma_size_exprs_index(es: Seq<ExprModel>, i: int)
    requires
        0 <= i < es.len(),
    ensures
        size_expr(es[i]) <= size_exprs(es),
    decreases i,
{
    if i > 0 {
        lemma_size_exprs_index(es.drop_first(), i - 1);
    }
}

/// Any entry of a hash literal is bounded by the run's size.
pub proof fn lemma_size_pairs_index(pairs: Seq<(ExprModel, ExprModel)>, i: int)
    requires
        0 <= i < pairs.len(),
    ensures
        size_expr(pairs[i].0) + size_expr(pairs[i].1) <= size_pairs(pairs),
    decreases i,
{
    if i > 0 {
        lemma_size_pairs_index(pairs.drop_first(), i - 1);
    }
}

/// Any statement of a run is bounded by the run's size.
pub proof fn lemma_size_stmts_index(stmts: Seq<StmtModel>, i: int)
    requires
        0 <= i < stmts.len(),
    ensures
        size_stmt(stmts[i]) <= size_stmts(stmts),
    decreases i,
{
    if i > 0 {
        lemma_size_stmts_index(stmts.drop_first(), i - 1);
    }
}

/// The views of the frames of an arena.
pub open spec fn view_envs(v: Seq<crate::env::Environment>) -> Seq<EnvModel>
    decreases v,
{
    if v.len() == 0 {
        Seq::empty()
    } else {
        view_envs(v.drop_last()).push(v.last()@)
    }
}

/// `view_envs` keeps the length.
pub proof fn lemma_view_envs_len(v: Seq<crate::env::Environment>)
    ensures
        view_envs(v).len() == v.len(),
    decreases v.len(),
{
    if v.len() > 0 {
        lemma_view_envs_len(v.drop_last());
    }
}

/// `view_envs` read off at one index.
pub proof fn lemma_view_envs_index(v: Seq<crate::env::Environment>, i: int)
    requires
        0 <= i < v.len(),
    ensures
        view_envs(v).len() == v.len(),
        view_envs(v)[i] == v[i]@,
    decreases v.len(),
{
    lemma_view_envs_len(v);
    if i < v.len() - 1 {
        lemma_view_envs_index(v.drop_last(), i);
    }
}

/// `view_envs` over one appended frame.
pub proof fn lemma_view_envs_push(s: Seq<crate::env::Environment>, x: crate::env::Environment)
    ensures
        view_envs(s.push(x)) == view_envs(s).push(x@),
{
    assert(s.push(x).drop_last() =~= s);
    assert(s.push(x).last() == x);
}

/// `view_envs` over one replaced frame.
pub proof fn lemma_view_envs_update(v: Seq<crate::env::Environment>, i: int, x: crate::env::Environment)
    requires
        0 <= i < v.len(),
    ensures
        view_envs(v.update(i, x)) == view_envs(v).update(i, x@),
    decreases v.len(),
{
    lemma_view_envs_len(v);
    lemma_view_envs_len(v.update(i, x));
    if i == v.len() - 1 {
        assert(v.update(i, x).drop_last() =~= v.drop_last());
        assert(v.update(i, x).last() == x);
        assert(view_envs(v.update(i, x)) =~= view_envs(v).update(i, x@));
    } else {
        assert(v.update(i, x).drop_last() =~= v.drop_last().update(i, x));
        assert(v.update(i, x).last() == v.last());
        lemma_view_envs_update(v.drop_last(), i, x);
        assert(view_envs(v.update(i, x)) =~= view_envs(v).update(i, x@));
    }
}

/// A value stays well formed when the arena only grows.
pub proof fn lemma_obj_ok_mono(o: ObjectModel, n: int, m: int)
    requires
        obj_ok(o, n),
        n <= m,
    ensures
        obj_ok(o, m),
    decreases o,
{
    match o {
        ObjectModel::Return(inner) => {
            lemma_obj_ok_mono(*inner, n, m);
        },
        ObjectModel::Array(items) => {
            assert forall|i: int| 0 <= i < items.len() implies obj_ok(#[trigger] items[i], m) by {
                lemma_obj_ok_mono(items[i], n, m);
            }
        },
        ObjectModel::Hash(entries) => {
            assert forall|i: int|
                0 <= i < entries.len() implies obj_ok(#[trigger] entries[i].1, m) by {
                lemma_obj_ok_mono(entries[i].1, n, m);
            }
        },
        _ => {},
    }
}

/// A frame's bindings stay well formed when the arena only grows.
pub proof fn lemma_store_ok_mono(store: Seq<(Seq<char>, ObjectModel)>, n: int, m: int)
    requires
        store_ok(store, n),
        n <= m,
    ensures
        store_ok(store, m),
{
    assert forall|i: int| 0 <= i < store.len() implies obj_ok((#[trigger] store[i]).1, m) by {
        lemma_obj_ok_mono(store[i].1, n, m);
    }
}

/// Appending a frame whose parent lies in the old arena and whose bindings
/// stay in the new one keeps the arena well formed.
pub proof fn lemma_arena_ok_push(arena: Seq<EnvModel>, e: EnvModel)
    requires
        arena_ok(arena),
        match e.parent {
            Some(p) => 0 <= p < arena.len(),
            None => true,
        },
        store_ok(e.store, arena.len() + 1 as int),
    ensures
        arena_ok(arena.push(e)),
{
    let a2 = arena.push(e);
    assert forall|i: int| 0 <= i < a2.len() implies env_ok(#[trigger] a2[i], i, a2.len() as int) by {
        if i < arena.len() {
            assert(a2[i] == arena[i]);
            lemma_store_ok_mono(arena[i].store, arena.len() as int, a2.len() as int);
        }
    }
}

/// Replacing one frame's bindings with well-formed ones, keeping its
/// parent, keeps the arena well formed.
pub proof fn lemma_arena_ok_update(arena: Seq<EnvModel>, i: int, e: EnvModel)
    requires
        arena_ok(arena),
        0 <= i < arena.len(),
        e.parent == arena[i].parent,
        store_ok(e.store, arena.len() as int),
    ensures
        arena_ok(arena.update(i, e)),
{
    let a2 = arena.update(i, e);
    assert forall|j: int| 0 <= j < a2.len() implies env_ok(#[trigger] a2[j], j, a2.len() as int) by {
        if j != i {
            assert(a2[j] == arena[j]);
        }
    }
}

/// Binding a well-formed value keeps a frame's bindings well formed.
pub proof fn lemma_env_set_ok(
    store: Seq<(Seq<char>, ObjectModel)>,
    name: Seq<char>,
    v: ObjectModel,
    n: int,
)
    requires
        store_ok(store, n),
        obj_ok(v, n),
    ensures
        store_ok(env_set_s(store, name, v), n),
    decreases store.len(),
{
    if store.len() == 0 {
    } else if store[0].0 == name {
    } else {
        lemma_env_set_ok(store.drop_first(), name, v, n);
        let r = env_set_s(store, name, v);
        assert forall|i: int| 0 <= i < r.len() implies obj_ok((#[trigger] r[i]).1, n) by {
            if i > 0 {
                assert(r[i] == env_set_s(store.drop_first(), name, v)[i - 1]);
            }
        }
    }
}

/// A value found in well-formed bindings is well formed.
pub proof fn lemma_env_get_ok(store: Seq<(Seq<char>, ObjectModel)>, name: Seq<char>, n: int)
    requires
        store_ok(store, n),
        env_get_s(store, name) is Some,
    ensures
        obj_ok(env_get_s(store, name)->Some_0, n),
    decreases store.len(),
{
    if store.len() > 0 && store[0].0 != name {
        assert(store_ok(store.drop_first(), n)) by {
            assert forall|i: int|
                0 <= i < store.drop_first().len() implies obj_ok(
                (#[trigger] store.drop_first()[i]).1,
                n,
            ) by {
                assert(store.drop_first()[i] == store[i + 1]);
            }
        }
        lemma_env_get_ok(store.drop_first(), name, n);
    }
}

/// A value resolved through a well-formed arena is well formed.
pub proof fn lemma_resolve_ok(arena: Seq<EnvModel>, frame: int, name: Seq<char>)
    requires
        arena_ok(arena),
        resolve_s(arena, frame, name) is Some,
    ensures
        obj_ok(resolve_s(arena, frame, name)->Some_0, arena.len() as int),
    decreases frame,
{
    if 0 <= frame < arena.len() {
        match env_get_s(arena[frame].store, name) {
            Some(v) => {
                lemma_env_get_ok(arena[frame].store, name, arena.len() as int);
            },
            None => {
                match arena[frame].parent {
                    Some(p) => {
                        if 0 <= p < frame {
                            lemma_resolve_ok(arena, p, name);
                        }
                    },
                    None => {},
                }
            },
        }
    }
}

/// A value found among well-formed hash entries is well formed.
pub proof fn lemma_hash_get_ok(
    entries: Seq<(crate::object::HashKeyModel, ObjectModel)>,
    k: crate::object::HashKeyModel,
    n: int,
)
    requires
        forall|i: int| 0 <= i < entries.len() ==> obj_ok((#[trigger] entries[i]).1, n),
        hash_get(entries, k) is Some,
    ensures
        obj_ok(hash_get(entries, k)->Some_0, n),
    decreases entries.len(),
{
    if entries.len() > 0 && entries[0].0 != k {
        assert forall|i: int|
            0 <= i < entries.drop_first().len() implies obj_ok(
            (#[trigger] entries.drop_first()[i]).1,
            n,
        ) by {
            assert(entries.drop_first()[i] == entries[i + 1]);
        }
        lemma_hash_get_ok(entries.drop_first(), k, n);
    }
}

/// Setting a well-formed value among well-formed hash entries keeps them
/// well formed.
pub proof fn lemma_hash_set_ok(
    entries: Seq<(crate::object::HashKeyModel, ObjectModel)>,
    k: crate::object::HashKeyModel,
    v: ObjectModel,
    n: int,
)
    requires
        forall|i: int| 0 <= i < entries.len() ==> obj_ok((#[trigger] entries[i]).1, n),
        obj_ok(v, n),
    ensures
        forall|i: int|
            0 <= i < hash_set(entries, k, v).len() ==> obj_ok(
                (#[trigger] hash_set(entries, k, v)[i]).1,
                n,
            ),
    decreases entries.len(),
{
    if entries.len() == 0 {
    } else if entries[0].0 == k {
    } else {
        assert forall|i: int|
            0 <= i < entries.drop_first().len() implies obj_ok(
            (#[trigger] entries.drop_first()[i]).1,
            n,
        ) by {
            assert(entries.drop_first()[i] == entries[i + 1]);
        }
        lemma_hash_set_ok(entries.drop_first(), k, v, n);
        let r = hash_set(entries, k, v);
        assert forall|i: int| 0 <= i < r.len() implies obj_ok((#[trigger] r[i]).1, n) by {
            if i > 0 {
                assert(r[i] == hash_set(entries.drop_first(), k, v)[i - 1]);
            }
        }
    }
}

/// Binding parameters to well-formed arguments gives well-formed bindings.
pub proof fn lemma_bind_params_ok(
    store: Seq<(Seq<char>, ObjectModel)>,
    names: Seq<Seq<char>>,
    vals: Seq<ObjectModel>,
    n: int,
)
    requires
        store_ok(store, n),
        forall|i: int| 0 <= i < vals.len() ==> obj_ok(#[trigger] vals[i], n),
    ensures
        store_ok(bind_params_s(store, names, vals), n),
    decreases names.len(),
{
    if names.len() == 0 || vals.len() == 0 {
    } else {
        lemma_env_set_ok(store, names[0], vals[0], n);
        assert forall|i: int|
            0 <= i < vals.drop_first().len() implies obj_ok(#[trigger] vals.drop_first()[i], n) by {
            assert(vals.drop_first()[i] == vals[i + 1]);
        }
        lemma_bind_params_ok(env_set_s(store, names[0], vals[0]), names.drop_first(),
            vals.drop_first(), n);
    }
}

/// What a built-in returns on well-formed arguments is well formed.
pub proof fn lemma_builtin_ok(f: crate::object::BuiltInFn, args: Seq<ObjectModel>, n: int)
    requires
        forall|i: int| 0 <= i < args.len() ==> obj_ok(#[trigger] args[i], n),
    ensures
        obj_ok(spec_apply_builtin(f, args), n),
{
    let r = spec_apply_builtin(f, args);
    match f {
        crate::object::BuiltInFn::Push => {
            if args.len() == 2 {
                match args[0] {
                    ObjectModel::Array(items) => {
                        let r2 = items.push(args[1]);
                        assert(obj_ok(args[0], n));
                        assert forall|i: int| 0 <= i < r2.len() implies obj_ok(
                            #[trigger] r2[i],
                            n,
                        ) by {
                            if i < items.len() {
                                assert(r2[i] == items[i]);
                            } else {
                                assert(r2[i] == args[1]);
                            }
                        }
                    },
                    _ => {},
                }
            }
        },
        crate::object::BuiltInFn::Rest => {
            if args.len() >= 1 {
                match args[0] {
                    ObjectModel::Array(items) => {
                        if items.len() > 0 {
                            assert(obj_ok(args[0], n));
                            assert forall|i: int|
                                0 <= i < items.drop_last().len() implies obj_ok(
                                #[trigger] items.drop_last()[i],
                                n,
                            ) by {
                                assert(items.drop_last()[i] == items[i]);
                            }
                        }
                    },
                    _ => {},
                }
            }
        },
        crate::object::BuiltInFn::First => {
            if args.len() >= 1 {
                match args[0] {
                    ObjectModel::Array(items) => {
                        assert(obj_ok(args[0], n));
                    },
                    _ => {},
                }
            }
        },
        crate::object::BuiltInFn::Last => {
            if args.len() >= 1 {
                match args[0] {
                    ObjectModel::Array(items) => {
                        assert(obj_ok(args[0], n));
                    },
                    _ => {},
                }
            }
        },
        crate::object::BuiltInFn::Put => {
            if args.len() == 3 {
                match args[0] {
                    ObjectModel::Hash(entries) => {
                        match crate::builtin::spec_obj_key(args[1]) {
                            Some(k) => {
                                assert(obj_ok(args[0], n));
                                lemma_hash_set_ok(entries, k, args[2], n);
                            },
                            None => {},
                        }
                    },
                    _ => {},
                }
            }
        },
        crate::object::BuiltInFn::StrLen => {},
    }
}


/// The view of an optional else branch.
pub open spec fn alt_view(a: Option<Box<crate::ast::Program>>) -> Option<ProgramModel> {
    match a {
        Some(p) => Some(crate::ast::spec_view_prog(*p)),
        None => None,
    }
}

/// How deep the language's own call stack may grow before evaluation stops
/// with a fatal fault, modelling exhaustion of the host's stack.
pub const CALL_DEPTH_LIMIT: u64 = 1024;

/// The evaluator. It keeps no state of its own: each `evaluate` call runs
/// against a fresh arena whose first frame holds the built-in library.
pub struct Evaluate {}

impl Evaluate {
    pub fn new() -> Self {
        Evaluate {  }
    }

    /// Runs a whole program against a fresh top-level environment.
    pub fn evaluate(&self, program: &crate::ast::Program) -> (r: Result<Object, Error>)
        ensures
            r matches Ok(o) ==> eval_prog_s(
                program@,
                0,
                seq![EnvModel { store: crate::env::initial_store(), parent: None::<int> }],
                CALL_DEPTH_LIMIT as nat,
            ).res == Ok::<ObjectModel, ErrorModel>(o@),
            r matches Err(er) ==> eval_prog_s(
                program@,
                0,
                seq![EnvModel { store: crate::env::initial_store(), parent: None::<int> }],
                CALL_DEPTH_LIMIT as nat,
            ).res == Err::<ObjectModel, ErrorModel>(er@),
    {
        let mut arena: Vec<crate::env::Environment> = Vec::new();
        let env = crate::env::Environment::new();
        arena.push(env);
        proof {
            reveal_with_fuel(view_envs, 3);
            assert(arena@.drop_last() =~= Seq::<crate::env::Environment>::empty());
            assert(view_envs(arena@) =~= seq![
                EnvModel { store: crate::env::initial_store(), parent: None::<int> },
            ]);
            assert forall|i: int|
                0 <= i < crate::env::initial_store().len() implies obj_ok(
                (#[trigger] crate::env::initial_store()[i]).1,
                1,
            ) by {}
            assert(arena_ok(view_envs(arena@)));
        }
        self.evaluate_program(program, &mut arena, 0, CALL_DEPTH_LIMIT)
    }

    /// A program or function body: its statements as a block, with a
    /// `Return` wrapper unwrapped at this outermost level.
    pub fn evaluate_program(
        &self,
        program: &crate::ast::Program,
        arena: &mut Vec<crate::env::Environment>,
        frame: usize,
        fuel: u64,
    ) -> (r: Result<Object, Error>)
        requires
            arena_ok(view_envs(old(arena)@)),
            frame < old(arena)@.len(),
        ensures
            view_envs(final(arena)@) == eval_prog_s(
                program@,
                frame as int,
                view_envs(old(arena)@),
                fuel as nat,
            ).arena,
            r matches Ok(o) ==> eval_prog_s(
                program@,
                frame as int,
                view_envs(old(arena)@),
                fuel as nat,
            ).res == Ok::<ObjectModel, ErrorModel>(o@),
            r matches Err(er) ==> eval_prog_s(
                program@,
                frame as int,
                view_envs(old(arena)@),
                fuel as nat,
            ).res == Err::<ObjectModel, ErrorModel>(er@),
            arena_ok(view_envs(final(arena)@)),
            old(arena)@.len() <= final(arena)@.len(),
            r matches Ok(o) ==> obj_ok(o@, final(arena)@.len() as int),
        decreases fuel, size_prog(program@), 3int,
    {
        let result = self.evaluate_block(program, arena, frame, fuel);
        proof {
            lemma_view_envs_len(arena@);
        }
        match result {
            Ok(v) => match v {
                Object::Return(inner) => Ok(*inner),
                other => Ok(other),
            },
            Err(er) => Err(er),
        }
    }

    /// A block: run each statement in order, threading one folding result;
    /// a `Return` result stops the remaining statements at once.
    #[verifier::rlimit(100)]
    pub fn evaluate_block(
        &self,
        program: &crate::ast::Program,
        arena: &mut Vec<crate::env::Environment>,
        frame: usize,
        fuel: u64,
    ) -> (r: Result<Object, Error>)
        requires
            arena_ok(view_envs(old(arena)@)),
            frame < old(arena)@.len(),
        ensures
            view_envs(final(arena)@) == eval_block_s(
                program@.statements,
                ObjectModel::Null,
                frame as int,
                view_envs(old(arena)@),
                fuel as nat,
            ).arena,
            r matches Ok(o) ==> eval_block_s(
                program@.statements,
                ObjectModel::Null,
                frame as int,
                view_envs(old(arena)@),
                fuel as nat,
            ).res == Ok::<ObjectModel, ErrorModel>(o@),
            r matches Err(er) ==> eval_block_s(
                program@.statements,
                ObjectModel::Null,
                frame as int,
                view_envs(old(arena)@),
                fuel as nat,
            ).res == Err::<ObjectModel, ErrorModel>(er@),
            arena_ok(view_envs(final(arena)@)),
            old(arena)@.len() <= final(arena)@.len(),
            r matches Ok(o) ==> obj_ok(o@, final(arena)@.len() as int),
        decreases fuel, size_prog(program@), 2int,
    {
        let ghost stmts = program@.statements;
        let ghost a0 = view_envs(old(arena)@);
        let mut result = Object::Null;
        let mut i: usize = 0;
        proof {
            crate::ast::lemma_view_stmts_len(program.statements@);
            assert(stmts.skip(0) =~= stmts);
        }
        while i < program.statements.len()
            invariant
                arena_ok(view_envs(arena@)),
                frame < arena@.len(),
                old(arena)@.len() <= arena@.len(),
                i <= program.statements@.len(),
                stmts == program@.statements,
                a0 == view_envs(old(arena)@),
                stmts.len() == program.statements@.len(),
                !(result@ is Return),
                obj_ok(result@, view_envs(arena@).len() as int),
                eval_block_s(stmts, ObjectModel::Null, frame as int, a0, fuel as nat)
                    == eval_block_s(
                    stmts.skip(i as int),
                    result@,
                    frame as int,
                    view_envs(arena@),
                    fuel as nat,
                ),
            decreases program.statements@.len() - i,
        {
            let ghost acur = view_envs(arena@);
            let ghost prev = result@;
            proof {
                crate::ast::lemma_view_stmts_index(program.statements@, i as int);
                lemma_size_stmts_index(stmts, i as int);
                assert(stmts.skip(i as int)[0] == stmts[i as int]);
                assert(stmts.skip(i as int).drop_first() =~= stmts.skip(i + 1 as int));
                lemma_view_envs_len(arena@);
            }
            let stmt_result: Result<Object, Error> = match &program.statements[i] {
                crate::ast::StatementNode::Let(ident, expr) => self.eval_let_statement(
                    ident,
                    expr,
                    arena,
                    frame,
                    fuel,
                ),
                crate::ast::StatementNode::If { condition, consequence, alternative } => self
                    .eval_if_statement(condition, consequence, alternative, arena, frame, fuel),
                crate::ast::StatementNode::Return(expr) => {
                    match self.expression(expr, arena, frame, fuel) {
                        Ok(v) => Ok(Object::Return(Box::new(v))),
                        Err(er) => Err(er),
                    }
                },
                crate::ast::StatementNode::Expression { expression } => self.expression(
                    expression,
                    arena,
                    frame,
                    fuel,
                ),
            };
            match stmt_result {
                Ok(v) => {
                    result = v;
                    proof {
                        lemma_view_envs_len(arena@);
                    }
                },
                Err(er) => {
                    proof {
                        lemma_view_envs_len(arena@);
                    }
                    return Err(er);
                },
            }
            let stop = match &result {
                Object::Return(..) => true,
                _ => false,
            };
            if stop {
                proof {
                    lemma_view_envs_len(arena@);
                }
                return Ok(result);
            }
            i = i + 1;
        }
        proof {
            assert(stmts.skip(stmts.len() as int) =~= Seq::<StmtModel>::empty());
            lemma_view_envs_len(arena@);
        }
        Ok(result)
    }

    /// A `let`: evaluate the expression; an `Error` result skips the
    /// binding and propagates as the statement's own result; otherwise the
    /// value is bound in the current frame, overwriting any earlier binding
    /// of the name in that same scope.
    pub fn eval_let_statement(
        &self,
        identifier: &crate::ast::Identifier,
        expression: &crate::ast::ExpressionNode,
        arena: &mut Vec<crate::env::Environment>,
        frame: usize,
        fuel: u64,
    ) -> (r: Result<Object, Error>)
        requires
            arena_ok(view_envs(old(arena)@)),
            frame < old(arena)@.len(),
        ensures
            view_envs(final(arena)@) == eval_stmt_s(
                StmtModel::Let(identifier@, expression@),
                frame as int,
                view_envs(old(arena)@),
                fuel as nat,
            ).arena,
            r matches Ok(o) ==> eval_stmt_s(
                StmtModel::Let(identifier@, expression@),
                frame as int,
                view_envs(old(arena)@),
                fuel as nat,
            ).res == Ok::<ObjectModel, ErrorModel>(o@),
            r matches Err(er) ==> eval_stmt_s(
                StmtModel::Let(identifier@, expression@),
                frame as int,
                view_envs(old(arena)@),
                fuel as nat,
            ).res == Err::<ObjectModel, ErrorModel>(er@),
            arena_ok(view_envs(final(arena)@)),
            old(arena)@.len() <= final(arena)@.len(),
            r matches Ok(o) ==> obj_ok(o@, final(arena)@.len() as int),
        decreases fuel, size_expr(expression@), 1int,
    {
        let result = match self.expression(expression, arena, frame, fuel) {
            Ok(v) => v,
            Err(er) => {
                return Err(er);
            },
        };
        let is_error = match &result {
            Object::Error(..) => true,
            _ => false,
        };
        if is_error {
            return Ok(result);
        }
        proof {
            lemma_view_envs_len(arena@);
            lemma_view_envs_index(arena@, frame as int);
        }
        let ghost before = view_envs(arena@);
        let mut updated = (&arena[frame]).clone();
        updated.store(identifier.0.as_str(), &result);
        proof {
            lemma_view_envs_update(arena@, frame as int, updated);
        }
        let replaced = updated;
        arena[frame] = replaced;
        proof {
            lemma_env_set_ok(before[frame as int].store, identifier@, result@,
                before.len() as int);
            lemma_arena_ok_update(before, frame as int, replaced@);
        }
        Ok(result)
    }

    /// An `if`: truthiness decides the branch; the taken branch's block is
    /// evaluated in the same frame, so its `let` bindings leak to the
    /// enclosing scope by design.
    pub fn eval_if_statement(
        &self,
        condition: &crate::ast::ExpressionNode,
        consequence: &crate::ast::Program,
        alternative: &Option<Box<crate::ast::Program>>,
        arena: &mut Vec<crate::env::Environment>,
        frame: usize,
        fuel: u64,
    ) -> (r: Result<Object, Error>)
        requires
            arena_ok(view_envs(old(arena)@)),
            frame < old(arena)@.len(),
        ensures
            view_envs(final(arena)@) == eval_stmt_s(
                StmtModel::If {
                    condition: condition@,
                    consequence: consequence@,
                    alternative: alt_view(*alternative),
                },
                frame as int,
                view_envs(old(arena)@),
                fuel as nat,
            ).arena,
            r matches Ok(o) ==> eval_stmt_s(
                StmtModel::If {
                    condition: condition@,
                    consequence: consequence@,
                    alternative: alt_view(*alternative),
                },
                frame as int,
                view_envs(old(arena)@),
                fuel as nat,
            ).res == Ok::<ObjectModel, ErrorModel>(o@),
            r matches Err(er) ==> eval_stmt_s(
                StmtModel::If {
                    condition: condition@,
                    consequence: consequence@,
                    alternative: alt_view(*alternative),
                },
                frame as int,
                view_envs(old(arena)@),
                fuel as nat,
            ).res == Err::<ObjectModel, ErrorModel>(er@),
            arena_ok(view_envs(final(arena)@)),
            old(arena)@.len() <= final(arena)@.len(),
            r matches Ok(o) ==> obj_ok(o@, final(arena)@.len() as int),
        decreases fuel,
            size_expr(condition@) + size_prog(consequence@) + (match alt_view(*alternative) {
                Some(p) => size_prog(p),
                None => 0,
            }),
            1int,
    {
        let result = match self.expression(condition, arena, frame, fuel) {
            Ok(v) => v,
            Err(er) => {
                return Err(er);
            },
        };
        proof {
            lemma_view_envs_len(arena@);
        }
        if self.is_truthy(&result) {
            self.evaluate_block(consequence, arena, frame, fuel)
        } else if let Some(program) = alternative {
            self.evaluate_block(program, arena, frame, fuel)
        } else {
            Ok(Object::Null)
        }
    }

    /// Truthiness: `Null` and `Int(0)` are false, a boolean is itself,
    /// every other value is true.
    pub fn is_truthy(&self, condition: &Object) -> (r: bool)
        ensures
            r == spec_is_truthy(condition@),
    {
        match condition {
            Object::Null => false,
            Object::Int(val) => *val != 0,
            Object::Bool(val) => *val,
            _ => true,
        }
    }
}


/// The printed name of a value's kind.
fn kind_name(o: &Object) -> (r: String)
    ensures
        r@ == spec_type_name(o@),
{
    match o {
        Object::Null => String::from_str("Null"),
        Object::Int(..) => String::from_str("Int"),
        Object::Bool(..) => String::from_str("Bool"),
        Object::Return(..) => String::from_str("Return"),
        Object::Function { .. } => String::from_str("Function"),
        Object::BuiltIn { .. } => String::from_str("BuiltIn"),
        Object::String(..) => String::from_str("String"),
        Object::Error(..) => String::from_str("Error"),
        Object::Array(..) => String::from_str("Array"),
        Object::Hash(..) => String::from_str("Hash"),
    }
}

impl Evaluate {
    /// Resolves a name by walking the frame chain from `frame` outwards.
    fn resolve(
        &self,
        arena: &Vec<crate::env::Environment>,
        frame: usize,
        name: &str,
    ) -> (r: Option<Object>)
        requires
            arena_ok(view_envs(arena@)),
            frame < arena@.len(),
        ensures
            r matches Some(o) ==> resolve_s(view_envs(arena@), frame as int, name@) == Some(o@),
            r matches Some(o) ==> obj_ok(o@, view_envs(arena@).len() as int),
            r is None ==> resolve_s(view_envs(arena@), frame as int, name@) is None,
    {
        let mut cur = frame;
        loop
            invariant
                arena_ok(view_envs(arena@)),
                cur < arena@.len(),
                resolve_s(view_envs(arena@), frame as int, name@) == resolve_s(
                    view_envs(arena@),
                    cur as int,
                    name@,
                ),
            decreases cur,
        {
            proof {
                lemma_view_envs_index(arena@, cur as int);
            }
            match (&arena[cur]).get(name) {
                Some(v) => {
                    proof {
                        lemma_env_get_ok(
                            view_envs(arena@)[cur as int].store,
                            name@,
                            view_envs(arena@).len() as int,
                        );
                    }
                    return Some(v);
                },
                None => {
                    match (&arena[cur]).parent() {
                        Some(p) => {
                            proof {
                                assert(env_ok(
                                    view_envs(arena@)[cur as int],
                                    cur as int,
                                    view_envs(arena@).len() as int,
                                ));
                            }
                            cur = p;
                        },
                        None => {
                            return None;
                        },
                    }
                },
            }
        }
    }

    /// One expression.
    #[verifier::rlimit(100)]
    pub fn expression(
        &self,
        expression: &crate::ast::ExpressionNode,
        arena: &mut Vec<crate::env::Environment>,
        frame: usize,
        fuel: u64,
    ) -> (r: Result<Object, Error>)
        requires
            arena_ok(view_envs(old(arena)@)),
            frame < old(arena)@.len(),
        ensures
            view_envs(final(arena)@) == eval_expr_s(
                expression@,
                frame as int,
                view_envs(old(arena)@),
                fuel as nat,
            ).arena,
            r matches Ok(o) ==> eval_expr_s(
                expression@,
                frame as int,
                view_envs(old(arena)@),
                fuel as nat,
            ).res == Ok::<ObjectModel, ErrorModel>(o@),
            r matches Err(er) ==> eval_expr_s(
                expression@,
                frame as int,
                view_envs(old(arena)@),
                fuel as nat,
            ).res == Err::<ObjectModel, ErrorModel>(er@),
            arena_ok(view_envs(final(arena)@)),
            old(arena)@.len() <= final(arena)@.len(),
            r matches Ok(o) ==> obj_ok(o@, final(arena)@.len() as int),
        decreases fuel, size_expr(expression@), 0int,
    {
        proof {
            lemma_view_envs_len(arena@);
        }
        match expression {
            crate::ast::ExpressionNode::Int(val) => Ok(Object::Int(*val)),
            crate::ast::ExpressionNode::Bool(val) => Ok(Object::Bool(*val)),
            crate::ast::ExpressionNode::String(s) => Ok(Object::String(s.clone())),
            crate::ast::ExpressionNode::Identifier(ident) => {
                match self.resolve(arena, frame, ident.0.as_str()) {
                    Some(v) => Ok(v),
                    None => {
                        let mut msg = String::from_str("identifier not found: ");
                        msg.append(ident.0.as_str());
                        Ok(Object::Error(msg))
                    },
                }
            },
            crate::ast::ExpressionNode::Prefix { operator, expression } => self.eval_prefix(
                operator,
                expression,
                arena,
                frame,
                fuel,
            ),
            crate::ast::ExpressionNode::Infix { operator, left, right } => {
                let left_val = match self.expression(left, arena, frame, fuel) {
                    Ok(v) => v,
                    Err(er) => {
                        return Err(er);
                    },
                };
                let left_is_error = match &left_val {
                    Object::Error(..) => true,
                    _ => false,
                };
                if left_is_error {
                    return Ok(left_val);
                }
                proof {
                    lemma_view_envs_len(arena@);
                }
                let right_val = match self.expression(right, arena, frame, fuel) {
                    Ok(v) => v,
                    Err(er) => {
                        return Err(er);
                    },
                };
                let right_is_error = match &right_val {
                    Object::Error(..) => true,
                    _ => false,
                };
                if right_is_error {
                    return Ok(right_val);
                }
                self.eval_infix(operator, &left_val, &right_val)
            },
            crate::ast::ExpressionNode::Function { params, body } => {
                let f = Object::Function {
                    ident: crate::ast::clone_idents(params),
                    program: Box::new((**body).clone()),
                    env: frame,
                };
                Ok(f)
            },
            crate::ast::ExpressionNode::Call { function, params } => {
                let func = match self.expression(function, arena, frame, fuel) {
                    Ok(v) => v,
                    Err(er) => {
                        return Err(er);
                    },
                };
                match func {
                    Object::Function { ident, program, env } => {
                        proof {
                            lemma_view_envs_len(arena@);
                        }
                        let args = match self.eval_expressions(params, arena, frame, fuel) {
                            Ok(a) => a,
                            Err(er) => {
                                return Err(er);
                            },
                        };
                        if fuel == 0 {
                            return Err(
                                Error::FatalError(String::from_str("evaluation depth exceeded")),
                            );
                        }
                        let ghost names = crate::ast::view_idents(ident@);
                        let ghost vals = crate::object::view_objs(args@);
                        let ghost abase = view_envs(arena@);
                        proof {
                            crate::object::lemma_view_objs_len(args@);
                        }
                        let mut child = crate::env::Environment::new_child(env);
                        let mut i: usize = 0;
                        proof {
                            assert(names.skip(0) =~= names);
                            assert(vals.skip(0) =~= vals);
                        }
                        while i < ident.len() && i < args.len()
                            invariant
                                i <= ident@.len(),
                                i <= args@.len(),
                                names == crate::ast::view_idents(ident@),
                                vals == crate::object::view_objs(args@),
                                vals.len() == args@.len(),
                                abase == view_envs(arena@),
                                forall|j: int|
                                    0 <= j < vals.len() ==> obj_ok(
                                        #[trigger] vals[j],
                                        abase.len() as int,
                                    ),
                                child@.parent == Some(env as int),
                                store_ok(child@.store, abase.len() as int),
                                bind_params_s(
                                    child@.store,
                                    names.skip(i as int),
                                    vals.skip(i as int),
                                ) == bind_params_s(Seq::empty(), names, vals),
                            decreases ident@.len() - i,
                        {
                            let ghost st0 = child@.store;
                            proof {
                                crate::object::lemma_view_objs_index(args@, i as int);
                                assert(names.skip(i as int)[0] == names[i as int]);
                                assert(vals.skip(i as int)[0] == vals[i as int]);
                                assert(names.skip(i as int).drop_first() =~= names.skip(
                                    i + 1 as int,
                                ));
                                assert(vals.skip(i as int).drop_first() =~= vals.skip(
                                    i + 1 as int,
                                ));
                                lemma_env_set_ok(st0, names[i as int], vals[i as int],
                                    abase.len() as int);
                            }
                            child.store(ident[i].0.as_str(), &args[i]);
                            i = i + 1;
                        }
                        proof {
                            if i < ident@.len() {
                                assert(vals.skip(i as int).len() == 0);
                            } else {
                                assert(names.skip(i as int).len() == 0);
                            }
                            assert(child@.store == bind_params_s(Seq::empty(), names, vals));
                            lemma_bind_params_ok(Seq::empty(), names, vals, abase.len() as int);
                        }
                        let idx = arena.len();
                        proof {
                            lemma_view_envs_len(arena@);
                            lemma_store_ok_mono(child@.store, abase.len() as int,
                                abase.len() + 1 as int);
                            lemma_arena_ok_push(abase, child@);
                            lemma_view_envs_push(arena@, child);
                        }
                        arena.push(child);
                        proof {
                            lemma_view_envs_len(arena@);
                        }
                        self.evaluate_program(&program, arena, idx, fuel - 1)
                    },
                    Object::BuiltIn { name, params: params_size, program } => {
                        proof {
                            lemma_view_envs_len(arena@);
                        }
                        let args = match self.eval_expressions(params, arena, frame, fuel) {
                            Ok(a) => a,
                            Err(er) => {
                                return Err(er);
                            },
                        };
                        proof {
                            crate::object::lemma_view_objs_len(args@);
                            lemma_view_envs_len(arena@);
                        }
                        if args.len() != params_size {
                            let mut msg = name;
                            msg.append("(): Invalid number of argument - expected ");
                            let expected = crate::text::u64_to_string(params_size as u64);
                            msg.append(expected.as_str());
                            msg.append(" got ");
                            let got = crate::text::u64_to_string(args.len() as u64);
                            msg.append(got.as_str());
                            return Ok(Object::Error(msg));
                        }
                        let ghost vals = crate::object::view_objs(args@);
                        let ghost n = view_envs(arena@).len() as int;
                        let out = match crate::builtin::apply_builtin(program, args) {
                            Ok(o) => o,
                            Err(er) => {
                                return Err(er);
                            },
                        };
                        proof {
                            lemma_builtin_ok(program, vals, n);
                        }
                        Ok(out)
                    },
                    Object::Error(message) => Err(Error::FatalError(message)),
                    _ => Err(
                        Error::FatalError(
                            String::from_str("call to a value that is not callable"),
                        ),
                    ),
                }
            },
            crate::ast::ExpressionNode::ArrayLiteral { params } => {
                let args = match self.eval_expressions(params, arena, frame, fuel) {
                    Ok(a) => a,
                    Err(er) => {
                        return Err(er);
                    },
                };
                proof {
                    crate::object::lemma_view_objs_len(args@);
                    lemma_view_envs_len(arena@);
                    assert(obj_ok(
                        ObjectModel::Array(crate::object::view_objs(args@)),
                        view_envs(arena@).len() as int,
                    ));
                }
                Ok(Object::Array(args))
            },
            crate::ast::ExpressionNode::Index { left, index } => {
                let left_val = match self.expression(left, arena, frame, fuel) {
                    Ok(v) => v,
                    Err(er) => {
                        return Err(er);
                    },
                };
                let left_is_error = match &left_val {
                    Object::Error(..) => true,
                    _ => false,
                };
                if left_is_error {
                    return Ok(left_val);
                }
                proof {
                    lemma_view_envs_len(arena@);
                }
                let ghost nleft = view_envs(arena@).len() as int;
                match left_val {
                    Object::Array(items) => {
                        let index_val = match self.expression(index, arena, frame, fuel) {
                            Ok(v) => v,
                            Err(er) => {
                                return Err(er);
                            },
                        };
                        let index_is_error = match &index_val {
                            Object::Error(..) => true,
                            _ => false,
                        };
                        if index_is_error {
                            return Ok(index_val);
                        }
                        proof {
                            crate::object::lemma_view_objs_len(items@);
                            lemma_view_envs_len(arena@);
                        }
                        match index_val {
                            Object::Int(offset) => {
                                if offset < 0 || (offset as u64) >= (items.len() as u64) {
                                    Ok(Object::Null)
                                } else {
                                    proof {
                                        crate::object::lemma_view_objs_index(
                                            items@,
                                            offset as int,
                                        );
                                        lemma_obj_ok_mono(
                                            crate::object::view_objs(items@)[offset as int],
                                            nleft,
                                            view_envs(arena@).len() as int,
                                        );
                                    }
                                    Ok(items[offset as usize].clone())
                                }
                            },
                            _ => Ok(Object::Error(String::from_str("Invalid index value"))),
                        }
                    },
                    Object::Hash(entries) => {
                        let index_val = match self.expression(index, arena, frame, fuel) {
                            Ok(v) => v,
                            Err(er) => {
                                return Err(er);
                            },
                        };
                        let index_is_error = match &index_val {
                            Object::Error(..) => true,
                            _ => false,
                        };
                        if index_is_error {
                            return Ok(index_val);
                        }
                        proof {
                            lemma_view_envs_len(arena@);
                            crate::object::lemma_view_entries_len(entries@);
                        }
                        let ghost hn = view_envs(arena@).len() as int;
                        proof {
                            assert forall|j: int|
                                0 <= j < crate::object::view_entries(entries@).len() implies
                                obj_ok(
                                (#[trigger] crate::object::view_entries(entries@)[j]).1,
                                hn,
                            ) by {
                                lemma_obj_ok_mono(
                                    crate::object::view_entries(entries@)[j].1,
                                    nleft,
                                    hn,
                                );
                            }
                        }
                        match crate::builtin::object_key(&index_val) {
                            Some(k) => {
                                match crate::object::hash_lookup(&entries, &k) {
                                    Some(v) => {
                                        proof {
                                            lemma_hash_get_ok(
                                                crate::object::view_entries(entries@),
                                                k@,
                                                view_envs(arena@).len() as int,
                                            );
                                        }
                                        Ok(v)
                                    },
                                    None => Ok(
                                        Object::Error(String::from_str("key not found")),
                                    ),
                                }
                            },
                            None => Ok(
                                Object::Error(String::from_str("unusable as hash key")),
                            ),
                        }
                    },
                    _ => Ok(Object::Error(String::from_str("Can not index object type"))),
                }
            },
            crate::ast::ExpressionNode::HashLiteral { params } => self.eval_hash_literal(
                params,
                arena,
                frame,
                fuel,
            ),
        }
    }

    /// A prefix operator: evaluate the operand; an `Error` operand
    /// short-circuits to that error; otherwise `!` negates truthiness and
    /// `-` negates an integer.
    fn eval_prefix(
        &self,
        operator: &crate::ast::Operator,
        expression: &Box<crate::ast::ExpressionNode>,
        arena: &mut Vec<crate::env::Environment>,
        frame: usize,
        fuel: u64,
    ) -> (r: Result<Object, Error>)
        requires
            arena_ok(view_envs(old(arena)@)),
            frame < old(arena)@.len(),
        ensures
            view_envs(final(arena)@) == eval_expr_s(
                ExprModel::Prefix { operator: *operator, expression: Box::new((**expression)@) },
                frame as int,
                view_envs(old(arena)@),
                fuel as nat,
            ).arena,
            r matches Ok(o) ==> eval_expr_s(
                ExprModel::Prefix { operator: *operator, expression: Box::new((**expression)@) },
                frame as int,
                view_envs(old(arena)@),
                fuel as nat,
            ).res == Ok::<ObjectModel, ErrorModel>(o@),
            r matches Err(er) ==> eval_expr_s(
                ExprModel::Prefix { operator: *operator, expression: Box::new((**expression)@) },
                frame as int,
                view_envs(old(arena)@),
                fuel as nat,
            ).res == Err::<ObjectModel, ErrorModel>(er@),
            arena_ok(view_envs(final(arena)@)),
            old(arena)@.len() <= final(arena)@.len(),
            r matches Ok(o) ==> obj_ok(o@, final(arena)@.len() as int),
        decreases fuel, size_expr((**expression)@), 1int,
    {
        let result = match self.expression(expression, arena, frame, fuel) {
            Ok(v) => v,
            Err(er) => {
                return Err(er);
            },
        };
        let is_error = match &result {
            Object::Error(..) => true,
            _ => false,
        };
        if is_error {
            return Ok(result);
        }
        match operator {
            crate::ast::Operator::Not => Ok(Object::Bool(!self.is_truthy(&result))),
            crate::ast::Operator::Neg => match result {
                Object::Int(val) => {
                    if val == i64::MIN {
                        Ok(Object::Error(String::from_str("integer overflow")))
                    } else {
                        Ok(Object::Int(-val))
                    }
                },
                _ => Ok(Object::Error(String::from_str("Unexpected value type"))),
            },
            _ => Ok(Object::Error(String::from_str("Unknown operator"))),
        }
    }

    /// An infix operator on two already evaluated, non-`Error` operands.
    /// Integer arithmetic is checked: overflow and division by zero are
    /// in-language errors; division truncates toward zero.
    pub fn eval_infix(
        &self,
        operator: &crate::ast::Operator,
        left: &Object,
        right: &Object,
    ) -> (r: Result<Object, Error>)
        ensures
            r matches Ok(o) ==> o@ == spec_infix(*operator, left@, right@),
            r is Ok,
            r matches Ok(o) ==> forall|n: int| obj_ok(o@, n),
    {
        let r = match (left, right) {
            (Object::Int(a), Object::Int(b)) => match operator {
                crate::ast::Operator::Add => match a.checked_add(*b) {
                    Some(v) => Object::Int(v),
                    None => Object::Error(String::from_str("integer overflow")),
                },
                crate::ast::Operator::Sub => match a.checked_sub(*b) {
                    Some(v) => Object::Int(v),
                    None => Object::Error(String::from_str("integer overflow")),
                },
                crate::ast::Operator::Mul => match a.checked_mul(*b) {
                    Some(v) => Object::Int(v),
                    None => Object::Error(String::from_str("integer overflow")),
                },
                crate::ast::Operator::Div => {
                    if *b == 0 {
                        Object::Error(String::from_str("division by zero"))
                    } else {
                        match a.checked_div(*b) {
                            Some(v) => {
                                proof {
                                    assert(v as int == trunc_div(*a as int, *b as int));
                                }
                                Object::Int(v)
                            },
                            None => Object::Error(String::from_str("integer overflow")),
                        }
                    }
                },
                crate::ast::Operator::Greater => Object::Bool(*a > *b),
                crate::ast::Operator::Less => Object::Bool(*a < *b),
                crate::ast::Operator::Equal => Object::Bool(*a == *b),
                crate::ast::Operator::NotEqual => Object::Bool(*a != *b),
                _ => Object::Error(String::from_str("Unexpected Operator")),
            },
            (Object::String(a), Object::String(b)) => match operator {
                crate::ast::Operator::Add => {
                    let mut t = a.clone();
                    t.append(b.as_str());
                    Object::String(t)
                },
                _ => Object::Error(String::from_str("Unexpected Operator")),
            },
            (Object::String(a), Object::Int(b)) => match operator {
                crate::ast::Operator::Add => {
                    let mut t = a.clone();
                    let digits = crate::text::i64_to_string(*b);
                    t.append(digits.as_str());
                    Object::String(t)
                },
                _ => Object::Error(String::from_str("Unexpected Operator")),
            },
            _ => {
                let mut msg = String::from_str("Expected number, got ");
                let ln = kind_name(left);
                msg.append(ln.as_str());
                msg.append(" and ");
                let rn = kind_name(right);
                msg.append(rn.as_str());
                Object::Error(msg)
            },
        };
        Ok(r)
    }

    /// A run of argument or element expressions, evaluated left to right.
    fn eval_expressions(
        &self,
        params: &Vec<Box<crate::ast::ExpressionNode>>,
        arena: &mut Vec<crate::env::Environment>,
        frame: usize,
        fuel: u64,
    ) -> (r: Result<Vec<Object>, Error>)
        requires
            arena_ok(view_envs(old(arena)@)),
            frame < old(arena)@.len(),
        ensures
            view_envs(final(arena)@) == eval_exprs_s(
                crate::ast::view_exprs(params@),
                Seq::empty(),
                frame as int,
                view_envs(old(arena)@),
                fuel as nat,
            ).arena,
            r matches Ok(vs) ==> eval_exprs_s(
                crate::ast::view_exprs(params@),
                Seq::empty(),
                frame as int,
                view_envs(old(arena)@),
                fuel as nat,
            ).res == Ok::<Seq<ObjectModel>, ErrorModel>(crate::object::view_objs(vs@)),
            r matches Err(er) ==> eval_exprs_s(
                crate::ast::view_exprs(params@),
                Seq::empty(),
                frame as int,
                view_envs(old(arena)@),
                fuel as nat,
            ).res == Err::<Seq<ObjectModel>, ErrorModel>(er@),
            arena_ok(view_envs(final(arena)@)),
            old(arena)@.len() <= final(arena)@.len(),
            r matches Ok(vs) ==> forall|j: int|
                0 <= j < crate::object::view_objs(vs@).len() ==> obj_ok(
                    #[trigger] crate::object::view_objs(vs@)[j],
                    view_envs(final(arena)@).len() as int,
                ),
        decreases fuel, size_exprs(crate::ast::view_exprs(params@)), 1int,
    {
        let ghost es = crate::ast::view_exprs(params@);
        let ghost a0 = view_envs(old(arena)@);
        let mut out: Vec<Object> = Vec::new();
        let mut i: usize = 0;
        proof {
            crate::ast::lemma_view_exprs_len(params@);
            assert(es.skip(0) =~= es);
            assert(crate::object::view_objs(out@) =~= Seq::<ObjectModel>::empty());
        }
        while i < params.len()
            invariant
                arena_ok(view_envs(arena@)),
                frame < arena@.len(),
                old(arena)@.len() <= arena@.len(),
                i <= params@.len(),
                i == out@.len(),
                es == crate::ast::view_exprs(params@),
                es.len() == params@.len(),
                a0 == view_envs(old(arena)@),
                crate::object::view_objs(out@).len() == out@.len(),
                forall|j: int|
                    0 <= j < out@.len() ==> obj_ok(
                        #[trigger] crate::object::view_objs(out@)[j],
                        view_envs(arena@).len() as int,
                    ),
                eval_exprs_s(es, Seq::empty(), frame as int, a0, fuel as nat) == eval_exprs_s(
                    es.skip(i as int),
                    crate::object::view_objs(out@),
                    frame as int,
                    view_envs(arena@),
                    fuel as nat,
                ),
            decreases params@.len() - i,
        {
            let ghost acur = view_envs(arena@);
            proof {
                lemma_view_envs_len(arena@);
                crate::ast::lemma_view_exprs_index(params@, i as int);
                lemma_size_exprs_index(es, i as int);
                assert(es.skip(i as int)[0] == es[i as int]);
                assert(es.skip(i as int).drop_first() =~= es.skip(i + 1 as int));
            }
            let v = match self.expression(&params[i], arena, frame, fuel) {
                Ok(v) => v,
                Err(er) => {
                    return Err(er);
                },
            };
            let ghost out0 = out@;
            out.push(v);
            proof {
                crate::object::lemma_view_objs_push(out0, v);
                crate::object::lemma_view_objs_len(out@);
                lemma_view_envs_len(arena@);
                assert(acur.len() <= view_envs(arena@).len());
                assert forall|j: int|
                    0 <= j < out@.len() implies obj_ok(
                    #[trigger] crate::object::view_objs(out@)[j],
                    view_envs(arena@).len() as int,
                ) by {
                    if j < out0.len() {
                        assert(crate::object::view_objs(out@)[j] == crate::object::view_objs(
                            out0,
                        )[j]);
                        lemma_obj_ok_mono(crate::object::view_objs(out0)[j], acur.len() as int,
                            view_envs(arena@).len() as int);
                    }
                }
            }
            i = i + 1;
        }
        proof {
            assert(es.skip(es.len() as int) =~= Seq::<ExprModel>::empty());
        }
        Ok(out)
    }

    /// A hash literal: keys and values evaluated in encounter order, later
    /// duplicate keys overwriting earlier ones; a key that is not an
    /// integer, boolean or string is a defined failure.
    fn eval_hash_literal(
        &self,
        params: &Vec<(Box<crate::ast::ExpressionNode>, Box<crate::ast::ExpressionNode>)>,
        arena: &mut Vec<crate::env::Environment>,
        frame: usize,
        fuel: u64,
    ) -> (r: Result<Object, Error>)
        requires
            arena_ok(view_envs(old(arena)@)),
            frame < old(arena)@.len(),
        ensures
            view_envs(final(arena)@) == eval_pairs_s(
                crate::ast::view_pairs(params@),
                Seq::empty(),
                frame as int,
                view_envs(old(arena)@),
                fuel as nat,
            ).arena,
            r matches Ok(o) ==> eval_pairs_s(
                crate::ast::view_pairs(params@),
                Seq::empty(),
                frame as int,
                view_envs(old(arena)@),
                fuel as nat,
            ).res == Ok::<ObjectModel, ErrorModel>(o@),
            r matches Err(er) ==> eval_pairs_s(
                crate::ast::view_pairs(params@),
                Seq::empty(),
                frame as int,
                view_envs(old(arena)@),
                fuel as nat,
            ).res == Err::<ObjectModel, ErrorModel>(er@),
            arena_ok(view_envs(final(arena)@)),
            old(arena)@.len() <= final(arena)@.len(),
            r matches Ok(o) ==> obj_ok(o@, final(arena)@.len() as int),
        decreases fuel, size_pairs(crate::ast::view_pairs(params@)), 1int,
    {
        let ghost ps = crate::ast::view_pairs(params@);
        let ghost a0 = view_envs(old(arena)@);
        let mut entries: Vec<(crate::object::HashKey, Object)> = Vec::new();
        let mut i: usize = 0;
        proof {
            crate::ast::lemma_view_pairs_len(params@);
            assert(ps.skip(0) =~= ps);
            assert(crate::object::view_entries(entries@) =~= Seq::<
                (crate::object::HashKeyModel, ObjectModel),
            >::empty());
        }
        while i < params.len()
            invariant
                arena_ok(view_envs(arena@)),
                frame < arena@.len(),
                old(arena)@.len() <= arena@.len(),
                i <= params@.len(),
                ps == crate::ast::view_pairs(params@),
                ps.len() == params@.len(),
                a0 == view_envs(old(arena)@),
                forall|j: int|
                    0 <= j < crate::object::view_entries(entries@).len() ==> obj_ok(
                        (#[trigger] crate::object::view_entries(entries@)[j]).1,
                        view_envs(arena@).len() as int,
                    ),
                eval_pairs_s(ps, Seq::empty(), frame as int, a0, fuel as nat) == eval_pairs_s(
                    ps.skip(i as int),
                    crate::object::view_entries(entries@),
                    frame as int,
                    view_envs(arena@),
                    fuel as nat,
                ),
            decreases params@.len() - i,
        {
            let ghost acur = view_envs(arena@);
            proof {
                lemma_view_envs_len(arena@);
                crate::ast::lemma_view_pairs_index(params@, i as int);
                lemma_size_pairs_index(ps, i as int);
                assert(ps.skip(i as int)[0] == ps[i as int]);
                assert(ps.skip(i as int).drop_first() =~= ps.skip(i + 1 as int));
            }
            let key_val = match self.expression(&params[i].0, arena, frame, fuel) {
                Ok(v) => v,
                Err(er) => {
                    return Err(er);
                },
            };
            proof {
                lemma_view_envs_len(arena@);
            }
            let k = match crate::builtin::object_key(&key_val) {
                Some(k) => k,
                None => {
                    return Ok(Object::Error(String::from_str("unusable as hash key")));
                },
            };
            let ghost amid = view_envs(arena@);
            let val = match self.expression(&params[i].1, arena, frame, fuel) {
                Ok(v) => v,
                Err(er) => {
                    return Err(er);
                },
            };
            let ghost entries0 = crate::object::view_entries(entries@);
            proof {
                lemma_view_envs_len(arena@);
                assert(acur.len() <= view_envs(arena@).len());
                assert forall|j: int|
                    0 <= j < entries0.len() implies obj_ok(
                    (#[trigger] entries0[j]).1,
                    view_envs(arena@).len() as int,
                ) by {
                    lemma_obj_ok_mono(entries0[j].1, acur.len() as int,
                        view_envs(arena@).len() as int);
                }
                lemma_hash_set_ok(entries0, k@, val@, view_envs(arena@).len() as int);
            }
            entries = crate::object::hash_insert(&entries, k, val);
            i = i + 1;
        }
        proof {
            assert(ps.skip(ps.len() as int) =~= Seq::<(ExprModel, ExprModel)>::empty());
            let n = view_envs(arena@).len() as int;
            assert forall|j: int|
                0 <= j < crate::object::view_entries(entries@).len() implies obj_ok(
                (#[trigger] crate::object::view_entries(entries@)[j]).1,
                n,
            ) by {}
            assert(obj_ok(ObjectModel::Hash(crate::object::view_entries(entries@)), n));
            lemma_view_envs_len(arena@);
        }
        Ok(Object::Hash(entries))
    }
}

} // verus!


