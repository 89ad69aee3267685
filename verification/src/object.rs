//! Runtime values: the tagged union every evaluation produces, with its
//! mathematical mirror (`ObjectModel`) and the association-list model of
//! hashes.
//!
//! Hash keys are restricted to integers, booleans and strings; using any
//! other value as a key is a defined failure of the evaluator, never a
//! silent coercion.

use vstd::prelude::*;

use crate::ast::{clone_idents, Identifier, Program, ProgramModel};
use crate::text::{append_escaped, chars_of, dec_digits, escape_seq, i64_to_string, int_digits,
    str_eq, u64_to_string};
use vstd::string::StringExecFns;

verus! {

/// A value usable as a hash key: one of the primitive runtime values.
#[derive(Debug, PartialEq)]
pub enum HashKey {
    Int(i64),
    Bool(bool),
    Str(String),
}

/// Mathematical mirror of a [`HashKey`].
pub enum HashKeyModel {
    Int(int),
    Bool(bool),
    Str(Seq<char>),
}

impl View for HashKey {
    type V = HashKeyModel;

    open spec fn view(&self) -> HashKeyModel {
        match self {
            HashKey::Int(n) => HashKeyModel::Int(*n as int),
            HashKey::Bool(b) => HashKeyModel::Bool(*b),
            HashKey::Str(s) => HashKeyModel::Str(s@),
        }
    }
}

impl Clone for HashKey {
    fn clone(&self) -> (r: Self)
        ensures
            r@ == self@,
    {
        match self {
            HashKey::Int(n) => HashKey::Int(*n),
            HashKey::Bool(b) => HashKey::Bool(*b),
            HashKey::Str(s) => HashKey::Str(s.clone()),
        }
    }
}

/// Key equality, the relation hash lookup goes by.
pub fn key_eq(a: &HashKey, b: &HashKey) -> (r: bool)
    ensures
        r == (a@ == b@),
{
    match (a, b) {
        (HashKey::Int(x), HashKey::Int(y)) => x == y,
        (HashKey::Bool(x), HashKey::Bool(y)) => x == y,
        (HashKey::Str(x), HashKey::Str(y)) => str_eq(x.as_str(), y.as_str()),
        _ => false,
    }
}

/// The native function a built-in binding dispatches to.
#[derive(Debug, Clone, Copy, PartialEq, Eq, Structural)]
pub enum BuiltInFn {
    StrLen,
    First,
    Last,
    Push,
    Rest,
    Put,
}

/// A runtime value. `Return` is an internal control-flow wrapper, only ever
/// the immediate result of a block; `Error` is a first-class value flowing
/// through the same channel as successes. A `Function` holds the arena index
/// of the environment captured at its definition point.
#[derive(Debug, PartialEq)]
pub enum Object {
    Null,
    Int(i64),
    Bool(bool),
    Return(Box<Object>),
    Function { ident: Vec<Identifier>, program: Box<Program>, env: usize },
    BuiltIn { name: String, params: usize, program: BuiltInFn },
    String(String),
    Error(String),
    Array(Vec<Object>),
    Hash(Vec<(HashKey, Object)>),
}

/// Mathematical mirror of an [`Object`].
pub enum ObjectModel {
    Null,
    Int(int),
    Bool(bool),
    Return(Box<ObjectModel>),
    Function { ident: Seq<Seq<char>>, program: ProgramModel, env: int },
    BuiltIn { name: Seq<char>, params: int, program: BuiltInFn },
    String(Seq<char>),
    Error(Seq<char>),
    Array(Seq<ObjectModel>),
    Hash(Seq<(HashKeyModel, ObjectModel)>),
}

/// The view of one runtime value.
pub open spec fn spec_view_obj(o: Object) -> ObjectModel
    decreases o,
{
    match o {
        Object::Null => ObjectModel::Null,
        Object::Int(n) => ObjectModel::Int(n as int),
        Object::Bool(b) => ObjectModel::Bool(b),
        Object::Return(inner) => ObjectModel::Return(Box::new(spec_view_obj(*inner))),
        Object::Function { ident, program, env } => ObjectModel::Function {
            ident: crate::ast::view_idents(ident@),
            program: (*program)@,
            env: env as int,
        },
        Object::BuiltIn { name, params, program } => ObjectModel::BuiltIn {
            name: name@,
            params: params as int,
            program,
        },
        Object::String(s) => ObjectModel::String(s@),
        Object::Error(s) => ObjectModel::Error(s@),
        Object::Array(items) => ObjectModel::Array(view_objs(items@)),
        Object::Hash(entries) => ObjectModel::Hash(view_entries(entries@)),
    }
}

/// The views of a run of values.
pub open spec fn view_objs(v: Seq<Object>) -> Seq<ObjectModel>
    decreases v,
{
    if v.len() == 0 {
        Seq::empty()
    } else {
        view_objs(v.drop_last()).push(spec_view_obj(v.last()))
    }
}

/// The views of a run of hash entries.
pub open spec fn view_entries(v: Seq<(HashKey, Object)>) -> Seq<(HashKeyModel, ObjectModel)>
    decreases v,
{
    if v.len() == 0 {
        Seq::empty()
    } else {
        view_entries(v.drop_last()).push((v.last().0@, spec_view_obj(v.last().1)))
    }
}

impl View for Object {
    type V = ObjectModel;

    open spec fn view(&self) -> ObjectModel {
        spec_view_obj(*self)
    }
}

/// `view_objs` keeps the length.
pub proof fn lemma_view_objs_len(v: Seq<Object>)
    ensures
        view_objs(v).len() == v.len(),
    decreases v.len(),
{
    if v.len() > 0 {
        lemma_view_objs_len(v.drop_last());
    }
}

/// `view_objs` read off at one index.
pub proof fn lemma_view_objs_index(v: Seq<Object>, i: int)
    requires
        0 <= i < v.len(),
    ensures
        view_objs(v).len() == v.len(),
        view_objs(v)[i] == spec_view_obj(v[i]),
    decreases v.len(),
{
    lemma_view_objs_len(v);
    if i < v.len() - 1 {
        lemma_view_objs_index(v.drop_last(), i);
    }
}

/// `view_objs` over one appended value.
pub proof fn lemma_view_objs_push(s: Seq<Object>, x: Object)
    ensures
        view_objs(s.push(x)) == view_objs(s).push(spec_view_obj(x)),
{
    assert(s.push(x).drop_last() =~= s);
    assert(s.push(x).last() == x);
}

/// `view_entries` keeps the length.
pub proof fn lemma_view_entries_len(v: Seq<(HashKey, Object)>)
    ensures
        view_entries(v).len() == v.len(),
    decreases v.len(),
{
    if v.len() > 0 {
        lemma_view_entries_len(v.drop_last());
    }
}

/// `view_entries` read off at one index.
pub proof fn lemma_view_entries_index(v: Seq<(HashKey, Object)>, i: int)
    requires
        0 <= i < v.len(),
    ensures
        view_entries(v).len() == v.len(),
        view_entries(v)[i] == (v[i].0@, spec_view_obj(v[i].1)),
    decreases v.len(),
{
    lemma_view_entries_len(v);
    if i < v.len() - 1 {
        lemma_view_entries_index(v.drop_last(), i);
    }
}

/// `view_entries` over one appended entry.
pub proof fn lemma_view_entries_push(s: Seq<(HashKey, Object)>, x: (HashKey, Object))
    ensures
        view_entries(s.push(x)) == view_entries(s).push((x.0@, spec_view_obj(x.1))),
{
    assert(s.push(x).drop_last() =~= s);
    assert(s.push(x).last() == x);
}

/// Looks a key up in the entries of a hash, front to back.
pub open spec fn hash_get(entries: Seq<(HashKeyModel, ObjectModel)>, k: HashKeyModel) -> Option<
    ObjectModel,
>
    decreases entries.len(),
{
    if entries.len() == 0 {
        None
    } else if entries[0].0 == k {
        Some(entries[0].1)
    } else {
        hash_get(entries.drop_first(), k)
    }
}

/// Sets a key in the entries of a hash: replaces the value in place when the
/// key is present, else appends the new entry.
pub open spec fn hash_set(
    entries: Seq<(HashKeyModel, ObjectModel)>,
    k: HashKeyModel,
    v: ObjectModel,
) -> Seq<(HashKeyModel, ObjectModel)>
    decreases entries.len(),
{
    if entries.len() == 0 {
        seq![(k, v)]
    } else if entries[0].0 == k {
        seq![(k, v)] + entries.drop_first()
    } else {
        seq![entries[0]] + hash_set(entries.drop_first(), k, v)
    }
}

/// Clones every value of a run.
pub(crate) fn clone_objs(v: &Vec<Object>) -> (r: Vec<Object>)
    ensures
        view_objs(r@) == view_objs(v@),
    decreases v,
{
    let mut r: Vec<Object> = Vec::new();
    let mut i: usize = 0;
    while i < v.len()
        invariant
            i <= v@.len(),
            view_objs(r@) == view_objs(v@.subrange(0, i as int)),
        decreases v@.len() - i,
    {
        let ghost r0 = r@;
        let x = v[i].clone();
        r.push(x);
        proof {
            lemma_view_objs_push(r0, x);
            lemma_view_objs_push(v@.subrange(0, i as int), v@[i as int]);
            assert(v@.subrange(0, i + 1 as int) =~= v@.subrange(0, i as int).push(v@[i as int]));
        }
        i = i + 1;
    }
    proof {
        assert(v@.subrange(0, v@.len() as int) =~= v@);
    }
    r
}

/// Clones every entry of a hash.
pub(crate) fn clone_entries(v: &Vec<(HashKey, Object)>) -> (r: Vec<(HashKey, Object)>)
    ensures
        view_entries(r@) == view_entries(v@),
    decreases v,
{
    let mut r: Vec<(HashKey, Object)> = Vec::new();
    let mut i: usize = 0;
    while i < v.len()
        invariant
            i <= v@.len(),
            view_entries(r@) == view_entries(v@.subrange(0, i as int)),
        decreases v@.len() - i,
    {
        let ghost r0 = r@;
        let k = v[i].0.clone();
        let val = v[i].1.clone();
        proof {
            assert((k, val).0@ == v@[i as int].0@);
        }
        r.push((k, val));
        proof {
            lemma_view_entries_push(r0, (k, val));
            lemma_view_entries_push(v@.subrange(0, i as int), v@[i as int]);
            assert(v@.subrange(0, i + 1 as int) =~= v@.subrange(0, i as int).push(v@[i as int]));
        }
        i = i + 1;
    }
    proof {
        assert(v@.subrange(0, v@.len() as int) =~= v@);
    }
    r
}


/// `view_entries` over one replaced entry.
pub proof fn lemma_view_entries_update(v: Seq<(HashKey, Object)>, i: int, x: (HashKey, Object))
    requires
        0 <= i < v.len(),
    ensures
        view_entries(v.update(i, x)) == view_entries(v).update(i, (x.0@, spec_view_obj(x.1))),
    decreases v.len(),
{
    lemma_view_entries_len(v);
    lemma_view_entries_len(v.update(i, x));
    if i == v.len() - 1 {
        assert(v.update(i, x).drop_last() =~= v.drop_last());
        assert(v.update(i, x).last() == x);
        assert(view_entries(v.update(i, x)) =~= view_entries(v).update(
            i,
            (x.0@, spec_view_obj(x.1)),
        ));
    } else {
        assert(v.update(i, x).drop_last() =~= v.drop_last().update(i, x));
        assert(v.update(i, x).last() == v.last());
        lemma_view_entries_update(v.drop_last(), i, x);
        assert(view_entries(v.update(i, x)) =~= view_entries(v).update(
            i,
            (x.0@, spec_view_obj(x.1)),
        ));
    }
}

/// When the first `i` entries miss and entry `i` hits, the lookup returns
/// entry `i`'s value.
proof fn lemma_hash_get_at(entries: Seq<(HashKeyModel, ObjectModel)>, k: HashKeyModel, i: int)
    requires
        0 <= i < entries.len(),
        forall|j: int| 0 <= j < i ==> entries[j].0 != k,
        entries[i].0 == k,
    ensures
        hash_get(entries, k) == Some(entries[i].1),
    decreases i,
{
    if i > 0 {
        lemma_hash_get_at(entries.drop_first(), k, i - 1);
    }
}

/// When every entry misses, the lookup misses.
proof fn lemma_hash_get_missing(entries: Seq<(HashKeyModel, ObjectModel)>, k: HashKeyModel)
    requires
        forall|j: int| 0 <= j < entries.len() ==> entries[j].0 != k,
    ensures
        hash_get(entries, k) is None,
    decreases entries.len(),
{
    if entries.len() > 0 {
        lemma_hash_get_missing(entries.drop_first(), k);
    }
}

/// When the first `i` entries miss and entry `i` hits, setting the key
/// replaces entry `i` in place.
proof fn lemma_hash_set_found(
    entries: Seq<(HashKeyModel, ObjectModel)>,
    k: HashKeyModel,
    v: ObjectModel,
    i: int,
)
    requires
        0 <= i < entries.len(),
        forall|j: int| 0 <= j < i ==> entries[j].0 != k,
        entries[i].0 == k,
    ensures
        hash_set(entries, k, v) == entries.update(i, (k, v)),
    decreases i,
{
    if i == 0 {
        assert(hash_set(entries, k, v) =~= entries.update(0, (k, v)));
    } else {
        lemma_hash_set_found(entries.drop_first(), k, v, i - 1);
        assert(entries.update(i, (k, v)).drop_first() =~= entries.drop_first().update(
            i - 1,
            (k, v),
        ));
        assert(hash_set(entries, k, v) =~= entries.update(i, (k, v)));
    }
}

/// When every entry misses, setting the key appends.
proof fn lemma_hash_set_absent(
    entries: Seq<(HashKeyModel, ObjectModel)>,
    k: HashKeyModel,
    v: ObjectModel,
)
    requires
        forall|j: int| 0 <= j < entries.len() ==> entries[j].0 != k,
    ensures
        hash_set(entries, k, v) == entries.push((k, v)),
    decreases entries.len(),
{
    if entries.len() == 0 {
        assert(hash_set(entries, k, v) =~= entries.push((k, v)));
    } else {
        lemma_hash_set_absent(entries.drop_first(), k, v);
        assert(entries.push((k, v)).drop_first() =~= entries.drop_first().push((k, v)));
        assert(hash_set(entries, k, v) =~= entries.push((k, v)));
    }
}

/// Looks a key up among a hash's entries by key equality.
pub fn hash_lookup(entries: &Vec<(HashKey, Object)>, k: &HashKey) -> (r: Option<Object>)
    ensures
        r matches Some(o) ==> hash_get(view_entries(entries@), k@) == Some(o@),
        r is None ==> hash_get(view_entries(entries@), k@) is None,
{
    let mut i: usize = 0;
    while i < entries.len()
        invariant
            i <= entries@.len(),
            forall|j: int| 0 <= j < i ==> view_entries(entries@)[j].0 != k@,
        decreases entries@.len() - i,
    {
        proof {
            lemma_view_entries_index(entries@, i as int);
        }
        if key_eq(&entries[i].0, k) {
            proof {
                lemma_hash_get_at(view_entries(entries@), k@, i as int);
            }
            return Some(entries[i].1.clone());
        }
        i = i + 1;
    }
    proof {
        lemma_view_entries_len(entries@);
        lemma_hash_get_missing(view_entries(entries@), k@);
    }
    None
}

/// A copy of a hash's entries with one key set, the original untouched.
pub fn hash_insert(entries: &Vec<(HashKey, Object)>, k: HashKey, v: Object) -> (r: Vec<(
    HashKey,
    Object,
)>)
    ensures
        view_entries(r@) == hash_set(view_entries(entries@), k@, v@),
{
    let mut r = clone_entries(entries);
    let mut i: usize = 0;
    while i < r.len()
        invariant
            i <= r@.len(),
            view_entries(r@) == view_entries(entries@),
            forall|j: int| 0 <= j < i ==> view_entries(r@)[j].0 != k@,
        decreases r@.len() - i,
    {
        proof {
            lemma_view_entries_index(r@, i as int);
        }
        if key_eq(&r[i].0, &k) {
            let ghost before = r@;
            let entry = (k, v);
            proof {
                lemma_view_entries_len(entries@);
                lemma_view_entries_len(before);
                lemma_hash_set_found(view_entries(before), entry.0@, spec_view_obj(entry.1), i as int);
                lemma_view_entries_update(before, i as int, entry);
            }
            r[i] = entry;
            return r;
        }
        i = i + 1;
    }
    let ghost before = r@;
    let entry = (k, v);
    proof {
        lemma_view_entries_len(before);
        lemma_hash_set_absent(view_entries(before), entry.0@, spec_view_obj(entry.1));
        lemma_view_entries_push(before, entry);
    }
    r.push(entry);
    r
}


/// The rendering of a hash key: a number, a boolean, or a quoted string.
pub open spec fn spec_render_key(k: HashKeyModel) -> Seq<char> {
    match k {
        HashKeyModel::Int(n) => int_digits(n),
        HashKeyModel::Bool(b) => if b {
            "true"@
        } else {
            "false"@
        },
        HashKeyModel::Str(s) => "\""@ + escape_seq(s) + "\""@,
    }
}

/// The debug rendering of a runtime value: its kind and its contents. A
/// function value shows its parameter names only — its body and captured
/// frame are left out.
pub open spec fn spec_render_obj(o: ObjectModel) -> Seq<char>
    decreases o, 0int,
{
    match o {
        ObjectModel::Null => "Null"@,
        ObjectModel::Int(n) => "Int("@ + int_digits(n) + ")"@,
        ObjectModel::Bool(b) => if b {
            "Bool(true)"@
        } else {
            "Bool(false)"@
        },
        ObjectModel::Return(inner) => "Return("@ + spec_render_obj(*inner) + ")"@,
        ObjectModel::Function { ident, program, env } => "Function("@ + spec_render_names(ident)
            + ")"@,
        ObjectModel::BuiltIn { name, params, program } => "BuiltIn { name: \""@ + escape_seq(name)
            + "\", params: "@ + int_digits(params) + " }"@,
        ObjectModel::String(s) => "String(\""@ + escape_seq(s) + "\")"@,
        ObjectModel::Error(s) => "Error(\""@ + escape_seq(s) + "\")"@,
        ObjectModel::Array(items) => "Array(["@ + spec_render_objs(items) + "])"@,
        ObjectModel::Hash(entries) => "Hash({"@ + spec_render_entries(entries) + "})"@,
    }
}

/// Comma-joined parameter names.
pub open spec fn spec_render_names(names: Seq<Seq<char>>) -> Seq<char>
    decreases names.len(),
{
    if names.len() == 0 {
        Seq::empty()
    } else if names.len() == 1 {
        names[0]
    } else {
        names[0] + ", "@ + spec_render_names(names.drop_first())
    }
}

/// Comma-joined renderings of a run of values.
pub open spec fn spec_render_objs(items: Seq<ObjectModel>) -> Seq<char>
    decreases items, 1int,
{
    if items.len() == 0 {
        Seq::empty()
    } else if items.len() == 1 {
        spec_render_obj(items[0])
    } else {
        spec_render_obj(items[0]) + ", "@ + spec_render_objs(items.drop_first())
    }
}

/// Comma-joined `key: value` renderings of a hash's entries, in stored
/// order.
pub open spec fn spec_render_entries(entries: Seq<(HashKeyModel, ObjectModel)>) -> Seq<char>
    decreases entries, 1int,
{
    if entries.len() == 0 {
        Seq::empty()
    } else if entries.len() == 1 {
        spec_render_key(entries[0].0) + ": "@ + spec_render_obj(entries[0].1)
    } else {
        spec_render_key(entries[0].0) + ": "@ + spec_render_obj(entries[0].1) + ", "@
            + spec_render_entries(entries.drop_first())
    }
}

/// Appends the rendering of a hash key.
fn append_key(out: &mut String, k: &HashKey)
    ensures
        final(out)@ == old(out)@ + spec_render_key(k@),
{
    match k {
        HashKey::Int(n) => {
            let digits = i64_to_string(*n);
            out.append(digits.as_str());
        },
        HashKey::Bool(b) => {
            if *b {
                out.append("true");
            } else {
                out.append("false");
            }
        },
        HashKey::Str(s) => {
            out.append("\"");
            let cs = chars_of(s.as_str());
            append_escaped(out, &cs);
            out.append("\"");
        },
    }
}

/// Appends the comma-joined renderings of the values of `v` starting at
/// `i`.
fn append_objs_from(out: &mut String, v: &Vec<Object>, i: usize)
    requires
        i <= v@.len(),
    ensures
        final(out)@ == old(out)@ + spec_render_objs(view_objs(v@).skip(i as int)),
    decreases v, v@.len() - i, 1int,
{
    proof {
        lemma_view_objs_len(v@);
    }
    if i >= v.len() {
        proof {
            assert(view_objs(v@).skip(i as int) =~= Seq::<ObjectModel>::empty());
            assert(old(out)@ + Seq::<char>::empty() =~= old(out)@);
        }
        return ;
    }
    proof {
        lemma_view_objs_index(v@, i as int);
        assert(view_objs(v@).skip(i as int)[0] == view_objs(v@)[i as int]);
        assert(view_objs(v@).skip(i as int).drop_first() =~= view_objs(v@).skip(i + 1 as int));
    }
    let piece = v[i].render();
    out.append(piece.as_str());
    if i + 1 < v.len() {
        out.append(", ");
        append_objs_from(out, v, i + 1);
    } else {
        proof {
            assert(view_objs(v@).skip(i as int).len() == 1);
        }
    }
}

/// Appends the comma-joined renderings of the entries of `v` starting at
/// `i`.
fn append_entries_from(out: &mut String, v: &Vec<(HashKey, Object)>, i: usize)
    requires
        i <= v@.len(),
    ensures
        final(out)@ == old(out)@ + spec_render_entries(view_entries(v@).skip(i as int)),
    decreases v, v@.len() - i, 1int,
{
    proof {
        lemma_view_entries_len(v@);
    }
    if i >= v.len() {
        proof {
            assert(view_entries(v@).skip(i as int) =~= Seq::<(HashKeyModel, ObjectModel)>::empty());
            assert(old(out)@ + Seq::<char>::empty() =~= old(out)@);
        }
        return ;
    }
    proof {
        lemma_view_entries_index(v@, i as int);
        assert(view_entries(v@).skip(i as int)[0] == view_entries(v@)[i as int]);
        assert(view_entries(v@).skip(i as int).drop_first() =~= view_entries(v@).skip(
            i + 1 as int,
        ));
    }
    append_key(out, &v[i].0);
    out.append(": ");
    let piece = v[i].1.render();
    out.append(piece.as_str());
    if i + 1 < v.len() {
        out.append(", ");
        append_entries_from(out, v, i + 1);
    } else {
        proof {
            assert(view_entries(v@).skip(i as int).len() == 1);
        }
    }
}

/// Appends the comma-joined parameter names of `v` starting at `i`.
fn append_names_from(out: &mut String, v: &Vec<Identifier>, i: usize)
    requires
        i <= v@.len(),
    ensures
        final(out)@ == old(out)@ + spec_render_names(
            crate::ast::view_idents(v@).skip(i as int),
        ),
    decreases v@.len() - i,
{
    if i >= v.len() {
        proof {
            assert(crate::ast::view_idents(v@).skip(i as int) =~= Seq::<Seq<char>>::empty());
            assert(old(out)@ + Seq::<char>::empty() =~= old(out)@);
        }
        return ;
    }
    proof {
        assert(crate::ast::view_idents(v@).skip(i as int)[0] == v@[i as int]@);
        assert(crate::ast::view_idents(v@).skip(i as int).drop_first()
            =~= crate::ast::view_idents(v@).skip(i + 1 as int));
    }
    out.append(v[i].0.as_str());
    if i + 1 < v.len() {
        out.append(", ");
        append_names_from(out, v, i + 1);
    } else {
        proof {
            assert(crate::ast::view_idents(v@).skip(i as int).len() == 1);
        }
    }
}

impl Object {
    /// The debug rendering of this value.
    pub fn render(&self) -> (r: String)
        ensures
            r@ == spec_render_obj(self@),
        decreases self, 2int,
    {
        match self {
            Object::Null => String::from_str("Null"),
            Object::Int(n) => {
                let mut out = String::from_str("Int(");
                let digits = i64_to_string(*n);
                out.append(digits.as_str());
                out.append(")");
                out
            },
            Object::Bool(b) => {
                if *b {
                    String::from_str("Bool(true)")
                } else {
                    String::from_str("Bool(false)")
                }
            },
            Object::Return(inner) => {
                let mut out = String::from_str("Return(");
                let piece = (**inner).render();
                out.append(piece.as_str());
                out.append(")");
                out
            },
            Object::Function { ident, program, env } => {
                let mut out = String::from_str("Function(");
                proof {
                    assert(crate::ast::view_idents(ident@).skip(0)
                        =~= crate::ast::view_idents(ident@));
                }
                append_names_from(&mut out, ident, 0);
                out.append(")");
                out
            },
            Object::BuiltIn { name, params, program } => {
                let mut out = String::from_str("BuiltIn { name: \"");
                let cs = chars_of(name.as_str());
                append_escaped(&mut out, &cs);
                out.append("\", params: ");
                let digits = u64_to_string(*params as u64);
                proof {
                    assert(dec_digits((*params as u64) as nat) == int_digits(*params as int));
                }
                out.append(digits.as_str());
                out.append(" }");
                out
            },
            Object::String(s) => {
                let mut out = String::from_str("String(\"");
                let cs = chars_of(s.as_str());
                append_escaped(&mut out, &cs);
                out.append("\")");
                out
            },
            Object::Error(s) => {
                let mut out = String::from_str("Error(\"");
                let cs = chars_of(s.as_str());
                append_escaped(&mut out, &cs);
                out.append("\")");
                out
            },
            Object::Array(items) => {
                let mut out = String::from_str("Array([");
                proof {
                    assert(view_objs(items@).skip(0) =~= view_objs(items@));
                }
                append_objs_from(&mut out, items, 0);
                out.append("])");
                out
            },
            Object::Hash(entries) => {
                let mut out = String::from_str("Hash({");
                proof {
                    assert(view_entries(entries@).skip(0) =~= view_entries(entries@));
                }
                append_entries_from(&mut out, entries, 0);
                out.append("})");
                out
            },
        }
    }
}

impl Clone for Object {
    fn clone(&self) -> (r: Self)
        ensures
            r@ == self@,
        decreases self,
    {
        match self {
            Object::Null => Object::Null,
            Object::Int(n) => Object::Int(*n),
            Object::Bool(b) => Object::Bool(*b),
            Object::Return(inner) => Object::Return(Box::new((**inner).clone())),
            Object::Function { ident, program, env } => Object::Function {
                ident: clone_idents(ident),
                program: Box::new((**program).clone()),
                env: *env,
            },
            Object::BuiltIn { name, params, program } => Object::BuiltIn {
                name: name.clone(),
                params: *params,
                program: *program,
            },
            Object::String(s) => Object::String(s.clone()),
            Object::Error(s) => Object::Error(s.clone()),
            Object::Array(items) => Object::Array(clone_objs(items)),
            Object::Hash(entries) => Object::Hash(clone_entries(entries)),
        }
    }
}

} // verus!
