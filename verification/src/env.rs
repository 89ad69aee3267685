//! One scope frame: a mutable binding table, plus the arena index of the
//! enclosing frame. Frames live in an arena (`Vec<Environment>`); a child
//! frame holds its parent's index, which models the shared, reference-counted
//! scope chain: closures keep their defining frame alive by index.
//!
//! `store` writes only ever touch the frame they are called on; lookup
//! through the chain is the evaluator's business.

use vstd::prelude::*;
use vstd::string::StringExecFns;

use crate::object::{BuiltInFn, Object, ObjectModel, spec_view_obj};
use crate::text::str_eq;

verus! {

/// Mathematical mirror of an [`Environment`].
pub struct EnvModel {
    pub store: Seq<(Seq<char>, ObjectModel)>,
    pub parent: Option<int>,
}

/// Looks a name up in one frame's bindings, front to back.
pub open spec fn env_get_s(store: Seq<(Seq<char>, ObjectModel)>, name: Seq<char>) -> Option<
    ObjectModel,
>
    decreases store.len(),
{
    if store.len() == 0 {
        None
    } else if store[0].0 == name {
        Some(store[0].1)
    } else {
        env_get_s(store.drop_first(), name)
    }
}

/// Binds a name in one frame: overwrites in place when present, else
/// appends.
pub open spec fn env_set_s(
    store: Seq<(Seq<char>, ObjectModel)>,
    name: Seq<char>,
    value: ObjectModel,
) -> Seq<(Seq<char>, ObjectModel)>
    decreases store.len(),
{
    if store.len() == 0 {
        seq![(name, value)]
    } else if store[0].0 == name {
        seq![(name, value)] + store.drop_first()
    } else {
        seq![store[0]] + env_set_s(store.drop_first(), name, value)
    }
}

/// The bindings a fresh top-level frame starts with: the built-in function
/// library.
pub open spec fn initial_store() -> Seq<(Seq<char>, ObjectModel)> {
    seq![
        (
            "len"@,
            ObjectModel::BuiltIn { name: "len"@, params: 1, program: BuiltInFn::StrLen },
        ),
        (
            "first"@,
            ObjectModel::BuiltIn { name: "first"@, params: 1, program: BuiltInFn::First },
        ),
        (
            "last"@,
            ObjectModel::BuiltIn { name: "last"@, params: 1, program: BuiltInFn::Last },
        ),
        (
            "push"@,
            ObjectModel::BuiltIn { name: "push"@, params: 2, program: BuiltInFn::Push },
        ),
        (
            "rest"@,
            ObjectModel::BuiltIn { name: "rest"@, params: 1, program: BuiltInFn::Rest },
        ),
        ("put"@, ObjectModel::BuiltIn { name: "put"@, params: 3, program: BuiltInFn::Put }),
    ]
}

/// The views of a frame's bindings.
pub open spec fn view_bindings(v: Seq<(String, Object)>) -> Seq<(Seq<char>, ObjectModel)>
    decreases v,
{
    if v.len() == 0 {
        Seq::empty()
    } else {
        view_bindings(v.drop_last()).push((v.last().0@, spec_view_obj(v.last().1)))
    }
}

/// `view_bindings` keeps the length.
pub proof fn lemma_view_bindings_len(v: Seq<(String, Object)>)
    ensures
        view_bindings(v).len() == v.len(),
    decreases v.len(),
{
    if v.len() > 0 {
        lemma_view_bindings_len(v.drop_last());
    }
}

/// `view_bindings` read off at one index.
pub proof fn lemma_view_bindings_index(v: Seq<(String, Object)>, i: int)
    requires
        0 <= i < v.len(),
    ensures
        view_bindings(v).len() == v.len(),
        view_bindings(v)[i] == (v[i].0@, spec_view_obj(v[i].1)),
    decreases v.len(),
{
    lemma_view_bindings_len(v);
    if i < v.len() - 1 {
        lemma_view_bindings_index(v.drop_last(), i);
    }
}

/// `view_bindings` over one appended binding.
pub proof fn lemma_view_bindings_push(s: Seq<(String, Object)>, x: (String, Object))
    ensures
        view_bindings(s.push(x)) == view_bindings(s).push((x.0@, spec_view_obj(x.1))),
{
    assert(s.push(x).drop_last() =~= s);
    assert(s.push(x).last() == x);
}

/// `view_bindings` over one replaced binding.
pub proof fn lemma_view_bindings_update(v: Seq<(String, Object)>, i: int, x: (String, Object))
    requires
        0 <= i < v.len(),
    ensures
        view_bindings(v.update(i, x)) == view_bindings(v).update(i, (x.0@, spec_view_obj(x.1))),
    decreases v.len(),
{
    lemma_view_bindings_len(v);
    lemma_view_bindings_len(v.update(i, x));
    if i == v.len() - 1 {
        assert(v.update(i, x).drop_last() =~= v.drop_last());
        assert(v.update(i, x).last() == x);
        assert(view_bindings(v.update(i, x)) =~= view_bindings(v).update(
            i,
            (x.0@, spec_view_obj(x.1)),
        ));
    } else {
        assert(v.update(i, x).drop_last() =~= v.drop_last().update(i, x));
        assert(v.update(i, x).last() == v.last());
        lemma_view_bindings_update(v.drop_last(), i, x);
        assert(view_bindings(v.update(i, x)) =~= view_bindings(v).update(
            i,
            (x.0@, spec_view_obj(x.1)),
        ));
    }
}

/// One scope frame.
pub struct Environment {
    store: Vec<(String, Object)>,
    parent: Option<usize>,
}

impl View for Environment {
    type V = EnvModel;

    closed spec fn view(&self) -> EnvModel {
        EnvModel {
            store: view_bindings(self.store@),
            parent: match self.parent {
                Some(p) => Some(p as int),
                None => None,
            },
        }
    }
}

impl Environment {
    /// A fresh top-level frame, pre-populated with the built-in function
    /// bindings, enclosed by nothing.
    pub fn new() -> (r: Self)
        ensures
            r@ == (EnvModel { store: initial_store(), parent: None::<int> }),
    {
        let mut store: Vec<(String, Object)> = Vec::new();
        store.push(
            (
                String::from_str("len"),
                Object::BuiltIn {
                    name: String::from_str("len"),
                    params: 1,
                    program: BuiltInFn::StrLen,
                },
            ),
        );
        store.push(
            (
                String::from_str("first"),
                Object::BuiltIn {
                    name: String::from_str("first"),
                    params: 1,
                    program: BuiltInFn::First,
                },
            ),
        );
        store.push(
            (
                String::from_str("last"),
                Object::BuiltIn {
                    name: String::from_str("last"),
                    params: 1,
                    program: BuiltInFn::Last,
                },
            ),
        );
        store.push(
            (
                String::from_str("push"),
                Object::BuiltIn {
                    name: String::from_str("push"),
                    params: 2,
                    program: BuiltInFn::Push,
                },
            ),
        );
        store.push(
            (
                String::from_str("rest"),
                Object::BuiltIn {
                    name: String::from_str("rest"),
                    params: 1,
                    program: BuiltInFn::Rest,
                },
            ),
        );
        store.push(
            (
                String::from_str("put"),
                Object::BuiltIn {
                    name: String::from_str("put"),
                    params: 3,
                    program: BuiltInFn::Put,
                },
            ),
        );
        let r = Environment { store, parent: None };
        proof {
            reveal_with_fuel(view_bindings, 8);
            assert(r@.store =~= initial_store());
        }
        r
    }

    /// A fresh, empty frame enclosed by the frame at `parent` in the arena:
    /// the frame a call activation starts with.
    pub fn new_child(parent: usize) -> (r: Self)
        ensures
            r@ == (EnvModel { store: Seq::empty(), parent: Some(parent as int) }),
    {
        let r = Environment { store: Vec::new(), parent: Some(parent) };
        proof {
            assert(r@.store =~= Seq::<(Seq<char>, ObjectModel)>::empty());
        }
        r
    }

    /// The arena index of the enclosing frame, if any.
    pub fn parent(&self) -> (r: Option<usize>)
        ensures
            r matches Some(p) ==> self@.parent == Some(p as int),
            r is None ==> self@.parent is None,
    {
        self.parent
    }

    /// Inserts or overwrites a binding in this frame only.
    pub fn store(&mut self, name: &str, value: &Object)
        ensures
            final(self)@.store == env_set_s(old(self)@.store, name@, value@),
            final(self)@.parent == old(self)@.parent,
    {
        let mut i: usize = 0;
        while i < self.store.len()
            invariant
                i <= self.store@.len(),
                self.store@ == old(self).store@,
                self.parent == old(self).parent,
                forall|j: int| 0 <= j < i ==> view_bindings(self.store@)[j].0 != name@,
            decreases self.store@.len() - i,
        {
            proof {
                lemma_view_bindings_index(self.store@, i as int);
            }
            if str_eq(self.store[i].0.as_str(), name) {
                let replacement = (String::from_str(name), value.clone());
                proof {
                    lemma_set_found(old(self).store@, name@, value@, i as int);
                    lemma_view_bindings_update(old(self).store@, i as int, replacement);
                }
                self.store[i] = replacement;
                proof {
                    assert(view_bindings(self.store@) =~= env_set_s(
                        old(self)@.store,
                        name@,
                        value@,
                    ));
                }
                return ;
            }
            i = i + 1;
        }
        let addition = (String::from_str(name), value.clone());
        let ghost before = self.store@;
        proof {
            lemma_view_bindings_len(before);
        }
        self.store.push(addition);
        proof {
            lemma_view_bindings_push(before, addition);
            lemma_set_absent(view_bindings(before), name@, value@);
            assert(view_bindings(self.store@) =~= env_set_s(old(self)@.store, name@, value@));
        }
    }

    /// Looks a name up in this frame only; absence is a lookup miss, not an
    /// error.
    pub fn get(&self, name: &str) -> (r: Option<Object>)
        ensures
            r matches Some(o) ==> env_get_s(self@.store, name@) == Some(o@),
            r is None ==> env_get_s(self@.store, name@) is None,
    {
        let mut i: usize = 0;
        while i < self.store.len()
            invariant
                i <= self.store@.len(),
                forall|j: int| 0 <= j < i ==> view_bindings(self.store@)[j].0 != name@,
            decreases self.store@.len() - i,
        {
            proof {
                lemma_view_bindings_index(self.store@, i as int);
            }
            if str_eq(self.store[i].0.as_str(), name) {
                proof {
                    lemma_get_at(self@.store, name@, i as int);
                }
                return Some(self.store[i].1.clone());
            }
            i = i + 1;
        }
        proof {
            lemma_view_bindings_len(self.store@);
            lemma_get_missing(self@.store, name@);
        }
        None
    }
}


/// Clones every binding of a frame.
fn clone_bindings(v: &Vec<(String, Object)>) -> (r: Vec<(String, Object)>)
    ensures
        view_bindings(r@) == view_bindings(v@),
{
    let mut r: Vec<(String, Object)> = Vec::new();
    let mut i: usize = 0;
    while i < v.len()
        invariant
            i <= v@.len(),
            view_bindings(r@) == view_bindings(v@.subrange(0, i as int)),
        decreases v@.len() - i,
    {
        let ghost r0 = r@;
        let k = v[i].0.clone();
        let val = v[i].1.clone();
        r.push((k, val));
        proof {
            lemma_view_bindings_push(r0, (k, val));
            lemma_view_bindings_push(v@.subrange(0, i as int), v@[i as int]);
            assert(v@.subrange(0, i + 1 as int) =~= v@.subrange(0, i as int).push(v@[i as int]));
        }
        i = i + 1;
    }
    proof {
        assert(v@.subrange(0, v@.len() as int) =~= v@);
    }
    r
}

impl Clone for Environment {
    fn clone(&self) -> (r: Self)
        ensures
            r@ == self@,
    {
        Environment { store: clone_bindings(&self.store), parent: self.parent }
    }
}

/// When the first `i` bindings miss and binding `i` hits, the lookup
/// returns binding `i`'s value.
proof fn lemma_get_at(store: Seq<(Seq<char>, ObjectModel)>, name: Seq<char>, i: int)
    requires
        0 <= i < store.len(),
        forall|j: int| 0 <= j < i ==> store[j].0 != name,
        store[i].0 == name,
    ensures
        env_get_s(store, name) == Some(store[i].1),
    decreases i,
{
    if i > 0 {
        lemma_get_at(store.drop_first(), name, i - 1);
    }
}

/// When every binding misses, the lookup misses.
proof fn lemma_get_missing(store: Seq<(Seq<char>, ObjectModel)>, name: Seq<char>)
    requires
        forall|j: int| 0 <= j < store.len() ==> store[j].0 != name,
    ensures
        env_get_s(store, name) is None,
    decreases store.len(),
{
    if store.len() > 0 {
        lemma_get_missing(store.drop_first(), name);
    }
}

/// When the first `i` bindings miss and binding `i` hits, binding the name
/// replaces entry `i` in place.
proof fn lemma_set_found(store: Seq<(String, Object)>, name: Seq<char>, value: ObjectModel, i: int)
    requires
        0 <= i < store.len(),
        forall|j: int| 0 <= j < i ==> view_bindings(store)[j].0 != name,
        view_bindings(store)[i].0 == name,
    ensures
        env_set_s(view_bindings(store), name, value) == view_bindings(store).update(
            i,
            (name, value),
        ),
{
    lemma_view_bindings_len(store);
    lemma_set_found_model(view_bindings(store), name, value, i);
}

/// `lemma_set_found`, at the model level.
proof fn lemma_set_found_model(
    store: Seq<(Seq<char>, ObjectModel)>,
    name: Seq<char>,
    value: ObjectModel,
    i: int,
)
    requires
        0 <= i < store.len(),
        forall|j: int| 0 <= j < i ==> store[j].0 != name,
        store[i].0 == name,
    ensures
        env_set_s(store, name, value) == store.update(i, (name, value)),
    decreases i,
{
    if i == 0 {
        assert(env_set_s(store, name, value) =~= store.update(0, (name, value)));
    } else {
        lemma_set_found_model(store.drop_first(), name, value, i - 1);
        assert(store.update(i, (name, value)).drop_first() =~= store.drop_first().update(
            i - 1,
            (name, value),
        ));
        assert(env_set_s(store, name, value) =~= store.update(i, (name, value)));
    }
}

/// When every binding misses, binding the name appends.
proof fn lemma_set_absent(store: Seq<(Seq<char>, ObjectModel)>, name: Seq<char>, value: ObjectModel)
    requires
        forall|j: int| 0 <= j < store.len() ==> store[j].0 != name,
    ensures
        env_set_s(store, name, value) == store.push((name, value)),
    decreases store.len(),
{
    if store.len() == 0 {
        assert(env_set_s(store, name, value) =~= store.push((name, value)));
    } else {
        lemma_set_absent(store.drop_first(), name, value);
        assert(store.push((name, value)).drop_first() =~= store.drop_first().push((name, value)));
        assert(env_set_s(store, name, value) =~= store.push((name, value)));
    }
}

} // verus!
