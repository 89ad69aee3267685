//! The built-in function library: `len`, `first`, `last`, `push`, `rest`,
//! `put`. All are pure: a built-in never mutates its argument; `push` and
//! `put` return a fresh collection and leave the original unchanged.
//!
//! `rest` keeps the original's meaning: it drops the *last* element, not the
//! first, despite what its name may suggest.
//!
//! Every built-in returns a value; a misuse yields an in-language `Error`
//! value, never a host-level failure.

use vstd::prelude::*;
use vstd::string::StringExecFns;
use vstd::utf8::encode_utf8;

use crate::error::Error;
use crate::object::{clone_objs, hash_insert, hash_set, lemma_view_objs_index, lemma_view_objs_len,
    lemma_view_objs_push, view_entries, view_objs, BuiltInFn, HashKey, HashKeyModel, Object,
    ObjectModel, spec_view_obj};

verus! {

/// The hash key a value stands for, when it is one of the primitive kinds.
pub open spec fn spec_obj_key(o: ObjectModel) -> Option<HashKeyModel> {
    match o {
        ObjectModel::Int(n) => Some(HashKeyModel::Int(n)),
        ObjectModel::Bool(b) => Some(HashKeyModel::Bool(b)),
        ObjectModel::String(s) => Some(HashKeyModel::Str(s)),
        _ => None,
    }
}

/// `len`: the byte length of a string, or the element count of an array.
pub open spec fn spec_str_len(args: Seq<ObjectModel>) -> ObjectModel {
    if args.len() < 1 {
        ObjectModel::Error("len(): Invalid argument"@)
    } else {
        match args[0] {
            ObjectModel::String(s) => if encode_utf8(s).len() as usize <= i64::MAX {
                ObjectModel::Int(encode_utf8(s).len() as usize as int)
            } else {
                ObjectModel::Error("len(): length out of range"@)
            },
            ObjectModel::Array(items) => if items.len() <= i64::MAX {
                ObjectModel::Int(items.len() as int)
            } else {
                ObjectModel::Error("len(): length out of range"@)
            },
            _ => ObjectModel::Error("len(): Invalid argument"@),
        }
    }
}

/// `first`: the first element of an array, or `Null` when it is empty.
pub open spec fn spec_first(args: Seq<ObjectModel>) -> ObjectModel {
    if args.len() < 1 {
        ObjectModel::Error("first(): Invalid argument"@)
    } else {
        match args[0] {
            ObjectModel::Array(items) => if items.len() == 0 {
                ObjectModel::Null
            } else {
                items[0]
            },
            _ => ObjectModel::Error("first(): Invalid argument"@),
        }
    }
}

/// `last`: the last element of an array, or `Null` when it is empty.
pub open spec fn spec_last(args: Seq<ObjectModel>) -> ObjectModel {
    if args.len() < 1 {
        ObjectModel::Error("last(): Invalid argument"@)
    } else {
        match args[0] {
            ObjectModel::Array(items) => if items.len() == 0 {
                ObjectModel::Null
            } else {
                items.last()
            },
            _ => ObjectModel::Error("last(): Invalid argument"@),
        }
    }
}

/// `push`: a new array with the element appended; the original array value
/// is left as it was.
pub open spec fn spec_push(args: Seq<ObjectModel>) -> ObjectModel {
    if args.len() != 2 {
        ObjectModel::Error("push(): Invalid argument"@)
    } else {
        match args[0] {
            ObjectModel::Array(items) => ObjectModel::Array(items.push(args[1])),
            _ => ObjectModel::Error("push(): Invalid argument"@),
        }
    }
}

/// `rest`: a new array of all but the last element; an empty array stays
/// empty. The original array value is left as it was.
pub open spec fn spec_rest(args: Seq<ObjectModel>) -> ObjectModel {
    if args.len() < 1 {
        ObjectModel::Error("rest(): Invalid argument"@)
    } else {
        match args[0] {
            ObjectModel::Array(items) => if items.len() == 0 {
                ObjectModel::Array(Seq::empty())
            } else {
                ObjectModel::Array(items.drop_last())
            },
            _ => ObjectModel::Error("rest(): Invalid argument"@),
        }
    }
}

/// `put`: a new hash with the key set to the value; the original hash is
/// left as it was. A key that is not an integer, boolean or string is a
/// defined failure.
pub open spec fn spec_put(args: Seq<ObjectModel>) -> ObjectModel {
    if args.len() != 3 {
        ObjectModel::Error("put(): Invalid argument"@)
    } else {
        match args[0] {
            ObjectModel::Hash(entries) => match spec_obj_key(args[1]) {
                Some(k) => ObjectModel::Hash(hash_set(entries, k, args[2])),
                None => ObjectModel::Error("put(): unusable as hash key"@),
            },
            _ => ObjectModel::Error("put(): Invalid argument"@),
        }
    }
}

/// What one built-in returns on given arguments.
pub open spec fn spec_apply_builtin(f: BuiltInFn, args: Seq<ObjectModel>) -> ObjectModel {
    match f {
        BuiltInFn::StrLen => spec_str_len(args),
        BuiltInFn::First => spec_first(args),
        BuiltInFn::Last => spec_last(args),
        BuiltInFn::Push => spec_push(args),
        BuiltInFn::Rest => spec_rest(args),
        BuiltInFn::Put => spec_put(args),
    }
}

/// The hash key a value stands for, when it is one of the primitive kinds.
pub fn object_key(o: &Object) -> (r: Option<HashKey>)
    ensures
        r matches Some(k) ==> spec_obj_key(o@) == Some(k@),
        r is None ==> spec_obj_key(o@) is None,
{
    match o {
        Object::Int(n) => Some(HashKey::Int(*n)),
        Object::Bool(b) => Some(HashKey::Bool(*b)),
        Object::String(s) => Some(HashKey::Str(s.clone())),
        _ => None,
    }
}

pub fn str_len(objs: Vec<Object>) -> (r: Result<Object, Error>)
    ensures
        r matches Ok(o) ==> o@ == spec_str_len(view_objs(objs@)),
        r is Ok,
{
    proof {
        lemma_view_objs_len(objs@);
    }
    if objs.len() < 1 {
        return Ok(Object::Error(String::from_str("len(): Invalid argument")));
    }
    proof {
        lemma_view_objs_index(objs@, 0);
    }
    match &objs[0] {
        Object::String(s) => {
            let n = s.as_str().len();
            if (n as u64) <= (i64::MAX as u64) {
                Ok(Object::Int(n as i64))
            } else {
                Ok(Object::Error(String::from_str("len(): length out of range")))
            }
        },
        Object::Array(items) => {
            let n = items.len();
            proof {
                lemma_view_objs_len(items@);
            }
            if (n as u64) <= (i64::MAX as u64) {
                Ok(Object::Int(n as i64))
            } else {
                Ok(Object::Error(String::from_str("len(): length out of range")))
            }
        },
        _ => Ok(Object::Error(String::from_str("len(): Invalid argument"))),
    }
}

pub fn first(objs: Vec<Object>) -> (r: Result<Object, Error>)
    ensures
        r matches Ok(o) ==> o@ == spec_first(view_objs(objs@)),
        r is Ok,
{
    proof {
        lemma_view_objs_len(objs@);
    }
    if objs.len() < 1 {
        return Ok(Object::Error(String::from_str("first(): Invalid argument")));
    }
    proof {
        lemma_view_objs_index(objs@, 0);
    }
    match &objs[0] {
        Object::Array(items) => {
            proof {
                lemma_view_objs_len(items@);
            }
            if items.len() == 0 {
                Ok(Object::Null)
            } else {
                proof {
                    lemma_view_objs_index(items@, 0);
                }
                Ok(items[0].clone())
            }
        },
        _ => Ok(Object::Error(String::from_str("first(): Invalid argument"))),
    }
}

pub fn last(objs: Vec<Object>) -> (r: Result<Object, Error>)
    ensures
        r matches Ok(o) ==> o@ == spec_last(view_objs(objs@)),
        r is Ok,
{
    proof {
        lemma_view_objs_len(objs@);
    }
    if objs.len() < 1 {
        return Ok(Object::Error(String::from_str("last(): Invalid argument")));
    }
    proof {
        lemma_view_objs_index(objs@, 0);
    }
    match &objs[0] {
        Object::Array(items) => {
            proof {
                lemma_view_objs_len(items@);
            }
            if items.len() == 0 {
                Ok(Object::Null)
            } else {
                proof {
                    lemma_view_objs_index(items@, items@.len() - 1);
                }
                Ok(items[items.len() - 1].clone())
            }
        },
        _ => Ok(Object::Error(String::from_str("last(): Invalid argument"))),
    }
}

pub fn push(objs: Vec<Object>) -> (r: Result<Object, Error>)
    ensures
        r matches Ok(o) ==> o@ == spec_push(view_objs(objs@)),
        r is Ok,
{
    proof {
        lemma_view_objs_len(objs@);
    }
    if objs.len() != 2 {
        return Ok(Object::Error(String::from_str("push(): Invalid argument")));
    }
    proof {
        lemma_view_objs_index(objs@, 0);
        lemma_view_objs_index(objs@, 1);
    }
    match &objs[0] {
        Object::Array(items) => {
            let mut result = clone_objs(items);
            let ghost before = result@;
            let x = objs[1].clone();
            result.push(x);
            proof {
                lemma_view_objs_push(before, x);
            }
            Ok(Object::Array(result))
        },
        _ => Ok(Object::Error(String::from_str("push(): Invalid argument"))),
    }
}

pub fn rest(objs: Vec<Object>) -> (r: Result<Object, Error>)
    ensures
        r matches Ok(o) ==> o@ == spec_rest(view_objs(objs@)),
        r is Ok,
{
    proof {
        lemma_view_objs_len(objs@);
    }
    if objs.len() < 1 {
        return Ok(Object::Error(String::from_str("rest(): Invalid argument")));
    }
    proof {
        lemma_view_objs_index(objs@, 0);
    }
    match &objs[0] {
        Object::Array(items) => {
            proof {
                lemma_view_objs_len(items@);
            }
            if items.len() == 0 {
                proof {
                    assert(view_objs(Seq::<Object>::empty()) =~= Seq::<ObjectModel>::empty());
                }
                Ok(Object::Array(Vec::new()))
            } else {
                let mut result = clone_objs(items);
                let ghost before = result@;
                proof {
                    lemma_view_objs_len(before);
                }
                result.pop();
                proof {
                    assert(before.drop_last() =~= result@);
                    assert(view_objs(before) == view_objs(before.drop_last()).push(
                        spec_view_obj(before.last()),
                    ));
                    assert(view_objs(result@) =~= view_objs(before).drop_last());
                    assert(view_objs(items@).drop_last() =~= view_objs(items@.drop_last()));
                }
                Ok(Object::Array(result))
            }
        },
        _ => Ok(Object::Error(String::from_str("rest(): Invalid argument"))),
    }
}

pub fn put(objs: Vec<Object>) -> (r: Result<Object, Error>)
    ensures
        r matches Ok(o) ==> o@ == spec_put(view_objs(objs@)),
        r is Ok,
{
    proof {
        lemma_view_objs_len(objs@);
    }
    if objs.len() != 3 {
        return Ok(Object::Error(String::from_str("put(): Invalid argument")));
    }
    proof {
        lemma_view_objs_index(objs@, 0);
        lemma_view_objs_index(objs@, 1);
        lemma_view_objs_index(objs@, 2);
    }
    match &objs[0] {
        Object::Hash(entries) => {
            match object_key(&objs[1]) {
                Some(k) => {
                    let v = objs[2].clone();
                    let result = hash_insert(entries, k, v);
                    Ok(Object::Hash(result))
                },
                None => Ok(Object::Error(String::from_str("put(): unusable as hash key"))),
            }
        },
        _ => Ok(Object::Error(String::from_str("put(): Invalid argument"))),
    }
}

/// Runs one built-in on evaluated arguments.
pub fn apply_builtin(f: BuiltInFn, args: Vec<Object>) -> (r: Result<Object, Error>)
    ensures
        r matches Ok(o) ==> o@ == spec_apply_builtin(f, view_objs(args@)),
        r is Ok,
{
    match f {
        BuiltInFn::StrLen => str_len(args),
        BuiltInFn::First => first(args),
        BuiltInFn::Last => last(args),
        BuiltInFn::Push => push(args),
        BuiltInFn::Rest => rest(args),
        BuiltInFn::Put => put(args),
    }
}

} // verus!
