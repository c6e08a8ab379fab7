//! The document model that configurations are written in: a JSON-like tree
//! without floating point numbers.
//!
//! Everything the engine reads out of a configuration document goes through
//! this type, so the configuration pipeline can be reasoned about over plain
//! values.

use vstd::prelude::*;

use crate::strutil::str_eq;

verus! {

/// A JSON-like document value. Object fields keep their textual order.
#[derive(Debug, PartialEq)]
#[verifier::ext_equal]
pub enum Value {
    Null,
    Bool(bool),
    Int(i64),
    Str(String),
    Arr(Vec<Value>),
    Obj(Vec<(String, Value)>),
}

/// Structural equality of two document values; strings compare by their
/// character sequences.
pub open spec fn value_eq(a: Value, b: Value) -> bool
    decreases a,
{
    match (a, b) {
        (Value::Null, Value::Null) => true,
        (Value::Bool(x), Value::Bool(y)) => x == y,
        (Value::Int(x), Value::Int(y)) => x == y,
        (Value::Str(x), Value::Str(y)) => x@ == y@,
        (Value::Arr(x), Value::Arr(y)) => x@.len() == y@.len() && (forall|i: int|
            0 <= i < x@.len() ==> value_eq(x@[i], y@[i])),
        (Value::Obj(x), Value::Obj(y)) => x@.len() == y@.len() && (forall|i: int|
            0 <= i < x@.len() ==> x@[i].0@ == y@[i].0@ && value_eq(x@[i].1, y@[i].1)),
        _ => false,
    }
}

/// `value_eq` is reflexive.
pub proof fn lemma_value_eq_refl(a: Value)
    ensures
        value_eq(a, a),
    decreases a,
{
    match a {
        Value::Arr(x) => {
            assert forall|i: int| 0 <= i < x@.len() implies value_eq(x@[i], x@[i]) by {
                lemma_value_eq_refl(x@[i]);
            }
        }
        Value::Obj(x) => {
            assert forall|i: int| 0 <= i < x@.len() implies x@[i].0@ == x@[i].0@ && value_eq(
                x@[i].1,
                x@[i].1,
            ) by {
                lemma_value_eq_refl(x@[i].1);
            }
        }
        _ => {}
    }
}


/// An array element stands strictly below the array value in the
/// termination order.
proof fn lemma_arr_elem_decreases(a: Value, i: int)
    requires
        a is Arr,
        0 <= i < a->Arr_0@.len(),
    ensures
        decreases_to!(a => a->Arr_0@[i]),
{
    assert(decreases_to!(a => a->Arr_0));
    assert(decreases_to!(a->Arr_0 => a->Arr_0@));
    assert(decreases_to!(a->Arr_0@ => a->Arr_0@[i]));
}

/// An object field's value stands strictly below the object value in the
/// termination order.
proof fn lemma_obj_elem_decreases(a: Value, i: int)
    requires
        a is Obj,
        0 <= i < a->Obj_0@.len(),
    ensures
        decreases_to!(a => a->Obj_0@[i].1),
{
    assert(decreases_to!(a => a->Obj_0));
    assert(decreases_to!(a->Obj_0 => a->Obj_0@));
    assert(decreases_to!(a->Obj_0@ => a->Obj_0@[i]));
    assert(decreases_to!(a->Obj_0@[i] => a->Obj_0@[i].1));
}

/// `value_eq` is symmetric.
pub proof fn lemma_value_eq_sym(a: Value, b: Value)
    requires
        value_eq(a, b),
    ensures
        value_eq(b, a),
    decreases a,
{
    match (a, b) {
        (Value::Arr(x), Value::Arr(y)) => {
            assert forall|i: int| 0 <= i < y@.len() implies value_eq(y@[i], x@[i]) by {
                assert(value_eq(x@[i], y@[i]));
                lemma_value_eq_sym(x@[i], y@[i]);
            }
        }
        (Value::Obj(x), Value::Obj(y)) => {
            assert forall|i: int| 0 <= i < y@.len() implies y@[i].0@ == x@[i].0@ && value_eq(
                y@[i].1,
                x@[i].1,
            ) by {
                assert(x@[i].0@ == y@[i].0@ && value_eq(x@[i].1, y@[i].1));
                lemma_value_eq_sym(x@[i].1, y@[i].1);
            }
        }
        _ => {}
    }
}

/// `value_eq` is transitive.
pub proof fn lemma_value_eq_trans(a: Value, b: Value, c: Value)
    requires
        value_eq(a, b),
        value_eq(b, c),
    ensures
        value_eq(a, c),
    decreases a,
{
    match (a, b) {
        (Value::Arr(x), Value::Arr(y)) => {
            let z = c->Arr_0;
            assert forall|i: int| 0 <= i < x@.len() implies value_eq(x@[i], z@[i]) by {
                assert(value_eq(x@[i], y@[i]));
                assert(value_eq(y@[i], z@[i]));
                lemma_value_eq_trans(x@[i], y@[i], z@[i]);
            }
        }
        (Value::Obj(x), Value::Obj(y)) => {
            let z = c->Obj_0;
            assert forall|i: int| 0 <= i < x@.len() implies x@[i].0@ == z@[i].0@ && value_eq(
                x@[i].1,
                z@[i].1,
            ) by {
                assert(x@[i].0@ == y@[i].0@ && value_eq(x@[i].1, y@[i].1));
                assert(y@[i].0@ == z@[i].0@ && value_eq(y@[i].1, z@[i].1));
                lemma_value_eq_trans(x@[i].1, y@[i].1, z@[i].1);
            }
        }
        _ => {}
    }
}

/// Decides `value_eq`.
pub fn value_equal(a: &Value, b: &Value) -> (r: bool)
    ensures
        r == value_eq(*a, *b),
    decreases *a,
{
    match (a, b) {
        (Value::Null, Value::Null) => true,
        (Value::Bool(x), Value::Bool(y)) => *x == *y,
        (Value::Int(x), Value::Int(y)) => *x == *y,
        (Value::Str(x), Value::Str(y)) => str_eq(x.as_str(), y.as_str()),
        (Value::Arr(x), Value::Arr(y)) => {
            if x.len() != y.len() {
                return false;
            }
            let mut i: usize = 0;
            while i < x.len()
                invariant
                    0 <= i <= x@.len(),
                    x@.len() == y@.len(),
                    *a is Arr && a->Arr_0 == *x,
                    *b is Arr && b->Arr_0 == *y,
                    forall|j: int| 0 <= j < i ==> value_eq(x@[j], y@[j]),
                decreases x@.len() - i,
            {
                proof {
                    lemma_arr_elem_decreases(*a, i as int);
                }
                if !value_equal(&x[i], &y[i]) {
                    return false;
                }
                i += 1;
            }
            true
        }
        (Value::Obj(x), Value::Obj(y)) => {
            if x.len() != y.len() {
                return false;
            }
            let mut i: usize = 0;
            while i < x.len()
                invariant
                    0 <= i <= x@.len(),
                    x@.len() == y@.len(),
                    *a is Obj && a->Obj_0 == *x,
                    *b is Obj && b->Obj_0 == *y,
                    forall|j: int|
                        0 <= j < i ==> x@[j].0@ == y@[j].0@ && value_eq(x@[j].1, y@[j].1),
                decreases x@.len() - i,
            {
                proof {
                    lemma_obj_elem_decreases(*a, i as int);
                }
                if !str_eq(x[i].0.as_str(), y[i].0.as_str()) {
                    return false;
                }
                if !value_equal(&x[i].1, &y[i].1) {
                    return false;
                }
                i += 1;
            }
            true
        }
        _ => false,
    }
}

impl Clone for Value {
    /// Cloning yields a structurally equal value.
    fn clone(&self) -> (res: Self)
        ensures
            value_eq(*self, res),
        decreases *self,
    {
        match self {
            Value::Null => Value::Null,
            Value::Bool(b) => Value::Bool(*b),
            Value::Int(n) => Value::Int(*n),
            Value::Str(s) => Value::Str(s.clone()),
            Value::Arr(x) => {
                let mut out: Vec<Value> = Vec::new();
                let mut i: usize = 0;
                while i < x.len()
                    invariant
                        0 <= i <= x@.len(),
                        out@.len() == i,
                        *self is Arr && self->Arr_0 == *x,
                        forall|j: int| 0 <= j < i ==> value_eq(x@[j], out@[j]),
                    decreases x@.len() - i,
                {
                    proof {
                        lemma_arr_elem_decreases(*self, i as int);
                    }
                    out.push(x[i].clone());
                    i += 1;
                }
                Value::Arr(out)
            }
            Value::Obj(x) => {
                let mut out: Vec<(String, Value)> = Vec::new();
                let mut i: usize = 0;
                while i < x.len()
                    invariant
                        0 <= i <= x@.len(),
                        out@.len() == i,
                        *self is Obj && self->Obj_0 == *x,
                        forall|j: int|
                            0 <= j < i ==> out@[j].0@ == x@[j].0@ && value_eq(x@[j].1, out@[j].1),
                    decreases x@.len() - i,
                {
                    proof {
                        lemma_obj_elem_decreases(*self, i as int);
                    }
                    out.push((x[i].0.clone(), x[i].1.clone()));
                    i += 1;
                }
                Value::Obj(out)
            }
        }
    }
}

/// The value of the first field named `k` in the field list, if any.
pub open spec fn spec_obj_get(fields: Seq<(String, Value)>, k: Seq<char>) -> Option<Value>
    decreases fields.len(),
{
    if fields.len() == 0 {
        None
    } else if fields[0].0@ == k {
        Some(fields[0].1)
    } else {
        spec_obj_get(fields.skip(1), k)
    }
}

/// Looks a field up in an object's field list.
pub fn obj_get<'a>(fields: &'a Vec<(String, Value)>, k: &str) -> (r: Option<&'a Value>)
    ensures
        match r {
            Some(v) => spec_obj_get(fields@, k@) == Some(*v),
            None => spec_obj_get(fields@, k@) is None,
        },
{
    proof {
        assert(fields@.skip(0) =~= fields@);
    }
    let mut i: usize = 0;
    while i < fields.len()
        invariant
            0 <= i <= fields@.len(),
            spec_obj_get(fields@, k@) == spec_obj_get(fields@.skip(i as int), k@),
            forall|j: int| 0 <= j < i ==> fields@[j].0@ != k@,
        decreases fields@.len() - i,
    {
        proof {
            assert(fields@.skip(i as int)[0] == fields@[i as int]);
            assert(fields@.skip(i as int).skip(1) =~= fields@.skip(i as int + 1));
        }
        if str_eq(fields[i].0.as_str(), k) {
            return Some(&fields[i].1);
        }
        i += 1;
    }
    None
}

/// Field lookup agrees with the generic table lookup.
pub proof fn lemma_obj_get_is_seq_get(fields: Seq<(String, Value)>, k: Seq<char>)
    ensures
        spec_obj_get(fields, k) == crate::strmap::seq_get(fields, k),
    decreases fields.len(),
{
    if fields.len() > 0 && fields[0].0@ != k {
        lemma_obj_get_is_seq_get(fields.skip(1), k);
    }
}

/// A field list answers `k` with the value at its first occurrence.
pub proof fn lemma_obj_get_present(fields: Seq<(String, Value)>, i: int, k: Seq<char>)
    requires
        0 <= i < fields.len(),
        fields[i].0@ == k,
        forall|j: int| 0 <= j < i ==> fields[j].0@ != k,
    ensures
        spec_obj_get(fields, k) == Some(fields[i].1),
{
    lemma_obj_get_is_seq_get(fields, k);
    crate::strmap::lemma_seq_get_present(fields, i, k);
}

/// A field list without the key answers nothing.
pub proof fn lemma_obj_get_absent(fields: Seq<(String, Value)>, k: Seq<char>)
    requires
        forall|j: int| 0 <= j < fields.len() ==> fields[j].0@ != k,
    ensures
        spec_obj_get(fields, k) is None,
{
    lemma_obj_get_is_seq_get(fields, k);
    crate::strmap::lemma_seq_get_absent(fields, k);
}

/// Binds field `k` to `v` in place: the first field named `k` is replaced,
/// or a new field is appended. Every other field keeps its value.
pub fn obj_set(fields: &mut Vec<(String, Value)>, k: &str, v: Value)
    ensures
        spec_obj_get(final (fields)@, k@) == Some(v),
        forall|k2: Seq<char>|
            k2 != k@ ==> spec_obj_get(final (fields)@, k2) == spec_obj_get(old(fields)@, k2),
        final (fields)@.len() <= old(fields)@.len() + 1,
{
    let ghost before = fields@;
    let mut i: usize = 0;
    while i < fields.len()
        invariant
            0 <= i <= fields@.len(),
            before == old(fields)@,
            fields@ == before,
            forall|j: int| 0 <= j < i ==> before[j].0@ != k@,
        decreases fields@.len() - i,
    {
        if str_eq(fields[i].0.as_str(), k) {
            let ghost kv = fields@[i as int].0;
            let pair = fields.remove(i);
            fields.insert(i, (pair.0, v));
            proof {
                let after = fields@;
                assert(after =~= before.update(i as int, (before[i as int].0, v)));
                lemma_obj_set_update(before, after, i as int, k@, v);
            }
            return;
        }
        i += 1;
    }
    fields.push((k.to_owned(), v));
    proof {
        let after = fields@;
        assert(after.drop_last() =~= before);
        lemma_obj_get_is_seq_get(after, k@);
        lemma_obj_get_is_seq_get(before, k@);
        crate::strmap::lemma_seq_get_push(before, after.last(), k@);
        crate::strmap::lemma_seq_get_absent(before, k@);
        assert(before.push(after.last()) =~= after);
        assert forall|k2: Seq<char>| k2 != k@ implies spec_obj_get(after, k2) == spec_obj_get(
            before,
            k2,
        ) by {
            lemma_obj_get_is_seq_get(after, k2);
            lemma_obj_get_is_seq_get(before, k2);
            crate::strmap::lemma_seq_get_push(before, after.last(), k2);
        }
    }
}

proof fn lemma_obj_set_update(
    before: Seq<(String, Value)>,
    after: Seq<(String, Value)>,
    i: int,
    k: Seq<char>,
    v: Value,
)
    requires
        0 <= i < before.len(),
        before[i].0@ == k,
        forall|j: int| 0 <= j < i ==> before[j].0@ != k,
        after == before.update(i, (before[i].0, v)),
    ensures
        spec_obj_get(after, k) == Some(v),
        forall|k2: Seq<char>| k2 != k ==> spec_obj_get(after, k2) == spec_obj_get(before, k2),
        after.len() == before.len(),
{
    lemma_obj_get_is_seq_get(after, k);
    assert forall|j: int| 0 <= j < i implies after[j].0@ != k by {
        assert(after[j] == before[j]);
    }
    crate::strmap::lemma_seq_get_present(after, i, k);
    assert forall|k2: Seq<char>| k2 != k implies spec_obj_get(after, k2) == spec_obj_get(
        before,
        k2,
    ) by {
        lemma_obj_get_is_seq_get(after, k2);
        lemma_obj_get_is_seq_get(before, k2);
        lemma_seq_get_pointwise(before, after, k2);
    }
}

/// Two field lists that agree on every key-value pair except possibly values
/// under other keys look the same to lookups of `k2` when each entry keyed
/// differently from `k2` is unchanged... lookups only see the first entry of
/// their key, and entries of other keys do not shadow it.
proof fn lemma_seq_get_pointwise(a: Seq<(String, Value)>, b: Seq<(String, Value)>, k2: Seq<char>)
    requires
        a.len() == b.len(),
        forall|j: int| 0 <= j < a.len() ==> (#[trigger] a[j]).0@ == b[j].0@,
        forall|j: int| 0 <= j < a.len() ==> a[j].0@ == k2 ==> (#[trigger] a[j]) == b[j],
    ensures
        crate::strmap::seq_get(a, k2) == crate::strmap::seq_get(b, k2),
    decreases a.len(),
{
    if a.len() > 0 {
        if a[0].0@ == k2 {
            assert(a[0] == b[0]);
        } else {
            assert forall|j: int| 0 <= j < a.skip(1).len() implies (#[trigger] a.skip(1)[j]).0@
                == b.skip(1)[j].0@ by {
                assert(a.skip(1)[j] == a[j + 1]);
                assert(b.skip(1)[j] == b[j + 1]);
            }
            assert forall|j: int|
                0 <= j < a.skip(1).len() && a.skip(1)[j].0@ == k2 implies (#[trigger] a.skip(
                1,
            )[j]) == b.skip(1)[j] by {
                assert(a.skip(1)[j] == a[j + 1]);
                assert(b.skip(1)[j] == b[j + 1]);
            }
            lemma_seq_get_pointwise(a.skip(1), b.skip(1), k2);
        }
    }
}

} // verus!
