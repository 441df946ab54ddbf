//! The JSON value model: every state slice, event payload and event record is
//! one of these values, and the contracts of the whole crate speak about the
//! mathematical form `JsonModel`.

use vstd::prelude::*;

verus! {

/// The mathematical form of a JSON value. Numbers are integers: the container
/// never computes with them, it only stores, compares and reprints them. An
/// object is a sequence of key/value pairs, so field order is part of the
/// model and serialization is deterministic.
pub enum JsonModel {
    Null,
    Bool(bool),
    Int(int),
    Str(Seq<char>),
    Arr(Seq<JsonModel>),
    Obj(Seq<(Seq<char>, JsonModel)>),
}

/// An executable JSON value; its view is a `JsonModel`.
pub enum Json {
    Null,
    Bool(bool),
    Int(i64),
    Str(String),
    Arr(Vec<Json>),
    Obj(Vec<(String, Json)>),
}

impl Json {
    /// The mathematical value of this JSON tree.
    pub open spec fn deep(self) -> JsonModel
        decreases self,
    {
        match self {
            Json::Null => JsonModel::Null,
            Json::Bool(b) => JsonModel::Bool(b),
            Json::Int(i) => JsonModel::Int(i as int),
            Json::Str(s) => JsonModel::Str(s@),
            Json::Arr(items) => {
                proof {
                    assert(decreases_to!(self => self->Arr_0));
                    assert(decreases_to!(self->Arr_0 => self->Arr_0@));
                }
                JsonModel::Arr(deep_items(items@))
            },
            Json::Obj(fields) => {
                proof {
                    assert(decreases_to!(self => self->Obj_0));
                    assert(decreases_to!(self->Obj_0 => self->Obj_0@));
                }
                JsonModel::Obj(deep_fields(fields@))
            },
        }
    }
}

/// The mathematical values of the elements of an array.
pub open spec fn deep_items(items: Seq<Json>) -> Seq<JsonModel>
    decreases items,
{
    if items.len() == 0 {
        Seq::empty()
    } else {
        deep_items(items.drop_last()).push(items.last().deep())
    }
}

/// The mathematical values of the fields of an object.
pub open spec fn deep_fields(fields: Seq<(String, Json)>) -> Seq<(Seq<char>, JsonModel)>
    decreases fields,
{
    if fields.len() == 0 {
        Seq::empty()
    } else {
        deep_fields(fields.drop_last()).push((fields.last().0@, fields.last().1.deep()))
    }
}

impl View for Json {
    type V = JsonModel;

    open spec fn view(&self) -> JsonModel {
        self.deep()
    }
}

pub broadcast proof fn lemma_deep_items_len(items: Seq<Json>)
    ensures
        #[trigger] deep_items(items).len() == items.len(),
    decreases items.len(),
{
    if items.len() > 0 {
        lemma_deep_items_len(items.drop_last());
    }
}

pub broadcast proof fn lemma_deep_items_index(items: Seq<Json>, k: int)
    requires
        0 <= k < items.len(),
    ensures
        #[trigger] deep_items(items)[k] == items[k]@,
    decreases items.len(),
{
    lemma_deep_items_len(items);
    if k < items.len() - 1 {
        lemma_deep_items_len(items.drop_last());
        lemma_deep_items_index(items.drop_last(), k);
    }
}

pub broadcast proof fn lemma_deep_fields_len(fields: Seq<(String, Json)>)
    ensures
        #[trigger] deep_fields(fields).len() == fields.len(),
    decreases fields.len(),
{
    if fields.len() > 0 {
        lemma_deep_fields_len(fields.drop_last());
    }
}

pub broadcast proof fn lemma_deep_fields_index(fields: Seq<(String, Json)>, k: int)
    requires
        0 <= k < fields.len(),
    ensures
        #[trigger] deep_fields(fields)[k] == (fields[k].0@, fields[k].1@),
    decreases fields.len(),
{
    lemma_deep_fields_len(fields);
    if k < fields.len() - 1 {
        lemma_deep_fields_len(fields.drop_last());
        lemma_deep_fields_index(fields.drop_last(), k);
    }
}

impl Clone for Json {
    /// A clone denotes the same mathematical value as its source.
    #[verifier::loop_isolation(false)]
    fn clone(&self) -> (r: Json)
        ensures
            r@ == self@,
        decreases self,
    {
        match self {
            Json::Null => Json::Null,
            Json::Bool(b) => Json::Bool(*b),
            Json::Int(i) => Json::Int(*i),
            Json::Str(s) => Json::Str(s.clone()),
            Json::Arr(items) => {
                let mut out: Vec<Json> = Vec::new();
                let mut i: usize = 0;
                while i < items.len()
                    invariant
                        i <= items.len(),
                        out@.len() == i,
                        forall|k: int| 0 <= k < i ==> out@[k]@ == items@[k]@,
                    decreases items.len() - i,
                {
                    proof {
                        assert(decreases_to!(self => self->Arr_0));
                        assert(decreases_to!(self->Arr_0 => self->Arr_0@));
                        assert(decreases_to!(self->Arr_0@ => self->Arr_0@[i as int]));
                    }
                    out.push(items[i].clone());
                    i += 1;
                }
                proof {
                    lemma_deep_items_eq(out@, items@);
                }
                Json::Arr(out)
            },
            Json::Obj(fields) => {
                let mut out: Vec<(String, Json)> = Vec::new();
                let mut i: usize = 0;
                while i < fields.len()
                    invariant
                        i <= fields.len(),
                        out@.len() == i,
                        forall|k: int| 0 <= k < i
                            ==> (out@[k].0@, out@[k].1@) == (fields@[k].0@, fields@[k].1@),
                    decreases fields.len() - i,
                {
                    proof {
                        assert(decreases_to!(self => self->Obj_0));
                        assert(decreases_to!(self->Obj_0 => self->Obj_0@));
                        assert(decreases_to!(self->Obj_0@ => self->Obj_0@[i as int]));
                        assert(decreases_to!(self->Obj_0@[i as int] => self->Obj_0@[i as int].1));
                    }
                    let key = fields[i].0.clone();
                    let val = fields[i].1.clone();
                    out.push((key, val));
                    i += 1;
                }
                proof {
                    lemma_deep_fields_eq(out@, fields@);
                }
                Json::Obj(out)
            },
        }
    }
}

/// Two element sequences whose members agree pairwise have the same
/// mathematical values.
pub proof fn lemma_deep_items_eq(xs: Seq<Json>, ys: Seq<Json>)
    requires
        xs.len() == ys.len(),
        forall|k: int| 0 <= k < xs.len() ==> xs[k]@ == ys[k]@,
    ensures
        deep_items(xs) == deep_items(ys),
{
    lemma_deep_items_len(xs);
    lemma_deep_items_len(ys);
    assert forall|k: int| 0 <= k < xs.len() implies deep_items(xs)[k] == deep_items(ys)[k] by {
        lemma_deep_items_index(xs, k);
        lemma_deep_items_index(ys, k);
    }
    assert(deep_items(xs) =~= deep_items(ys));
}

/// Two field sequences whose keys and values agree pairwise have the same
/// mathematical values.
pub proof fn lemma_deep_fields_eq(xs: Seq<(String, Json)>, ys: Seq<(String, Json)>)
    requires
        xs.len() == ys.len(),
        forall|k: int| 0 <= k < xs.len() ==> (#[trigger] xs[k].0@, xs[k].1@) == (ys[k].0@, ys[k].1@),
    ensures
        deep_fields(xs) == deep_fields(ys),
{
    lemma_deep_fields_len(xs);
    lemma_deep_fields_len(ys);
    assert forall|k: int| 0 <= k < xs.len() implies deep_fields(xs)[k] == deep_fields(ys)[k] by {
        lemma_deep_fields_index(xs, k);
        lemma_deep_fields_index(ys, k);
    }
    assert(deep_fields(xs) =~= deep_fields(ys));
}

/// Appending one pair appends its mathematical value.
pub proof fn lemma_deep_fields_push(p: Seq<(String, Json)>, x: (String, Json))
    ensures
        deep_fields(p.push(x)) == deep_fields(p).push((x.0@, x.1@)),
{
    assert(p.push(x).drop_last() =~= p);
    assert(p.push(x).last() == x);
}

/// Prepending one element prepends its mathematical value.
pub proof fn lemma_deep_items_prepend(xs: Seq<Json>, x: Json)
    ensures
        deep_items(xs.insert(0, x)) == seq![x@] + deep_items(xs),
{
    let ys = xs.insert(0, x);
    lemma_deep_items_len(ys);
    lemma_deep_items_len(xs);
    assert forall|k: int| 0 <= k < ys.len() implies deep_items(ys)[k] == (seq![x@] + deep_items(
        xs,
    ))[k] by {
        lemma_deep_items_index(ys, k);
        if k > 0 {
            lemma_deep_items_index(xs, k - 1);
        }
    }
    assert(deep_items(ys) =~= seq![x@] + deep_items(xs));
}

/// Prepending one field prepends its mathematical value.
pub proof fn lemma_deep_fields_prepend(xs: Seq<(String, Json)>, x: (String, Json))
    ensures
        deep_fields(xs.insert(0, x)) == seq![(x.0@, x.1@)] + deep_fields(xs),
{
    let ys = xs.insert(0, x);
    lemma_deep_fields_len(ys);
    lemma_deep_fields_len(xs);
    assert forall|k: int| 0 <= k < ys.len() implies deep_fields(ys)[k] == (seq![(x.0@, x.1@)]
        + deep_fields(xs))[k] by {
        lemma_deep_fields_index(ys, k);
        if k > 0 {
            lemma_deep_fields_index(xs, k - 1);
        }
    }
    assert(deep_fields(ys) =~= seq![(x.0@, x.1@)] + deep_fields(xs));
}

/// Structural equality of two JSON values, the change test of the container:
/// a slice is committed and listeners run only when this returns `false`.
#[verifier::loop_isolation(false)]
pub fn eq_json(a: &Json, b: &Json) -> (r: bool)
    ensures
        r == (a@ == b@),
    decreases a,
{
    broadcast use lemma_deep_items_len, lemma_deep_items_index, lemma_deep_fields_len,
        lemma_deep_fields_index;

    match (a, b) {
        (Json::Null, Json::Null) => true,
        (Json::Bool(x), Json::Bool(y)) => x == y,
        (Json::Int(x), Json::Int(y)) => x == y,
        (Json::Str(x), Json::Str(y)) => x.eq(y),
        (Json::Arr(xs), Json::Arr(ys)) => {
            if xs.len() != ys.len() {
                proof {
                    lemma_deep_items_len(xs@);
                    lemma_deep_items_len(ys@);
                }
                false
            } else {
                let mut i: usize = 0;
                let mut same = true;
                while i < xs.len()
                    invariant
                        i <= xs.len(),
                        xs@.len() == ys@.len(),
                        a@ == JsonModel::Arr(deep_items(xs@)),
                        b@ == JsonModel::Arr(deep_items(ys@)),
                        same ==> forall|k: int| 0 <= k < i ==> xs@[k]@ == ys@[k]@,
                        !same ==> a@ != b@,
                    decreases xs.len() - i,
                {
                    if same {
                        proof {
                            assert(decreases_to!(a => a->Arr_0));
                            assert(decreases_to!(a->Arr_0 => a->Arr_0@));
                            assert(decreases_to!(a->Arr_0@ => a->Arr_0@[i as int]));
                        }
                        if !eq_json(&xs[i], &ys[i]) {
                            proof {
                                lemma_deep_items_index(xs@, i as int);
                                lemma_deep_items_index(ys@, i as int);
                                assert(deep_items(xs@)[i as int] != deep_items(ys@)[i as int]);
                            }
                            same = false;
                        }
                    }
                    i += 1;
                }
                proof {
                    if same {
                        assert forall|k: int| 0 <= k < xs@.len() implies deep_items(xs@)[k]
                            == deep_items(ys@)[k] by {
                            lemma_deep_items_index(xs@, k);
                            lemma_deep_items_index(ys@, k);
                        }
                        assert(deep_items(xs@) =~= deep_items(ys@));
                    }
                }
                same
            }
        },
        (Json::Obj(xs), Json::Obj(ys)) => {
            if xs.len() != ys.len() {
                proof {
                    lemma_deep_fields_len(xs@);
                    lemma_deep_fields_len(ys@);
                }
                false
            } else {
                let mut i: usize = 0;
                let mut same = true;
                while i < xs.len()
                    invariant
                        i <= xs.len(),
                        xs@.len() == ys@.len(),
                        a@ == JsonModel::Obj(deep_fields(xs@)),
                        b@ == JsonModel::Obj(deep_fields(ys@)),
                        same ==> forall|k: int| 0 <= k < i
                            ==> (xs@[k].0@, xs@[k].1@) == (ys@[k].0@, ys@[k].1@),
                        !same ==> a@ != b@,
                    decreases xs.len() - i,
                {
                    if same {
                        proof {
                            assert(decreases_to!(a => a->Obj_0));
                            assert(decreases_to!(a->Obj_0 => a->Obj_0@));
                            assert(decreases_to!(a->Obj_0@ => a->Obj_0@[i as int]));
                            assert(decreases_to!(a->Obj_0@[i as int] => a->Obj_0@[i as int].1));
                        }
                        let keys_eq = xs[i].0.eq(&ys[i].0);
                        if !keys_eq || !eq_json(&xs[i].1, &ys[i].1) {
                            proof {
                                lemma_deep_fields_index(xs@, i as int);
                                lemma_deep_fields_index(ys@, i as int);
                                assert(deep_fields(xs@)[i as int] != deep_fields(ys@)[i as int]);
                            }
                            same = false;
                        }
                    }
                    i += 1;
                }
                proof {
                    if same {
                        assert forall|k: int| 0 <= k < xs@.len() implies deep_fields(xs@)[k]
                            == deep_fields(ys@)[k] by {
                            lemma_deep_fields_index(xs@, k);
                            lemma_deep_fields_index(ys@, k);
                        }
                        assert(deep_fields(xs@) =~= deep_fields(ys@));
                    }
                }
                same
            }
        },
        _ => false,
    }
}

} // verus!
