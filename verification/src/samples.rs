//! Ready-made consumers of the reducer and listener contracts: a node-graph
//! reducer (insert and delete entries of an object slice keyed by caller
//! supplied identifiers) and a listener that records every notification.

use vstd::prelude::*;
use crate::event::payload_value;
use crate::json::Json;
use crate::json::JsonModel;
use crate::json::deep_fields;
use crate::json::lemma_deep_fields_index;
use crate::json::lemma_deep_fields_len;
use crate::json::lemma_deep_fields_push;
use crate::machine::Listener;
use crate::machine::Reducer;
use crate::parse::parse_json;

verus! {

/// The value of the first binding of `key` in a field sequence.
pub open spec fn obj_get(fields: Seq<(Seq<char>, JsonModel)>, key: Seq<char>) -> Option<JsonModel>
    decreases fields.len(),
{
    if fields.len() == 0 {
        None
    } else if fields[0].0 == key {
        Some(fields[0].1)
    } else {
        obj_get(fields.skip(1), key)
    }
}

/// The field sequence with `key` bound to `v`: the first binding is
/// replaced, or the pair is appended where no binding exists.
pub open spec fn obj_set(
    fields: Seq<(Seq<char>, JsonModel)>,
    key: Seq<char>,
    v: JsonModel,
) -> Seq<(Seq<char>, JsonModel)>
    decreases fields.len(),
{
    if fields.len() == 0 {
        seq![(key, v)]
    } else if fields[0].0 == key {
        seq![(key, v)] + fields.skip(1)
    } else {
        seq![fields[0]] + obj_set(fields.skip(1), key, v)
    }
}

/// The field sequence without the first binding of `key`.
pub open spec fn obj_remove(
    fields: Seq<(Seq<char>, JsonModel)>,
    key: Seq<char>,
) -> Seq<(Seq<char>, JsonModel)>
    decreases fields.len(),
{
    if fields.len() == 0 {
        fields
    } else if fields[0].0 == key {
        fields.skip(1)
    } else {
        seq![fields[0]] + obj_remove(fields.skip(1), key)
    }
}

/// What the node reducer computes: on `node_created` with a payload object
/// carrying a string `id` and a `payload` value, the slice object gains (or
/// replaces) that entry; on `node_deleted` with a string `id`, it loses the
/// entry; on anything else, or on a payload of the wrong shape, the slice
/// is unchanged.
pub open spec fn node_reduce(value: JsonModel, event: Seq<char>, raw: Seq<char>) -> JsonModel {
    if event == "node_created"@ {
        match (value, payload_value(raw)) {
            (JsonModel::Obj(cur), JsonModel::Obj(pf)) => {
                match (obj_get(pf, "id"@), obj_get(pf, "payload"@)) {
                    (Some(JsonModel::Str(id)), Some(pl)) => JsonModel::Obj(obj_set(cur, id, pl)),
                    _ => value,
                }
            },
            _ => value,
        }
    } else if event == "node_deleted"@ {
        match (value, payload_value(raw)) {
            (JsonModel::Obj(cur), JsonModel::Obj(pf)) => {
                match obj_get(pf, "id"@) {
                    Some(JsonModel::Str(id)) => JsonModel::Obj(obj_remove(cur, id)),
                    _ => value,
                }
            },
            _ => value,
        }
    } else {
        value
    }
}

/// String slice equality, via owned copies.
fn str_eq(a: &str, b: &str) -> (r: bool)
    ensures
        r == (a@ == b@),
{
    let ao = a.to_owned();
    let bo = b.to_owned();
    ao.eq(&bo)
}

/// The position of the first binding of a key.
fn obj_find(fields: &Vec<(String, Json)>, key: &String) -> (r: Option<usize>)
    ensures
        match r {
            Some(i) => i < fields@.len() && fields@[i as int].0@ == key@ && (forall|k: int|
                0 <= k < i ==> fields@[k].0@ != key@),
            None => forall|k: int| 0 <= k < fields@.len() ==> fields@[k].0@ != key@,
        },
{
    let mut i: usize = 0;
    while i < fields.len()
        invariant
            i <= fields@.len(),
            forall|k: int| 0 <= k < i ==> fields@[k].0@ != key@,
        decreases fields@.len() - i,
    {
        if fields[i].0.eq(key) {
            return Some(i);
        }
        i += 1;
    }
    None
}

/// `obj_get` looks exactly at the first binding.
proof fn lemma_obj_get_at(fields: Seq<(Seq<char>, JsonModel)>, key: Seq<char>, i: int)
    requires
        0 <= i < fields.len(),
        fields[i].0 == key,
        forall|k: int| 0 <= k < i ==> fields[k].0 != key,
    ensures
        obj_get(fields, key) == Some(fields[i].1),
    decreases i,
{
    if i > 0 {
        lemma_obj_get_at(fields.skip(1), key, i - 1);
    }
}

/// Where no binding exists, `obj_get` yields nothing.
proof fn lemma_obj_get_none(fields: Seq<(Seq<char>, JsonModel)>, key: Seq<char>)
    requires
        forall|k: int| 0 <= k < fields.len() ==> fields[k].0 != key,
    ensures
        obj_get(fields, key) is None,
    decreases fields.len(),
{
    if fields.len() > 0 {
        lemma_obj_get_none(fields.skip(1), key);
    }
}

/// `obj_set` replaces in place at the first binding.
proof fn lemma_obj_set_at(
    fields: Seq<(Seq<char>, JsonModel)>,
    key: Seq<char>,
    v: JsonModel,
    i: int,
)
    requires
        0 <= i < fields.len(),
        fields[i].0 == key,
        forall|k: int| 0 <= k < i ==> fields[k].0 != key,
    ensures
        obj_set(fields, key, v) == fields.update(i, (key, v)),
    decreases i,
{
    if i == 0 {
        assert(seq![(key, v)] + fields.skip(1) =~= fields.update(0, (key, v)));
    } else {
        lemma_obj_set_at(fields.skip(1), key, v, i - 1);
        assert(seq![fields[0]] + fields.skip(1).update(i - 1, (key, v)) =~= fields.update(
            i,
            (key, v),
        ));
    }
}

/// Where no binding exists, `obj_set` appends.
proof fn lemma_obj_set_none(fields: Seq<(Seq<char>, JsonModel)>, key: Seq<char>, v: JsonModel)
    requires
        forall|k: int| 0 <= k < fields.len() ==> fields[k].0 != key,
    ensures
        obj_set(fields, key, v) == fields.push((key, v)),
    decreases fields.len(),
{
    if fields.len() == 0 {
        assert(seq![(key, v)] =~= fields.push((key, v)));
    } else {
        lemma_obj_set_none(fields.skip(1), key, v);
        assert(seq![fields[0]] + fields.skip(1).push((key, v)) =~= fields.push((key, v)));
    }
}

/// `obj_remove` removes exactly the first binding.
proof fn lemma_obj_remove_at(fields: Seq<(Seq<char>, JsonModel)>, key: Seq<char>, i: int)
    requires
        0 <= i < fields.len(),
        fields[i].0 == key,
        forall|k: int| 0 <= k < i ==> fields[k].0 != key,
    ensures
        obj_remove(fields, key) == fields.remove(i),
    decreases i,
{
    if i == 0 {
        assert(fields.skip(1) =~= fields.remove(0));
    } else {
        lemma_obj_remove_at(fields.skip(1), key, i - 1);
        assert(seq![fields[0]] + fields.skip(1).remove(i - 1) =~= fields.remove(i));
    }
}

/// Where no binding exists, `obj_remove` changes nothing.
proof fn lemma_obj_remove_none(fields: Seq<(Seq<char>, JsonModel)>, key: Seq<char>)
    requires
        forall|k: int| 0 <= k < fields.len() ==> fields[k].0 != key,
    ensures
        obj_remove(fields, key) == fields,
    decreases fields.len(),
{
    if fields.len() > 0 {
        lemma_obj_remove_none(fields.skip(1), key);
        assert(seq![fields[0]] + fields.skip(1) =~= fields);
    }
}

/// A structurally identical copy of a field vector.
fn clone_fields(v: &Vec<(String, Json)>) -> (r: Vec<(String, Json)>)
    ensures
        r@.len() == v@.len(),
        forall|k: int| 0 <= k < v@.len() ==> (#[trigger] r@[k].0@, r@[k].1@) == (v@[k].0@, v@[k].1@),
        deep_fields(r@) == deep_fields(v@),
{
    let mut out: Vec<(String, Json)> = Vec::new();
    let mut i: usize = 0;
    while i < v.len()
        invariant
            i <= v@.len(),
            out@.len() == i,
            forall|k: int| 0 <= k < i ==> (#[trigger] out@[k].0@, out@[k].1@) == (v@[k].0@, v@[k].1@),
        decreases v@.len() - i,
    {
        let key = v[i].0.clone();
        let val = v[i].1.clone();
        out.push((key, val));
        i += 1;
    }
    proof {
        crate::json::lemma_deep_fields_eq(out@, v@);
    }
    out
}

/// The reducer for the `"node"` slice: the slice is an object mapping node
/// identifiers to their payloads; `node_created` inserts or replaces an
/// entry, `node_deleted` removes one, every other event is ignored.
pub struct NodeReducer {}

impl Reducer for NodeReducer {
    open spec fn reduce_spec(
        &self,
        value: JsonModel,
        event: Seq<char>,
        payload: Seq<char>,
    ) -> JsonModel {
        node_reduce(value, event, payload)
    }

    fn reduce(&self, value: &Json, event: &str, payload: &str) -> (r: Json) {
        let created = str_eq(event, "node_created");
        let deleted = if created {
            false
        } else {
            str_eq(event, "node_deleted")
        };
        if !created && !deleted {
            return value.clone();
        }
        let pv = match parse_json(payload) {
            Some(v) => v,
            None => {
                return value.clone();
            },
        };
        let cur: &Vec<(String, Json)> = match value {
            Json::Obj(cur) => cur,
            _ => {
                return value.clone();
            },
        };
        let pf: Vec<(String, Json)> = match pv {
            Json::Obj(pf) => pf,
            _ => {
                return value.clone();
            },
        };
        let id_key = "id".to_owned();
        let id: String = match obj_find(&pf, &id_key) {
            Some(i) => {
                proof {
                    lemma_deep_fields_len(pf@);
                    assert forall|k: int| 0 <= k < i implies deep_fields(pf@)[k].0 != "id"@ by {
                        lemma_deep_fields_index(pf@, k);
                    }
                    lemma_deep_fields_index(pf@, i as int);
                    lemma_obj_get_at(deep_fields(pf@), "id"@, i as int);
                }
                match &pf[i].1 {
                    Json::Str(id) => id.clone(),
                    _ => {
                        return value.clone();
                    },
                }
            },
            None => {
                proof {
                    lemma_deep_fields_len(pf@);
                    assert forall|k: int| 0 <= k < pf@.len() implies deep_fields(pf@)[k].0 != "id"@
                        by {
                        lemma_deep_fields_index(pf@, k);
                    }
                    lemma_obj_get_none(deep_fields(pf@), "id"@);
                }
                return value.clone();
            },
        };
        if created {
            let pl: Json = match obj_find(&pf, &"payload".to_owned()) {
                Some(i) => {
                    proof {
                        lemma_deep_fields_len(pf@);
                        assert forall|k: int| 0 <= k < i implies deep_fields(pf@)[k].0
                            != "payload"@ by {
                            lemma_deep_fields_index(pf@, k);
                        }
                        lemma_deep_fields_index(pf@, i as int);
                        lemma_obj_get_at(deep_fields(pf@), "payload"@, i as int);
                    }
                    pf[i].1.clone()
                },
                None => {
                    proof {
                        lemma_deep_fields_len(pf@);
                        assert forall|k: int| 0 <= k < pf@.len() implies deep_fields(pf@)[k].0
                            != "payload"@ by {
                            lemma_deep_fields_index(pf@, k);
                        }
                        lemma_obj_get_none(deep_fields(pf@), "payload"@);
                    }
                    return value.clone();
                },
            };
            let mut next = clone_fields(cur);
            let ghost cur_view = deep_fields(cur@);
            proof {
                lemma_deep_fields_len(next@);
            }
            match obj_find(&next, &id) {
                Some(i) => {
                    proof {
                        assert forall|k: int| 0 <= k < i implies cur_view[k].0 != id@ by {
                            lemma_deep_fields_index(next@, k);
                        }
                        lemma_deep_fields_index(next@, i as int);
                        lemma_obj_set_at(cur_view, id@, pl@, i as int);
                    }
                    let ghost pre = next@;
                    next.set(i, (id, pl));
                    proof {
                        lemma_deep_fields_len(next@);
                        assert forall|k: int| 0 <= k < next@.len() implies deep_fields(next@)[k]
                            == cur_view.update(i as int, (id@, pl@))[k] by {
                            lemma_deep_fields_index(next@, k);
                            if k != i {
                                lemma_deep_fields_index(pre, k);
                            }
                        }
                        assert(deep_fields(next@) =~= obj_set(cur_view, id@, pl@));
                    }
                },
                None => {
                    proof {
                        assert forall|k: int| 0 <= k < next@.len() implies cur_view[k].0 != id@ by {
                            lemma_deep_fields_index(next@, k);
                        }
                        lemma_obj_set_none(cur_view, id@, pl@);
                        lemma_deep_fields_push(next@, (id, pl));
                    }
                    next.push((id, pl));
                },
            }
            Json::Obj(next)
        } else {
            let mut next = clone_fields(cur);
            let ghost cur_view = deep_fields(cur@);
            proof {
                lemma_deep_fields_len(next@);
            }
            match obj_find(&next, &id) {
                Some(i) => {
                    proof {
                        assert forall|k: int| 0 <= k < i implies cur_view[k].0 != id@ by {
                            lemma_deep_fields_index(next@, k);
                        }
                        lemma_deep_fields_index(next@, i as int);
                        lemma_obj_remove_at(cur_view, id@, i as int);
                    }
                    let ghost pre = next@;
                    next.remove(i);
                    proof {
                        lemma_deep_fields_len(next@);
                        assert forall|k: int| 0 <= k < next@.len() implies deep_fields(next@)[k]
                            == cur_view.remove(i as int)[k] by {
                            lemma_deep_fields_index(next@, k);
                            if k < i {
                                lemma_deep_fields_index(pre, k);
                            } else {
                                lemma_deep_fields_index(pre, k + 1);
                            }
                        }
                        assert(deep_fields(next@) =~= obj_remove(cur_view, id@));
                    }
                },
                None => {
                    proof {
                        assert forall|k: int| 0 <= k < next@.len() implies cur_view[k].0 != id@ by {
                            lemma_deep_fields_index(next@, k);
                        }
                        lemma_obj_remove_none(cur_view, id@);
                    }
                },
            }
            Json::Obj(next)
        }
    }
}

/// A listener that records every notification it receives, in order.
pub struct RecordLog {
    pub notes: Vec<(String, Json)>,
}

impl RecordLog {
    /// An empty record.
    pub fn new() -> (r: Self)
        ensures
            r.log() == Seq::<(Seq<char>, JsonModel)>::empty(),
    {
        RecordLog { notes: Vec::new() }
    }
}

impl Listener for RecordLog {
    open spec fn log(&self) -> Seq<(Seq<char>, JsonModel)> {
        deep_fields(self.notes@)
    }

    fn notify(&mut self, slice: &str, value: &Json) {
        let entry = (slice.to_owned(), value.clone());
        proof {
            lemma_deep_fields_push(self.notes@, entry);
        }
        self.notes.push(entry);
    }
}

} // verus!
