//! The Machine: the single shared state container. It owns the state map
//! (slice name to current JSON value), a fixed reducer registry and the
//! listener set, and exposes `consume`, the dispatch/reduce/notify
//! transition performed once per inbound event.

use vstd::prelude::*;
use crate::json::Json;
use crate::json::JsonModel;
use crate::json::deep_fields;
use crate::json::eq_json;
use crate::json::lemma_deep_fields_index;
use crate::json::lemma_deep_fields_len;
use crate::json::lemma_deep_fields_push;
use crate::text::obj_string;
use crate::text::text_of;

verus! {

/// A pure reduction function bound to one state slice. `reduce_spec` is the
/// mathematical function the reducer computes; `reduce` is proved to compute
/// it, so a reducer is a pure function of (current value, event name, raw
/// payload text) alone.
pub trait Reducer: Sized {
    /// The value the reducer yields for a slice value, an event type name
    /// and a raw payload text.
    spec fn reduce_spec(&self, value: JsonModel, event: Seq<char>, payload: Seq<char>) -> JsonModel;

    /// Applies the reducer to the slice's current value.
    fn reduce(&self, value: &Json, event: &str, payload: &str) -> (r: Json)
        ensures
            r@ == self.reduce_spec(value@, event@, payload@),
    ;
}

/// A change observer. `log()` is the abstract record of the notifications it
/// has received, oldest first; `notify` appends exactly one entry to it.
pub trait Listener: Sized {
    /// The notifications received so far: (slice name, committed value).
    spec fn log(&self) -> Seq<(Seq<char>, JsonModel)>;

    /// Delivers one change notification.
    fn notify(&mut self, slice: &str, value: &Json)
        ensures
            final(self).log() == old(self).log().push((slice@, value@)),
    ;
}

/// The raw payload text handed to every reducer: an absent payload is
/// treated as the empty JSON object literal.
pub open spec fn raw_of(payload: Option<String>) -> Seq<char> {
    match payload {
        Some(p) => p@,
        None => seq!['{', '}'],
    }
}

/// Whether the registry holds a reducer for the given slice name.
pub open spec fn has_reducer<R: Reducer>(regs: Seq<(String, Json, R)>, key: Seq<char>) -> bool {
    exists|i: int| 0 <= i < regs.len() && regs[i].0@ == key
}

/// The registry index of the reducer for the given slice name.
pub open spec fn reducer_index<R: Reducer>(regs: Seq<(String, Json, R)>, key: Seq<char>) -> int {
    choose|i: int| 0 <= i < regs.len() && regs[i].0@ == key
}

/// The value of a slice after one dispatch: what its reducer returns, or the
/// old value where no reducer is registered for the slice.
pub open spec fn slice_after<R: Reducer>(
    regs: Seq<(String, Json, R)>,
    key: Seq<char>,
    value: JsonModel,
    event: Seq<char>,
    raw: Seq<char>,
) -> JsonModel {
    if has_reducer(regs, key) {
        regs[reducer_index(regs, key)].2.reduce_spec(value, event, raw)
    } else {
        value
    }
}

/// The notifications one dispatch produces, in slice order: one entry per
/// slice whose reducer returned a structurally different value.
pub open spec fn notices<R: Reducer>(
    state: Seq<(String, Json)>,
    regs: Seq<(String, Json, R)>,
    event: Seq<char>,
    raw: Seq<char>,
) -> Seq<(Seq<char>, JsonModel)>
    decreases state.len(),
{
    if state.len() == 0 {
        Seq::empty()
    } else {
        let rest = notices(state.drop_last(), regs, event, raw);
        let key = state.last().0@;
        let old_value = state.last().1@;
        let new_value = slice_after(regs, key, old_value, event, raw);
        if has_reducer(regs, key) && new_value != old_value {
            rest.push((key, new_value))
        } else {
            rest
        }
    }
}

/// The state container. `data` is the live state map, `reducers` the fixed
/// registry of (slice name, initial value, reducer), `listeners` the ordered
/// set of change observers. A caller needs exclusive access for a dispatch
/// (`consume` takes `&mut self`), so dispatches are fully serialized.
pub struct Machine<R: Reducer, L: Listener> {
    pub data: Vec<(String, Json)>,
    pub reducers: Vec<(String, Json, R)>,
    pub listeners: Vec<L>,
}

impl<R: Reducer, L: Listener> Machine<R, L> {
    /// Both the state map and the registry are mappings: their slice names
    /// are unique.
    pub open spec fn wf(self) -> bool {
        &&& forall|i: int, j: int|
            0 <= i < j < self.data@.len() ==> self.data@[i].0@ != self.data@[j].0@
        &&& forall|i: int, j: int|
            0 <= i < j < self.reducers@.len() ==> self.reducers@[i].0@ != self.reducers@[j].0@
    }

    /// Constructs a Machine from an initial state map, a reducer registry
    /// and a pre-populated listener set.
    pub fn new(
        data: Vec<(String, Json)>,
        reducers: Vec<(String, Json, R)>,
        listeners: Vec<L>,
    ) -> (m: Self)
        requires
            forall|i: int, j: int| 0 <= i < j < data@.len() ==> data@[i].0@ != data@[j].0@,
            forall|i: int, j: int|
                0 <= i < j < reducers@.len() ==> reducers@[i].0@ != reducers@[j].0@,
        ensures
            m.data == data,
            m.reducers == reducers,
            m.listeners == listeners,
            m.wf(),
    {
        Machine { data, reducers, listeners }
    }

    /// Registers one more change observer at the end of the notification
    /// order.
    pub fn register(&mut self, listener: L)
        ensures
            final(self).data == old(self).data,
            final(self).reducers == old(self).reducers,
            final(self).listeners@ == old(self).listeners@.push(listener),
    {
        self.listeners.push(listener);
    }

    /// Looks up the registry entry for a slice name.
    fn find_reducer(&self, key: &String) -> (r: Option<usize>)
        requires
            self.wf(),
        ensures
            match r {
                Some(i) => i < self.reducers@.len() && self.reducers@[i as int].0@ == key@
                    && has_reducer(self.reducers@, key@) && reducer_index(self.reducers@, key@)
                    == i as int,
                None => !has_reducer(self.reducers@, key@),
            },
    {
        let mut i: usize = 0;
        while i < self.reducers.len()
            invariant
                i <= self.reducers@.len(),
                forall|k: int| 0 <= k < i ==> self.reducers@[k].0@ != key@,
                self.wf(),
            decreases self.reducers@.len() - i,
        {
            if self.reducers[i].0.eq(key) {
                proof {
                    let w = reducer_index(self.reducers@, key@);
                    assert(0 <= w < self.reducers@.len() && self.reducers@[w].0@ == key@);
                    if w != i as int {
                        assert(self.reducers@[w].0@ != self.reducers@[i as int].0@);
                    }
                }
                return Some(i);
            }
            i += 1;
        }
        None
    }

    /// One dispatch: for every slice of the state map, in order, applies the
    /// slice's registered reducer to (current value, event name, raw payload
    /// text); where the result differs structurally, commits it and then
    /// notifies every listener, in registration order, once per change;
    /// finally returns the whole state map serialized as JSON text.
    ///
    /// An absent payload is treated exactly as the text `{}`. The state
    /// map's slice names never change: reducers replace values only.
    #[verifier::loop_isolation(false)]
    pub fn consume(&mut self, event: String, payload: Option<String>) -> (r: String)
        requires
            old(self).wf(),
        ensures
            final(self).wf(),
            final(self).reducers@ == old(self).reducers@,
            final(self).data@.len() == old(self).data@.len(),
            forall|k: int|
                0 <= k < old(self).data@.len() ==> final(self).data@[k].0 == old(self).data@[k].0,
            forall|k: int|
                0 <= k < old(self).data@.len() ==> final(self).data@[k].1@ == slice_after(
                    old(self).reducers@,
                    old(self).data@[k].0@,
                    old(self).data@[k].1@,
                    event@,
                    raw_of(payload),
                ),
            final(self).listeners@.len() == old(self).listeners@.len(),
            forall|j: int|
                0 <= j < old(self).listeners@.len() ==> final(self).listeners@[j].log() == old(
                    self,
                ).listeners@[j].log() + notices(
                    old(self).data@,
                    old(self).reducers@,
                    event@,
                    raw_of(payload),
                ),
            r@ == text_of(JsonModel::Obj(deep_fields(final(self).data@))),
    {
        let raw: &str = match &payload {
            Some(p) => p.as_str(),
            None => "{}",
        };
        proof {
            reveal_strlit("{}");
            assert(raw@ =~= raw_of(payload));
        }
        let ghost regs = self.reducers@;
        let ghost state0 = self.data@;

        let mut pending: Vec<(String, Json)> = Vec::new();
        let mut i: usize = 0;
        while i < self.data.len()
            invariant
                i <= self.data@.len(),
                self.reducers@ == regs,
                self.listeners@ == old(self).listeners@,
                self.data@.len() == state0.len(),
                forall|k: int| 0 <= k < state0.len() ==> self.data@[k].0 == state0[k].0,
                forall|k: int| i <= k < state0.len() ==> self.data@[k].1 == state0[k].1,
                forall|k: int|
                    0 <= k < i ==> self.data@[k].1@ == slice_after(
                        regs,
                        state0[k].0@,
                        state0[k].1@,
                        event@,
                        raw@,
                    ),
                deep_fields(pending@) == notices(state0.take(i as int), regs, event@, raw@),
            decreases self.data@.len() - i,
        {
            proof {
                lemma_deep_fields_len(pending@);
            }
            let found = self.find_reducer(&self.data[i].0);
            if let Some(ri) = found {
                let new_value = self.reducers[ri].2.reduce(&self.data[i].1, event.as_str(), raw);
                let changed = !eq_json(&new_value, &self.data[i].1);
                proof {
                    assert(new_value@ == slice_after(
                        regs,
                        state0[i as int].0@,
                        state0[i as int].1@,
                        event@,
                        raw@,
                    ));
                }
                if changed {
                    let key = self.data[i].0.clone();
                    let committed = new_value.clone();
                    proof {
                        lemma_deep_fields_push(pending@, (key, committed));
                    }
                    pending.push((key, committed));
                    self.data[i].1 = new_value;
                }
            }
            proof {
                let t1 = state0.take(i + 1 as int);
                assert(t1.drop_last() =~= state0.take(i as int));
                assert(t1.last() == state0[i as int]);
                assert(deep_fields(pending@) =~= notices(t1, regs, event@, raw@));
            }
            i += 1;
        }
        proof {
            assert(state0.take(state0.len() as int) =~= state0);
        }

        let ghost data1 = self.data@;
        let ghost all = notices(state0, regs, event@, raw@);
        proof {
            lemma_deep_fields_len(pending@);
        }
        let mut n: usize = 0;
        while n < pending.len()
            invariant
                n <= pending@.len(),
                self.data@ == data1,
                self.reducers@ == regs,
                deep_fields(pending@) == all,
                pending@.len() == all.len(),
                self.listeners@.len() == old(self).listeners@.len(),
                forall|j: int|
                    0 <= j < self.listeners@.len() ==> self.listeners@[j].log() == old(
                        self,
                    ).listeners@[j].log() + all.take(n as int),
            decreases pending@.len() - n,
        {
            let mut j: usize = 0;
            while j < self.listeners.len()
                invariant
                    n < pending@.len(),
                    j <= self.listeners@.len(),
                    self.data@ == data1,
                    self.reducers@ == regs,
                    self.listeners@.len() == old(self).listeners@.len(),
                    forall|q: int|
                        j <= q < self.listeners@.len() ==> self.listeners@[q].log() == old(
                            self,
                        ).listeners@[q].log() + all.take(n as int),
                    forall|q: int|
                        0 <= q < j ==> self.listeners@[q].log() == old(self).listeners@[q].log()
                            + all.take(n + 1 as int),
                decreases self.listeners@.len() - j,
            {
                proof {
                    lemma_deep_fields_index(pending@, n as int);
                    assert(all.take(n as int).push(all[n as int]) =~= all.take(n + 1 as int));
                }
                let entry_name = pending[n].0.as_str();
                self.listeners[j].notify(entry_name, &pending[n].1);
                j += 1;
            }
            n += 1;
        }
        proof {
            assert(all.take(all.len() as int) =~= all);
        }

        obj_string(&self.data)
    }
}

/// Every notification of a dispatch comes from a slice whose reducer
/// produced a structurally different value: it carries that slice's name
/// and its newly committed value.
pub proof fn lemma_notice_source<R: Reducer>(
    state: Seq<(String, Json)>,
    regs: Seq<(String, Json, R)>,
    event: Seq<char>,
    raw: Seq<char>,
)
    ensures
        forall|j: int|
            0 <= j < notices(state, regs, event, raw).len() ==> exists|k: int|
                0 <= k < state.len() && #[trigger] notices(state, regs, event, raw)[j] == (
                state[k].0@,
                slice_after(regs, state[k].0@, state[k].1@, event, raw),
                ) && slice_after(regs, state[k].0@, state[k].1@, event, raw) != state[k].1@,
    decreases state.len(),
{
    if state.len() > 0 {
        let prev = state.drop_last();
        lemma_notice_source(prev, regs, event, raw);
        let all = notices(state, regs, event, raw);
        let rest = notices(prev, regs, event, raw);
        assert forall|j: int| 0 <= j < all.len() implies exists|k: int|
            0 <= k < state.len() && #[trigger] all[j] == (
            state[k].0@,
            slice_after(regs, state[k].0@, state[k].1@, event, raw),
            ) && slice_after(regs, state[k].0@, state[k].1@, event, raw) != state[k].1@ by {
            if j < rest.len() {
                let w = choose|k: int|
                    0 <= k < prev.len() && #[trigger] rest[j] == (
                    prev[k].0@,
                    slice_after(regs, prev[k].0@, prev[k].1@, event, raw),
                    ) && slice_after(regs, prev[k].0@, prev[k].1@, event, raw) != prev[k].1@;
                assert(prev[w] == state[w]);
                assert(all[j] == (
                    state[w].0@,
                    slice_after(regs, state[w].0@, state[w].1@, event, raw),
                ));
            } else {
                let w = state.len() - 1;
                assert(all[j] == (
                    state[w].0@,
                    slice_after(regs, state[w].0@, state[w].1@, event, raw),
                ));
            }
        }
    }
}

/// No spurious notification: where the state map's slice names are unique
/// and slice `k`'s reducer returns a value structurally equal to its input,
/// no notification of that dispatch names slice `k`.
pub proof fn lemma_no_spurious_notice<R: Reducer>(
    state: Seq<(String, Json)>,
    regs: Seq<(String, Json, R)>,
    event: Seq<char>,
    raw: Seq<char>,
    k: int,
)
    requires
        forall|i: int, j: int| 0 <= i < j < state.len() ==> state[i].0@ != state[j].0@,
        0 <= k < state.len(),
        slice_after(regs, state[k].0@, state[k].1@, event, raw) == state[k].1@,
    ensures
        forall|j: int|
            0 <= j < notices(state, regs, event, raw).len() ==> (#[trigger] notices(
                state,
                regs,
                event,
                raw,
            )[j]).0 != state[k].0@,
{
    lemma_notice_source(state, regs, event, raw);
    let all = notices(state, regs, event, raw);
    assert forall|j: int| 0 <= j < all.len() implies (#[trigger] all[j]).0 != state[k].0@ by {
        let w = choose|w: int|
            0 <= w < state.len() && #[trigger] all[j] == (
            state[w].0@,
            slice_after(regs, state[w].0@, state[w].1@, event, raw),
            ) && slice_after(regs, state[w].0@, state[w].1@, event, raw) != state[w].1@;
        if w == k {
        } else if w < k {
            assert(state[w].0@ != state[k].0@);
        } else {
            assert(state[k].0@ != state[w].0@);
        }
    }
}

/// Isolation: a slice whose reducer does not recognize the event (it
/// returns its input unchanged), or that has no reducer at all, keeps its
/// exact value through a dispatch: `consume` commits exactly `slice_after`
/// for every slice.
pub proof fn lemma_isolation<R: Reducer>(
    regs: Seq<(String, Json, R)>,
    key: Seq<char>,
    value: JsonModel,
    event: Seq<char>,
    raw: Seq<char>,
)
    requires
        has_reducer(regs, key) ==> regs[reducer_index(regs, key)].2.reduce_spec(value, event, raw)
            == value,
    ensures
        slice_after(regs, key, value, event, raw) == value,
{
}

/// Payload default: an absent payload and the two-character text `{}` hand
/// every reducer the same raw payload text, and a dispatch's outcome
/// depends on the payload only through that text, so the two behave
/// identically.
pub proof fn lemma_payload_default(p: Option<String>)
    requires
        ({
            &&& p matches Some(q)
            &&& q@ == seq!['{', '}']
        }),
    ensures
        raw_of(p) == raw_of(None),
{
}

} // verus!
