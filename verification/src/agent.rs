use vstd::prelude::*;

use std::collections::HashMap;

use crate::session::{message_views, ChatMessage, ChatMessageView, Session};
use crate::text::{
    chars_to_string, concat3, contains_seq, contains_str, eq_str, find_char, find_run_from, lit,
    lower_exec, lower_seq, or_default, push_str, str_to_chars, string_views, sub_chars,
};
use crate::tools::{ToolCallTracker, ToolCallView};

verus! {

// ───────────────────────── tool calls as the reply builds them ─────────────────────────

/// A piece of a tool call in a streamed reply; the call is found by its index.
pub struct ToolCallDelta {
    pub index: Option<u64>,
    pub id: Option<String>,
    pub name: Option<String>,
    pub arguments: Option<String>,
}

pub struct ToolCallDeltaView {
    pub index: Option<u64>,
    pub id: Option<Seq<char>>,
    pub name: Option<Seq<char>>,
    pub arguments: Option<Seq<char>>,
}

impl View for ToolCallDelta {
    type V = ToolCallDeltaView;

    open spec fn view(&self) -> ToolCallDeltaView {
        ToolCallDeltaView {
            index: self.index,
            id: self.id.deep_view(),
            name: self.name.deep_view(),
            arguments: self.arguments.deep_view(),
        }
    }
}

/// The tool call with every field empty.
pub open spec fn empty_call() -> ToolCallView {
    ToolCallView { id: Seq::empty(), name: Seq::empty(), arguments: Seq::empty() }
}

/// A tool call after a piece of it arrives: a new id or name replaces the old one, new
/// arguments are appended.
pub open spec fn call_updated(t: ToolCallView, d: ToolCallDeltaView) -> ToolCallView {
    ToolCallView {
        id: or_default(d.id, t.id),
        name: or_default(d.name, t.name),
        arguments: t.arguments + or_default(d.arguments, Seq::empty()),
    }
}

/// The indices of the calls increase strictly.
pub open spec fn sorted_keys(s: Seq<(u64, ToolCallView)>) -> bool {
    forall|a: int, b: int| 0 <= a < b < s.len() ==> s[a].0 < s[b].0
}

/// How many calls have an index below `i`.
pub open spec fn count_below(s: Seq<(u64, ToolCallView)>, i: u64) -> nat
    decreases s.len(),
{
    if s.len() == 0 {
        0
    } else {
        count_below(s.drop_last(), i) + if s.last().0 < i {
            1nat
        } else {
            0nat
        }
    }
}

/// The calls, by increasing index, after a piece of a call arrives: the call of that index
/// is updated, or a new one is put in its place; a piece without an index changes nothing.
pub open spec fn delta_applied(s: Seq<(u64, ToolCallView)>, d: ToolCallDeltaView) -> Seq<
    (u64, ToolCallView),
> {
    match d.index {
        None => s,
        Some(i) => {
            let p = count_below(s, i) as int;
            if p < s.len() && s[p].0 == i {
                s.update(p, (i, call_updated(s[p].1, d)))
            } else {
                s.insert(p, (i, call_updated(empty_call(), d)))
            }
        },
    }
}

/// The pieces applied in turn.
pub open spec fn deltas_applied(s: Seq<(u64, ToolCallView)>, ds: Seq<ToolCallDeltaView>) -> Seq<
    (u64, ToolCallView),
>
    decreases ds.len(),
{
    if ds.len() == 0 {
        s
    } else {
        delta_applied(deltas_applied(s, ds.drop_last()), ds.last())
    }
}

/// The call of index `i`, if there is one.
pub open spec fn lookup(s: Seq<(u64, ToolCallView)>, i: u64) -> Option<ToolCallView> {
    if exists|p: int| 0 <= p < s.len() && #[trigger] s[p].0 == i {
        Some(s[choose|p: int| 0 <= p < s.len() && #[trigger] s[p].0 == i].1)
    } else {
        None
    }
}

/// The tool calls of one reply, found by their index. `indices` lists the indices that the
/// map holds, in increasing order, so that the calls are handed out by index.
pub struct ToolCalls {
    by_index: HashMap<u64, ToolCallTracker>,
    indices: Vec<u64>,
}

impl View for ToolCalls {
    type V = Seq<(u64, ToolCallView)>;

    closed spec fn view(&self) -> Seq<(u64, ToolCallView)> {
        Seq::new(
            self.indices@.len(),
            |k: int| (self.indices@[k], self.by_index@[self.indices@[k]]@),
        )
    }
}

impl ToolCalls {
    #[verifier::type_invariant]
    closed spec fn indices_match(&self) -> bool {
        &&& forall|a: int, b: int|
            0 <= a < b < self.indices@.len() ==> self.indices@[a] < self.indices@[b]
        &&& forall|k: int|
            0 <= k < self.indices@.len() ==> self.by_index@.contains_key(#[trigger] self.indices@[k])
        &&& forall|i: u64|
            #[trigger] self.by_index@.contains_key(i) ==> exists|k: int|
                0 <= k < self.indices@.len() && #[trigger] self.indices@[k] == i
    }

    /// No calls.
    pub fn new() -> (c: Self)
        ensures
            c@.len() == 0,
    {
        ToolCalls { by_index: HashMap::new(), indices: Vec::new() }
    }

    /// The calls of a whole reply, indexed by their positions.
    pub fn from_list(calls: Vec<ToolCallTracker>) -> (c: Self)
        ensures
            c@.len() == calls@.len(),
            forall|k: int| 0 <= k < calls@.len() ==> #[trigger] c@[k] == (k as u64, calls@[k]@),
    {
        broadcast use vstd::std_specs::hash::group_hash_axioms;

        let mut by_index: HashMap<u64, ToolCallTracker> = HashMap::new();
        let mut indices: Vec<u64> = Vec::new();
        let n = calls.len();
        let mut k: usize = 0;
        while k < n
            invariant
                n == calls@.len(),
                k <= n,
                indices@.len() == k,
                forall|j: int| 0 <= j < k ==> #[trigger] indices@[j] == j as u64,
                forall|i: u64| #[trigger] by_index@.contains_key(i) <==> i < k,
                forall|j: int| 0 <= j < k ==> #[trigger] by_index@[j as u64]@ == calls@[j]@,
            decreases n - k,
        {
            let key = k as u64;
            by_index.insert(key, calls[k].duplicate());
            indices.push(key);
            k += 1;
        }
        proof {
            assert forall|i: u64| #[trigger] by_index@.contains_key(i) implies exists|j: int|
                0 <= j < indices@.len() && #[trigger] indices@[j] == i by {
                assert(indices@[i as int] == i);
            }
            assert forall|j: int| 0 <= j < indices@.len() implies by_index@.contains_key(
                #[trigger] indices@[j],
            ) by {
                assert(indices@[j] == j as u64);
            }
            assert forall|a: int, b: int| 0 <= a < b < indices@.len() implies indices@[a]
                < indices@[b] by {
                assert(indices@[a] == a as u64 && indices@[b] == b as u64);
            }
        }
        proof {
            let ghost c = ToolCalls { by_index: by_index, indices: indices };
            assert(c.by_index@ == by_index@ && c.indices@ == indices@);
            assert(c.indices_match());
        }
        ToolCalls { by_index, indices }
    }

    /// Whether there are no calls.
    pub fn is_empty(&self) -> (b: bool)
        ensures
            b == (self@.len() == 0),
    {
        self.indices.len() == 0
    }

    /// Applies a piece of a tool call.
    pub fn apply(&mut self, d: &ToolCallDelta)
        ensures
            final(self)@ == delta_applied(old(self)@, d@),
    {
        broadcast use vstd::std_specs::hash::group_hash_axioms;

        proof {
            use_type_invariant(&*self);
        }
        let i = match d.index {
            Some(i) => i,
            None => {
                return;
            },
        };
        let ghost s = self@;
        let mut cur = ToolCalls::new();
        std::mem::swap(self, &mut cur);
        let ToolCalls { by_index: mut map, indices: mut idx } = cur;
        let ghost map0 = map@;
        let ghost idx0 = idx@;
        assert(s =~= Seq::new(idx@.len(), |k: int| (idx@[k], map@[idx@[k]]@)));
        assert(sorted_keys(s));
        let n = idx.len();
        let mut p: usize = 0;
        assert(s.skip(0) =~= s);
        while p < n && idx[p] < i
            invariant
                n == idx@.len(),
                idx@ == idx0,
                p <= n,
                s == Seq::new(idx@.len(), |k: int| (idx@[k], map@[idx@[k]]@)),
                sorted_keys(s),
                count_below(s, i) == p + count_below(s.skip(p as int), i),
                forall|a: int| 0 <= a < p ==> #[trigger] s[a].0 < i,
            decreases n - p,
        {
            proof {
                lemma_count_below_step(s, i, p as int);
            }
            p += 1;
        }
        proof {
            lemma_count_below_rest_zero(s, i, p as int);
            assert forall|a: int| p <= a < s.len() implies #[trigger] s[a].0 >= i by {
                if a > p {
                    assert(s[p as int].0 < s[a].0);
                }
            }
        }
        let found = p < n && idx[p] == i;
        proof {
            if map0.contains_key(i) {
                let k = choose|k: int| 0 <= k < idx0.len() && #[trigger] idx0[k] == i;
                assert(s[k].0 == i);
                if k < p {
                    assert(s[k].0 < i);
                } else if k > p {
                    assert(s[p as int].0 < s[k].0);
                }
                assert(found);
            }
        }
        let base = match map.get(&i) {
            Some(t) => t.duplicate(),
            None => ToolCallTracker::new(),
        };
        let id = match &d.id {
            Some(x) => x.clone(),
            None => base.id,
        };
        let name = match &d.name {
            Some(x) => x.clone(),
            None => base.name,
        };
        let mut args: Vec<char> = crate::text::str_to_chars(base.arguments.as_str());
        match &d.arguments {
            Some(x) => push_str(&mut args, x.as_str()),
            None => {},
        }
        let t = ToolCallTracker { id, name, arguments: chars_to_string(&args) };
        let ghost tv = t@;
        map.insert(i, t);
        if !found {
            idx.insert(p, i);
        }
        proof {
            let s2 = Seq::new(idx@.len(), |k: int| (idx@[k], map@[idx@[k]]@));
            if found {
                assert forall|k: int| 0 <= k < s2.len() implies #[trigger] s2[k] == s.update(
                    p as int,
                    (i, call_updated(s[p as int].1, d@)),
                )[k] by {
                    if k != p {
                        if k < p {
                            assert(idx0[k] < idx0[p as int]);
                        } else {
                            assert(idx0[p as int] < idx0[k]);
                        }
                    }
                }
                assert(s2 =~= delta_applied(s, d@));
            } else {
                assert forall|k: int| 0 <= k < s2.len() implies #[trigger] s2[k] == s.insert(
                    p as int,
                    (i, call_updated(empty_call(), d@)),
                )[k] by {
                    if k < p {
                        assert(idx@[k] == idx0[k]);
                        assert(s[k].0 < i);
                    } else if k > p {
                        assert(idx@[k] == idx0[k - 1]);
                        assert(map0.contains_key(idx0[k - 1]));
                        assert(idx0[k - 1] != i);
                    }
                }
                assert(s2 =~= delta_applied(s, d@));
            }
            lemma_applied_sorted(s, d@);
            let r = delta_applied(s, d@);
            assert forall|a: int, b: int| 0 <= a < b < idx@.len() implies idx@[a] < idx@[b] by {
                assert(r[a].0 == s2[a].0 && r[b].0 == s2[b].0);
            }
            assert forall|k: int| 0 <= k < idx@.len() implies map@.contains_key(#[trigger] idx@[k]) by {
                if found || k < p {
                    assert(idx@[k] == idx0[k]);
                } else if k > p {
                    assert(idx@[k] == idx0[k - 1]);
                }
            }
            assert forall|j: u64| #[trigger] map@.contains_key(j) implies exists|k: int|
                0 <= k < idx@.len() && #[trigger] idx@[k] == j by {
                if j == i {
                    assert(idx@[p as int] == i);
                } else {
                    assert(map0.contains_key(j));
                    let k = choose|k: int| 0 <= k < idx0.len() && #[trigger] idx0[k] == j;
                    if found || k < p {
                        assert(idx@[k] == j);
                    } else {
                        assert(idx@[k + 1] == j);
                    }
                }
            }
        }
        proof {
            let ghost c = ToolCalls { by_index: map, indices: idx };
            assert(c.by_index@ == map@ && c.indices@ == idx@);
            assert(c.indices_match());
        }
        *self = ToolCalls { by_index: map, indices: idx };
    }

    /// The calls by increasing index.
    pub fn ordered(&self) -> (r: Vec<ToolCallTracker>)
        ensures
            r@.len() == self@.len(),
            forall|k: int| 0 <= k < r@.len() ==> #[trigger] r@[k]@ == self@[k].1,
            sorted_keys(self@),
    {
        broadcast use vstd::std_specs::hash::group_hash_axioms;

        proof {
            use_type_invariant(self);
        }
        let mut r: Vec<ToolCallTracker> = Vec::new();
        let n = self.indices.len();
        let mut k: usize = 0;
        while k < n
            invariant
                n == self.indices@.len(),
                k <= n,
                r@.len() == k,
                forall|j: int| 0 <= j < n ==> self.by_index@.contains_key(#[trigger] self.indices@[j]),
                forall|j: int| 0 <= j < k ==> #[trigger] r@[j]@ == self@[j].1,
            decreases n - k,
        {
            let key = self.indices[k];
            assert(self.by_index@.contains_key(key));
            let t = self.by_index.get(&key).unwrap();
            r.push(t.duplicate());
            k += 1;
        }
        r
    }
}

proof fn lemma_count_below_step(s: Seq<(u64, ToolCallView)>, i: u64, p: int)
    requires
        sorted_keys(s),
        0 <= p < s.len(),
        s[p].0 < i,
        count_below(s, i) == p + count_below(s.skip(p), i),
    ensures
        count_below(s, i) == p + 1 + count_below(s.skip(p + 1), i),
{
    lemma_count_below_first(s.skip(p), i);
    assert(s.skip(p).drop_first() =~= s.skip(p + 1));
}

proof fn lemma_count_below_first(s: Seq<(u64, ToolCallView)>, i: u64)
    requires
        s.len() > 0,
    ensures
        count_below(s, i) == count_below(s.drop_first(), i) + if s[0].0 < i {
            1nat
        } else {
            0nat
        },
    decreases s.len(),
{
    if s.len() == 1 {
        assert(s.drop_last() =~= Seq::<(u64, ToolCallView)>::empty());
        assert(s.drop_first() =~= Seq::<(u64, ToolCallView)>::empty());
    } else {
        lemma_count_below_first(s.drop_last(), i);
        assert(s.drop_last().drop_first() =~= s.drop_first().drop_last());
    }
}

proof fn lemma_count_below_rest_zero(s: Seq<(u64, ToolCallView)>, i: u64, p: int)
    requires
        sorted_keys(s),
        0 <= p <= s.len(),
        p == s.len() || s[p].0 >= i,
    ensures
        count_below(s.skip(p), i) == 0,
    decreases s.len() - p,
{
    let t = s.skip(p);
    lemma_count_below_none(t, i);
}

proof fn lemma_count_below_none(t: Seq<(u64, ToolCallView)>, i: u64)
    requires
        sorted_keys(t),
        t.len() == 0 || t[0].0 >= i,
    ensures
        count_below(t, i) == 0,
    decreases t.len(),
{
    if t.len() > 0 {
        assert(sorted_keys(t.drop_last()));
        lemma_count_below_none(t.drop_last(), i);
        if t.len() > 1 {
            assert(t[0].0 < t[t.len() - 1].0);
        }
    }
}

proof fn lemma_applied_sorted(s: Seq<(u64, ToolCallView)>, d: ToolCallDeltaView)
    requires
        sorted_keys(s),
        d.index is Some,
        count_below(s, d.index->0) <= s.len(),
        forall|a: int| 0 <= a < count_below(s, d.index->0) ==> #[trigger] s[a].0 < d.index->0,
        forall|a: int| count_below(s, d.index->0) <= a < s.len() ==> #[trigger] s[a].0 >= d.index->0,
    ensures
        sorted_keys(delta_applied(s, d)),
{
    let i = d.index->0;
    let p = count_below(s, i) as int;
    let r = delta_applied(s, d);
    if p < s.len() && s[p].0 == i {
        assert forall|a: int, b: int| 0 <= a < b < r.len() implies r[a].0 < r[b].0 by {
            assert(r[a].0 == s[a].0);
            assert(r[b].0 == s[b].0);
        }
    } else {
        assert forall|a: int, b: int| 0 <= a < b < r.len() implies r[a].0 < r[b].0 by {
            if b < p {
                assert(r[a] == s[a] && r[b] == s[b]);
            } else if b == p {
                assert(r[a] == s[a]);
            } else if a < p {
                assert(r[a] == s[a] && r[b] == s[b - 1]);
            } else if a == p {
                assert(r[b] == s[b - 1]);
                assert(s[p].0 >= i);
                assert(s[p].0 != i);
                if b - 1 > p {
                    assert(s[p].0 < s[b - 1].0);
                }
            } else {
                assert(r[a] == s[a - 1] && r[b] == s[b - 1]);
            }
        }
    }
}

} // verus!

verus! {

proof fn lemma_lookup_at(s: Seq<(u64, ToolCallView)>, p: int)
    requires
        sorted_keys(s),
        0 <= p < s.len(),
    ensures
        lookup(s, s[p].0) == Some(s[p].1),
{
    let q = choose|q: int| 0 <= q < s.len() && #[trigger] s[q].0 == s[p].0;
    if q < p {
        assert(s[q].0 < s[p].0);
    } else if p < q {
        assert(s[p].0 < s[q].0);
    }
}

/// A piece of a tool call changes the call of its index, and no other: the new id or name
/// replaces the old, the arguments grow by the new ones; the calls stay in increasing order.
pub proof fn lemma_delta_changes_one_call(s: Seq<(u64, ToolCallView)>, d: ToolCallDeltaView, j: u64)
    requires
        sorted_keys(s),
        d.index is Some,
    ensures
        sorted_keys(delta_applied(s, d)),
        lookup(delta_applied(s, d), d.index->0) == Some(
            call_updated(
                match lookup(s, d.index->0) {
                    Some(t) => t,
                    None => empty_call(),
                },
                d,
            ),
        ),
        j != d.index->0 ==> lookup(delta_applied(s, d), j) == lookup(s, j),
{
    let i = d.index->0;
    let p = count_below(s, i) as int;
    lemma_count_below_bounds(s, i);
    let r = delta_applied(s, d);
    lemma_applied_sorted(s, d);
    if p < s.len() && s[p].0 == i {
        lemma_lookup_at(s, p);
        lemma_lookup_at(r, p);
        if j != i {
            if exists|q: int| 0 <= q < s.len() && #[trigger] s[q].0 == j {
                let q = choose|q: int| 0 <= q < s.len() && #[trigger] s[q].0 == j;
                lemma_lookup_at(s, q);
                assert(r[q] == s[q]);
                lemma_lookup_at(r, q);
            } else {
                assert forall|q: int| 0 <= q < r.len() implies #[trigger] r[q].0 != j by {
                    if q != p {
                        assert(r[q] == s[q]);
                    }
                }
            }
        }
    } else {
        if exists|q: int| 0 <= q < s.len() && #[trigger] s[q].0 == i {
            let q = choose|q: int| 0 <= q < s.len() && #[trigger] s[q].0 == i;
            if q < p {
            } else if q > p {
                assert(s[p].0 < s[q].0);
            }
        }
        assert(r[p] == (i, call_updated(empty_call(), d)));
        lemma_lookup_at(r, p);
        if j != i {
            if exists|q: int| 0 <= q < s.len() && #[trigger] s[q].0 == j {
                let q = choose|q: int| 0 <= q < s.len() && #[trigger] s[q].0 == j;
                lemma_lookup_at(s, q);
                if q < p {
                    assert(r[q] == s[q]);
                    lemma_lookup_at(r, q);
                } else {
                    assert(r[q + 1] == s[q]);
                    lemma_lookup_at(r, q + 1);
                }
            } else {
                assert forall|q: int| 0 <= q < r.len() implies #[trigger] r[q].0 != j by {
                    if q < p {
                        assert(r[q] == s[q]);
                    } else if q > p {
                        assert(r[q] == s[q - 1]);
                    }
                }
            }
        }
    }
}

proof fn lemma_count_below_bounds(s: Seq<(u64, ToolCallView)>, i: u64)
    requires
        sorted_keys(s),
    ensures
        count_below(s, i) <= s.len(),
        forall|a: int| 0 <= a < count_below(s, i) ==> #[trigger] s[a].0 < i,
        forall|a: int| count_below(s, i) <= a < s.len() ==> #[trigger] s[a].0 >= i,
    decreases s.len(),
{
    if s.len() > 0 {
        let t = s.drop_last();
        assert(sorted_keys(t));
        lemma_count_below_bounds(t, i);
        let c = count_below(t, i);
        assert forall|a: int| 0 <= a < t.len() implies #[trigger] s[a] == t[a] by {}
        assert(count_below(s, i) == c + if s.last().0 < i {
            1nat
        } else {
            0nat
        });
        if s.last().0 < i {
            assert forall|a: int| 0 <= a < s.len() - 1 implies #[trigger] s[a].0 < i by {
                assert(s[a].0 < s[s.len() - 1].0);
            }
            assert(c == t.len()) by {
                if c < t.len() {
                    assert(t[c as int].0 >= i);
                    assert(s[c as int].0 < s[s.len() - 1].0);
                }
            }
            assert forall|a: int| 0 <= a < count_below(s, i) implies #[trigger] s[a].0 < i by {
                if a < s.len() - 1 {
                    assert(s[a].0 < s[s.len() - 1].0);
                }
            }
        } else {
            assert forall|a: int| 0 <= a < count_below(s, i) implies #[trigger] s[a].0 < i by {
                assert(s[a] == t[a]);
            }
            assert forall|a: int| count_below(s, i) <= a < s.len() implies #[trigger] s[a].0 >= i by {
                if a < s.len() - 1 {
                    assert(s[a] == t[a]);
                }
            }
        }
    }
}

} // verus!

verus! {

// ───────────────────────── one reply ─────────────────────────

/// What a chunk of a streamed reply adds: text, and pieces of tool calls.
pub struct StreamDelta {
    pub content: Option<String>,
    pub tool_calls: Vec<ToolCallDelta>,
}

/// The views of pieces of tool calls.
pub open spec fn delta_views(ds: Seq<ToolCallDelta>) -> Seq<ToolCallDeltaView> {
    Seq::new(ds.len(), |k: int| ds[k]@)
}

/// A reply as it arrives: its text so far and its tool calls so far.
pub struct StreamTurn {
    pub response: String,
    pub calls: ToolCalls,
}

impl StreamTurn {
    /// A reply that has not begun.
    pub fn new() -> (t: Self)
        ensures
            t.response@ == Seq::<char>::empty(),
            t.calls@.len() == 0,
    {
        StreamTurn { response: String::new(), calls: ToolCalls::new() }
    }

    /// Takes in a chunk: its text is appended, its pieces of tool calls applied in turn.
    pub fn apply(&mut self, delta: &StreamDelta)
        ensures
            final(self).response@ == old(self).response@ + or_default(
                delta.content.deep_view(),
                Seq::empty(),
            ),
            final(self).calls@ == deltas_applied(old(self).calls@, delta_views(delta.tool_calls@)),
    {
        match &delta.content {
            Some(text) => {
                let mut v = crate::text::str_to_chars(self.response.as_str());
                push_str(&mut v, text.as_str());
                self.response = chars_to_string(&v);
            },
            None => {},
        }
        let ghost start = self.calls@;
        let ghost text = self.response@;
        let n = delta.tool_calls.len();
        let mut k: usize = 0;
        assert(delta_views(delta.tool_calls@).take(0) =~= Seq::<ToolCallDeltaView>::empty());
        while k < n
            invariant
                n == delta.tool_calls@.len(),
                k <= n,
                self.response@ == text,
                self.calls@ == deltas_applied(start, delta_views(delta.tool_calls@).take(k as int)),
            decreases n - k,
        {
            self.calls.apply(&delta.tool_calls[k]);
            assert(delta_views(delta.tool_calls@).take(k + 1).drop_last() =~= delta_views(
                delta.tool_calls@,
            ).take(k as int));
            k += 1;
        }
        assert(delta_views(delta.tool_calls@).take(n as int) =~= delta_views(delta.tool_calls@));
    }
}

/// The assistant's message for a reply: its text where there is any, its tool calls by
/// increasing index.
pub open spec fn assistant_view(response: Seq<char>, calls: Seq<(u64, ToolCallView)>) -> ChatMessageView {
    ChatMessageView {
        role: Some("assistant"@),
        content: if response.len() > 0 {
            Some(response)
        } else {
            None
        },
        tool_calls: Seq::new(calls.len(), |k: int| calls[k].1),
        tool_call_id: None,
    }
}

/// The assistant's message for a reply.
pub fn assistant_message(response: &String, calls: &ToolCalls) -> (m: ChatMessage)
    ensures
        m@ == assistant_view(response@, calls@),
{
    let content = if response.as_str().is_empty() {
        None
    } else {
        Some(response.clone())
    };
    let m = ChatMessage {
        role: Some(lit("assistant")),
        content,
        tool_calls: calls.ordered(),
        tool_call_id: None,
    };
    assert(m@.tool_calls =~= assistant_view(response@, calls@).tool_calls);
    m
}

/// Whether the reply asks for tools to be run, so that the conversation goes on: in
/// streaming mode whenever it has tool calls, else only where it also finished for them.
pub fn wants_tools(calls: &ToolCalls, streaming: bool, finish_reason: &str) -> (b: bool)
    ensures
        b == (calls@.len() > 0 && (streaming || finish_reason@ == "tool_calls"@)),
{
    if calls.is_empty() {
        false
    } else if streaming {
        true
    } else {
        crate::text::str_eq(finish_reason, "tool_calls")
    }
}

/// The message that hands a tool's result back to the model.
pub fn tool_message(call: &ToolCallTracker, result: String) -> (m: ChatMessage)
    ensures
        m@ == (ChatMessageView {
            role: Some("tool"@),
            content: Some(result@),
            tool_calls: Seq::empty(),
            tool_call_id: Some(call.id@),
        }),
{
    let m = ChatMessage {
        role: Some(lit("tool")),
        content: Some(result),
        tool_calls: Vec::new(),
        tool_call_id: Some(call.id.clone()),
    };
    assert(m@.tool_calls =~= Seq::<ToolCallView>::empty());
    m
}

} // verus!

verus! {

// ───────────────────────── the conversation ─────────────────────────

/// The instructions that open every conversation.
pub const SYSTEM_PROMPT: &'static str = "You are a deterministic CLI AI agent operating inside a terminal environment.

PRIMARY OBJECTIVE:
Execute user intent with maximum correctness, minimal assumptions, and zero unnecessary actions.

OPERATING PRINCIPLES:

1. DETERMINISM
- Do not guess. Do not hallucinate.
- If information is missing, explicitly ask for it.
- Every action must be justified by the user request or observed system state.

2. TOOL USAGE POLICY
- Tools represent real system actions (shell commands, file ops).
- Only call a tool if:
  a) It is REQUIRED to progress the task
  b) The expected outcome is known and useful
- Never call tools speculatively.
- Never repeat a tool call with identical arguments after failure.

3. EXECUTION MODEL
- Think step-by-step before acting:
  a) Understand intent
  b) Validate constraints (OS, files, permissions, dependencies)
  c) Decide minimal action
- Prefer the smallest valid command over complex pipelines.

4. ERROR HANDLING
- On failure:
  a) Parse the error message
  b) Identify root cause (missing file, permission, syntax, dependency)
  c) Modify strategy
- If 2 attempts fail → STOP and ask user for clarification.

5. COMMAND SAFETY
- NEVER run:
  - Interactive commands (vim, nano, less, top)
  - Long-running processes (servers, watchers)
- All commands must terminate quickly.

6. STATE AWARENESS
- Track:
  - What has been executed
  - What succeeded
  - What failed
- Do not redo successful steps.

7. OUTPUT CONTRACT
- Be concise and terminal-friendly.
- No markdown explanations unless necessary.
- No verbosity, no storytelling.
- If using tools → prioritize execution over explanation.

8. EDGE CASE HANDLING
- If multiple valid approaches exist:
  - Choose the simplest
  - Mention alternatives only if relevant
- If environment is ambiguous → ask before acting.

9. USER OVERRIDE
- If user explicitly requests something unsafe or inefficient:
  - Warn briefly
  - Still comply unless destructive

FAILURE CONDITIONS (STOP IMMEDIATELY):
- Missing critical information
- Repeated command failure
- Ambiguous user intent

Your behavior must resemble a careful systems engineer, not a conversational assistant.";

/// The instructions with the machine they run on.
pub open spec fn system_prompt_text(os: Seq<char>, arch: Seq<char>, cwd: Seq<char>) -> Seq<char> {
    SYSTEM_PROMPT@ + "\n\nCURRENT ENVIRONMENT:\n- Operating System: "@ + os + "\n- Architecture: "@ + arch
        + "\n- Current Working Directory: "@ + cwd
}

/// The instructions with the machine they run on: its operating system, architecture and
/// working directory.
pub fn system_prompt(os: &str, arch: &str, cwd: &str) -> (s: String)
    ensures
        s@ == system_prompt_text(os@, arch@, cwd@),
{
    let mut v: Vec<char> = Vec::new();
    push_str(&mut v, SYSTEM_PROMPT);
    push_str(&mut v, "\n\nCURRENT ENVIRONMENT:\n- Operating System: ");
    push_str(&mut v, os);
    push_str(&mut v, "\n- Architecture: ");
    push_str(&mut v, arch);
    push_str(&mut v, "\n- Current Working Directory: ");
    push_str(&mut v, cwd);
    chars_to_string(&v)
}

/// Opens a turn of the conversation: the session gets the user's question, and the model
/// is sent the instructions, the whole session so far, and the question.
pub fn begin_turn(session: &mut Session, system: String, prompt: &str) -> (messages: Vec<ChatMessage>)
    ensures
        message_views(final(session).messages@) == message_views(old(session).messages@).push(
            user_view(prompt@),
        ),
        message_views(messages@) == seq![user_or_system_view("system"@, system@)] + message_views(
            old(session).messages@,
        ) + seq![user_view(prompt@)],
{
    let ghost old_views = message_views(session.messages@);
    let mut messages: Vec<ChatMessage> = Vec::new();
    messages.push(ChatMessage::text("system", system));
    let n = session.messages.len();
    let mut k: usize = 0;
    while k < n
        invariant
            n == session.messages@.len(),
            old_views == message_views(session.messages@),
            k <= n,
            messages@.len() == k + 1,
            messages@[0]@ == user_or_system_view("system"@, system@),
            forall|j: int| 0 <= j < k ==> #[trigger] messages@[j + 1]@ == session.messages@[j]@,
        decreases n - k,
    {
        messages.push(session.messages[k].duplicate());
        k += 1;
    }
    messages.push(ChatMessage::text("user", lit(prompt)));
    let ghost want = seq![user_or_system_view("system"@, system@)] + old_views + seq![user_view(prompt@)];
    assert forall|k: int| 1 <= k <= n implies #[trigger] message_views(messages@)[k] == want[k] by {
        assert(messages@[(k - 1) + 1]@ == session.messages@[k - 1]@);
    }
    assert(message_views(messages@) =~= want);
    session.push(ChatMessage::text("user", lit(prompt)));
    assert(message_views(session.messages@) =~= old_views.push(user_view(prompt@)));
    messages
}

/// A plain message of the given role and text.
pub open spec fn user_or_system_view(role: Seq<char>, text: Seq<char>) -> ChatMessageView {
    ChatMessageView { role: Some(role), content: Some(text), tool_calls: Seq::empty(), tool_call_id: None }
}

/// The user's message.
pub open spec fn user_view(text: Seq<char>) -> ChatMessageView {
    user_or_system_view("user"@, text)
}

} // verus!

verus! {

// ───────────────────────── errors from the API ─────────────────────────

/// The message says the request was too large for the model.
pub open spec fn mentions_size_limit(msg: Seq<char>) -> bool {
    contains_seq(msg, "reduce your message size"@) || contains_seq(lower_seq(msg), "too large"@)
}

/// The lines printed for an error that the API explains with a code and a message; in
/// streaming mode they start on a new line.
pub open spec fn api_error_report(code: Seq<char>, msg: Seq<char>, streaming: bool) -> Seq<Seq<char>> {
    let lead = if streaming {
        "\n"@
    } else {
        Seq::empty()
    };
    if code == "rate_limit_exceeded"@ {
        seq![lead + "\x1b[33m[Rate limit]\x1b[0m "@ + msg] + if mentions_size_limit(msg) {
            seq![
                "\x1b[2mTip: Your session history may be too large for this model's token limits.\x1b[0m"@,
                "\x1b[2mRun \x1b[0m\x1b[36mai clear\x1b[0m\x1b[2m to start a fresh session, or \x1b[0m\x1b[36mai set-model\x1b[0m\x1b[2m to switch to a model with higher limits.\x1b[0m"@,
            ]
        } else {
            Seq::empty()
        }
    } else if code == "context_length_exceeded"@ {
        seq![
            lead + "\x1b[33m[Context limit reached]\x1b[0m The conversation history is too long for this model."@,
            "\x1b[2mRun \x1b[0m\x1b[36mai clear\x1b[0m\x1b[2m to start a fresh session and try again.\x1b[0m"@,
        ]
    } else {
        seq![lead + "\x1b[31m[Error: "@ + msg + "]\x1b[0m"@]
    }
}

fn line_of(parts: &Vec<char>) -> (s: String)
    ensures
        s@ == parts@,
{
    chars_to_string(parts)
}

/// The lines printed for an error that the API explains with a code and a message.
pub fn api_error_lines(code: &str, msg: &str, streaming: bool) -> (r: Vec<String>)
    ensures
        string_views(r@) == api_error_report(code@, msg@, streaming),
{
    let mut first: Vec<char> = Vec::new();
    if streaming {
        push_str(&mut first, "\n");
    }
    let ghost lead = first@;
    let mut r: Vec<String> = Vec::new();
    let codev = str_to_chars(code);
    if eq_str(&codev, "rate_limit_exceeded") {
        push_str(&mut first, "\x1b[33m[Rate limit]\x1b[0m ");
        push_str(&mut first, msg);
        r.push(line_of(&first));
        let m = str_to_chars(msg);
        let lower = lower_exec(&m);
        if contains_str(&m, "reduce your message size") || contains_str(&lower, "too large") {
            r.push(lit("\x1b[2mTip: Your session history may be too large for this model's token limits.\x1b[0m"));
            r.push(lit("\x1b[2mRun \x1b[0m\x1b[36mai clear\x1b[0m\x1b[2m to start a fresh session, or \x1b[0m\x1b[36mai set-model\x1b[0m\x1b[2m to switch to a model with higher limits.\x1b[0m"));
        }
    } else if eq_str(&codev, "context_length_exceeded") {
        push_str(&mut first, "\x1b[33m[Context limit reached]\x1b[0m The conversation history is too long for this model.");
        r.push(line_of(&first));
        r.push(lit("\x1b[2mRun \x1b[0m\x1b[36mai clear\x1b[0m\x1b[2m to start a fresh session and try again.\x1b[0m"));
    } else {
        push_str(&mut first, "\x1b[31m[Error: ");
        push_str(&mut first, msg);
        push_str(&mut first, "]\x1b[0m");
        r.push(line_of(&first));
    }
    proof {
        if streaming {
            assert(lead == "\n"@);
        } else {
            assert(lead =~= Seq::<char>::empty());
        }
    }
    assert(string_views(r@) =~= api_error_report(code@, msg@, streaming));
    r
}

/// Where an error of the event stream carries a JSON explanation: from its first `{` on.
pub open spec fn error_json_part(s: Seq<char>) -> Option<Seq<char>> {
    match find_char(s, '{') {
        Some(k) => Some(s.skip(k as int)),
        None => None,
    }
}

/// The JSON explanation that an error of the event stream carries, from its first `{` on.
pub fn error_json(s: &str) -> (r: Option<String>)
    ensures
        r.deep_view() == error_json_part(s@),
{
    let v = str_to_chars(s);
    assert(v@.skip(0) =~= v@);
    match find_run_from(&v, 0, '{', 1) {
        Some(k) => {
            let rest = sub_chars(&v, k, v.len());
            assert(rest@ =~= v@.skip(k as int));
            Some(chars_to_string(&rest))
        },
        None => None,
    }
}

/// The line printed for an error that the API does not explain: none in streaming mode for
/// the end of the stream.
pub open spec fn raw_error_report(s: Seq<char>, streaming: bool) -> Option<Seq<char>> {
    if streaming {
        if contains_seq(s, "EOF"@) || contains_seq(s, "Stream ended"@) {
            None
        } else {
            Some("\n\x1b[31m[Error: "@ + s + "]\x1b[0m"@)
        }
    } else {
        Some("\x1b[31m[Error: "@ + s + "]\x1b[0m"@)
    }
}

/// The line printed for an error that the API does not explain.
pub fn raw_error_line(s: &str, streaming: bool) -> (r: Option<String>)
    ensures
        r.deep_view() == raw_error_report(s@, streaming),
{
    if streaming {
        let v = str_to_chars(s);
        if contains_str(&v, "EOF") || contains_str(&v, "Stream ended") {
            None
        } else {
            Some(concat3("\n\x1b[31m[Error: ", s, "]\x1b[0m"))
        }
    } else {
        Some(concat3("\x1b[31m[Error: ", s, "]\x1b[0m"))
    }
}

} // verus!

verus! {

// ───────────────────────── a conversation in progress ─────────────────────────

/// The views of a list of tool calls.
pub open spec fn call_views(cs: Seq<ToolCallTracker>) -> Seq<ToolCallView> {
    Seq::new(cs.len(), |k: int| cs[k]@)
}

/// The conversation of one question: the session (what is kept between runs) and what
/// the model is sent, which is always the instructions followed by the whole session.
pub struct Conversation {
    session: Session,
    sent: Vec<ChatMessage>,
}

impl Conversation {
    #[verifier::type_invariant]
    closed spec fn sent_follows_session(&self) -> bool {
        &&& self.sent@.len() == self.session.messages@.len() + 1
        &&& forall|k: int|
            0 <= k < self.session.messages@.len() ==> #[trigger] self.sent@[k + 1]@
                == self.session.messages@[k]@
    }

    /// The messages of the session.
    pub closed spec fn session_views(&self) -> Seq<ChatMessageView> {
        message_views(self.session.messages@)
    }

    /// The messages the model is sent.
    pub closed spec fn sent_views(&self) -> Seq<ChatMessageView> {
        message_views(self.sent@)
    }

    /// The instructions, which open what the model is sent.
    pub closed spec fn system_view(&self) -> ChatMessageView {
        self.sent@[0]@
    }

    proof fn lemma_sent_shape(&self)
        requires
            self.sent_follows_session(),
        ensures
            self.sent_views() == seq![self.system_view()] + self.session_views(),
    {
        let want = seq![self.system_view()] + self.session_views();
        assert forall|i: int| 0 <= i < self.sent_views().len() implies self.sent_views()[i]
            == want[i] by {
            if i > 0 {
                assert(self.sent@[(i - 1) + 1]@ == self.session.messages@[i - 1]@);
            }
        }
        assert(self.sent_views() =~= want);
    }

    /// Opens the conversation on a question: the session gets the question; the model is
    /// sent the instructions `system`, the session so far, and the question.
    pub fn begin(session: Session, system: String, prompt: &str) -> (c: Self)
        ensures
            c.session_views() == message_views(session.messages@).push(user_view(prompt@)),
            c.system_view() == user_or_system_view("system"@, system@),
            c.sent_views() == seq![c.system_view()] + c.session_views(),
    {
        let mut s = session;
        let ghost before = message_views(s.messages@);
        let sent = begin_turn(&mut s, system, prompt);
        let ghost sys = user_or_system_view("system"@, system@);
        let ghost sv = message_views(sent@);
        let ghost ss = message_views(s.messages@);
        assert(sv =~= seq![sys] + ss);
        assert forall|k: int| 0 <= k < s.messages@.len() implies #[trigger] sent@[k + 1]@
            == s.messages@[k]@ by {
            assert(sv[k + 1] == ss[k]);
        }
        assert(sv[0] == sys);
        let c = Conversation { session: s, sent };
        proof {
            c.lemma_sent_shape();
        }
        assert(c.system_view() == sys);
        c
    }

    /// The session as it stands, to be saved.
    pub fn session(&self) -> (r: &Session)
        ensures
            message_views(r.messages@) == self.session_views(),
    {
        &self.session
    }

    /// What the model is sent next.
    pub fn sent(&self) -> (r: &Vec<ChatMessage>)
        ensures
            message_views(r@) == self.sent_views(),
    {
        &self.sent
    }

    fn push_both(&mut self, m: ChatMessage)
        ensures
            final(self).session_views() == old(self).session_views().push(m@),
            final(self).sent_views() == old(self).sent_views().push(m@),
            final(self).system_view() == old(self).system_view(),
            final(self).sent_views() == seq![final(self).system_view()] + final(self).session_views(),
    {
        proof {
            use_type_invariant(&*self);
        }
        let mut cur = Conversation {
            session: Session { messages: Vec::new() },
            sent: vec![ChatMessage::text("system", String::new())],
        };
        std::mem::swap(self, &mut cur);
        let Conversation { mut session, mut sent } = cur;
        let ghost sent0 = sent@;
        let ghost sess0 = session.messages@;
        let copy = m.duplicate();
        sent.push(copy);
        session.push(m);
        assert forall|k: int| 0 <= k < session.messages@.len() implies #[trigger] sent@[k + 1]@
            == session.messages@[k]@ by {
            if k < sess0.len() {
                assert(sent@[k + 1] == sent0[k + 1]);
                assert(session.messages@[k] == sess0[k]);
            }
        }
        *self = Conversation { session, sent };
        assert(self.session_views() =~= message_views(sess0).push(m@));
        assert(self.sent_views() =~= message_views(sent0).push(m@));
        proof {
            self.lemma_sent_shape();
        }
    }

    /// Ends a reply: the assistant's message (its text, its tool calls by increasing
    /// index) joins the session and what is sent. The calls to run come back, by
    /// increasing index, where the reply asks for tools; else none, and the conversation
    /// is over.
    pub fn finish_reply(&mut self, response: &String, calls: &ToolCalls, streaming: bool, finish_reason: &str) -> (to_run: Vec<ToolCallTracker>)
        ensures
            final(self).session_views() == old(self).session_views().push(
                assistant_view(response@, calls@),
            ),
            final(self).sent_views() == old(self).sent_views().push(assistant_view(response@, calls@)),
            final(self).system_view() == old(self).system_view(),
            final(self).sent_views() == seq![final(self).system_view()] + final(self).session_views(),
            call_views(to_run@) == (if calls@.len() > 0 && (streaming || finish_reason@
                == "tool_calls"@) {
                Seq::new(calls@.len(), |k: int| calls@[k].1)
            } else {
                Seq::empty()
            }),
    {
        let m = assistant_message(response, calls);
        self.push_both(m);
        if wants_tools(calls, streaming, finish_reason) {
            let r = calls.ordered();
            assert(call_views(r@) =~= Seq::new(calls@.len(), |k: int| calls@[k].1));
            r
        } else {
            let r: Vec<ToolCallTracker> = Vec::new();
            assert(call_views(r@) =~= Seq::<ToolCallView>::empty());
            r
        }
    }

    /// Hands a tool's result back: the tool's message joins the session and what is sent.
    pub fn add_tool_result(&mut self, call: &ToolCallTracker, result: String)
        ensures
            final(self).session_views() == old(self).session_views().push(
                tool_view(call.id@, result@),
            ),
            final(self).sent_views() == old(self).sent_views().push(tool_view(call.id@, result@)),
            final(self).system_view() == old(self).system_view(),
            final(self).sent_views() == seq![final(self).system_view()] + final(self).session_views(),
    {
        let m = tool_message(call, result);
        self.push_both(m);
    }
}

/// The message that hands a tool's result back to the model.
pub open spec fn tool_view(id: Seq<char>, result: Seq<char>) -> ChatMessageView {
    ChatMessageView {
        role: Some("tool"@),
        content: Some(result),
        tool_calls: Seq::empty(),
        tool_call_id: Some(id),
    }
}

/// After the tools of a streamed reply ran, a line break closes its text where the text
/// does not end with one.
pub fn needs_line_break(response: &str) -> (b: bool)
    ensures
        b == (response@.len() > 0 && response@.last() != '\n'),
{
    let v = str_to_chars(response);
    let n = v.len();
    n > 0 && v[n - 1] != '\n'
}

} // verus!

verus! {

// ───────────────────────── a round of tool calls ─────────────────────────

/// The two calls name the same tool with the same arguments.
pub open spec fn same_call(a: ToolCallView, b: ToolCallView) -> bool {
    a.name == b.name && a.arguments == b.arguments
}

/// The first call from position `j` up to `k` that is the same as call `k`.
pub open spec fn first_same_from(calls: Seq<ToolCallView>, k: int, j: int) -> int
    decreases k - j,
{
    if j >= k {
        k
    } else if same_call(calls[j], calls[k]) {
        j
    } else {
        first_same_from(calls, k, j + 1)
    }
}

/// The first call of the round that is the same as call `k`: `k` itself where no earlier
/// call is.
pub open spec fn first_same(calls: Seq<ToolCallView>, k: int) -> int {
    first_same_from(calls, k, 0)
}

/// Each result of the round is that of the first call that is the same as its own.
pub open spec fn results_reused(calls: Seq<ToolCallView>, results: Seq<Seq<char>>) -> bool {
    forall|k: int| 0 <= k < results.len() ==> #[trigger] results[k] == results[first_same(calls, k)]
}

/// The tool messages for the first `results.len()` calls of the round, in order.
pub open spec fn round_messages(calls: Seq<ToolCallView>, results: Seq<Seq<char>>) -> Seq<
    ChatMessageView,
> {
    Seq::new(results.len(), |k: int| tool_view(calls[k].id, results[k]))
}

proof fn lemma_first_same_from(calls: Seq<ToolCallView>, k: int, j: int)
    requires
        0 <= j <= k < calls.len(),
    ensures
        j <= first_same_from(calls, k, j) <= k,
        same_call(calls[first_same_from(calls, k, j)], calls[k]),
        forall|m: int| j <= m < first_same_from(calls, k, j) ==> !same_call(#[trigger] calls[m], calls[k]),
    decreases k - j,
{
    if j < k && !same_call(calls[j], calls[k]) {
        lemma_first_same_from(calls, k, j + 1);
    }
}

/// The first call of the round that is the same as call `k`.
fn earlier_same(calls: &Vec<ToolCallTracker>, k: usize) -> (j: usize)
    requires
        k < calls@.len(),
    ensures
        j as int == first_same(call_views(calls@), k as int),
{
    let ghost cv = call_views(calls@);
    let mut j: usize = 0;
    while j < k && !(crate::text::str_eq(calls[j].name.as_str(), calls[k].name.as_str())
        && crate::text::str_eq(calls[j].arguments.as_str(), calls[k].arguments.as_str()))
        invariant
            k < calls@.len(),
            cv == call_views(calls@),
            j <= k,
            first_same(cv, k as int) == first_same_from(cv, k as int, j as int),
        decreases k - j,
    {
        assert(!same_call(cv[j as int], cv[k as int]));
        j += 1;
    }
    if j < k {
        assert(same_call(cv[j as int], cv[k as int]));
    }
    j
}

/// The tool calls of one reply, run in index order, each result handed back to the model;
/// a call that repeats an earlier call of the round (same tool, same arguments) is not run
/// again but gets that call's result. The earlier result is found by looking back over the
/// round's calls: vstd specifies a `HashMap` only for keys whose hashing it models, such as
/// integers, and not for the pair of strings that identifies a call.
pub struct ToolRound {
    calls: Vec<ToolCallTracker>,
    results: Vec<String>,
}

impl ToolRound {
    #[verifier::type_invariant]
    closed spec fn results_follow_calls(&self) -> bool {
        &&& self.results@.len() <= self.calls@.len()
        &&& results_reused(self.calls_view(), self.results_view())
    }

    /// The calls of the round, in order.
    pub closed spec fn calls_view(&self) -> Seq<ToolCallView> {
        call_views(self.calls@)
    }

    /// The results so far, one per call settled, in order.
    pub closed spec fn results_view(&self) -> Seq<Seq<char>> {
        string_views(self.results@)
    }

    /// The round waits for the result of the call it handed out: the next call, which
    /// repeats no earlier one.
    pub open spec fn awaiting(&self) -> bool {
        &&& self.results_view().len() < self.calls_view().len()
        &&& first_same(self.calls_view(), self.results_view().len() as int)
            == self.results_view().len()
    }

    /// A round of the given calls, none settled.
    pub fn new(calls: Vec<ToolCallTracker>) -> (r: Self)
        ensures
            r.calls_view() == call_views(calls@),
            r.results_view().len() == 0,
    {
        let r = ToolRound { calls, results: Vec::new() };
        assert(r.results_view() =~= Seq::<Seq<char>>::empty());
        r
    }

    /// Whether the round waits for the result of a call it handed out.
    pub fn awaits_result(&self) -> (b: bool)
        ensures
            b == self.awaiting(),
    {
        let k = self.results.len();
        k < self.calls.len() && earlier_same(&self.calls, k) == k
    }
}

impl Conversation {
    /// Goes on with a round of tool calls: each next call that repeats an earlier call of
    /// the round gets that call's result, and its tool message joins the conversation; the
    /// first call that repeats none is handed out to be run. None once every call has its
    /// result.
    pub fn next_tool(&mut self, round: &mut ToolRound) -> (r: Option<ToolCallTracker>)
        ensures
            final(round).calls_view() == old(round).calls_view(),
            final(round).results_view().len() >= old(round).results_view().len(),
            final(round).results_view().take(old(round).results_view().len() as int) == old(
                round,
            ).results_view(),
            results_reused(final(round).calls_view(), final(round).results_view()),
            forall|k: int|
                old(round).results_view().len() <= k < final(round).results_view().len() ==> first_same(
                    final(round).calls_view(),
                    k,
                ) < k,
            final(self).session_views() == old(self).session_views() + round_messages(
                final(round).calls_view(),
                final(round).results_view(),
            ).skip(old(round).results_view().len() as int),
            final(self).system_view() == old(self).system_view(),
            final(self).sent_views() == seq![final(self).system_view()] + final(self).session_views(),
            match r {
                Some(c) => {
                    &&& final(round).awaiting()
                    &&& c@ == final(round).calls_view()[final(round).results_view().len() as int]
                },
                None => final(round).results_view().len() == final(round).calls_view().len(),
            },
    {
        proof {
            use_type_invariant(&*round);
            use_type_invariant(&*self);
            self.lemma_sent_shape();
        }
        let mut cur = ToolRound { calls: Vec::new(), results: Vec::new() };
        std::mem::swap(round, &mut cur);
        let ToolRound { calls, mut results } = cur;
        let ghost cv = call_views(calls@);
        let ghost r0 = string_views(results@);
        let ghost k0 = results@.len();
        let ghost sess0 = self.session_views();
        let ghost sys = self.system_view();
        let n = calls.len();
        assert(cv == old(round).calls_view() && r0 == old(round).results_view());
        assert(string_views(results@).take(k0 as int) =~= r0);
        assert(round_messages(cv, r0).skip(k0 as int) =~= Seq::<ChatMessageView>::empty());
        while results.len() < n
            invariant
                cv == old(round).calls_view(),
                r0 == old(round).results_view(),
                k0 == r0.len(),
                sess0 == old(self).session_views(),
                sys == old(self).system_view(),
                n == calls@.len(),
                cv == call_views(calls@),
                k0 <= results@.len() <= n,
                string_views(results@).take(k0 as int) == r0,
                results_reused(cv, string_views(results@)),
                forall|k: int| k0 <= k < results@.len() ==> first_same(cv, k) < k,
                self.session_views() == sess0 + round_messages(cv, string_views(results@)).skip(
                    k0 as int,
                ),
                self.system_view() == sys,
                self.sent_views() == seq![self.system_view()] + self.session_views(),
            decreases n - results@.len(),
        {
            let k = results.len();
            let j = earlier_same(&calls, k);
            if j == k {
                let c = calls[k].duplicate();
                let ghost rv = string_views(results@);
                *round = ToolRound { calls, results };
                assert(round.calls_view() == cv && round.results_view() == rv);
                return Some(c);
            }
            proof {
                lemma_first_same_from(cv, k as int, 0);
            }
            let res = results[j].clone();
            let ghost before = string_views(results@);
            let ghost sess1 = self.session_views();
            self.add_tool_result(&calls[k], res.clone());
            results.push(res);
            proof {
                let rv = string_views(results@);
                assert(rv =~= before.push(before[j as int]));
                assert(rv.take(k0 as int) =~= before.take(k0 as int));
                assert forall|m: int| 0 <= m < rv.len() implies #[trigger] rv[m] == rv[first_same(cv, m)] by {
                    if m < k {
                        assert(rv[m] == before[m]);
                        lemma_first_same_from(cv, m, 0);
                        assert(before[m] == before[first_same(cv, m)]);
                    } else {
                        assert(before[j as int] == before[first_same(cv, j as int)]);
                        lemma_first_same_from(cv, j as int, 0);
                    }
                }
                assert(round_messages(cv, rv).skip(k0 as int) =~= round_messages(cv, before).skip(
                    k0 as int,
                ).push(tool_view(cv[k as int].id, rv[k as int])));
            }
        }
        let ghost rv = string_views(results@);
        *round = ToolRound { calls, results };
        assert(round.calls_view() == cv && round.results_view() == rv);
        None
    }

    /// Hands back the result of the call the round handed out: its tool message joins the
    /// conversation, and the round goes on past it.
    pub fn deliver(&mut self, round: &mut ToolRound, result: String)
        requires
            old(round).awaiting(),
        ensures
            final(round).calls_view() == old(round).calls_view(),
            final(round).results_view() == old(round).results_view().push(result@),
            final(self).session_views() == old(self).session_views().push(
                tool_view(
                    old(round).calls_view()[old(round).results_view().len() as int].id,
                    result@,
                ),
            ),
            final(self).system_view() == old(self).system_view(),
            final(self).sent_views() == seq![final(self).system_view()] + final(self).session_views(),
    {
        proof {
            use_type_invariant(&*round);
        }
        let mut cur = ToolRound { calls: Vec::new(), results: Vec::new() };
        std::mem::swap(round, &mut cur);
        let ToolRound { calls, mut results } = cur;
        let ghost cv = call_views(calls@);
        let ghost before = string_views(results@);
        let k = results.len();
        self.add_tool_result(&calls[k], result.clone());
        results.push(result);
        proof {
            let rv = string_views(results@);
            assert(rv =~= before.push(result@));
            assert forall|m: int| 0 <= m < rv.len() implies #[trigger] rv[m] == rv[first_same(cv, m)] by {
                if m < k {
                    lemma_first_same_from(cv, m, 0);
                    assert(before[m] == before[first_same(cv, m)]);
                }
            }
        }
        let ghost rv = string_views(results@);
        *round = ToolRound { calls, results };
        assert(round.calls_view() == cv && round.results_view() == rv);
    }
}

} // verus!
