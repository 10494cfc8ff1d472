//! Sets of undirected edges between vertex ids.

use vstd::prelude::*;
use crate::seq_facts::{lemma_push_fresh, lemma_remove_at};

verus! {

/// The stored form of the undirected edge between `a` and `b`: smaller id
/// first.
pub open spec fn spec_normalize(a: usize, b: usize) -> (usize, usize) {
    if a <= b {
        (a, b)
    } else {
        (b, a)
    }
}

/// Whether the edge set `s` joins `a` and `b`.
pub open spec fn joined(s: Set<(usize, usize)>, a: usize, b: usize) -> bool {
    s.contains(spec_normalize(a, b))
}

/// The edge set `s` after `a` and `b` are joined: unchanged if `a == b`.
pub open spec fn with_edge(s: Set<(usize, usize)>, a: usize, b: usize) -> Set<(usize, usize)> {
    if a == b {
        s
    } else {
        s.insert(spec_normalize(a, b))
    }
}

/// The edge set `s` after `a` and `b` are parted.
pub open spec fn without_edge(s: Set<(usize, usize)>, a: usize, b: usize) -> Set<(usize, usize)> {
    s.remove(spec_normalize(a, b))
}

/// The edge set `s` after the edge between `a` and `b` is toggled.
pub open spec fn toggled(s: Set<(usize, usize)>, a: usize, b: usize) -> Set<(usize, usize)> {
    if joined(s, a, b) {
        without_edge(s, a, b)
    } else {
        with_edge(s, a, b)
    }
}

/// The edge set `s` without the edges that touch vertex `id`.
pub open spec fn without_vertex(s: Set<(usize, usize)>, id: usize) -> Set<(usize, usize)> {
    s.filter(|e: (usize, usize)| !touches(e, id))
}

/// The order of the edges after `a` and `b` are joined: a new edge comes
/// last.
pub open spec fn order_with(s: Seq<(usize, usize)>, a: usize, b: usize) -> Seq<(usize, usize)> {
    if a == b || s.contains(spec_normalize(a, b)) {
        s
    } else {
        s.push(spec_normalize(a, b))
    }
}

/// The order of the edges after `a` and `b` are parted: the others keep
/// their order.
pub open spec fn order_without(s: Seq<(usize, usize)>, a: usize, b: usize) -> Seq<(usize, usize)> {
    if s.contains(spec_normalize(a, b)) {
        s.remove(s.index_of(spec_normalize(a, b)))
    } else {
        s
    }
}

/// The order of the edges after the edge between `a` and `b` is toggled.
pub open spec fn order_toggled(s: Seq<(usize, usize)>, a: usize, b: usize) -> Seq<(usize, usize)> {
    if s.contains(spec_normalize(a, b)) {
        order_without(s, a, b)
    } else {
        order_with(s, a, b)
    }
}

/// An edge that does not touch vertex `id`, as a function value.
pub open spec fn apart_from_fn(id: usize) -> spec_fn((usize, usize)) -> bool {
    |e: (usize, usize)| !touches(e, id)
}

/// An edge that does not join two vertices of `ids`, as a function value.
pub open spec fn not_inner_fn(ids: Set<usize>) -> spec_fn((usize, usize)) -> bool {
    |e: (usize, usize)| !(ids.contains(e.0) && ids.contains(e.1))
}

/// The elements of `s` whose flag in `keep` is set, in their order.
pub open spec fn flagged<A>(s: Seq<A>, keep: Seq<bool>) -> Seq<A>
    decreases s.len(),
{
    if s.len() == 0 || keep.len() != s.len() {
        Seq::empty()
    } else if keep.last() {
        flagged(s.drop_last(), keep.drop_last()).push(s.last())
    } else {
        flagged(s.drop_last(), keep.drop_last())
    }
}

/// Where each flag says whether its element meets `pred`, the flagged
/// elements are the filtered ones.
pub proof fn lemma_flagged_is_filter<A>(s: Seq<A>, keep: Seq<bool>, pred: spec_fn(A) -> bool)
    requires
        keep.len() == s.len(),
        forall|i: int| 0 <= i < s.len() ==> keep[i] == pred(#[trigger] s[i]),
    ensures
        flagged(s, keep) == s.filter(pred),
    decreases s.len(),
{
    reveal(Seq::filter);
    if s.len() > 0 {
        let s0 = s.drop_last();
        let k0 = keep.drop_last();
        assert forall|i: int| 0 <= i < s0.len() implies k0[i] == pred(#[trigger] s0[i]) by {
            assert(s0[i] == s[i]);
            assert(k0[i] == keep[i]);
        }
        lemma_flagged_is_filter(s0, k0, pred);
        assert(keep.last() == pred(s.last())) by {
            assert(s[s.len() - 1] == s.last());
        }
    }
}

/// The edge set `s` without the edges that join two vertices of `ids`.
pub open spec fn without_inner(s: Set<(usize, usize)>, ids: Set<usize>) -> Set<(usize, usize)> {
    s.filter(|e: (usize, usize)| !(ids.contains(e.0) && ids.contains(e.1)))
}

/// An edge that touches vertex `id`.
pub open spec fn touches(e: (usize, usize), id: usize) -> bool {
    e.0 == id || e.1 == id
}

/// The stored form of the undirected edge between `a` and `b`.
pub fn normalize_edge(a: usize, b: usize) -> (key: (usize, usize))
    ensures
        key == spec_normalize(a, b),
        key.0 <= key.1,
{
    if a <= b {
        (a, b)
    } else {
        (b, a)
    }
}

/// Whether `id` is among `ids`.
pub fn has_id(ids: &Vec<usize>, id: usize) -> (found: bool)
    ensures
        found == ids@.contains(id),
{
    let mut i: usize = 0;
    while i < ids.len()
        invariant
            i <= ids.len(),
            forall|j: int| 0 <= j < i ==> ids@[j] != id,
        decreases ids.len() - i,
    {
        if ids[i] == id {
            return true;
        }
        i += 1;
    }
    false
}

/// A set of undirected edges. Each edge is held once, as the pair of its
/// endpoint ids with the smaller first; no edge joins a vertex to itself.
/// The pairs are kept in the order in which they were first added.
pub struct Edges {
    pairs: Vec<(usize, usize)>,
}

impl View for Edges {
    type V = Set<(usize, usize)>;

    closed spec fn view(&self) -> Set<(usize, usize)> {
        self.pairs@.to_set()
    }
}

impl Edges {
    /// The stored pairs in order.
    pub closed spec fn order(&self) -> Seq<(usize, usize)> {
        self.pairs@
    }

    /// No pair twice, and in every pair the first id is the smaller.
    pub closed spec fn wf(&self) -> bool {
        &&& self.pairs@.no_duplicates()
        &&& forall|i: int| 0 <= i < self.pairs@.len() ==> (#[trigger] self.pairs@[i]).0 < self.pairs@[i].1
    }

    /// How `order` and the set relate.
    pub proof fn lemma_order(&self)
        requires
            self.wf(),
        ensures
            self.order().no_duplicates(),
            self.order().to_set() == self@,
            self@.finite(),
            self@.len() == self.order().len(),
            forall|i: int| 0 <= i < self.order().len() ==> self@.contains(#[trigger] self.order()[i]),
            forall|e: (usize, usize)| #[trigger] self@.contains(e) ==> e.0 < e.1,
    {
        self.pairs@.unique_seq_to_set();
        vstd::seq_lib::seq_to_set_is_finite(self.pairs@);
        assert forall|i: int| 0 <= i < self.order().len() implies self@.contains(
            #[trigger] self.order()[i],
        ) by {
            assert(self.pairs@.contains(self.pairs@[i]));
        }
        assert forall|e: (usize, usize)| #[trigger] self@.contains(e) implies e.0 < e.1 by {
            let i = choose|i: int| 0 <= i < self.pairs@.len() && self.pairs@[i] == e;
            assert(self.pairs@[i].0 < self.pairs@[i].1);
        }
    }

    pub fn new() -> (e: Edges)
        ensures
            e.wf(),
            e@ == Set::<(usize, usize)>::empty(),
            e.order() == Seq::<(usize, usize)>::empty(),
    {
        let e = Edges { pairs: Vec::new() };
        assert(e.pairs@.to_set() =~= Set::<(usize, usize)>::empty());
        e
    }

    /// The number of edges.
    pub fn len(&self) -> (n: usize)
        ensures
            n == self.order().len(),
    {
        self.pairs.len()
    }

    pub fn is_empty(&self) -> (b: bool)
        ensures
            b == (self.order().len() == 0),
    {
        self.pairs.len() == 0
    }

    /// The `i`-th edge in insertion order.
    pub fn get(&self, i: usize) -> (e: (usize, usize))
        requires
            i < self.order().len(),
        ensures
            e == self.order()[i as int],
    {
        self.pairs[i]
    }

    /// All edges in insertion order.
    pub fn to_vec(&self) -> (v: Vec<(usize, usize)>)
        ensures
            v@ == self.order(),
    {
        let mut v: Vec<(usize, usize)> = Vec::new();
        let mut i: usize = 0;
        while i < self.pairs.len()
            invariant
                i <= self.pairs.len(),
                v@ == self.pairs@.take(i as int),
            decreases self.pairs.len() - i,
        {
            v.push(self.pairs[i]);
            assert(self.pairs@.take(i as int).push(self.pairs@[i as int]) =~= self.pairs@.take(
                i + 1,
            ));
            i += 1;
        }
        assert(self.pairs@.take(i as int) =~= self.pairs@);
        v
    }

    fn position(&self, key: (usize, usize)) -> (r: Option<usize>)
        ensures
            match r {
                Some(i) => i < self.pairs@.len() && self.pairs@[i as int] == key,
                None => !self.pairs@.contains(key),
            },
    {
        let mut i: usize = 0;
        while i < self.pairs.len()
            invariant
                i <= self.pairs.len(),
                forall|j: int| 0 <= j < i ==> self.pairs@[j] != key,
            decreases self.pairs.len() - i,
        {
            let e = self.pairs[i];
            if e.0 == key.0 && e.1 == key.1 {
                return Some(i);
            }
            i += 1;
        }
        None
    }

    /// Whether `a` and `b` are joined, in either order of the arguments.
    pub fn is_edge(&self, a: usize, b: usize) -> (found: bool)
        ensures
            found == joined(self@, a, b),
    {
        let key = normalize_edge(a, b);
        self.position(key).is_some()
    }

    /// Joins `a` and `b`. Nothing changes if `a == b` or if they are joined
    /// already.
    pub fn add_edge(&mut self, a: usize, b: usize)
        requires
            old(self).wf(),
        ensures
            final(self).wf(),
            final(self)@ == with_edge(old(self)@, a, b),
            final(self).order() == order_with(old(self).order(), a, b),
    {
        if a == b {
            return ;
        }
        let key = normalize_edge(a, b);
        if self.position(key).is_none() {
            proof {
                lemma_push_fresh(self.pairs@, key);
            }
            self.pairs.push(key);
        } else {
            assert(self.pairs@.to_set().insert(key) =~= self.pairs@.to_set());
        }
    }

    /// Parts `a` and `b`. Nothing changes if they are not joined.
    pub fn remove_edge(&mut self, a: usize, b: usize)
        requires
            old(self).wf(),
        ensures
            final(self).wf(),
            final(self)@ == without_edge(old(self)@, a, b),
            final(self).order() == order_without(old(self).order(), a, b),
    {
        let key = normalize_edge(a, b);
        match self.position(key) {
            Some(i) => {
                proof {
                    lemma_remove_at(self.pairs@, i as int);
                    assert(self.pairs@.contains(key));
                    let j = self.pairs@.index_of(key);
                    assert(self.pairs@[j] == key);
                    assert(j == i);
                }
                self.pairs.remove(i);
            },
            None => {
                assert(self.pairs@.to_set().remove(key) =~= self.pairs@.to_set());
            },
        }
    }

    /// Parts `a` and `b` if they are joined, joins them otherwise.
    pub fn toggle(&mut self, a: usize, b: usize)
        requires
            old(self).wf(),
        ensures
            final(self).wf(),
            final(self)@ == toggled(old(self)@, a, b),
            final(self).order() == order_toggled(old(self).order(), a, b),
    {
        if self.is_edge(a, b) {
            self.remove_edge(a, b);
        } else {
            self.add_edge(a, b);
        }
    }

    /// Keeps the pairs whose flag is set, in their order.
    fn retain_marked(&mut self, keep: &Vec<bool>)
        requires
            old(self).wf(),
            keep@.len() == old(self).pairs@.len(),
        ensures
            final(self).wf(),
            forall|e: (usize, usize)| #[trigger]
                final(self)@.contains(e) <==> exists|i: int|
                    0 <= i < keep@.len() && #[trigger] old(self).pairs@[i] == e && keep@[i],
            final(self).order() == flagged(old(self).order(), keep@),
    {
        let ghost all = self.pairs@;
        let mut kept: Vec<(usize, usize)> = Vec::new();
        let mut i: usize = 0;
        while i < self.pairs.len()
            invariant
                i <= self.pairs.len(),
                self.pairs@ == all,
                keep@.len() == all.len(),
                self.wf(),
                kept@.no_duplicates(),
                forall|j: int| 0 <= j < kept@.len() ==> (#[trigger] kept@[j]).0 < kept@[j].1,
                forall|e: (usize, usize)| #[trigger]
                    kept@.contains(e) <==> exists|j: int|
                        0 <= j < i && #[trigger] all[j] == e && keep@[j],
                kept@ == flagged(all.take(i as int), keep@.take(i as int)),
            decreases self.pairs.len() - i,
        {
            let e = self.pairs[i];
            let ghost before = kept@;
            proof {
                assert(all.take(i + 1).drop_last() =~= all.take(i as int));
                assert(keep@.take(i + 1).drop_last() =~= keep@.take(i as int));
                assert(all.take(i + 1).last() == e);
                assert(keep@.take(i + 1).last() == keep@[i as int]);
            }
            if keep[i] {
                proof {
                    if before.contains(e) {
                        let j = choose|j: int| 0 <= j < i && #[trigger] all[j] == e && keep@[j];
                        assert(all[j] == all[i as int]);
                        assert(false);
                    }
                    lemma_push_fresh(before, e);
                }
                kept.push(e);
                proof {
                    assert forall|x: (usize, usize)| #[trigger]
                        kept@.contains(x) <==> exists|j: int|
                            0 <= j < i + 1 && #[trigger] all[j] == x && keep@[j] by {
                        assert(kept@.to_set().contains(x) <==> before.to_set().insert(e).contains(
                            x,
                        ));
                        if before.contains(x) {
                            let j = choose|j: int| 0 <= j < i && #[trigger] all[j] == x && keep@[j];
                            assert(0 <= j < i + 1 && all[j] == x && keep@[j]);
                        }
                        if x == e {
                            assert(0 <= i < i + 1 && all[i as int] == x && keep@[i as int]);
                        }
                        if exists|j: int| 0 <= j < i + 1 && #[trigger] all[j] == x && keep@[j] {
                            let j = choose|j: int|
                                0 <= j < i + 1 && #[trigger] all[j] == x && keep@[j];
                            if j < i {
                                assert(before.contains(x));
                            }
                        }
                    }
                }
            } else {
                proof {
                    assert forall|x: (usize, usize)| #[trigger]
                        kept@.contains(x) <==> exists|j: int|
                            0 <= j < i + 1 && #[trigger] all[j] == x && keep@[j] by {
                        if kept@.contains(x) {
                            let j = choose|j: int| 0 <= j < i && #[trigger] all[j] == x && keep@[j];
                            assert(0 <= j < i + 1 && all[j] == x && keep@[j]);
                        }
                        if exists|j: int| 0 <= j < i + 1 && #[trigger] all[j] == x && keep@[j] {
                            let j = choose|j: int|
                                0 <= j < i + 1 && #[trigger] all[j] == x && keep@[j];
                            assert(j < i);
                        }
                    }
                }
            }
            i += 1;
        }
        proof {
            assert(all.take(i as int) =~= all);
            assert(keep@.take(i as int) =~= keep@);
        }
        self.pairs = kept;
    }

    /// Removes every edge that touches vertex `id`.
    pub fn remove_vertex(&mut self, id: usize)
        requires
            old(self).wf(),
        ensures
            final(self).wf(),
            final(self)@ == without_vertex(old(self)@, id),
            final(self).order() == old(self).order().filter(apart_from_fn(id)),
    {
        let ghost all = self.pairs@;
        let mut keep: Vec<bool> = Vec::new();
        let mut i: usize = 0;
        while i < self.pairs.len()
            invariant
                i <= self.pairs.len(),
                self.pairs@ == all,
                keep@.len() == i,
                forall|j: int| 0 <= j < i ==> #[trigger] keep@[j] == !touches(all[j], id),
            decreases self.pairs.len() - i,
        {
            let e = self.pairs[i];
            keep.push(e.0 != id && e.1 != id);
            i += 1;
        }
        self.retain_marked(&keep);
        proof {
            lemma_flagged_is_filter(all, keep@, apart_from_fn(id));
            assert forall|x: (usize, usize)|
                self@.contains(x) <==> without_vertex(all.to_set(), id).contains(x) by {
                if all.contains(x) && !touches(x, id) {
                    let j = choose|j: int| 0 <= j < all.len() && all[j] == x;
                    assert(all[j] == x && keep@[j]);
                }
            }
            assert(self@ =~= without_vertex(all.to_set(), id));
        }
    }

    /// Removes every edge whose two ends are both among `ids`.
    pub fn remove_between(&mut self, ids: &Vec<usize>)
        requires
            old(self).wf(),
        ensures
            final(self).wf(),
            final(self)@ == without_inner(old(self)@, ids@.to_set()),
            final(self).order() == old(self).order().filter(not_inner_fn(ids@.to_set())),
    {
        let ghost all = self.pairs@;
        let mut keep: Vec<bool> = Vec::new();
        let mut i: usize = 0;
        while i < self.pairs.len()
            invariant
                i <= self.pairs.len(),
                self.pairs@ == all,
                keep@.len() == i,
                forall|j: int|
                    0 <= j < i ==> #[trigger] keep@[j] == !(ids@.contains(all[j].0) && ids@.contains(
                        all[j].1,
                    )),
            decreases self.pairs.len() - i,
        {
            let e = self.pairs[i];
            let inner = has_id(ids, e.0) && has_id(ids, e.1);
            keep.push(!inner);
            i += 1;
        }
        self.retain_marked(&keep);
        proof {
            lemma_flagged_is_filter(all, keep@, not_inner_fn(ids@.to_set()));
            assert forall|x: (usize, usize)|
                self@.contains(x) <==> without_inner(all.to_set(), ids@.to_set()).contains(x) by {
                if all.contains(x) && !(ids@.contains(x.0) && ids@.contains(x.1)) {
                    let j = choose|j: int| 0 <= j < all.len() && all[j] == x;
                    assert(all[j] == x && keep@[j]);
                }
            }
            assert(self@ =~= without_inner(all.to_set(), ids@.to_set()));
        }
    }

    /// Removes every edge.
    pub fn clear(&mut self)
        ensures
            final(self).wf(),
            final(self)@ == Set::<(usize, usize)>::empty(),
            final(self).order() == Seq::<(usize, usize)>::empty(),
    {
        self.pairs.clear();
        assert(self.pairs@.to_set() =~= Set::<(usize, usize)>::empty());
    }

    /// Whether `self` and `other` hold the same edges, whatever the order in
    /// which each was filled.
    pub fn same_edges(&self, other: &Edges) -> (same: bool)
        requires
            self.wf(),
            other.wf(),
        ensures
            same == (self@ == other@),
    {
        if self.pairs.len() != other.pairs.len() {
            proof {
                self.lemma_order();
                other.lemma_order();
            }
            return false;
        }
        let mut i: usize = 0;
        while i < self.pairs.len()
            invariant
                i <= self.pairs.len(),
                self.pairs.len() == other.pairs.len(),
                forall|j: int| 0 <= j < i ==> other@.contains(#[trigger] self.pairs@[j]),
            decreases self.pairs.len() - i,
        {
            if other.position(self.pairs[i]).is_none() {
                proof {
                    assert(self.pairs@.contains(self.pairs@[i as int]));
                    assert(self@.contains(self.pairs@[i as int]));
                }
                return false;
            }
            i += 1;
        }
        proof {
            self.lemma_order();
            other.lemma_order();
            assert(self@.subset_of(other@)) by {
                assert forall|e: (usize, usize)| self@.contains(e) implies other@.contains(e) by {
                    let j = choose|j: int| 0 <= j < self.pairs@.len() && self.pairs@[j] == e;
                    assert(other@.contains(self.pairs@[j]));
                }
            }
            vstd::set_lib::lemma_subset_equality(self@, other@);
        }
        true
    }
}

/// Once two distinct vertices are joined, the edge is found from either
/// side, and its stored form has the smaller id first.
pub proof fn lemma_joined_after_add(s: Set<(usize, usize)>, a: usize, b: usize)
    requires
        a != b,
    ensures
        joined(with_edge(s, a, b), a, b),
        joined(with_edge(s, a, b), b, a),
        spec_normalize(a, b) == spec_normalize(b, a),
        spec_normalize(a, b).0 < spec_normalize(a, b).1,
{
}

/// Joining is idempotent, parting is idempotent, and parting undoes joining
/// of a pair that was not joined before.
pub proof fn lemma_add_remove(s: Set<(usize, usize)>, a: usize, b: usize)
    ensures
        with_edge(with_edge(s, a, b), a, b) == with_edge(s, a, b),
        without_edge(without_edge(s, a, b), a, b) == without_edge(s, a, b),
        !joined(without_edge(s, a, b), a, b),
        !joined(s, a, b) ==> without_edge(with_edge(s, a, b), a, b) == s,
        toggled(toggled(s, a, b), a, b) == if a == b {
            without_edge(s, a, b)
        } else {
            s
        },
{
    assert(with_edge(with_edge(s, a, b), a, b) =~= with_edge(s, a, b));
    assert(without_edge(without_edge(s, a, b), a, b) =~= without_edge(s, a, b));
    if !joined(s, a, b) {
        assert(without_edge(with_edge(s, a, b), a, b) =~= s);
    }
    assert(toggled(toggled(s, a, b), a, b) =~= if a == b {
        without_edge(s, a, b)
    } else {
        s
    });
}

/// No edge that is left after a vertex was removed touches that vertex.
pub proof fn lemma_vertex_gone(s: Set<(usize, usize)>, id: usize)
    ensures
        forall|e: (usize, usize)| #[trigger] without_vertex(s, id).contains(e) ==> s.contains(e) && !touches(e, id),
        forall|other: usize| !joined(without_vertex(s, id), id, other) && !joined(without_vertex(s, id), other, id),
{
}

impl Clone for Edges {
    fn clone(&self) -> (r: Edges)
        ensures
            r.order() == self.order(),
            r@ == self@,
            self.wf() ==> r.wf(),
    {
        Edges { pairs: self.to_vec() }
    }
}

impl Default for Edges {
    fn default() -> (e: Edges)
        ensures
            e.wf(),
            e@ == Set::<(usize, usize)>::empty(),
    {
        Edges::new()
    }
}

} // verus!
