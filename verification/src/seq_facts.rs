//! Facts about duplicate-free sequences and the sets they stand for.

use vstd::prelude::*;

verus! {

/// Appending an absent element keeps a sequence duplicate-free and inserts
/// the element into its set.
pub proof fn lemma_push_fresh<A>(s: Seq<A>, x: A)
    requires
        s.no_duplicates(),
        !s.contains(x),
    ensures
        s.push(x).no_duplicates(),
        s.push(x).to_set() == s.to_set().insert(x),
{
    let t = s.push(x);
    assert forall|i: int, j: int| 0 <= i < t.len() && 0 <= j < t.len() && i != j implies t[i]
        != t[j] by {
        if i < s.len() && j < s.len() {
            assert(t[i] == s[i] && t[j] == s[j]);
        } else if i < s.len() {
            assert(s.contains(s[i]));
        } else {
            assert(s.contains(s[j]));
        }
    }
    assert forall|e: A| t.to_set().contains(e) <==> s.to_set().insert(x).contains(e) by {
        if t.contains(e) {
            let i = choose|i: int| 0 <= i < t.len() && t[i] == e;
            if i < s.len() {
                assert(s[i] == e);
                assert(s.contains(e));
            }
        }
        if s.contains(e) {
            let i = choose|i: int| 0 <= i < s.len() && s[i] == e;
            assert(t[i] == e);
        }
        if e == x {
            assert(t[s.len() as int] == x);
        }
    }
    assert(t.to_set() =~= s.to_set().insert(x));
}

/// Removing one position of a duplicate-free sequence removes exactly the
/// element that stood there.
pub proof fn lemma_remove_at<A>(s: Seq<A>, k: int)
    requires
        s.no_duplicates(),
        0 <= k < s.len(),
    ensures
        s.remove(k).no_duplicates(),
        s.remove(k).to_set() == s.to_set().remove(s[k]),
        !s.remove(k).contains(s[k]),
{
    let t = s.remove(k);
    assert forall|i: int| 0 <= i < t.len() implies t[i] == s[if i < k { i } else { i + 1 }] by {}
    assert forall|i: int, j: int| 0 <= i < t.len() && 0 <= j < t.len() && i != j implies t[i]
        != t[j] by {
        let si = if i < k { i } else { i + 1 };
        let sj = if j < k { j } else { j + 1 };
        assert(t[i] == s[si] && t[j] == s[sj]);
    }
    assert forall|e: A| t.to_set().contains(e) <==> s.to_set().remove(s[k]).contains(e) by {
        if t.contains(e) {
            let i = choose|i: int| 0 <= i < t.len() && t[i] == e;
            let si = if i < k { i } else { i + 1 };
            assert(s[si] == e);
            assert(s.contains(e));
        }
        if s.contains(e) && e != s[k] {
            let i = choose|i: int| 0 <= i < s.len() && s[i] == e;
            let ti = if i < k { i } else { i - 1 };
            assert(t[ti] == e);
        }
    }
    assert(t.to_set() =~= s.to_set().remove(s[k]));
    if t.contains(s[k]) {
        assert(t.to_set().contains(s[k]));
    }
}

/// `x` stands at one of the first `n` positions of `s`.
pub open spec fn occurs_before<A>(s: Seq<A>, x: A, n: int) -> bool {
    exists|i: int| 0 <= i < n && i < s.len() && #[trigger] s[i] == x
}

/// `occurs_before` one position further, and over the whole sequence.
pub proof fn lemma_occurs_before<A>(s: Seq<A>, x: A, n: int)
    requires
        0 <= n <= s.len(),
    ensures
        !occurs_before(s, x, 0),
        n < s.len() ==> (occurs_before(s, x, n + 1) <==> occurs_before(s, x, n) || s[n] == x),
        occurs_before(s, x, s.len() as int) <==> s.contains(x),
{
    if n < s.len() {
        if occurs_before(s, x, n + 1) {
            let i = choose|i: int| 0 <= i < n + 1 && i < s.len() && #[trigger] s[i] == x;
            if i < n {
                assert(occurs_before(s, x, n));
            }
        }
        if occurs_before(s, x, n) {
            let i = choose|i: int| 0 <= i < n && i < s.len() && #[trigger] s[i] == x;
            assert(0 <= i < n + 1 && s[i] == x);
        }
        if s[n] == x {
            assert(0 <= n < n + 1 && s[n] == x);
        }
    }
    if s.contains(x) {
        let i = choose|i: int| 0 <= i < s.len() && s[i] == x;
        assert(0 <= i < s.len() && s[i] == x);
    }
}

/// No later entry has the key of entry `i`.
pub open spec fn is_last_of_key<K, V>(entries: Seq<(K, V)>, i: int) -> bool {
    forall|j: int| i < j < entries.len() ==> (#[trigger] entries[j]).0 != entries[i].0
}

/// `m` is the map that the entries make when each is inserted in turn, so
/// that of two entries with one key the later stays.
pub open spec fn holds_last<K, V>(entries: Seq<(K, V)>, m: Map<K, V>) -> bool {
    &&& forall|k: K| #[trigger]
        m.dom().contains(k) <==> exists|i: int|
            0 <= i < entries.len() && (#[trigger] entries[i]).0 == k
    &&& forall|i: int|
        0 <= i < entries.len() && is_last_of_key(entries, i) ==> m[(#[trigger] entries[i]).0]
            == entries[i].1
}

/// The empty map holds no entries, and inserting one more entry keeps
/// `holds_last`.
pub proof fn lemma_holds_last_push<K, V>(entries: Seq<(K, V)>, m: Map<K, V>, k: K, v: V)
    requires
        holds_last(entries, m),
    ensures
        holds_last(entries.push((k, v)), m.insert(k, v)),
        holds_last(Seq::<(K, V)>::empty(), Map::<K, V>::empty()),
{
    let grown = entries.push((k, v));
    let n = m.insert(k, v);
    assert forall|x: K| #[trigger]
        n.dom().contains(x) <==> exists|i: int|
            0 <= i < grown.len() && (#[trigger] grown[i]).0 == x by {
        if m.dom().contains(x) {
            let i = choose|i: int| 0 <= i < entries.len() && (#[trigger] entries[i]).0 == x;
            assert(grown[i].0 == x);
        }
        if x == k {
            assert(grown[entries.len() as int].0 == x);
        }
        if exists|i: int| 0 <= i < grown.len() && (#[trigger] grown[i]).0 == x {
            let i = choose|i: int| 0 <= i < grown.len() && (#[trigger] grown[i]).0 == x;
            if i < entries.len() {
                assert(entries[i].0 == x);
            }
        }
    }
    assert forall|i: int| 0 <= i < grown.len() && is_last_of_key(grown, i) implies n[(
    #[trigger] grown[i]).0] == grown[i].1 by {
        if i < entries.len() {
            assert(grown[entries.len() as int].0 != grown[i].0);
            assert(is_last_of_key(entries, i)) by {
                assert forall|j: int| i < j < entries.len() implies (#[trigger] entries[j]).0
                    != entries[i].0 by {
                    assert(grown[j].0 != grown[i].0);
                }
            }
            assert(entries[i].0 == grown[i].0);
        }
    }
}

/// The entries determine the map.
pub proof fn lemma_holds_last_unique<K, V>(entries: Seq<(K, V)>, m1: Map<K, V>, m2: Map<K, V>)
    requires
        holds_last(entries, m1),
        holds_last(entries, m2),
    ensures
        m1 == m2,
{
    assert forall|k: K| m1.dom().contains(k) implies m2.dom().contains(k) && m1[k] == m2[k] by {
        lemma_last_index(entries, k);
        let i = choose|i: int|
            0 <= i < entries.len() && (#[trigger] entries[i]).0 == k && is_last_of_key(entries, i);
        assert(m1[entries[i].0] == entries[i].1);
        assert(m2[entries[i].0] == entries[i].1);
    }
    assert(m1.dom() =~= m2.dom());
    assert(m1 =~= m2);
}

/// A key that occurs has a last entry.
pub proof fn lemma_last_index<K, V>(entries: Seq<(K, V)>, k: K)
    requires
        exists|i: int| 0 <= i < entries.len() && (#[trigger] entries[i]).0 == k,
    ensures
        exists|i: int|
            0 <= i < entries.len() && (#[trigger] entries[i]).0 == k && is_last_of_key(entries, i),
    decreases entries.len(),
{
    let last = entries.len() - 1;
    if entries[last].0 == k {
        assert(is_last_of_key(entries, last));
    } else {
        let rest = entries.drop_last();
        let w = choose|i: int| 0 <= i < entries.len() && (#[trigger] entries[i]).0 == k;
        assert(rest[w].0 == k);
        lemma_last_index(rest, k);
        let i = choose|i: int|
            0 <= i < rest.len() && (#[trigger] rest[i]).0 == k && is_last_of_key(rest, i);
        assert(entries[i].0 == k);
        assert(is_last_of_key(entries, i)) by {
            assert forall|j: int| i < j < entries.len() implies (#[trigger] entries[j]).0
                != entries[i].0 by {
                if j < rest.len() {
                    assert(rest[j].0 != rest[i].0);
                }
            }
        }
    }
}

} // verus!
