//! Association lists keyed by text: the model of JSON objects and of the
//! per-field tables that schema inference keeps.
use vstd::prelude::*;

verus! {

/// Position of the first member with key `k`.
pub open spec fn key_pos<V>(s: Seq<(Seq<char>, V)>, k: Seq<char>) -> Option<nat>
    decreases s.len(),
{
    if s.len() == 0 {
        None
    } else if s[0].0 == k {
        Some(0)
    } else {
        match key_pos(s.drop_first(), k) {
            Some(i) => Some(i + 1),
            None => None,
        }
    }
}

/// The value of the first member with key `k`.
pub open spec fn assoc_get<V>(s: Seq<(Seq<char>, V)>, k: Seq<char>) -> Option<V> {
    match key_pos(s, k) {
        Some(i) => Some(s[i as int].1),
        None => None,
    }
}

/// Set key `k` to `v`: in place when `k` is present, appended otherwise
/// (the behaviour of a map insert, keeping first-insertion order).
pub open spec fn assoc_put<V>(s: Seq<(Seq<char>, V)>, k: Seq<char>, v: V) -> Seq<(Seq<char>, V)> {
    match key_pos(s, k) {
        Some(i) => s.update(i as int, (k, v)),
        None => s.push((k, v)),
    }
}

/// Apply a sequence of writes, in order, to an association list.
pub open spec fn apply_writes<V>(acc: Seq<(Seq<char>, V)>, w: Seq<(Seq<char>, V)>) -> Seq<
    (Seq<char>, V),
>
    decreases w.len(),
{
    if w.len() == 0 {
        acc
    } else {
        let prev = apply_writes(acc, w.drop_last());
        assoc_put(prev, w.last().0, w.last().1)
    }
}

/// No key occurs twice.
pub open spec fn keys_distinct<V>(s: Seq<(Seq<char>, V)>) -> bool {
    forall|i: int, j: int| 0 <= i < j < s.len() ==> s[i].0 != s[j].0
}

/// What `key_pos` returns, stated by its properties.
pub proof fn lemma_key_pos<V>(s: Seq<(Seq<char>, V)>, k: Seq<char>)
    ensures
        match key_pos(s, k) {
            Some(i) => i < s.len() && s[i as int].0 == k && forall|j: int|
                0 <= j < i ==> s[j].0 != k,
            None => forall|j: int| 0 <= j < s.len() ==> s[j].0 != k,
        },
    decreases s.len(),
{
    if s.len() > 0 && s[0].0 != k {
        lemma_key_pos(s.drop_first(), k);
        match key_pos(s.drop_first(), k) {
            Some(i) => {
                assert forall|j: int| 0 <= j < i + 1 implies s[j].0 != k by {
                    if j > 0 {
                        assert(s[j] == s.drop_first()[j - 1]);
                    }
                }
            },
            None => {
                assert forall|j: int| 0 <= j < s.len() implies s[j].0 != k by {
                    if j > 0 {
                        assert(s[j] == s.drop_first()[j - 1]);
                    }
                }
            },
        }
    }
}

/// An index with the first-match properties is the one `key_pos` returns.
pub proof fn lemma_key_pos_is<V>(s: Seq<(Seq<char>, V)>, k: Seq<char>, i: int)
    requires
        0 <= i < s.len(),
        s[i].0 == k,
        forall|j: int| 0 <= j < i ==> s[j].0 != k,
    ensures
        key_pos(s, k) == Some(i as nat),
{
    lemma_key_pos(s, k);
}

/// `assoc_put` keeps keys distinct.
pub proof fn lemma_put_distinct<V>(s: Seq<(Seq<char>, V)>, k: Seq<char>, v: V)
    requires
        keys_distinct(s),
    ensures
        keys_distinct(assoc_put(s, k, v)),
        assoc_get(assoc_put(s, k, v), k) == Some(v),
{
    lemma_key_pos(s, k);
    let t = assoc_put(s, k, v);
    assert forall|i: int, j: int| 0 <= i < j < t.len() implies t[i].0 != t[j].0 by {
    }
    match key_pos(s, k) {
        Some(i) => lemma_key_pos_is(t, k, i as int),
        None => lemma_key_pos_is(t, k, s.len() as int),
    }
}

/// Writes compose: applying `a + b` is applying `a`, then `b`.
pub proof fn lemma_apply_writes_append<V>(
    acc: Seq<(Seq<char>, V)>,
    a: Seq<(Seq<char>, V)>,
    b: Seq<(Seq<char>, V)>,
)
    ensures
        apply_writes(acc, a + b) == apply_writes(apply_writes(acc, a), b),
    decreases b.len(),
{
    if b.len() == 0 {
        assert(a + b =~= a);
    } else {
        lemma_apply_writes_append(acc, a, b.drop_last());
        assert((a + b).drop_last() =~= a + b.drop_last());
        assert((a + b).last() == b.last());
    }
}

/// A single write is one `assoc_put`.
pub proof fn lemma_apply_single<V>(acc: Seq<(Seq<char>, V)>, k: Seq<char>, v: V)
    ensures
        apply_writes(acc, seq![(k, v)]) == assoc_put(acc, k, v),
{
    let w = seq![(k, v)];
    assert(w.drop_last() =~= Seq::<(Seq<char>, V)>::empty());
    assert(apply_writes(acc, w.drop_last()) == acc);
}

/// Applying writes keeps keys distinct.
pub proof fn lemma_apply_writes_distinct<V>(acc: Seq<(Seq<char>, V)>, w: Seq<(Seq<char>, V)>)
    requires
        keys_distinct(acc),
    ensures
        keys_distinct(apply_writes(acc, w)),
    decreases w.len(),
{
    if w.len() > 0 {
        lemma_apply_writes_distinct(acc, w.drop_last());
        lemma_put_distinct(apply_writes(acc, w.drop_last()), w.last().0, w.last().1);
    }
}

} // verus!
