//! Recursive JSON object flattening.
//!
//! `{"user": {"id": 1, "name": "Alice"}}` becomes
//! `{"user_id": 1, "user_name": "Alice"}`: nested keys are joined with a
//! separator, depth first.  Arrays become strings holding their JSON text.
use vstd::prelude::*;
use vstd::string::*;
use crate::assoc::{keys_distinct, lemma_apply_writes_distinct, apply_writes, assoc_get, assoc_put, key_pos, lemma_apply_single, lemma_apply_writes_append, lemma_key_pos, lemma_key_pos_is};
use crate::json::{entries_view, lemma_object_entries, JsonEntry, JsonNumber, JsonValue, JsonView, Rendered};

verus! {

/// The flattened key of `key` under `prefix`.
pub open spec fn join_key(prefix: Seq<char>, sep: Seq<char>, key: Seq<char>) -> Seq<char> {
    if prefix.len() == 0 {
        key
    } else {
        prefix + sep + key
    }
}

/// The value a leaf contributes: arrays as strings of their JSON text, other
/// leaves unchanged.
pub open spec fn leaf_value(v: JsonView) -> JsonView {
    match v {
        JsonView::Array { compact, .. } => JsonView::String(compact),
        _ => v,
    }
}

/// The writes that flattening `entries` under `prefix` performs, in order.
pub open spec fn flat_writes(
    entries: Seq<(Seq<char>, JsonView)>,
    prefix: Seq<char>,
    sep: Seq<char>,
) -> Seq<(Seq<char>, JsonView)>
    decreases entries,
{
    if entries.len() == 0 {
        Seq::empty()
    } else {
        let k = entries.last().0;
        let v = entries.last().1;
        let full = join_key(prefix, sep, k);
        let head = flat_writes(entries.drop_last(), prefix, sep);
        match v {
            JsonView::Object { entries: nested, .. } => {
                proof {
                    assert(decreases_to!(entries => entries[entries.len() - 1]));
                }
                head + flat_writes(nested, full, sep)
            },
            _ => head + seq![(full, leaf_value(v))],
        }
    }
}

/// The flattened object: the writes applied, in order, to an empty object
/// (a later write to the same key replaces the earlier value).
pub open spec fn flatten_spec(entries: Seq<(Seq<char>, JsonView)>, sep: Seq<char>) -> Seq<
    (Seq<char>, JsonView),
> {
    apply_writes(Seq::empty(), flat_writes(entries, Seq::empty(), sep))
}

/// Position of the member with key `key`, the first one if several.
pub fn find_entry(entries: &Vec<JsonEntry>, key: &String) -> (res: Option<usize>)
    ensures
        match res {
            Some(i) => i < entries@.len() && key_pos(entries_view(entries@), key@) == Some(i as nat),
            None => key_pos(entries_view(entries@), key@) is None,
        },
{
    let ghost s = entries_view(entries@);
    let mut j: usize = 0;
    while j < entries.len()
        invariant
            j <= entries@.len(),
            s == entries_view(entries@),
            forall|t: int| 0 <= t < j ==> s[t].0 != key@,
        decreases entries@.len() - j,
    {
        if entries[j].key == *key {
            proof {
                lemma_key_pos_is(s, key@, j as int);
            }
            return Some(j);
        }
        j += 1;
    }
    proof {
        lemma_key_pos(s, key@);
        if let Some(i) = key_pos(s, key@) {
            assert(s[i as int].0 != key@);
        }
    }
    None
}

/// The value of the member with key `key`, the first one if several.
pub fn object_get<'a>(entries: &'a Vec<JsonEntry>, key: &String) -> (res: Option<&'a JsonValue>)
    ensures
        match res {
            Some(v) => assoc_get(entries_view(entries@), key@) == Some(v@),
            None => assoc_get(entries_view(entries@), key@) is None,
        },
{
    match find_entry(entries, key) {
        Some(i) => Some(&entries[i].value),
        None => None,
    }
}

/// Set `key` to `value`: replaced in place when present, appended otherwise.
pub fn put_entry(out: &mut Vec<JsonEntry>, key: String, value: JsonValue)
    ensures
        entries_view(final(out)@) == assoc_put(entries_view(old(out)@), key@, value@),
{
    let ghost s = entries_view(out@);
    match find_entry(out, &key) {
        Some(i) => {
            out.set(i, JsonEntry { key, value });
            proof {
                assert(entries_view(out@) =~= s.update(i as int, (key@, value@)));
            }
        },
        None => {
            out.push(JsonEntry { key, value });
            proof {
                assert(entries_view(out@) =~= s.push((key@, value@)));
            }
        },
    }
}

/// A copy of a value that is not an object.
pub fn clone_leaf(v: &JsonValue) -> (res: JsonValue)
    requires
        !(v is Object),
    ensures
        res@ == v@,
{
    match v {
        JsonValue::Null => JsonValue::Null,
        JsonValue::Bool(b) => JsonValue::Bool(*b),
        JsonValue::Number(n) => JsonValue::Number(JsonNumber { text: n.text.clone(), integer: n.integer }),
        JsonValue::String(s) => JsonValue::String(s.clone()),
        JsonValue::Array(r) => JsonValue::Array(
            Rendered { compact: r.compact.clone(), debug: r.debug.clone() },
        ),
        JsonValue::Object(..) => JsonValue::Null,
    }
}

fn flatten_rec(obj: &Vec<JsonEntry>, prefix: &str, sep: &str, out: &mut Vec<JsonEntry>)
    ensures
        entries_view(final(out)@) == apply_writes(
            entries_view(old(out)@),
            flat_writes(entries_view(obj@), prefix@, sep@),
        ),
    decreases obj,
{
    let ghost es = entries_view(obj@);
    let ghost start = entries_view(out@);
    let mut i: usize = 0;
    proof {
        assert(es.take(0) =~= Seq::<(Seq<char>, JsonView)>::empty());
    }
    while i < obj.len()
        invariant
            i <= obj@.len(),
            es == entries_view(obj@),
            entries_view(out@) == apply_writes(start, flat_writes(es.take(i as int), prefix@, sep@)),
        decreases obj@.len() - i,
    {
        let entry = &obj[i];
        let full = if prefix.is_empty() {
            entry.key.clone()
        } else {
            let mut f = String::from_str(prefix);
            f.append(sep);
            f.append(entry.key.as_str());
            f
        };
        assert(full@ == join_key(prefix@, sep@, entry.key@));
        let ghost before = entries_view(out@);
        proof {
            assert(es.take(i + 1).drop_last() =~= es.take(i as int));
            assert(es.take(i + 1).last() == (entry.key@, entry.value@));
        }
        match &entry.value {
            JsonValue::Object(nested, r) => {
                proof {
                    lemma_object_entries(nested, r);
                    assert(decreases_to!(obj => obj@));
                    assert(decreases_to!(obj@ => obj@[i as int]));
                    assert(decreases_to!(obj@[i as int] => obj@[i as int].value));
                    assert(decreases_to!(obj@[i as int].value => *nested));
                }
                flatten_rec(nested, full.as_str(), sep, out);
                proof {
                    assert(flat_writes(es.take(i + 1), prefix@, sep@) == flat_writes(es.take(i as int), prefix@, sep@) + flat_writes(entries_view(nested@), full@, sep@));
                    lemma_apply_writes_append(
                        start,
                        flat_writes(es.take(i as int), prefix@, sep@),
                        flat_writes(entries_view(nested@), full@, sep@),
                    );
                }
            },
            JsonValue::Array(r) => {
                put_entry(out, full, JsonValue::String(r.compact.clone()));
                proof {
                    assert(flat_writes(es.take(i + 1), prefix@, sep@) == flat_writes(es.take(i as int), prefix@, sep@) + seq![(full@, JsonView::String(r.compact@))]);
                    lemma_apply_writes_append(
                        start,
                        flat_writes(es.take(i as int), prefix@, sep@),
                        seq![(full@, JsonView::String(r.compact@))],
                    );
                    assert(seq![(full@, JsonView::String(r.compact@))].drop_last() =~= Seq::<
                        (Seq<char>, JsonView),
                    >::empty());
                    lemma_apply_single(before, full@, JsonView::String(r.compact@));
                }
            },
            other => {
                put_entry(out, full, clone_leaf(other));
                proof {
                    assert(flat_writes(es.take(i + 1), prefix@, sep@) == flat_writes(es.take(i as int), prefix@, sep@) + seq![(full@, other@)]);
                    lemma_apply_writes_append(
                        start,
                        flat_writes(es.take(i as int), prefix@, sep@),
                        seq![(full@, other@)],
                    );
                    assert(seq![(full@, other@)].drop_last() =~= Seq::<
                        (Seq<char>, JsonView),
                    >::empty());
                    lemma_apply_single(before, full@, other@);
                }
            },
        }
        i += 1;
    }
    proof {
        assert(es.take(obj@.len() as int) =~= es);
    }
}

/// Neither an object nor an array.
pub open spec fn is_leaf(v: JsonView) -> bool {
    !(v is Object) && !(v is Array)
}

proof fn lemma_flat_writes_leaves(entries: Seq<(Seq<char>, JsonView)>, prefix: Seq<char>, sep: Seq<char>)
    ensures
        forall|i: int|
            0 <= i < flat_writes(entries, prefix, sep).len() ==> is_leaf(
                #[trigger] flat_writes(entries, prefix, sep)[i].1,
            ),
    decreases entries,
{
    if entries.len() > 0 {
        lemma_flat_writes_leaves(entries.drop_last(), prefix, sep);
        let head = flat_writes(entries.drop_last(), prefix, sep);
        let v = entries.last().1;
        let full = join_key(prefix, sep, entries.last().0);
        let all = flat_writes(entries, prefix, sep);
        if let JsonView::Object { entries: nested, .. } = v {
            assert(decreases_to!(entries => entries[entries.len() - 1]));
            lemma_flat_writes_leaves(nested, full, sep);
            let tail = flat_writes(nested, full, sep);
            assert(all == head + tail);
            assert forall|i: int| 0 <= i < all.len() implies is_leaf(#[trigger] all[i].1) by {
                if i < head.len() {
                    assert(all[i] == head[i]);
                } else {
                    assert(all[i] == tail[i - head.len()]);
                }
            }
        } else {
            assert(all == head + seq![(full, leaf_value(v))]);
            assert forall|i: int| 0 <= i < all.len() implies is_leaf(#[trigger] all[i].1) by {
                if i < head.len() {
                    assert(all[i] == head[i]);
                }
            }
        }
    }
}

proof fn lemma_apply_writes_leaves(acc: Seq<(Seq<char>, JsonView)>, w: Seq<(Seq<char>, JsonView)>)
    requires
        forall|i: int| 0 <= i < acc.len() ==> is_leaf(#[trigger] acc[i].1),
        forall|i: int| 0 <= i < w.len() ==> is_leaf(#[trigger] w[i].1),
    ensures
        forall|i: int|
            0 <= i < apply_writes(acc, w).len() ==> is_leaf(#[trigger] apply_writes(acc, w)[i].1),
    decreases w.len(),
{
    if w.len() > 0 {
        lemma_apply_writes_leaves(acc, w.drop_last());
        assert(is_leaf(w[w.len() - 1].1));
        let prev = apply_writes(acc, w.drop_last());
        let t = apply_writes(acc, w);
        assert(t == assoc_put(prev, w.last().0, w.last().1));
        lemma_key_pos(prev, w.last().0);
        assert forall|i: int| 0 <= i < t.len() implies is_leaf(#[trigger] t[i].1) by {
            match key_pos(prev, w.last().0) {
                Some(p) => {
                    if i != p {
                        assert(t[i] == prev[i]);
                    }
                },
                None => {
                    if i < prev.len() {
                        assert(t[i] == prev[i]);
                    }
                },
            }
        }
    }
}

/// Law: a flattened object has no nested objects and no arrays left, and no
/// key occurs twice in it.
pub proof fn lemma_flatten_is_flat(entries: Seq<(Seq<char>, JsonView)>, sep: Seq<char>)
    ensures
        forall|i: int|
            0 <= i < flatten_spec(entries, sep).len() ==> is_leaf(
                #[trigger] flatten_spec(entries, sep)[i].1,
            ),
        keys_distinct(flatten_spec(entries, sep)),
{
    let w = flat_writes(entries, Seq::empty(), sep);
    lemma_flat_writes_leaves(entries, Seq::empty(), sep);
    lemma_apply_writes_leaves(Seq::empty(), w);
    lemma_apply_writes_distinct(Seq::<(Seq<char>, JsonView)>::empty(), w);
}

proof fn lemma_flat_writes_of_flat(entries: Seq<(Seq<char>, JsonView)>, sep: Seq<char>)
    requires
        forall|i: int| 0 <= i < entries.len() ==> is_leaf(#[trigger] entries[i].1),
    ensures
        flat_writes(entries, Seq::empty(), sep) == entries,
    decreases entries.len(),
{
    if entries.len() > 0 {
        lemma_flat_writes_of_flat(entries.drop_last(), sep);
        assert(is_leaf(entries[entries.len() - 1].1));
        assert(entries.drop_last().push(entries.last()) =~= entries);
    }
}

proof fn lemma_apply_distinct_writes(w: Seq<(Seq<char>, JsonView)>)
    requires
        keys_distinct(w),
    ensures
        apply_writes(Seq::empty(), w) == w,
    decreases w.len(),
{
    if w.len() > 0 {
        let p = w.drop_last();
        assert(keys_distinct(p));
        lemma_apply_distinct_writes(p);
        lemma_key_pos(p, w.last().0);
        if let Some(i) = key_pos(p, w.last().0) {
            assert(w[i as int].0 == w[w.len() - 1].0);
        }
        assert(p.push(w.last()) =~= w);
    }
}

/// Law: an object whose values are all scalars (no nested object, no array)
/// and whose keys are distinct comes out of flattening unchanged.
pub proof fn lemma_flat_object_unchanged(entries: Seq<(Seq<char>, JsonView)>, sep: Seq<char>)
    requires
        forall|i: int| 0 <= i < entries.len() ==> is_leaf(#[trigger] entries[i].1),
        keys_distinct(entries),
    ensures
        flatten_spec(entries, sep) == entries,
{
    lemma_flat_writes_of_flat(entries, sep);
    lemma_apply_distinct_writes(entries);
}

/// Recursively flatten a JSON object into a single-level object.
/// Nested keys are joined with `separator` (typically `"_"`); arrays become
/// strings holding their JSON text.
pub fn flatten_object(obj: &Vec<JsonEntry>, separator: &str) -> (res: Vec<JsonEntry>)
    ensures
        entries_view(res@) == flatten_spec(entries_view(obj@), separator@),
{
    let mut out: Vec<JsonEntry> = Vec::new();
    proof {
        assert(entries_view(out@) =~= Seq::<(Seq<char>, JsonView)>::empty());
    }
    proof {
        reveal_strlit("");
        assert(""@ =~= Seq::<char>::empty());
    }
    flatten_rec(obj, "", separator, &mut out);
    out
}

/// The value reached from `entries` along a path of keys (each but the last
/// naming a nested object).
pub open spec fn path_value(entries: Seq<(Seq<char>, JsonView)>, path: Seq<Seq<char>>) -> Option<
    JsonView,
>
    decreases path.len(),
{
    if path.len() == 0 {
        None
    } else {
        match assoc_get(entries, path[0]) {
            None => None,
            Some(v) => if path.len() == 1 {
                Some(v)
            } else {
                match v {
                    JsonView::Object { entries: inner, .. } => path_value(inner, path.drop_first()),
                    _ => None,
                }
            },
        }
    }
}

/// The flattened key of a path of keys under `prefix`: the keys joined with
/// the separator.
pub open spec fn join_path(prefix: Seq<char>, sep: Seq<char>, path: Seq<Seq<char>>) -> Seq<char>
    decreases path.len(),
{
    if path.len() == 0 {
        prefix
    } else {
        join_path(join_key(prefix, sep, path[0]), sep, path.drop_first())
    }
}

proof fn lemma_entry_writes_contained(
    entries: Seq<(Seq<char>, JsonView)>,
    prefix: Seq<char>,
    sep: Seq<char>,
    i: int,
    x: (Seq<char>, JsonView),
)
    requires
        0 <= i < entries.len(),
        match entries[i].1 {
            JsonView::Object { entries: nested, .. } => flat_writes(
                nested,
                join_key(prefix, sep, entries[i].0),
                sep,
            ).contains(x),
            _ => x == (join_key(prefix, sep, entries[i].0), leaf_value(entries[i].1)),
        },
    ensures
        flat_writes(entries, prefix, sep).contains(x),
    decreases entries.len(),
{
    let head = flat_writes(entries.drop_last(), prefix, sep);
    let all = flat_writes(entries, prefix, sep);
    let k = entries.last().0;
    let v = entries.last().1;
    let full = join_key(prefix, sep, k);
    if i < entries.len() - 1 {
        assert(entries.drop_last()[i] == entries[i]);
        lemma_entry_writes_contained(entries.drop_last(), prefix, sep, i, x);
        let j = choose|j: int| 0 <= j < head.len() && head[j] == x;
        match v {
            JsonView::Object { entries: nested, .. } => {
                assert(all == head + flat_writes(nested, full, sep));
                assert(all[j] == x);
            },
            _ => {
                assert(all =~= head + seq![(full, leaf_value(v))]);
                assert(all[j] == x);
            },
        }
    } else {
        match v {
            JsonView::Object { entries: nested, .. } => {
                let tail = flat_writes(nested, full, sep);
                assert(all == head + tail);
                let j = choose|j: int| 0 <= j < tail.len() && tail[j] == x;
                assert(all[head.len() + j] == x);
            },
            _ => {
                assert(all =~= head + seq![(full, leaf_value(v))]);
                assert(all[head.len() as int] == x);
            },
        }
    }
}

proof fn lemma_path_write(
    entries: Seq<(Seq<char>, JsonView)>,
    prefix: Seq<char>,
    sep: Seq<char>,
    path: Seq<Seq<char>>,
    v: JsonView,
)
    requires
        path_value(entries, path) == Some(v),
        !(v is Object),
    ensures
        flat_writes(entries, prefix, sep).contains((join_path(prefix, sep, path), leaf_value(v))),
    decreases path.len(),
{
    lemma_key_pos(entries, path[0]);
    let i = key_pos(entries, path[0])->0 as int;
    let w = entries[i].1;
    let p1 = join_key(prefix, sep, path[0]);
    if path.len() == 1 {
        assert(path.drop_first().len() == 0);
        assert(join_path(prefix, sep, path) == p1);
        lemma_entry_writes_contained(entries, prefix, sep, i, (p1, leaf_value(v)));
    } else {
        if let JsonView::Object { entries: inner, .. } = w {
            lemma_path_write(inner, p1, sep, path.drop_first(), v);
            lemma_entry_writes_contained(
                entries,
                prefix,
                sep,
                i,
                (join_path(prefix, sep, path), leaf_value(v)),
            );
        }
    }
}

/// Law: a value that is neither an object nor an array, found at any depth
/// along a path of keys, is kept unchanged under the path's joined key; an
/// array there becomes the string of its JSON text.  (When no two values
/// flatten to the same key.)
pub proof fn lemma_flatten_keeps_leaves(
    entries: Seq<(Seq<char>, JsonView)>,
    sep: Seq<char>,
    path: Seq<Seq<char>>,
    v: JsonView,
)
    requires
        path_value(entries, path) == Some(v),
        !(v is Object),
        keys_distinct(flat_writes(entries, Seq::empty(), sep)),
    ensures
        !(v is Array) ==> assoc_get(flatten_spec(entries, sep), join_path(Seq::empty(), sep, path))
            == Some(v),
        v matches JsonView::Array { compact, .. } ==> assoc_get(
            flatten_spec(entries, sep),
            join_path(Seq::empty(), sep, path),
        ) == Some(JsonView::String(compact)),
{
    let w = flat_writes(entries, Seq::empty(), sep);
    let key = join_path(Seq::empty(), sep, path);
    lemma_apply_distinct_writes(w);
    lemma_path_write(entries, Seq::empty(), sep, path, v);
    let m = choose|m: int| 0 <= m < w.len() && w[m] == (key, leaf_value(v));
    lemma_key_pos_is(w, key, m);
}

/// Law: a top-level key keeps its name, and a nested key is its parent's
/// key, the separator and its own key, one level after another.
pub proof fn lemma_join_path_levels(sep: Seq<char>, a: Seq<char>, b: Seq<char>, c: Seq<char>)
    requires
        a.len() > 0,
    ensures
        join_path(Seq::empty(), sep, seq![a]) == a,
        join_path(Seq::empty(), sep, seq![a, b]) == a + sep + b,
        join_path(Seq::empty(), sep, seq![a, b, c]) == a + sep + b + sep + c,
{
    let e = Seq::<char>::empty();
    let none = Seq::<Seq<char>>::empty();
    assert(seq![a].drop_first() =~= none);
    assert(seq![a, b].drop_first() =~= seq![b]);
    assert(seq![b].drop_first() =~= none);
    assert(seq![a, b, c].drop_first() =~= seq![b, c]);
    assert(seq![b, c].drop_first() =~= seq![c]);
    assert(seq![c].drop_first() =~= none);
    assert(join_key(e, sep, a) == a);
    assert(join_path(a, sep, none) == a);
    assert(join_path(e, sep, seq![a]) == join_path(a, sep, none));
    let ab = a + sep + b;
    assert(join_key(a, sep, b) == ab);
    assert(join_path(ab, sep, none) == ab);
    assert(join_path(a, sep, seq![b]) == join_path(ab, sep, none));
    assert(join_path(e, sep, seq![a, b]) == join_path(a, sep, seq![b]));
    assert(ab.len() > 0);
    let abc = ab + sep + c;
    assert(join_key(ab, sep, c) == abc);
    assert(join_path(abc, sep, none) == abc);
    assert(join_path(ab, sep, seq![c]) == join_path(abc, sep, none));
    assert(join_path(a, sep, seq![b, c]) == join_path(ab, sep, seq![c]));
    assert(join_path(e, sep, seq![a, b, c]) == join_path(a, sep, seq![b, c]));
    assert((a + sep + b).len() > 0);
}

} // verus!
