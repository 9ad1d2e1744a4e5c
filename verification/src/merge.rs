//! The merge engine: combines two datasets with first-write-wins semantics
//! per key, per category.
use crate::category_map::{has_key, key_lookup, unique_keys, CategoryMap};
use crate::types::{ArkData, ArkDataV};
use vstd::prelude::*;

verus! {

/// The merge of one category: every entry of `base`, followed by the
/// entries of `incoming` whose keys `base` does not hold.
pub open spec fn merge_category_view<T>(
    base: Seq<(Seq<char>, T)>,
    incoming: Seq<(Seq<char>, T)>,
) -> Seq<(Seq<char>, T)> {
    base + incoming.filter(|p: (Seq<char>, T)| !has_key(base, p.0))
}

/// The merge of two snapshots: each category merged first-write-wins, the
/// version and timestamp taken from `base`.
pub open spec fn merge_dataset_view(base: ArkDataV, incoming: ArkDataV) -> ArkDataV {
    ArkDataV {
        creatures: merge_category_view(base.creatures, incoming.creatures),
        items: merge_category_view(base.items, incoming.items),
        engrams: merge_category_view(base.engrams, incoming.engrams),
        beacons: merge_category_view(base.beacons, incoming.beacons),
        colors: merge_category_view(base.colors, incoming.colors),
        icons: merge_category_view(base.icons, incoming.icons),
        version: base.version,
        last_updated: base.last_updated,
    }
}

proof fn lemma_has_key_append<T>(a: Seq<(Seq<char>, T)>, b: Seq<(Seq<char>, T)>, k: Seq<char>)
    ensures
        has_key(a + b, k) <==> has_key(a, k) || has_key(b, k),
{
    if has_key(a, k) {
        let i = choose|i: int| 0 <= i < a.len() && a[i].0 == k;
        assert((a + b)[i].0 == k);
    }
    if has_key(b, k) {
        let i = choose|i: int| 0 <= i < b.len() && b[i].0 == k;
        assert((a + b)[a.len() + i].0 == k);
    }
    if has_key(a + b, k) {
        let i = choose|i: int| 0 <= i < (a + b).len() && (a + b)[i].0 == k;
        if i < a.len() {
            assert(a[i].0 == k);
        } else {
            assert(b[i - a.len()].0 == k);
        }
    }
}

/// A key of a filtered sequence is a key of the sequence.
proof fn lemma_filter_has_key<T>(
    s: Seq<(Seq<char>, T)>,
    pred: spec_fn((Seq<char>, T)) -> bool,
    k: Seq<char>,
)
    requires
        has_key(s.filter(pred), k),
    ensures
        has_key(s, k),
    decreases s.len(),
{
    reveal_with_fuel(Seq::filter, 2);
    if s.len() > 0 {
        let f = s.filter(pred);
        let fd = s.drop_last().filter(pred);
        let i = choose|i: int| 0 <= i < f.len() && f[i].0 == k;
        if pred(s.last()) && i == f.len() - 1 {
            assert(s[s.len() - 1].0 == k);
        } else {
            assert(fd[i].0 == k);
            lemma_filter_has_key(s.drop_last(), pred, k);
            let j = choose|j: int| 0 <= j < s.drop_last().len() && s.drop_last()[j].0 == k;
            assert(s[j].0 == k);
        }
    }
}

/// Filtering preserves key uniqueness.
proof fn lemma_filter_unique_keys<T>(s: Seq<(Seq<char>, T)>, pred: spec_fn((Seq<char>, T)) -> bool)
    requires
        unique_keys(s),
    ensures
        unique_keys(s.filter(pred)),
    decreases s.len(),
{
    reveal_with_fuel(Seq::filter, 2);
    if s.len() > 0 {
        assert(unique_keys(s.drop_last())) by {
            assert(forall|i: int| 0 <= i < s.len() - 1 ==> s.drop_last()[i] == s[i]);
        }
        lemma_filter_unique_keys(s.drop_last(), pred);
        let f = s.filter(pred);
        let fd = s.drop_last().filter(pred);
        if pred(s.last()) {
            assert(f == fd.push(s.last()));
            assert(forall|i: int, j: int| 0 <= i < j < f.len() && j < fd.len() ==> f[i].0 != f[j].0);
            assert forall|i: int| 0 <= i < fd.len() implies f[i].0 != s.last().0 by {
                if fd[i].0 == s.last().0 {
                    assert(has_key(fd, s.last().0));
                    lemma_filter_has_key(s.drop_last(), pred, s.last().0);
                    let j = choose|j: int|
                        0 <= j < s.drop_last().len() && s.drop_last()[j].0 == s.last().0;
                    assert(s[j].0 == s[s.len() - 1].0);
                }
            }
        }
    }
}

/// Merges one category map, keeping `base`'s record wherever both sides
/// hold a key.
pub fn merge_category<V: View>(base: CategoryMap<V>, incoming: CategoryMap<V>) -> (r: CategoryMap<
    V,
>)
    requires
        base.wf(),
        incoming.wf(),
    ensures
        r@ == merge_category_view(base@, incoming@),
        r.wf(),
{
    let ghost b0 = base@;
    let ghost i0 = incoming@;
    let ghost pred = |p: (Seq<char>, V::V)| !has_key(b0, p.0);
    let mut out = base;
    let mut rest = incoming;
    let ghost mut done: int = 0;
    proof {
        assert(i0.subrange(0, 0).filter(pred) =~= Seq::<(Seq<char>, V::V)>::empty());
        assert(out@ =~= b0 + i0.subrange(0, 0).filter(pred));
    }
    while rest.len() > 0
        invariant
            0 <= done <= i0.len(),
            rest@ =~= i0.skip(done),
            out@ =~= b0 + i0.subrange(0, done).filter(pred),
            unique_keys(b0),
            unique_keys(i0),
            pred == (|p: (Seq<char>, V::V)| !has_key(b0, p.0)),
            out.wf(),
            rest.wf(),
        decreases rest@.len(),
    {
        let ghost pre = i0.subrange(0, done);
        let (k, v) = rest.take_first();
        proof {
            assert(rest@ =~= i0.skip(done + 1));
            assert(i0.skip(done)[0] == i0[done]);
            assert(k@ == i0[done].0 && v@ == i0[done].1);
        }
        let keep = !out.contains_key(k.as_str());
        proof {
            // `out` holds exactly the keys of `base` and of the kept prefix;
            // uniqueness of `incoming`'s keys rules the prefix out.
            lemma_has_key_append(b0, pre.filter(pred), k@);
            if has_key(pre.filter(pred), k@) {
                lemma_filter_has_key(pre, pred, k@);
                let j = choose|j: int| 0 <= j < pre.len() && pre[j].0 == k@;
                assert(i0[j].0 == i0[done].0);
                assert(false);
            }
            assert(keep == pred(i0[done]));
        }
        if keep {
            out.push_absent(k, v);
        }
        proof {
            reveal_with_fuel(Seq::filter, 2);
            assert(i0.subrange(0, done + 1).drop_last() =~= pre);
            assert(i0.subrange(0, done + 1).last() == i0[done]);
            assert(out@ =~= b0 + i0.subrange(0, done + 1).filter(pred));
            done = done + 1;
        }
    }
    proof {
        assert(i0.subrange(0, i0.len() as int) =~= i0);
        assert(unique_keys(out@)) by {
            lemma_filter_unique_keys(i0, pred);
            let f = i0.filter(pred);
            assert forall|a: int, b: int| 0 <= a < b < out@.len() implies out@[a].0 != out@[b].0 by {
                if a >= b0.len() {
                    assert(f[a - b0.len()].0 != f[b - b0.len()].0);
                } else if b >= b0.len() {
                    assert(out@[b] == f[b - b0.len()]);
                    if out@[a].0 == out@[b].0 {
                        assert(has_key(b0, f[b - b0.len()].0));
                        assert(pred(f[b - b0.len()])) by {
                            lemma_filter_pred(i0, pred, b - b0.len());
                        }
                    }
                } else {
                    assert(b0[a].0 != b0[b].0);
                }
            }
        }
    }
    out
}

/// Every element of a filtered sequence satisfies the predicate.
proof fn lemma_filter_pred<T>(s: Seq<T>, pred: spec_fn(T) -> bool, i: int)
    requires
        0 <= i < s.filter(pred).len(),
    ensures
        pred(s.filter(pred)[i]),
    decreases s.len(),
{
    reveal_with_fuel(Seq::filter, 2);
    if s.len() > 0 {
        let f = s.filter(pred);
        let fd = s.drop_last().filter(pred);
        if !(pred(s.last()) && i == f.len() - 1) {
            lemma_filter_pred(s.drop_last(), pred, i);
        }
    }
}

/// Merges a freshly scraped dataset into an existing one; existing records
/// are never overwritten. The version and timestamp of the existing
/// dataset are kept.
pub fn merge_scraped_data(existing_data: ArkData, scraped_data: ArkData) -> (r: Result<
    ArkData,
    String,
>)
    requires
        existing_data.wf(),
        scraped_data.wf(),
    ensures
        r is Ok,
        r matches Ok(m) ==> m@ == merge_dataset_view(existing_data@, scraped_data@) && m.wf(),
{
    let merged = ArkData {
        creatures: merge_category(existing_data.creatures, scraped_data.creatures),
        items: merge_category(existing_data.items, scraped_data.items),
        engrams: merge_category(existing_data.engrams, scraped_data.engrams),
        beacons: merge_category(existing_data.beacons, scraped_data.beacons),
        colors: merge_category(existing_data.colors, scraped_data.colors),
        icons: merge_category(existing_data.icons, scraped_data.icons),
        version: existing_data.version,
        last_updated: existing_data.last_updated,
    };
    proof {
        assert(merged@ =~= merge_dataset_view(existing_data@, scraped_data@));
    }
    Ok(merged)
}

/// Merge never overwrites: a key held by `base` keeps `base`'s record in
/// the merged category.
pub proof fn lemma_merge_keeps_base<T>(
    base: Seq<(Seq<char>, T)>,
    incoming: Seq<(Seq<char>, T)>,
    k: Seq<char>,
)
    requires
        has_key(base, k),
    ensures
        key_lookup(merge_category_view(base, incoming), k) == key_lookup(base, k),
{
    lemma_lookup_append_left(base, incoming.filter(|p: (Seq<char>, T)| !has_key(base, p.0)), k);
}

/// Looking a key up in `a + b` agrees with `a` wherever `a` holds the key.
proof fn lemma_lookup_append_left<T>(a: Seq<(Seq<char>, T)>, b: Seq<(Seq<char>, T)>, k: Seq<char>)
    requires
        has_key(a, k),
    ensures
        key_lookup(a + b, k) == key_lookup(a, k),
    decreases a.len(),
{
    assert(a.len() > 0);
    if a[0].0 == k {
        assert((a + b)[0] == a[0]);
    } else {
        assert((a + b)[0] == a[0]);
        assert((a + b).drop_first() =~= a.drop_first() + b);
        assert(has_key(a.drop_first(), k)) by {
            let i = choose|i: int| 0 <= i < a.len() && a[i].0 == k;
            assert(a.drop_first()[i - 1].0 == k);
        }
        lemma_lookup_append_left(a.drop_first(), b, k);
    }
}

/// Merge is idempotent: merging a dataset with itself, or with an empty
/// dataset, changes nothing.
pub proof fn lemma_merge_category_idempotent<T>(s: Seq<(Seq<char>, T)>)
    ensures
        merge_category_view(s, s) == s,
        merge_category_view(s, Seq::<(Seq<char>, T)>::empty()) == s,
{
    let pred = |p: (Seq<char>, T)| !has_key(s, p.0);
    lemma_filter_all_fail(s, s, pred);
    assert(merge_category_view(s, s) =~= s);
    reveal_with_fuel(Seq::filter, 1);
    assert(Seq::<(Seq<char>, T)>::empty().filter(pred) =~= Seq::<(Seq<char>, T)>::empty());
    assert(merge_category_view(s, Seq::<(Seq<char>, T)>::empty()) =~= s);
}

/// Nothing survives a filter that every element fails.
proof fn lemma_filter_all_fail<T>(
    s: Seq<(Seq<char>, T)>,
    whole: Seq<(Seq<char>, T)>,
    pred: spec_fn((Seq<char>, T)) -> bool,
)
    requires
        pred == (|p: (Seq<char>, T)| !has_key(whole, p.0)),
        forall|i: int| 0 <= i < s.len() ==> has_key(whole, s[i].0),
    ensures
        s.filter(pred).len() == 0,
    decreases s.len(),
{
    reveal_with_fuel(Seq::filter, 2);
    if s.len() > 0 {
        lemma_filter_all_fail(s.drop_last(), whole, pred);
        assert(!pred(s.last()));
    }
}

/// Merge is idempotent at the dataset level: `merge(d, d) == d` and
/// `merge(d, empty) == d` for any empty dataset sharing `d`'s version and
/// timestamp.
pub proof fn lemma_merge_dataset_idempotent(d: ArkDataV, e: ArkDataV)
    requires
        crate::types::empty_dataset(e),
    ensures
        merge_dataset_view(d, d) == d,
        merge_dataset_view(d, e) == d,
{
    lemma_merge_category_idempotent(d.creatures);
    lemma_merge_category_idempotent(d.items);
    lemma_merge_category_idempotent(d.engrams);
    lemma_merge_category_idempotent(d.beacons);
    lemma_merge_category_idempotent(d.colors);
    lemma_merge_category_idempotent(d.icons);
    assert(e.creatures =~= Seq::<(Seq<char>, crate::types::CreatureV)>::empty());
    assert(e.items =~= Seq::<(Seq<char>, crate::types::ItemV)>::empty());
    assert(e.engrams =~= Seq::<(Seq<char>, crate::types::EngramV)>::empty());
    assert(e.beacons =~= Seq::<(Seq<char>, crate::types::BeaconV)>::empty());
    assert(e.colors =~= Seq::<(Seq<char>, crate::types::ColorV)>::empty());
    assert(e.icons =~= Seq::<(Seq<char>, crate::types::IconV)>::empty());
    assert(merge_dataset_view(d, d) =~= d);
    assert(merge_dataset_view(d, e) =~= d);
}

} // verus!
