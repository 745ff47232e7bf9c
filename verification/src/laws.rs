//! Laws of the library: what a reader may rely on when several sources hold
//! the same key, and the invariants every source's output carries.

use vstd::prelude::*;

use crate::merge::{
    insert_by_priority, lemma_merge_entries_get, merge_entries_model, merge_fold, merge_model,
    merged_model, sort_by_priority, MergeStrategy,
};
use crate::value::{keys_unique, lemma_obj_index_none, obj_get, obj_has, obj_set, ValueModel};

verus! {

/// Folding an object into an empty base reproduces the object, key by key.
pub proof fn lemma_empty_base_get(strategy: MergeStrategy, ies: Seq<(Seq<char>, ValueModel)>, k: Seq<char>)
    requires
        keys_unique(ies),
    ensures
        obj_get(merge_entries_model(strategy, Seq::empty(), ies), k) == obj_get(ies, k),
{
    lemma_obj_index_none::<ValueModel>(Seq::empty(), k);
    lemma_merge_entries_get(strategy, Seq::empty(), ies, k);
}

/// Two object sources with priorities `p1 < p2` merge to an object whose
/// entry at each key is: the lower-priority entry where only that side holds
/// the key, the higher-priority entry where only that side holds it, and the
/// strategy's combination of the two where both do (for `Replace`, the
/// higher-priority entry wholesale).
pub proof fn lemma_two_sources_get(
    strategy: MergeStrategy,
    es1: Seq<(Seq<char>, ValueModel)>,
    p1: u8,
    es2: Seq<(Seq<char>, ValueModel)>,
    p2: u8,
    k: Seq<char>,
)
    requires
        p1 < p2,
        keys_unique(es1),
        keys_unique(es2),
    ensures
        merged_model(
            strategy,
            seq![(ValueModel::Object(es1), p1), (ValueModel::Object(es2), p2)],
        ) matches ValueModel::Object(mes) && obj_get(mes, k) == (if obj_has(es2, k) {
            if strategy is Replace || !obj_has(es1, k) {
                obj_get(es2, k)
            } else {
                Some(merge_model(strategy, obj_get(es1, k)->Some_0, obj_get(es2, k)->Some_0))
            }
        } else {
            obj_get(es1, k)
        }),
{
    let a = (ValueModel::Object(es1), p1);
    let b = (ValueModel::Object(es2), p2);
    let pair = seq![a, b];
    assert(pair.drop_last() =~= seq![a]);
    assert(seq![a].drop_last() =~= Seq::<(ValueModel, u8)>::empty());
    assert(sort_by_priority(Seq::<(ValueModel, u8)>::empty()) == Seq::<(ValueModel, u8)>::empty());
    assert(seq![a].last() == a);
    assert(sort_by_priority(seq![a]) == insert_by_priority(Seq::empty(), a));
    assert(insert_by_priority(Seq::empty(), a) =~= seq![a]);
    assert(sort_by_priority(pair) == insert_by_priority(seq![a], b));
    assert(insert_by_priority(seq![a], b) =~= pair);
    let sorted = sort_by_priority(pair);
    assert(sorted.drop_last() =~= seq![a]);
    assert(merge_fold(strategy, sorted) == merge_model(
        strategy,
        merge_fold(strategy, seq![a]),
        ValueModel::Object(es2),
    ));
    assert(merge_fold(strategy, Seq::<(ValueModel, u8)>::empty()) == ValueModel::Object(
        Seq::empty(),
    ));
    assert(merge_fold(strategy, seq![a]) == merge_model(
        strategy,
        ValueModel::Object(Seq::empty()),
        ValueModel::Object(es1),
    ));
    let first = merge_entries_model(strategy, Seq::empty(), es1);
    let mes = merge_entries_model(strategy, first, es2);
    lemma_merge_entries_get(strategy, first, es2, k);
    lemma_empty_base_get(strategy, es1, k);
}

/// Every value in the list is an object with unique keys, as every source of
/// this crate collects one.
pub open spec fn all_object_sources(q: Seq<(ValueModel, u8)>) -> bool {
    forall|i: int|
        0 <= i < q.len() ==> (#[trigger] q[i]).0 is Object && keys_unique(q[i].0->Object_0)
}

/// The list is ordered by ascending priority.
pub open spec fn priority_sorted(q: Seq<(ValueModel, u8)>) -> bool {
    forall|a: int, b: int| 0 <= a < b < q.len() ==> (#[trigger] q[a]).1 <= (#[trigger] q[b]).1
}

proof fn lemma_insert_by_priority_sorted(s: Seq<(ValueModel, u8)>, x: (ValueModel, u8))
    requires
        priority_sorted(s),
    ensures
        priority_sorted(insert_by_priority(s, x)),
    decreases s.len(),
{
    if s.len() > 0 && s.last().1 > x.1 {
        assert(forall|j: int| 0 <= j < s.len() - 1 ==> s.drop_last()[j] == s[j]);
        lemma_insert_by_priority_sorted(s.drop_last(), x);
        let r = insert_by_priority(s.drop_last(), x).push(s.last());
        assert forall|a: int, b: int| 0 <= a < b < r.len() implies (#[trigger] r[a]).1 <= (
        #[trigger] r[b]).1 by {
            if b == r.len() - 1 {
                lemma_insert_by_priority_contains(s.drop_last(), x, r[a]);
                assert(r[a].1 <= s.last().1);
            }
        }
    }
}

/// The insertion-sort step holds exactly the elements of the list plus the
/// inserted one.
proof fn lemma_insert_by_priority_contains(
    s: Seq<(ValueModel, u8)>,
    x: (ValueModel, u8),
    y: (ValueModel, u8),
)
    ensures
        insert_by_priority(s, x).contains(y) <==> s.contains(y) || y == x,
    decreases s.len(),
{
    let r = insert_by_priority(s, x);
    if s.len() == 0 {
        assert(r =~= seq![x]);
        if r.contains(y) {
            let i = choose|i: int| 0 <= i < r.len() && r[i] == y;
            assert(y == x);
        }
        if y == x {
            assert(r[0] == y);
            assert(r.contains(y));
        }
    } else if s.last().1 <= x.1 {
        assert(r == s.push(x));
        if s.contains(y) || y == x {
            if y == x {
                assert(r[s.len() as int] == y);
            } else {
                let i = choose|i: int| 0 <= i < s.len() && s[i] == y;
                assert(r[i] == y);
            }
            assert(r.contains(y));
        }
        if r.contains(y) {
            let i = choose|i: int| 0 <= i < r.len() && r[i] == y;
            if i < s.len() {
                assert(s[i] == y);
            }
        }
    } else {
        lemma_insert_by_priority_contains(s.drop_last(), x, y);
        let inner = insert_by_priority(s.drop_last(), x);
        assert(r == inner.push(s.last()));
        if r.contains(y) {
            let i = choose|i: int| 0 <= i < r.len() && r[i] == y;
            if i < inner.len() {
                assert(inner[i] == y);
                assert(inner.contains(y));
                if s.drop_last().contains(y) {
                    let m = choose|m: int| 0 <= m < s.len() - 1 && s.drop_last()[m] == y;
                    assert(s[m] == y);
                    assert(s.contains(y));
                }
            } else {
                assert(s[s.len() - 1] == y);
                assert(s.contains(y));
            }
        }
        if s.contains(y) {
            let m = choose|m: int| 0 <= m < s.len() && s[m] == y;
            if m < s.len() - 1 {
                assert(s.drop_last()[m] == y);
                assert(s.drop_last().contains(y));
                assert(inner.contains(y));
                let i = choose|i: int| 0 <= i < inner.len() && inner[i] == y;
                assert(r[i] == y);
            } else {
                assert(r[r.len() - 1] == y);
            }
            assert(r.contains(y));
        }
        if y == x {
            assert(inner.contains(y));
            let i = choose|i: int| 0 <= i < inner.len() && inner[i] == y;
            assert(r[i] == y);
            assert(r.contains(y));
        }
    }
}

/// The stable sort is ordered and holds exactly the given elements.
proof fn lemma_sort_by_priority_facts(s: Seq<(ValueModel, u8)>)
    ensures
        priority_sorted(sort_by_priority(s)),
        forall|y: (ValueModel, u8)| #[trigger]
            sort_by_priority(s).contains(y) <==> s.contains(y),
    decreases s.len(),
{
    if s.len() > 0 {
        lemma_sort_by_priority_facts(s.drop_last());
        lemma_insert_by_priority_sorted(sort_by_priority(s.drop_last()), s.last());
        assert forall|y: (ValueModel, u8)| #[trigger]
            sort_by_priority(s).contains(y) <==> s.contains(y) by {
            lemma_insert_by_priority_contains(sort_by_priority(s.drop_last()), s.last(), y);
            if s.drop_last().contains(y) {
                let m = choose|m: int| 0 <= m < s.len() - 1 && s.drop_last()[m] == y;
                assert(s[m] == y);
            }
            if s.contains(y) && y != s.last() {
                let m = choose|m: int| 0 <= m < s.len() && s[m] == y;
                assert(s.drop_last()[m] == y);
                assert(s.drop_last().contains(y));
            }
            if y == s.last() || s.drop_last().contains(y) {
                if y == s.last() {
                    assert(s[s.len() - 1] == y);
                    assert(s.contains(y));
                }
            }
        }
    }
}

/// Folding object sources always yields an object.
proof fn lemma_fold_objects(strategy: MergeStrategy, q: Seq<(ValueModel, u8)>)
    requires
        all_object_sources(q),
    ensures
        merge_fold(strategy, q) is Object,
    decreases q.len(),
{
    if q.len() > 0 {
        assert(forall|j: int| 0 <= j < q.len() - 1 ==> q.drop_last()[j] == q[j]);
        lemma_fold_objects(strategy, q.drop_last());
    }
}

/// Folding object sources left to right: where position `j` holds a
/// non-object entry at key `k` and no later source holds `k` at all, the
/// result holds exactly that entry at `k`.
proof fn lemma_deep_fold_last_holder(
    q: Seq<(ValueModel, u8)>,
    j: int,
    k: Seq<char>,
    w: ValueModel,
)
    requires
        all_object_sources(q),
        0 <= j < q.len(),
        obj_get(q[j].0->Object_0, k) == Some(w),
        !(w is Object),
        forall|i: int| j < i < q.len() ==> !obj_has((#[trigger] q[i]).0->Object_0, k),
    ensures
        merge_fold(MergeStrategy::Deep, q) matches ValueModel::Object(mes) && obj_get(mes, k)
            == Some(w),
    decreases q.len(),
{
    assert(forall|i: int| 0 <= i < q.len() - 1 ==> q.drop_last()[i] == q[i]);
    let prev = merge_fold(MergeStrategy::Deep, q.drop_last());
    lemma_fold_objects(MergeStrategy::Deep, q.drop_last());
    let prev_es = prev->Object_0;
    let es_n = q.last().0->Object_0;
    lemma_merge_entries_get(MergeStrategy::Deep, prev_es, es_n, k);
    if j == q.len() - 1 {
        assert(obj_has(es_n, k));
        assert(obj_get(es_n, k) == Some(w));
        if obj_has(prev_es, k) {
            let bv = obj_get(prev_es, k)->Some_0;
            assert(merge_model(MergeStrategy::Deep, bv, w) == w);
        }
    } else {
        assert(!obj_has(es_n, k));
        lemma_deep_fold_last_holder(q.drop_last(), j, k, w);
    }
}

/// The last position whose object entry holds `k` at priority at least `p`,
/// or -1.
pub open spec fn last_holder_at_least(
    q: Seq<(ValueModel, u8)>,
    k: Seq<char>,
    p: u8,
) -> int
    decreases q.len(),
{
    if q.len() == 0 {
        -1
    } else if q.last().0 is Object && obj_has(q.last().0->Object_0, k) && q.last().1 >= p {
        q.len() - 1
    } else {
        last_holder_at_least(q.drop_last(), k, p)
    }
}

proof fn lemma_last_holder_at_least(q: Seq<(ValueModel, u8)>, k: Seq<char>, p: u8)
    ensures
        last_holder_at_least(q, k, p) == -1 ==> (forall|i: int|
            0 <= i < q.len() ==> !((#[trigger] q[i]).0 is Object && obj_has(q[i].0->Object_0, k)
                && q[i].1 >= p)),
        last_holder_at_least(q, k, p) != -1 ==> {
            let h = last_holder_at_least(q, k, p);
            &&& 0 <= h < q.len()
            &&& q[h].0 is Object
            &&& obj_has(q[h].0->Object_0, k)
            &&& q[h].1 >= p
            &&& (forall|i: int|
                h < i < q.len() ==> !((#[trigger] q[i]).0 is Object && obj_has(
                    q[i].0->Object_0,
                    k,
                ) && q[i].1 >= p))
        },
    decreases q.len(),
{
    if q.len() > 0 && !(q.last().0 is Object && obj_has(q.last().0->Object_0, k) && q.last().1
        >= p) {
        assert(forall|i: int| 0 <= i < q.len() - 1 ==> q.drop_last()[i] == q[i]);
        lemma_last_holder_at_least(q.drop_last(), k, p);
    }
}

/// Priority monotonicity over any number of object sources: where one source
/// holds a non-object entry at a key, and no other source of equal or higher
/// priority holds that key, the Deep-merged result holds exactly that entry
/// at the key, whatever lower-priority sources hold there.
pub proof fn lemma_deep_priority_monotonic_general(
    pairs: Seq<(ValueModel, u8)>,
    j: int,
    k: Seq<char>,
    w: ValueModel,
)
    requires
        all_object_sources(pairs),
        0 <= j < pairs.len(),
        obj_get(pairs[j].0->Object_0, k) == Some(w),
        !(w is Object),
        forall|i: int|
            0 <= i < pairs.len() && i != j && (#[trigger] pairs[i]).1 >= pairs[j].1
                ==> !obj_has(pairs[i].0->Object_0, k),
    ensures
        merged_model(MergeStrategy::Deep, pairs) matches ValueModel::Object(mes) && obj_get(
            mes,
            k,
        ) == Some(w),
{
    let p2 = pairs[j].1;
    let sorted = sort_by_priority(pairs);
    lemma_sort_by_priority_facts(pairs);
    assert(all_object_sources(sorted)) by {
        assert forall|i: int|
            0 <= i < sorted.len() implies (#[trigger] sorted[i]).0 is Object && keys_unique(
            sorted[i].0->Object_0,
        ) by {
            assert(sorted.contains(sorted[i]));
            assert(pairs.contains(sorted[i]));
            let m = choose|m: int| 0 <= m < pairs.len() && pairs[m] == sorted[i];
            assert(pairs[m].0 is Object);
        }
    }
    assert(pairs.contains(pairs[j]));
    assert(sorted.contains(pairs[j]));
    let j0 = choose|i: int| 0 <= i < sorted.len() && sorted[i] == pairs[j];
    lemma_last_holder_at_least(sorted, k, p2);
    let h = last_holder_at_least(sorted, k, p2);
    assert(h != -1) by {
        if h == -1 {
            assert(!(sorted[j0].0 is Object && obj_has(sorted[j0].0->Object_0, k) && sorted[j0].1
                >= p2));
        }
    }
    assert(sorted.contains(sorted[h]));
    assert(pairs.contains(sorted[h]));
    let m = choose|m: int| 0 <= m < pairs.len() && pairs[m] == sorted[h];
    assert(m == j) by {
        if m != j {
            assert(pairs[m].1 >= p2);
            assert(!obj_has(pairs[m].0->Object_0, k));
        }
    }
    assert(obj_get(sorted[h].0->Object_0, k) == Some(w));
    assert forall|i: int| h < i < sorted.len() implies !obj_has(
        (#[trigger] sorted[i]).0->Object_0,
        k,
    ) by {
        assert(sorted[h].1 <= sorted[i].1);
        assert(sorted[i].1 >= p2);
    }
    lemma_deep_fold_last_holder(sorted, h, k, w);
}

/// Priority monotonicity: where two object sources share a key and the two
/// entries are not both objects, the Deep merge of the two sources holds the
/// higher-priority entry at that key.
pub proof fn lemma_deep_priority_monotonic(
    es1: Seq<(Seq<char>, ValueModel)>,
    p1: u8,
    es2: Seq<(Seq<char>, ValueModel)>,
    p2: u8,
    k: Seq<char>,
    v1: ValueModel,
    v2: ValueModel,
)
    requires
        p1 < p2,
        keys_unique(es1),
        keys_unique(es2),
        obj_get(es1, k) == Some(v1),
        obj_get(es2, k) == Some(v2),
        !(v1 is Object && v2 is Object),
    ensures
        merged_model(
            MergeStrategy::Deep,
            seq![(ValueModel::Object(es1), p1), (ValueModel::Object(es2), p2)],
        ) matches ValueModel::Object(mes) && obj_get(mes, k) == Some(v2),
{
    lemma_two_sources_get(MergeStrategy::Deep, es1, p1, es2, p2, k);
}

/// Append merge concatenates arrays held at a shared key: base elements
/// first, incoming elements after them, in their given orders, so the length
/// of the result is the sum of the two lengths.
pub proof fn lemma_append_concatenates(
    es1: Seq<(Seq<char>, ValueModel)>,
    p1: u8,
    es2: Seq<(Seq<char>, ValueModel)>,
    p2: u8,
    k: Seq<char>,
    xs: Seq<ValueModel>,
    ys: Seq<ValueModel>,
)
    requires
        p1 < p2,
        keys_unique(es1),
        keys_unique(es2),
        obj_get(es1, k) == Some(ValueModel::Array(xs)),
        obj_get(es2, k) == Some(ValueModel::Array(ys)),
    ensures
        merged_model(
            MergeStrategy::Append,
            seq![(ValueModel::Object(es1), p1), (ValueModel::Object(es2), p2)],
        ) matches ValueModel::Object(mes) && obj_get(mes, k) == Some(
            ValueModel::Array(xs + ys),
        ),
        (xs + ys).len() == xs.len() + ys.len(),
{
    lemma_two_sources_get(MergeStrategy::Append, es1, p1, es2, p2, k);
}

/// Replace merge never recurses into nested objects: where both sources hold
/// an object at a shared key, the higher-priority object stands wholesale,
/// keys of the lower-priority one included only if the higher one has them.
/// Deep merge, in contrast, keeps a nested key of the lower-priority object
/// that the higher-priority object does not hold.
pub proof fn lemma_replace_shallow_deep_recursive(
    es1: Seq<(Seq<char>, ValueModel)>,
    p1: u8,
    es2: Seq<(Seq<char>, ValueModel)>,
    p2: u8,
    k: Seq<char>,
    o1: Seq<(Seq<char>, ValueModel)>,
    o2: Seq<(Seq<char>, ValueModel)>,
    nested: Seq<char>,
)
    requires
        p1 < p2,
        keys_unique(es1),
        keys_unique(es2),
        keys_unique(o2),
        obj_get(es1, k) == Some(ValueModel::Object(o1)),
        obj_get(es2, k) == Some(ValueModel::Object(o2)),
        !obj_has(o2, nested),
    ensures
        merged_model(
            MergeStrategy::Replace,
            seq![(ValueModel::Object(es1), p1), (ValueModel::Object(es2), p2)],
        ) matches ValueModel::Object(mes) && obj_get(mes, k) == Some(ValueModel::Object(o2)),
        merged_model(
            MergeStrategy::Deep,
            seq![(ValueModel::Object(es1), p1), (ValueModel::Object(es2), p2)],
        ) matches ValueModel::Object(dmes) && obj_get(dmes, k) matches Some(dv) && dv
            matches ValueModel::Object(dobj) && obj_get(dobj, nested) == obj_get(o1, nested),
{
    lemma_two_sources_get(MergeStrategy::Replace, es1, p1, es2, p2, k);
    lemma_two_sources_get(MergeStrategy::Deep, es1, p1, es2, p2, k);
    lemma_merge_entries_get(MergeStrategy::Deep, o1, o2, nested);
}

/// Null is a meaningful overwrite under Deep: an explicit null entry of the
/// higher-priority source erases the lower-priority entry at that key.
pub proof fn lemma_deep_null_overwrites(
    es1: Seq<(Seq<char>, ValueModel)>,
    p1: u8,
    es2: Seq<(Seq<char>, ValueModel)>,
    p2: u8,
    k: Seq<char>,
)
    requires
        p1 < p2,
        keys_unique(es1),
        keys_unique(es2),
        obj_get(es2, k) == Some(ValueModel::Null),
    ensures
        merged_model(
            MergeStrategy::Deep,
            seq![(ValueModel::Object(es1), p1), (ValueModel::Object(es2), p2)],
        ) matches ValueModel::Object(mes) && obj_get(mes, k) == Some(ValueModel::Null),
{
    lemma_two_sources_get(MergeStrategy::Deep, es1, p1, es2, p2, k);
}

/// What mapped collection stores under each field: where the field mapping
/// table (with unique field names) maps the field to an explicit variable,
/// the value comes from the override table or the snapshot under that
/// variable alone; fields without a mapping keep whatever was there.
pub proof fn lemma_mapped_fold_get(
    m: crate::environment::EnvModel,
    vars: Seq<(Seq<char>, Seq<char>)>,
    acc: Seq<(Seq<char>, ValueModel)>,
    fms: Seq<(Seq<char>, Seq<char>)>,
    field: Seq<char>,
)
    requires
        keys_unique(fms),
    ensures
        obj_get(crate::environment::mapped_fold(m, vars, acc, fms), field) == (match obj_get(
            fms,
            field,
        ) {
            Some(envk) => match obj_get(m.overrides, envk) {
                Some(ov) => Some(crate::coerce::coerce_model(ov)),
                None => match obj_get(vars, envk) {
                    Some(v) => Some(crate::coerce::coerce_model(v)),
                    None => obj_get(acc, field),
                },
            },
            None => obj_get(acc, field),
        }),
    decreases fms.len(),
{
    if fms.len() == 0 {
        lemma_obj_index_none::<Seq<char>>(fms, field);
    } else {
        let f0 = fms[0].0;
        let k0 = fms[0].1;
        let acc2 = crate::environment::mapped_step(m, vars, acc, f0, k0);
        let rest = fms.drop_first();
        assert(forall|j: int| 0 <= j < rest.len() ==> #[trigger] rest[j] == fms[j + 1]);
        assert(keys_unique(rest));
        lemma_mapped_fold_get(m, vars, acc2, rest, field);
        crate::value::lemma_obj_get_unfold(fms, field);
        if field == f0 {
            assert(forall|j: int| 0 <= j < rest.len() ==> (#[trigger] rest[j]).0 != field);
            lemma_obj_index_none(rest, field);
            crate::value::lemma_obj_index_first(fms, field, 0);
            match obj_get(m.overrides, k0) {
                Some(ov) => {
                    crate::value::lemma_obj_set_get(acc, f0, crate::coerce::coerce_model(ov), field);
                },
                None => {
                    match obj_get(vars, k0) {
                        Some(v) => {
                            crate::value::lemma_obj_set_get(
                                acc,
                                f0,
                                crate::coerce::coerce_model(v),
                                field,
                            );
                        },
                        None => {},
                    }
                },
            }
        } else {
            match obj_get(m.overrides, k0) {
                Some(ov) => {
                    crate::value::lemma_obj_set_get(acc, f0, crate::coerce::coerce_model(ov), field);
                },
                None => {
                    match obj_get(vars, k0) {
                        Some(v) => {
                            crate::value::lemma_obj_set_get(
                                acc,
                                f0,
                                crate::coerce::coerce_model(v),
                                field,
                            );
                        },
                        None => {},
                    }
                },
            }
        }
    }
}

/// The discovery scan never displaces a field that mapped collection already
/// resolved: a key present in the accumulator stays exactly as it is.
pub proof fn lemma_scan_fold_keeps(
    m: crate::environment::EnvModel,
    acc: Seq<(Seq<char>, ValueModel)>,
    pairs: Seq<(Seq<char>, Seq<char>)>,
    field: Seq<char>,
)
    requires
        obj_has(acc, field),
    ensures
        obj_get(crate::environment::scan_fold(m, acc, pairs), field) == obj_get(acc, field),
    decreases pairs.len(),
{
    if pairs.len() > 0 {
        let acc2 = crate::environment::scan_step(m, acc, pairs[0].0, pairs[0].1);
        match m.prefix {
            Some(p) => {
                let p_cmp = if m.case_sensitive {
                    p
                } else {
                    crate::strings::upper_of(p)
                };
                let k_cmp = if m.case_sensitive {
                    pairs[0].0
                } else {
                    crate::strings::upper_of(pairs[0].0)
                };
                if crate::strings::is_prefix(p_cmp, k_cmp) && !crate::environment::mapping_targets(
                    m.field_mappings,
                    pairs[0].0,
                ) {
                    let name = crate::strings::lower_of(
                        crate::strings::trim_prefix(k_cmp.skip(p_cmp.len() as int), m.separator),
                    );
                    if !obj_has(acc, name) {
                        crate::value::lemma_obj_set_get(
                            acc,
                            name,
                            crate::coerce::coerce_model(pairs[0].1),
                            field,
                        );
                    }
                }
            },
            None => {},
        }
        assert(obj_get(acc2, field) == obj_get(acc, field));
        lemma_scan_fold_keeps(m, acc2, pairs.drop_first(), field);
    }
}

/// Field-mapping precedence: a field mapped to an explicit variable is read
/// from that variable (override table first, then the snapshot), and no
/// variable matched through the generic prefix pattern displaces it.
pub proof fn lemma_field_mapping_precedence(
    m: crate::environment::EnvModel,
    vars: Seq<(Seq<char>, Seq<char>)>,
    field: Seq<char>,
    envk: Seq<char>,
)
    requires
        keys_unique(m.field_mappings),
        obj_get(m.field_mappings, field) == Some(envk),
        obj_get(m.overrides, envk) is Some || obj_get(vars, envk) is Some,
    ensures
        crate::environment::collect_model(m, vars) matches ValueModel::Object(es) && obj_get(
            es,
            field,
        ) == Some(
            crate::coerce::coerce_model(
                match obj_get(m.overrides, envk) {
                    Some(ov) => ov,
                    None => obj_get(vars, envk)->Some_0,
                },
            ),
        ),
{
    crate::value::lemma_obj_index(m.field_mappings, field);
    assert(m.field_mappings.len() > 0);
    let mapped = crate::environment::mapped_fold(m, vars, Seq::empty(), m.field_mappings);
    lemma_obj_index_none::<ValueModel>(Seq::empty(), field);
    lemma_mapped_fold_get(m, vars, Seq::empty(), m.field_mappings, field);
    lemma_scan_fold_keeps(m, mapped, vars, field);
}

proof fn lemma_flat_fold_unique(
    m: crate::environment::EnvModel,
    acc: Seq<(Seq<char>, ValueModel)>,
    pairs: Seq<(Seq<char>, Seq<char>)>,
)
    requires
        keys_unique(acc),
    ensures
        keys_unique(crate::environment::flat_fold(m, acc, pairs)),
    decreases pairs.len(),
{
    if pairs.len() > 0 {
        let acc2 = crate::environment::flat_step(m, acc, pairs[0].0, pairs[0].1);
        match m.prefix {
            Some(p) => {
                let p_cmp = if m.case_sensitive {
                    p
                } else {
                    crate::strings::upper_of(p)
                };
                let k_cmp = if m.case_sensitive {
                    pairs[0].0
                } else {
                    crate::strings::upper_of(pairs[0].0)
                };
                if crate::strings::is_prefix(p_cmp, k_cmp) {
                    crate::value::lemma_obj_set_unique(
                        acc,
                        crate::strings::lower_of(
                            crate::strings::trim_prefix(
                                k_cmp.skip(p_cmp.len() as int),
                                m.separator,
                            ),
                        ),
                        crate::coerce::coerce_model(pairs[0].1),
                    );
                }
            },
            None => {
                crate::value::lemma_obj_set_unique(
                    acc,
                    crate::strings::lower_of(pairs[0].0),
                    crate::coerce::coerce_model(pairs[0].1),
                );
            },
        }
        lemma_flat_fold_unique(m, acc2, pairs.drop_first());
    }
}

proof fn lemma_mapped_fold_unique(
    m: crate::environment::EnvModel,
    vars: Seq<(Seq<char>, Seq<char>)>,
    acc: Seq<(Seq<char>, ValueModel)>,
    fms: Seq<(Seq<char>, Seq<char>)>,
)
    requires
        keys_unique(acc),
    ensures
        keys_unique(crate::environment::mapped_fold(m, vars, acc, fms)),
    decreases fms.len(),
{
    if fms.len() > 0 {
        let acc2 = crate::environment::mapped_step(m, vars, acc, fms[0].0, fms[0].1);
        match obj_get(m.overrides, fms[0].1) {
            Some(ov) => {
                crate::value::lemma_obj_set_unique(
                    acc,
                    fms[0].0,
                    crate::coerce::coerce_model(ov),
                );
            },
            None => {
                match obj_get(vars, fms[0].1) {
                    Some(v) => {
                        crate::value::lemma_obj_set_unique(
                            acc,
                            fms[0].0,
                            crate::coerce::coerce_model(v),
                        );
                    },
                    None => {},
                }
            },
        }
        lemma_mapped_fold_unique(m, vars, acc2, fms.drop_first());
    }
}

proof fn lemma_scan_fold_unique(
    m: crate::environment::EnvModel,
    acc: Seq<(Seq<char>, ValueModel)>,
    pairs: Seq<(Seq<char>, Seq<char>)>,
)
    requires
        keys_unique(acc),
    ensures
        keys_unique(crate::environment::scan_fold(m, acc, pairs)),
    decreases pairs.len(),
{
    if pairs.len() > 0 {
        let acc2 = crate::environment::scan_step(m, acc, pairs[0].0, pairs[0].1);
        match m.prefix {
            Some(p) => {
                let p_cmp = if m.case_sensitive {
                    p
                } else {
                    crate::strings::upper_of(p)
                };
                let k_cmp = if m.case_sensitive {
                    pairs[0].0
                } else {
                    crate::strings::upper_of(pairs[0].0)
                };
                if crate::strings::is_prefix(p_cmp, k_cmp) && !crate::environment::mapping_targets(
                    m.field_mappings,
                    pairs[0].0,
                ) {
                    let name = crate::strings::lower_of(
                        crate::strings::trim_prefix(k_cmp.skip(p_cmp.len() as int), m.separator),
                    );
                    if !obj_has(acc, name) {
                        crate::value::lemma_obj_set_unique(
                            acc,
                            name,
                            crate::coerce::coerce_model(pairs[0].1),
                        );
                    }
                }
            },
            None => {},
        }
        lemma_scan_fold_unique(m, acc2, pairs.drop_first());
    }
}

/// Whatever the snapshot holds, an environment source collects an object
/// whose keys are unique.
pub proof fn lemma_collect_keys_unique(
    m: crate::environment::EnvModel,
    vars: Seq<(Seq<char>, Seq<char>)>,
)
    ensures
        crate::environment::collect_model(m, vars) matches ValueModel::Object(es) && keys_unique(
            es,
        ),
{
    assert(keys_unique(Seq::<(Seq<char>, ValueModel)>::empty()));
    if m.field_mappings.len() > 0 {
        lemma_mapped_fold_unique(m, vars, Seq::empty(), m.field_mappings);
        lemma_scan_fold_unique(
            m,
            crate::environment::mapped_fold(m, vars, Seq::empty(), m.field_mappings),
            vars,
        );
    } else {
        lemma_flat_fold_unique(m, Seq::empty(), vars);
        lemma_flat_fold_unique(
            m,
            crate::environment::flat_fold(m, Seq::empty(), vars),
            m.overrides,
        );
    }
}

proof fn lemma_cli_fold_unique(args: Seq<Seq<char>>, i: int, acc: Seq<(Seq<char>, ValueModel)>)
    requires
        keys_unique(acc),
    ensures
        keys_unique(crate::cli::cli_fold(args, i, acc)),
    decreases args.len() - i,
{
    if 0 <= i < args.len() {
        let arg = args[i];
        if crate::strings::is_prefix("--"@, arg) {
            let key = crate::strings::trim_prefix(arg, "--"@);
            let eq = crate::strings::first_pos(key, '=');
            if eq >= 0 {
                crate::value::lemma_obj_set_unique(
                    acc,
                    key.take(eq),
                    crate::coerce::coerce_model(key.skip(eq + 1)),
                );
                lemma_cli_fold_unique(
                    args,
                    i + 1,
                    obj_set(acc, key.take(eq), crate::coerce::coerce_model(key.skip(eq + 1))),
                );
            } else if i + 1 < args.len() && !crate::strings::is_prefix("--"@, args[i + 1]) {
                crate::value::lemma_obj_set_unique(
                    acc,
                    key,
                    crate::coerce::coerce_model(args[i + 1]),
                );
                lemma_cli_fold_unique(
                    args,
                    i + 2,
                    obj_set(acc, key, crate::coerce::coerce_model(args[i + 1])),
                );
            } else {
                crate::value::lemma_obj_set_unique(acc, key, ValueModel::Bool(true));
                lemma_cli_fold_unique(args, i + 1, obj_set(acc, key, ValueModel::Bool(true)));
            }
        } else if crate::strings::is_prefix("-"@, arg) && arg.len() == 2 {
            let key = crate::strings::trim_prefix(arg, "-"@);
            if i + 1 < args.len() && !crate::strings::is_prefix("-"@, args[i + 1]) {
                crate::value::lemma_obj_set_unique(
                    acc,
                    key,
                    crate::coerce::coerce_model(args[i + 1]),
                );
                lemma_cli_fold_unique(
                    args,
                    i + 2,
                    obj_set(acc, key, crate::coerce::coerce_model(args[i + 1])),
                );
            } else {
                crate::value::lemma_obj_set_unique(acc, key, ValueModel::Bool(true));
                lemma_cli_fold_unique(args, i + 1, obj_set(acc, key, ValueModel::Bool(true)));
            }
        } else {
            lemma_cli_fold_unique(args, i + 1, acc);
        }
    }
}

/// Whatever the argument vector holds, a command-line source collects an
/// object whose keys are unique.
pub proof fn lemma_cli_keys_unique(args: Seq<Seq<char>>)
    ensures
        keys_unique(crate::cli::cli_parse_model(args)),
{
    assert(keys_unique(Seq::<(Seq<char>, ValueModel)>::empty()));
    lemma_cli_fold_unique(args, 1, Seq::empty());
}

/// Merging keeps object keys unique: folding any incoming entries into a
/// base object with unique keys yields unique keys again.
pub proof fn lemma_merge_keeps_unique_keys(
    strategy: MergeStrategy,
    bes: Seq<(Seq<char>, ValueModel)>,
    ies: Seq<(Seq<char>, ValueModel)>,
)
    requires
        keys_unique(bes),
    ensures
        keys_unique(merge_entries_model(strategy, bes, ies)),
    decreases ies.len(),
{
    if ies.len() > 0 {
        let k = ies[0].0;
        let iv = ies[0].1;
        let nb = if strategy is Replace {
            crate::value::obj_set(bes, k, iv)
        } else {
            match obj_get(bes, k) {
                Some(bv) => crate::value::obj_set(bes, k, merge_model(strategy, bv, iv)),
                None => crate::value::obj_set(bes, k, iv),
            }
        };
        if strategy is Replace {
            crate::value::lemma_obj_set_unique(bes, k, iv);
        } else {
            match obj_get(bes, k) {
                Some(bv) => {
                    crate::value::lemma_obj_set_unique(bes, k, merge_model(strategy, bv, iv));
                },
                None => {
                    crate::value::lemma_obj_set_unique(bes, k, iv);
                },
            }
        }
        lemma_merge_keeps_unique_keys(strategy, nb, ies.drop_first());
    }
}

/// Field-mapping precedence over the live environment, as a plain scenario:
/// where a field is mapped to an explicit variable, no override shadows that
/// variable, and the snapshot holds it, the collected field is the coerced
/// snapshot value — whatever other variables (generic prefix-pattern ones for
/// the same field included) the snapshot also holds.
pub proof fn lemma_mapped_field_reads_mapped_variable(
    m: crate::environment::EnvModel,
    vars: Seq<(Seq<char>, Seq<char>)>,
    field: Seq<char>,
    envk: Seq<char>,
    v1: Seq<char>,
)
    requires
        keys_unique(m.field_mappings),
        obj_get(m.field_mappings, field) == Some(envk),
        !obj_has(m.overrides, envk),
        obj_get(vars, envk) == Some(v1),
    ensures
        crate::environment::collect_model(m, vars) matches ValueModel::Object(es) && obj_get(
            es,
            field,
        ) == Some(crate::coerce::coerce_model(v1)),
{
    lemma_field_mapping_precedence(m, vars, field, envk);
}

/// Source ordering determinism: what a build yields is a function of the
/// registered sources, the strategy and the snapshot alone, so re-running an
/// identical build on an identical snapshot yields an identical value.
pub proof fn lemma_build_value_deterministic(
    b1: crate::builder::ConfigBuilder,
    b2: crate::builder::ConfigBuilder,
    vars: Seq<(Seq<char>, Seq<char>)>,
)
    requires
        b1.sources@ == b2.sources@,
        b1.merge_strategy == b2.merge_strategy,
    ensures
        crate::builder::builder_merged_model(b1.merge_strategy, b1.sources@, vars)
            == crate::builder::builder_merged_model(b2.merge_strategy, b2.sources@, vars),
{
}

/// Correctly priority-tagged sources merge the same whichever order they
/// were handed in: the stable sort places the lower priority first either
/// way.
pub proof fn lemma_order_by_priority(
    strategy: MergeStrategy,
    x: (ValueModel, u8),
    y: (ValueModel, u8),
)
    requires
        x.1 < y.1,
    ensures
        merged_model(strategy, seq![x, y]) == merged_model(strategy, seq![y, x]),
{
    assert(seq![x, y].drop_last() =~= seq![x]);
    assert(seq![y, x].drop_last() =~= seq![y]);
    assert(seq![x].drop_last() =~= Seq::<(ValueModel, u8)>::empty());
    assert(seq![y].drop_last() =~= Seq::<(ValueModel, u8)>::empty());
    assert(sort_by_priority(Seq::<(ValueModel, u8)>::empty()) == Seq::<(ValueModel, u8)>::empty());
    assert(insert_by_priority(Seq::empty(), x) =~= seq![x]);
    assert(insert_by_priority(Seq::empty(), y) =~= seq![y]);
    assert(seq![x].last() == x);
    assert(sort_by_priority(seq![x]) == seq![x]);
    assert(sort_by_priority(seq![y]) == seq![y]);
    assert(sort_by_priority(seq![x, y]) == insert_by_priority(seq![x], y));
    assert(insert_by_priority(seq![x], y) =~= seq![x, y]);
    assert(sort_by_priority(seq![y, x]) == insert_by_priority(seq![y], x));
    assert(seq![y].last() == y);
    assert(insert_by_priority(seq![y], x) =~= insert_by_priority(Seq::empty(), x).push(y));
    assert(insert_by_priority(seq![y], x) =~= seq![x, y]);
}

} // verus!
