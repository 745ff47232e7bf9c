//! Merge policies and the engine that folds several structured values into
//! one under an explicit precedence order.

use vstd::prelude::*;

use crate::value::{
    entries_model, height, height_entries, lemma_entries_model, lemma_height_entries_child,
    lemma_obj_index, obj_get, obj_has, obj_set, object_index, object_set, ConfigValue, ValueModel,
};

verus! {

/// How two structured values are combined at a shared key.
#[derive(Debug, Clone, Copy, PartialEq, Eq)]
pub enum MergeStrategy {
    /// Within a shared object, the incoming value replaces the base value per
    /// key, wholesale; there is no recursion into nested objects.
    Replace,
    /// Recursive merge: where both sides hold an object, merge key by key;
    /// everywhere else the incoming value (null included) overwrites.
    Deep,
    /// Like `Deep`, except that where both sides hold an array the base
    /// elements are kept and the incoming elements are appended after them.
    Append,
}

/// The result of merging `base` with `incoming` under `strategy`.
pub open spec fn merge_model(strategy: MergeStrategy, base: ValueModel, incoming: ValueModel) -> ValueModel
    decreases height(incoming), 0int,
{
    match (base, incoming) {
        (ValueModel::Object(bes), ValueModel::Object(ies)) => ValueModel::Object(
            merge_entries_model(strategy, bes, ies),
        ),
        (ValueModel::Array(ba), ValueModel::Array(ia)) => {
            if strategy is Append {
                ValueModel::Array(ba + ia)
            } else {
                ValueModel::Array(ia)
            }
        },
        (_, i) => i,
    }
}

/// Fold the incoming object entries into the base object entries, one key at
/// a time, in the incoming order.
pub open spec fn merge_entries_model(
    strategy: MergeStrategy,
    bes: Seq<(Seq<char>, ValueModel)>,
    ies: Seq<(Seq<char>, ValueModel)>,
) -> Seq<(Seq<char>, ValueModel)>
    decreases height_entries(ies), ies.len() + 1,
{
    if ies.len() == 0 {
        bes
    } else {
        let k = ies[0].0;
        let iv = ies[0].1;
        let nb = if strategy is Replace {
            obj_set(bes, k, iv)
        } else {
            match obj_get(bes, k) {
                Some(bv) => obj_set(bes, k, merge_model(strategy, bv, iv)),
                None => obj_set(bes, k, iv),
            }
        };
        merge_entries_model(strategy, nb, ies.drop_first())
    }
}

/// What the entry fold stores under each key: where the incoming object holds
/// the key, its value has the last word (merged with the base entry as the
/// strategy directs); every other key keeps its base entry.
pub proof fn lemma_merge_entries_get(
    strategy: MergeStrategy,
    bes: Seq<(Seq<char>, ValueModel)>,
    ies: Seq<(Seq<char>, ValueModel)>,
    k: Seq<char>,
)
    requires
        crate::value::keys_unique(ies),
    ensures
        obj_get(merge_entries_model(strategy, bes, ies), k) == (if obj_has(ies, k) {
            if strategy is Replace || !obj_has(bes, k) {
                obj_get(ies, k)
            } else {
                Some(
                    merge_model(
                        strategy,
                        obj_get(bes, k)->Some_0,
                        obj_get(ies, k)->Some_0,
                    ),
                )
            }
        } else {
            obj_get(bes, k)
        }),
    decreases ies.len(),
{
    if ies.len() == 0 {
        crate::value::lemma_obj_index_none(ies, k);
    } else {
        let k0 = ies[0].0;
        let iv0 = ies[0].1;
        let nb = if strategy is Replace {
            obj_set(bes, k0, iv0)
        } else {
            match obj_get(bes, k0) {
                Some(bv) => obj_set(bes, k0, merge_model(strategy, bv, iv0)),
                None => obj_set(bes, k0, iv0),
            }
        };
        let rest = ies.drop_first();
        assert(forall|j: int| 0 <= j < rest.len() ==> #[trigger] rest[j] == ies[j + 1]);
        assert(crate::value::keys_unique(rest));
        lemma_merge_entries_get(strategy, nb, rest, k);
        crate::value::lemma_obj_get_unfold(ies, k);
        if k == k0 {
            assert(forall|j: int| 0 <= j < rest.len() ==> (#[trigger] rest[j]).0 != k);
            crate::value::lemma_obj_index_none(rest, k);
            crate::value::lemma_obj_index_first(ies, k, 0);
            crate::value::lemma_obj_set_get(bes, k0, nb_value_of(strategy, bes, k0, iv0), k);
        } else {
            crate::value::lemma_obj_set_get(bes, k0, nb_value_of(strategy, bes, k0, iv0), k);
        }
    }
}

/// The value that one fold step stores under the incoming key.
spec fn nb_value_of(
    strategy: MergeStrategy,
    bes: Seq<(Seq<char>, ValueModel)>,
    k0: Seq<char>,
    iv0: ValueModel,
) -> ValueModel {
    if strategy is Replace {
        iv0
    } else {
        match obj_get(bes, k0) {
            Some(bv) => merge_model(strategy, bv, iv0),
            None => iv0,
        }
    }
}

impl MergeStrategy {
    /// Merge `incoming` into `base` under this strategy.
    pub fn merge(&self, base: ConfigValue, incoming: ConfigValue) -> (r: ConfigValue)
        ensures
            r@ == merge_model(*self, base@, incoming@),
    {
        merge_values(*self, base, incoming)
    }
}

/// Elementwise model of a priority-tagged value list.
pub open spec fn pairs_model(s: Seq<(ConfigValue, u8)>) -> Seq<(ValueModel, u8)> {
    Seq::new(s.len(), |i: int| (s[i].0@, s[i].1))
}

/// Insert `x` after every element whose priority is at most `x`'s, keeping the
/// rest of the order: the single step of a stable insertion sort.
pub open spec fn insert_by_priority(s: Seq<(ValueModel, u8)>, x: (ValueModel, u8)) -> Seq<
    (ValueModel, u8),
>
    decreases s.len(),
{
    if s.len() == 0 {
        seq![x]
    } else if s.last().1 <= x.1 {
        s.push(x)
    } else {
        insert_by_priority(s.drop_last(), x).push(s.last())
    }
}

/// Stable sort of a priority-tagged value list, ascending by priority: values
/// of equal priority keep the order in which they were given.
pub open spec fn sort_by_priority(s: Seq<(ValueModel, u8)>) -> Seq<(ValueModel, u8)>
    decreases s.len(),
{
    if s.len() == 0 {
        Seq::empty()
    } else {
        insert_by_priority(sort_by_priority(s.drop_last()), s.last())
    }
}

/// Left fold of the merge over a value list: start from an empty object and
/// merge each value in turn.
pub open spec fn merge_fold(strategy: MergeStrategy, pairs: Seq<(ValueModel, u8)>) -> ValueModel
    decreases pairs.len(),
{
    if pairs.len() == 0 {
        ValueModel::Object(Seq::empty())
    } else {
        merge_model(strategy, merge_fold(strategy, pairs.drop_last()), pairs.last().0)
    }
}

/// The merged result of a list of priority-tagged values: stable-sort by
/// ascending priority, then fold under the strategy.
pub open spec fn merged_model(strategy: MergeStrategy, pairs: Seq<(ValueModel, u8)>) -> ValueModel {
    merge_fold(strategy, sort_by_priority(pairs))
}

/// Elementwise model of a keyed, priority-tagged value list; the keys are not
/// part of the model.
pub open spec fn keyed_pairs_model(s: Seq<(String, (ConfigValue, u8))>) -> Seq<(ValueModel, u8)> {
    Seq::new(s.len(), |i: int| (s[i].1.0@, s[i].1.1))
}

/// Where the insertion point `idx` is the first position from which every
/// element has a strictly higher priority than `x`, the insertion-sort step
/// places `x` exactly there.
proof fn lemma_insert_by_priority_split(s: Seq<(ValueModel, u8)>, x: (ValueModel, u8), idx: int)
    requires
        0 <= idx <= s.len(),
        forall|j: int| idx <= j < s.len() ==> (#[trigger] s[j]).1 > x.1,
        idx > 0 ==> s[idx - 1].1 <= x.1,
    ensures
        insert_by_priority(s, x) == s.subrange(0, idx) + seq![x] + s.subrange(idx, s.len() as int),
    decreases s.len(),
{
    if s.len() == 0 {
        assert(insert_by_priority(s, x) =~= s.subrange(0, idx) + seq![x] + s.subrange(
            idx,
            s.len() as int,
        ));
    } else if idx == s.len() {
        assert(insert_by_priority(s, x) =~= s.subrange(0, idx) + seq![x] + s.subrange(
            idx,
            s.len() as int,
        ));
    } else {
        assert(s.last().1 > x.1);
        lemma_insert_by_priority_split(s.drop_last(), x, idx);
        assert(insert_by_priority(s, x) =~= s.subrange(0, idx) + seq![x] + s.subrange(
            idx,
            s.len() as int,
        ));
    }
}

/// Stable insertion sort of priority-tagged values, ascending by priority.
#[verifier::loop_isolation(false)]
fn sort_pairs(v: Vec<(ConfigValue, u8)>) -> (r: Vec<(ConfigValue, u8)>)
    ensures
        pairs_model(r@) == sort_by_priority(pairs_model(v@)),
{
    let mut out: Vec<(ConfigValue, u8)> = Vec::new();
    let mut i: usize = 0;
    while i < v.len()
        invariant
            i <= v.len(),
            pairs_model(out@) == sort_by_priority(pairs_model(v@.take(i as int))),
        decreases v.len() - i,
    {
        let ghost sorted = pairs_model(out@);
        let x = (v[i].0.clone(), v[i].1);
        let ghost xm = (x.0@, x.1);
        let mut idx: usize = out.len();
        while idx > 0 && out[idx - 1].1 > x.1
            invariant
                idx <= out.len(),
                forall|j: int| idx <= j < out.len() ==> (#[trigger] pairs_model(out@)[j]).1 > xm.1,
            decreases idx,
        {
            idx = idx - 1;
        }
        out.insert(idx, x);
        proof {
            lemma_insert_by_priority_split(sorted, xm, idx as int);
            assert(pairs_model(out@) =~= sorted.subrange(0, idx as int) + seq![xm]
                + sorted.subrange(idx as int, sorted.len() as int));
            assert(pairs_model(v@.take(i as int + 1)).drop_last() =~= pairs_model(
                v@.take(i as int),
            ));
            assert(pairs_model(v@.take(i as int + 1)).last() == xm);
        }
        i = i + 1;
    }
    proof {
        assert(v@.take(v@.len() as int) =~= v@);
    }
    out
}

/// The merge engine: holds a strategy and folds priority-tagged values.
pub struct ConfigMerger {
    pub strategy: MergeStrategy,
}

impl ConfigMerger {
    /// Create a merger for the given strategy.
    pub fn new(strategy: MergeStrategy) -> (r: Self)
        ensures
            r.strategy == strategy,
    {
        ConfigMerger { strategy }
    }

    /// Merge a list of priority-tagged values: stable-sort ascending by
    /// priority (equal priorities keep insertion order), then fold them into
    /// one value, starting from an empty object.
    #[verifier::loop_isolation(false)]
    pub fn merge_sources(&self, sources: Vec<(ConfigValue, u8)>) -> (r: ConfigValue)
        ensures
            r@ == merged_model(self.strategy, pairs_model(sources@)),
    {
        let sorted = sort_pairs(sources);
        let ghost sm = pairs_model(sorted@);
        let mut result = ConfigValue::Object(Vec::new());
        proof {
            assert(result@ == ValueModel::Object(entries_model(Seq::empty())));
            assert(entries_model(Seq::<(String, ConfigValue)>::empty()) =~= Seq::<
                (Seq<char>, ValueModel),
            >::empty());
            assert(sm.take(0) =~= Seq::empty());
        }
        let mut i: usize = 0;
        while i < sorted.len()
            invariant
                i <= sorted.len(),
                result@ == merge_fold(self.strategy, sm.take(i as int)),
            decreases sorted.len() - i,
        {
            let incoming = sorted[i].0.clone();
            result = merge_values(self.strategy, result, incoming);
            proof {
                assert(sm.take(i as int + 1).drop_last() =~= sm.take(i as int));
                assert(sm.take(i as int + 1).last() == sm[i as int]);
            }
            i = i + 1;
        }
        proof {
            assert(sm.take(sorted@.len() as int) =~= sm);
        }
        result
    }

    /// Merge a keyed collection of priority-tagged values; the keys play no
    /// part, only the values and their priorities do.
    #[verifier::loop_isolation(false)]
    pub fn merge_with_precedence(&self, sources: Vec<(String, (ConfigValue, u8))>) -> (r: ConfigValue)
        ensures
            r@ == merged_model(self.strategy, keyed_pairs_model(sources@)),
    {
        let mut values: Vec<(ConfigValue, u8)> = Vec::new();
        let mut i: usize = 0;
        while i < sources.len()
            invariant
                i <= sources.len(),
                values@.len() == i,
                forall|j: int|
                    0 <= j < i ==> (#[trigger] values@[j]).1 == sources@[j].1.1 && values@[j].0@
                        == sources@[j].1.0@,
            decreases sources.len() - i,
        {
            values.push((sources[i].1.0.clone(), sources[i].1.1));
            i = i + 1;
        }
        proof {
            assert(pairs_model(values@) =~= keyed_pairs_model(sources@));
        }
        self.merge_sources(values)
    }
}

#[verifier::loop_isolation(false)]
fn merge_values(strategy: MergeStrategy, base: ConfigValue, incoming: ConfigValue) -> (r: ConfigValue)
    ensures
        r@ == merge_model(strategy, base@, incoming@),
    decreases height(incoming@),
{
    let ghost b0 = base@;
    let ghost inc0 = incoming@;
    match (base, incoming) {
        (ConfigValue::Object(bes), ConfigValue::Object(ies)) => {
            let ghost bes0 = entries_model(bes@);
            let ghost im = entries_model(ies@);
            proof {
                assert(b0 == ValueModel::Object(bes0));
                assert(inc0 == ValueModel::Object(im));
                assert(im.skip(0) =~= im);
            }
            let mut out = bes;
            let mut i: usize = 0;
            while i < ies.len()
                invariant
                    i <= ies.len(),
                    im == entries_model(ies@),
                    merge_entries_model(strategy, bes0, im) == merge_entries_model(
                        strategy,
                        entries_model(out@),
                        im.skip(i as int),
                    ),
                decreases ies.len() - i,
            {
                proof {
                    broadcast use lemma_entries_model;

                    lemma_height_entries_child(im, i as int);
                    assert(height(im[i as int].1) < height(inc0));
                }
                let ghost m_out = entries_model(out@);
                let k = ies[i].0.clone();
                let iv = ies[i].1.clone();
                match object_index(&out, &k) {
                    Some(j) if !matches!(strategy, MergeStrategy::Replace) => {
                        proof {
                            lemma_obj_index(m_out, k@);
                            broadcast use lemma_entries_model;

                        }
                        let bv = out[j].1.clone();
                        let merged = merge_values(strategy, bv, iv);
                        object_set(&mut out, k, merged);
                    },
                    _ => {
                        object_set(&mut out, k, iv);
                    },
                }
                proof {
                    assert(im.skip(i as int).drop_first() =~= im.skip(i as int + 1));
                    assert(im.skip(i as int)[0] == im[i as int]);
                }
                i = i + 1;
            }
            proof {
                broadcast use lemma_entries_model;

                assert(im.skip(im.len() as int) =~= Seq::empty());
            }
            ConfigValue::Object(out)
        },
        (ConfigValue::Array(ba), ConfigValue::Array(ia)) => {
            if matches!(strategy, MergeStrategy::Append) {
                let ghost bm = crate::value::array_model(ba@);
                let ghost imm = crate::value::array_model(ia@);
                let mut out = ba;
                let mut rest = ia;
                out.append(&mut rest);
                proof {
                    broadcast use crate::value::lemma_array_model;

                    assert(crate::value::array_model(out@) =~= bm + imm);
                }
                ConfigValue::Array(out)
            } else {
                ConfigValue::Array(ia)
            }
        },
        (_, incoming) => incoming,
    }
}

} // verus!
