//! The structured value that every configuration source produces and that the
//! merge engine combines.

use vstd::prelude::*;

verus! {

/// Mathematical model of a structured configuration value.
///
/// Object entries are kept as a sequence of key/value pairs so that insertion
/// order is part of the model; `obj_get` and `obj_set` below give the map-like
/// reading of that sequence.
#[verifier::ext_equal]
pub enum ValueModel {
    Null,
    Bool(bool),
    Int(i64),
    /// A finite IEEE-754 double, carried as its bit pattern.
    Float(u64),
    Text(Seq<char>),
    Array(Seq<ValueModel>),
    Object(Seq<(Seq<char>, ValueModel)>),
}

/// Structural height of a value model, used as a termination measure when
/// recursing over nested arrays and objects.
pub open spec fn height(m: ValueModel) -> nat
    decreases m,
{
    match m {
        ValueModel::Array(s) => 1 + height_seq(s),
        ValueModel::Object(es) => 1 + height_entries(es),
        _ => 0,
    }
}

pub open spec fn height_seq(s: Seq<ValueModel>) -> nat
    decreases s,
{
    if s.len() == 0 {
        0
    } else {
        let h0 = height(s[0]);
        let hr = height_seq(s.drop_first());
        if h0 > hr {
            h0
        } else {
            hr
        }
    }
}

pub open spec fn height_entries(es: Seq<(Seq<char>, ValueModel)>) -> nat
    decreases es,
{
    if es.len() == 0 {
        0
    } else {
        let h0 = height(es[0].1);
        let hr = height_entries(es.drop_first());
        if h0 > hr {
            h0
        } else {
            hr
        }
    }
}

/// A structured configuration value: the common currency between all sources
/// and the merge engine.
#[derive(Debug, PartialEq)]
pub enum ConfigValue {
    Null,
    Bool(bool),
    Int(i64),
    /// A finite IEEE-754 double, carried as its bit pattern.
    Float(u64),
    Text(String),
    Array(Vec<ConfigValue>),
    Object(Vec<(String, ConfigValue)>),
}

pub open spec fn value_model(v: ConfigValue) -> ValueModel
    decreases v,
{
    match v {
        ConfigValue::Null => ValueModel::Null,
        ConfigValue::Bool(b) => ValueModel::Bool(b),
        ConfigValue::Int(n) => ValueModel::Int(n),
        ConfigValue::Float(bits) => ValueModel::Float(bits),
        ConfigValue::Text(s) => ValueModel::Text(s@),
        ConfigValue::Array(a) => ValueModel::Array(array_model(a@)),
        ConfigValue::Object(es) => ValueModel::Object(entries_model(es@)),
    }
}

pub open spec fn array_model(s: Seq<ConfigValue>) -> Seq<ValueModel>
    decreases s,
{
    if s.len() == 0 {
        Seq::empty()
    } else {
        seq![value_model(s[0])] + array_model(s.drop_first())
    }
}

pub open spec fn entries_model(es: Seq<(String, ConfigValue)>) -> Seq<(Seq<char>, ValueModel)>
    decreases es,
{
    if es.len() == 0 {
        Seq::empty()
    } else {
        seq![(es[0].0@, value_model(es[0].1))] + entries_model(es.drop_first())
    }
}

impl View for ConfigValue {
    type V = ValueModel;

    open spec fn view(&self) -> ValueModel {
        value_model(*self)
    }
}

/// Index of the first entry with key `k`, or -1 when no entry has that key.
pub open spec fn obj_index<V>(es: Seq<(Seq<char>, V)>, k: Seq<char>) -> int
    decreases es.len(),
{
    if es.len() == 0 {
        -1
    } else if es[0].0 == k {
        0
    } else {
        let r = obj_index(es.drop_first(), k);
        if r == -1 {
            -1
        } else {
            1 + r
        }
    }
}

/// The value stored under key `k`, reading the entry sequence as a map in
/// which the first entry with a given key wins.
pub open spec fn obj_get<V>(es: Seq<(Seq<char>, V)>, k: Seq<char>) -> Option<V> {
    if obj_index(es, k) >= 0 {
        Some(es[obj_index(es, k)].1)
    } else {
        None
    }
}

pub open spec fn obj_has<V>(es: Seq<(Seq<char>, V)>, k: Seq<char>) -> bool {
    obj_index(es, k) >= 0
}

/// Store `v` under key `k`: replace the first entry with that key in place,
/// or append a new entry when the key is absent.
pub open spec fn obj_set<V>(es: Seq<(Seq<char>, V)>, k: Seq<char>, v: V) -> Seq<(Seq<char>, V)> {
    if obj_index(es, k) >= 0 {
        es.update(obj_index(es, k), (k, v))
    } else {
        es.push((k, v))
    }
}

/// `obj_index` returns -1 exactly when no entry has the key, and otherwise the
/// first position whose entry has it.
pub broadcast proof fn lemma_obj_index<V>(es: Seq<(Seq<char>, V)>, k: Seq<char>)
    ensures
        #[trigger] obj_index(es, k) == -1 ==> (forall|j: int|
            0 <= j < es.len() ==> (#[trigger] es[j]).0 != k),
        obj_index(es, k) != -1 ==> 0 <= obj_index(es, k) < es.len() && es[obj_index(es, k)].0
            == k && (forall|j: int| 0 <= j < obj_index(es, k) ==> (#[trigger] es[j]).0 != k),
    decreases es.len(),
{
    if es.len() > 0 && es[0].0 != k {
        lemma_obj_index(es.drop_first(), k);
        assert forall|j: int| 1 <= j < es.len() implies es.drop_first()[j - 1] == es[j] by {}
    }
}

/// `array_model` maps a sequence of values elementwise.
pub broadcast proof fn lemma_array_model(s: Seq<ConfigValue>)
    ensures
        (#[trigger] array_model(s)).len() == s.len(),
        forall|i: int| 0 <= i < s.len() ==> #[trigger] array_model(s)[i] == value_model(s[i]),
    decreases s.len(),
{
    if s.len() > 0 {
        lemma_array_model(s.drop_first());
        assert forall|i: int| 0 <= i < s.len() implies #[trigger] array_model(s)[i]
            == value_model(s[i]) by {
            if i > 0 {
                assert(array_model(s)[i] == array_model(s.drop_first())[i - 1]);
                assert(s.drop_first()[i - 1] == s[i]);
            }
        }
    }
}

/// `entries_model` maps a sequence of object entries elementwise.
pub broadcast proof fn lemma_entries_model(es: Seq<(String, ConfigValue)>)
    ensures
        (#[trigger] entries_model(es)).len() == es.len(),
        forall|i: int|
            0 <= i < es.len() ==> #[trigger] entries_model(es)[i] == (es[i].0@, value_model(
                es[i].1,
            )),
    decreases es.len(),
{
    if es.len() > 0 {
        lemma_entries_model(es.drop_first());
        assert forall|i: int| 0 <= i < es.len() implies #[trigger] entries_model(es)[i] == (
            es[i].0@,
            value_model(es[i].1),
        ) by {
            if i > 0 {
                assert(entries_model(es)[i] == entries_model(es.drop_first())[i - 1]);
                assert(es.drop_first()[i - 1] == es[i]);
            }
        }
    }
}

/// Every element of an array is at most as high as the whole element sequence.
pub proof fn lemma_height_seq_child(s: Seq<ValueModel>, i: int)
    requires
        0 <= i < s.len(),
    ensures
        height(s[i]) <= height_seq(s),
    decreases s.len(),
{
    if i > 0 {
        lemma_height_seq_child(s.drop_first(), i - 1);
    }
}

/// Every entry value of an object is at most as high as the whole entry
/// sequence.
pub proof fn lemma_height_entries_child(es: Seq<(Seq<char>, ValueModel)>, i: int)
    requires
        0 <= i < es.len(),
    ensures
        height(es[i].1) <= height_entries(es),
    decreases es.len(),
{
    if i > 0 {
        lemma_height_entries_child(es.drop_first(), i - 1);
    }
}

/// Each key appears at most once in the entry sequence.
pub open spec fn keys_unique<V>(es: Seq<(Seq<char>, V)>) -> bool {
    forall|i: int, j: int|
        0 <= i < j < es.len() ==> (#[trigger] es[i]).0 != (#[trigger] es[j]).0
}

/// `obj_get` reads an entry sequence head-first.
pub proof fn lemma_obj_get_unfold<V>(es: Seq<(Seq<char>, V)>, k: Seq<char>)
    requires
        es.len() > 0,
    ensures
        obj_get(es, k) == if es[0].0 == k {
            Some(es[0].1)
        } else {
            obj_get(es.drop_first(), k)
        },
{
    if es[0].0 != k {
        let r = obj_index(es.drop_first(), k);
        if r != -1 {
            lemma_obj_index(es.drop_first(), k);
            assert(es[1 + r] == es.drop_first()[r]);
        }
    }
}

/// `obj_set` changes exactly the entry at the stored key, and appends when the
/// key is absent.
pub proof fn lemma_obj_set_get<V>(es: Seq<(Seq<char>, V)>, k: Seq<char>, v: V, k2: Seq<char>)
    ensures
        obj_get(obj_set(es, k, v), k2) == if k2 == k {
            Some(v)
        } else {
            obj_get(es, k2)
        },
    decreases es.len(),
{
    let r = obj_set(es, k, v);
    lemma_obj_index(es, k);
    lemma_obj_index(es, k2);
    lemma_obj_index(r, k2);
    if k2 == k {
        if obj_index(es, k) >= 0 {
            assert(r == es.update(obj_index(es, k), (k, v)));
            assert(forall|j: int| 0 <= j < obj_index(es, k) ==> (#[trigger] r[j]).0 != k);
            assert(r[obj_index(es, k)].0 == k);
            lemma_obj_index_first(r, k, obj_index(es, k));
        } else {
            assert(r == es.push((k, v)));
            assert(forall|j: int| 0 <= j < es.len() ==> (#[trigger] r[j]).0 != k);
            assert(r[es.len() as int].0 == k);
            lemma_obj_index_first(r, k, es.len() as int);
        }
    } else {
        if obj_index(es, k) >= 0 {
            let i = obj_index(es, k);
            assert(r == es.update(i, (k, v)));
            if obj_index(es, k2) >= 0 {
                let i2 = obj_index(es, k2);
                assert(i2 != i);
                assert(r[i2].0 == k2);
                assert(forall|j: int| 0 <= j < i2 ==> (#[trigger] r[j]).0 != k2) by {
                    assert(forall|j: int| 0 <= j < i2 && j != i ==> (#[trigger] r[j]) == es[j]);
                }
                lemma_obj_index_first(r, k2, i2);
            } else {
                assert(forall|j: int| 0 <= j < r.len() ==> (#[trigger] r[j]).0 != k2);
                lemma_obj_index_none(r, k2);
            }
        } else {
            assert(r == es.push((k, v)));
            if obj_index(es, k2) >= 0 {
                let i2 = obj_index(es, k2);
                assert(r[i2].0 == k2);
                lemma_obj_index_first(r, k2, i2);
            } else {
                assert(forall|j: int| 0 <= j < r.len() ==> (#[trigger] r[j]).0 != k2);
                lemma_obj_index_none(r, k2);
            }
        }
    }
}

/// Where position `i` holds key `k` and no earlier position does, `obj_index`
/// is `i`.
pub proof fn lemma_obj_index_first<V>(es: Seq<(Seq<char>, V)>, k: Seq<char>, i: int)
    requires
        0 <= i < es.len(),
        es[i].0 == k,
        forall|j: int| 0 <= j < i ==> (#[trigger] es[j]).0 != k,
    ensures
        obj_index(es, k) == i,
        obj_get(es, k) == Some(es[i].1),
{
    lemma_obj_index(es, k);
    let r = obj_index(es, k);
    if r == -1 {
        assert(es[i].0 != k);
        assert(false);
    }
    if r < i {
        assert(es[r].0 != k);
        assert(false);
    }
    if r > i {
        assert(es[i].0 != k);
        assert(false);
    }
}

/// Where no position holds key `k`, `obj_index` is -1.
pub proof fn lemma_obj_index_none<V>(es: Seq<(Seq<char>, V)>, k: Seq<char>)
    requires
        forall|j: int| 0 <= j < es.len() ==> (#[trigger] es[j]).0 != k,
    ensures
        obj_index(es, k) == -1,
        obj_get(es, k) is None,
{
    lemma_obj_index(es, k);
    if obj_index(es, k) != -1 {
        assert(es[obj_index(es, k)].0 == k);
        assert(false);
    }
}

/// Storing a value never duplicates a key: an entry sequence with unique keys
/// keeps them unique.
pub proof fn lemma_obj_set_unique<V>(es: Seq<(Seq<char>, V)>, k: Seq<char>, v: V)
    requires
        keys_unique(es),
    ensures
        keys_unique(obj_set(es, k, v)),
{
    lemma_obj_index(es, k);
    let r = obj_set(es, k, v);
    if obj_index(es, k) >= 0 {
        let i = obj_index(es, k);
        assert(es[i].0 == k);
        assert forall|a: int, b: int| 0 <= a < b < r.len() implies (#[trigger] r[a]).0 != (
        #[trigger] r[b]).0 by {
            assert(es[a].0 != es[b].0);
        }
    } else {
        assert forall|a: int, b: int| 0 <= a < b < r.len() implies (#[trigger] r[a]).0 != (
        #[trigger] r[b]).0 by {
            if b == es.len() {
                assert(es[a].0 != k);
            } else {
                assert(es[a].0 != es[b].0);
            }
        }
    }
}

/// Position of the first entry of `es` whose key equals `k`, as `obj_index`
/// denotes it.
pub fn object_index(es: &Vec<(String, ConfigValue)>, k: &String) -> (r: Option<usize>)
    ensures
        match r {
            Some(j) => j < es@.len() && obj_index(entries_model(es@), k@) == j as int,
            None => obj_index(entries_model(es@), k@) == -1,
        },
{
    proof {
        broadcast use lemma_entries_model;

        lemma_obj_index(entries_model(es@), k@);
    }
    let ghost m = entries_model(es@);
    let mut i: usize = 0;
    while i < es.len()
        invariant
            i <= es.len(),
            m == entries_model(es@),
            forall|j: int| 0 <= j < i ==> (#[trigger] m[j]).0 != k@,
        decreases es.len() - i,
    {
        proof {
            broadcast use lemma_entries_model;

        }
        if es[i].0 == *k {
            proof {
                lemma_obj_index(m, k@);
                assert(m[i as int].0 == k@);
            }
            return Some(i);
        }
        i = i + 1;
    }
    proof {
        lemma_obj_index(m, k@);
    }
    None
}

/// Store `v` under key `k` in an entry vector, as `obj_set` denotes it.
pub fn object_set(es: &mut Vec<(String, ConfigValue)>, k: String, v: ConfigValue)
    ensures
        entries_model(final(es)@) == obj_set(entries_model(old(es)@), k@, v@),
{
    let ghost m0 = entries_model(old(es)@);
    match object_index(es, &k) {
        Some(j) => {
            es.remove(j);
            es.insert(j, (k, v));
            proof {
                broadcast use lemma_entries_model;

                assert(entries_model(es@) =~= m0.update(j as int, (k@, v@)));
            }
        },
        None => {
            es.push((k, v));
            proof {
                broadcast use lemma_entries_model;

                assert(entries_model(es@) =~= m0.push((k@, v@)));
            }
        },
    }
}

/// Copy an array's elements; the copy denotes the same model sequence.
pub fn clone_values(a: &Vec<ConfigValue>) -> (r: Vec<ConfigValue>)
    ensures
        array_model(r@) == array_model(a@),
    decreases height_seq(array_model(a@)), 1int,
{
    proof {
        broadcast use lemma_array_model;

    }
    let mut out: Vec<ConfigValue> = Vec::new();
    let mut i: usize = 0;
    while i < a.len()
        invariant
            i <= a.len(),
            out@.len() == i,
            forall|j: int| 0 <= j < i ==> value_model(#[trigger] out@[j]) == value_model(a@[j]),
        decreases a.len() - i,
    {
        proof {
            broadcast use lemma_array_model;

            lemma_height_seq_child(array_model(a@), i as int);
        }
        out.push(a[i].clone());
        i = i + 1;
    }
    proof {
        broadcast use lemma_array_model;

        assert(array_model(out@) =~= array_model(a@));
    }
    out
}

/// Copy an object's entries; the copy denotes the same model entries.
pub fn clone_entries(es: &Vec<(String, ConfigValue)>) -> (r: Vec<(String, ConfigValue)>)
    ensures
        entries_model(r@) == entries_model(es@),
    decreases height_entries(entries_model(es@)), 1int,
{
    proof {
        broadcast use lemma_entries_model;

    }
    let mut out: Vec<(String, ConfigValue)> = Vec::new();
    let mut i: usize = 0;
    while i < es.len()
        invariant
            i <= es.len(),
            out@.len() == i,
            forall|j: int|
                0 <= j < i ==> (#[trigger] out@[j]).0@ == es@[j].0@ && value_model(out@[j].1)
                    == value_model(es@[j].1),
        decreases es.len() - i,
    {
        proof {
            broadcast use lemma_entries_model;

            lemma_height_entries_child(entries_model(es@), i as int);
        }
        let pair = (es[i].0.clone(), es[i].1.clone());
        out.push(pair);
        i = i + 1;
    }
    proof {
        broadcast use lemma_entries_model;

        assert(entries_model(out@) =~= entries_model(es@));
    }
    out
}

impl ConfigValue {
    /// The boolean this value holds, where it holds one.
    pub fn as_bool(&self) -> (r: Option<bool>)
        ensures
            r == (match self@ {
                ValueModel::Bool(b) => Some(b),
                _ => None::<bool>,
            }),
    {
        match self {
            ConfigValue::Bool(b) => Some(*b),
            _ => None,
        }
    }

    /// The signed 64-bit integer this value holds, where it holds one.
    pub fn as_i64(&self) -> (r: Option<i64>)
        ensures
            r == (match self@ {
                ValueModel::Int(n) => Some(n),
                _ => None::<i64>,
            }),
    {
        match self {
            ConfigValue::Int(n) => Some(*n),
            _ => None,
        }
    }

    /// The bit pattern of the double this value holds, where it holds one.
    pub fn as_float_bits(&self) -> (r: Option<u64>)
        ensures
            r == (match self@ {
                ValueModel::Float(b) => Some(b),
                _ => None::<u64>,
            }),
    {
        match self {
            ConfigValue::Float(b) => Some(*b),
            _ => None,
        }
    }

    /// The string this value holds, where it holds one.
    pub fn as_str(&self) -> (r: Option<&String>)
        ensures
            match self@ {
                ValueModel::Text(t) => r matches Some(s) && s@ == t,
                _ => r is None,
            },
    {
        match self {
            ConfigValue::Text(s) => Some(s),
            _ => None,
        }
    }

    pub fn is_null(&self) -> (r: bool)
        ensures
            r == (self@ is Null),
    {
        matches!(self, ConfigValue::Null)
    }

    pub fn is_array(&self) -> (r: bool)
        ensures
            r == (self@ is Array),
    {
        matches!(self, ConfigValue::Array(_))
    }

    pub fn is_object(&self) -> (r: bool)
        ensures
            r == (self@ is Object),
    {
        matches!(self, ConfigValue::Object(_))
    }

    /// The array elements this value holds, where it holds an array.
    pub fn as_array(&self) -> (r: Option<&Vec<ConfigValue>>)
        ensures
            match self@ {
                ValueModel::Array(s) => r matches Some(a) && array_model(a@) == s,
                _ => r is None,
            },
    {
        match self {
            ConfigValue::Array(a) => Some(a),
            _ => None,
        }
    }

    /// The entry this object holds under a key, where it is an object and
    /// holds one.
    pub fn get(&self, key: &str) -> (r: Option<&ConfigValue>)
        ensures
            match self@ {
                ValueModel::Object(es) => match r {
                    Some(v) => obj_get(es, key@) == Some(v@),
                    None => obj_get(es, key@) is None,
                },
                _ => r is None,
            },
    {
        match self {
            ConfigValue::Object(es) => {
                let owned = key.to_owned();
                match object_index(es, &owned) {
                    Some(j) => {
                        proof {
                            broadcast use lemma_entries_model;

                        }
                        Some(&es[j].1)
                    },
                    None => None,
                }
            },
            _ => None,
        }
    }
}

impl Clone for ConfigValue {
    /// A clone denotes the same model value.
    fn clone(&self) -> (r: Self)
        ensures
            r@ == self@,
        decreases height(self@), 0int,
    {
        match self {
            ConfigValue::Null => ConfigValue::Null,
            ConfigValue::Bool(b) => ConfigValue::Bool(*b),
            ConfigValue::Int(n) => ConfigValue::Int(*n),
            ConfigValue::Float(bits) => ConfigValue::Float(*bits),
            ConfigValue::Text(s) => ConfigValue::Text(s.clone()),
            ConfigValue::Array(a) => ConfigValue::Array(clone_values(a)),
            ConfigValue::Object(es) => ConfigValue::Object(clone_entries(es)),
        }
    }
}

} // verus!
