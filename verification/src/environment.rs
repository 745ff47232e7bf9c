//! The environment source: turns a snapshot of environment variables into a
//! structured value, under a prefix/separator naming convention or explicit
//! field mappings.
//!
//! The variables themselves are always handed in as a snapshot (a list of
//! name/value pairs), so collection is a pure function of the source's
//! configuration and that snapshot.

use vstd::prelude::*;

use crate::coerce::coerce_model;
use crate::strings::{
    is_prefix, lower_of, smap_get, smap_model, smap_set, str_concat, str_eq, str_skip,
    str_starts_with, str_trim_start_matches, to_lower, to_upper, trim_prefix, upper_of,
};
use crate::value::{
    entries_model, obj_get, obj_has, obj_set, object_index, object_set, ConfigValue, ValueModel,
};
use crate::Prefix;

verus! {

/// Mathematical model of an environment source's configuration.
#[verifier::ext_equal]
pub struct EnvModel {
    pub prefix: Option<Seq<char>>,
    pub separator: Seq<char>,
    pub case_sensitive: bool,
    pub overrides: Seq<(Seq<char>, Seq<char>)>,
    pub field_mappings: Seq<(Seq<char>, Seq<char>)>,
}

/// An environment variable source. Before first use it is configured
/// builder-style (prefix, separator, case sensitivity, overrides, field
/// mappings); collection then reads a supplied snapshot.
#[derive(Debug, Clone)]
pub struct Environment {
    pub prefix: Option<Prefix>,
    pub separator: String,
    pub case_sensitive: bool,
    pub overrides: Vec<(String, String)>,
    pub field_mappings: Vec<(String, String)>,
}

impl View for Environment {
    type V = EnvModel;

    open spec fn view(&self) -> EnvModel {
        EnvModel {
            prefix: match self.prefix {
                Some(p) => Some(p@),
                None => None,
            },
            separator: self.separator@,
            case_sensitive: self.case_sensitive,
            overrides: smap_model(self.overrides@),
            field_mappings: smap_model(self.field_mappings@),
        }
    }
}

/// The parts of a key path joined with the separator.
pub open spec fn join_parts(parts: Seq<Seq<char>>, sep: Seq<char>) -> Seq<char>
    decreases parts.len(),
{
    if parts.len() == 0 {
        Seq::empty()
    } else if parts.len() == 1 {
        parts[0]
    } else {
        join_parts(parts.drop_last(), sep) + sep + parts.last()
    }
}

/// The single environment variable name for a key path: the prefix (where
/// one is set) and the path parts joined with the separator, uppercased
/// unless the source is case-sensitive.
pub open spec fn env_key_model(m: EnvModel, path: Seq<Seq<char>>) -> Seq<char> {
    let parts = match m.prefix {
        Some(p) => seq![p] + path,
        None => path,
    };
    let joined = join_parts(parts, m.separator);
    if m.case_sensitive {
        joined
    } else {
        upper_of(joined)
    }
}

/// One step of the flat scan: a variable whose name passes the prefix rule is
/// stored under its de-prefixed, separator-trimmed, lowercased name with its
/// value coerced; every other variable is ignored.
pub open spec fn flat_step(
    m: EnvModel,
    acc: Seq<(Seq<char>, ValueModel)>,
    key: Seq<char>,
    val: Seq<char>,
) -> Seq<(Seq<char>, ValueModel)> {
    match m.prefix {
        Some(p) => {
            let p_cmp = if m.case_sensitive {
                p
            } else {
                upper_of(p)
            };
            let k_cmp = if m.case_sensitive {
                key
            } else {
                upper_of(key)
            };
            if is_prefix(p_cmp, k_cmp) {
                let trimmed = trim_prefix(k_cmp.skip(p_cmp.len() as int), m.separator);
                obj_set(acc, lower_of(trimmed), coerce_model(val))
            } else {
                acc
            }
        },
        None => obj_set(acc, lower_of(key), coerce_model(val)),
    }
}

pub open spec fn flat_fold(
    m: EnvModel,
    acc: Seq<(Seq<char>, ValueModel)>,
    pairs: Seq<(Seq<char>, Seq<char>)>,
) -> Seq<(Seq<char>, ValueModel)>
    decreases pairs.len(),
{
    if pairs.len() == 0 {
        acc
    } else {
        flat_fold(m, flat_step(m, acc, pairs[0].0, pairs[0].1), pairs.drop_first())
    }
}

/// Flat/prefix collection: scan the snapshot, then apply the override table,
/// which therefore takes precedence over the live variables.
pub open spec fn collect_flat_model(m: EnvModel, vars: Seq<(Seq<char>, Seq<char>)>) -> ValueModel {
    ValueModel::Object(flat_fold(m, flat_fold(m, Seq::empty(), vars), m.overrides))
}

/// One step of mapped collection: resolve a field's explicit key in the
/// override table first, then in the snapshot; on a hit, coerce and store
/// under the field name.
pub open spec fn mapped_step(
    m: EnvModel,
    vars: Seq<(Seq<char>, Seq<char>)>,
    acc: Seq<(Seq<char>, ValueModel)>,
    field: Seq<char>,
    envk: Seq<char>,
) -> Seq<(Seq<char>, ValueModel)> {
    match obj_get(m.overrides, envk) {
        Some(ov) => obj_set(acc, field, coerce_model(ov)),
        None => match obj_get(vars, envk) {
            Some(v) => obj_set(acc, field, coerce_model(v)),
            None => acc,
        },
    }
}

pub open spec fn mapped_fold(
    m: EnvModel,
    vars: Seq<(Seq<char>, Seq<char>)>,
    acc: Seq<(Seq<char>, ValueModel)>,
    fms: Seq<(Seq<char>, Seq<char>)>,
) -> Seq<(Seq<char>, ValueModel)>
    decreases fms.len(),
{
    if fms.len() == 0 {
        acc
    } else {
        mapped_fold(m, vars, mapped_step(m, vars, acc, fms[0].0, fms[0].1), fms.drop_first())
    }
}

/// Does any field mapping name this exact variable as its explicit key?
pub open spec fn mapping_targets(fms: Seq<(Seq<char>, Seq<char>)>, key: Seq<char>) -> bool {
    exists|j: int| 0 <= j < fms.len() && (#[trigger] fms[j]).1 == key
}

/// One step of the discovery scan that follows mapped collection: a prefixed
/// variable that no mapping consumed, and whose derived name is still free,
/// is stored under that name.
pub open spec fn scan_step(
    m: EnvModel,
    acc: Seq<(Seq<char>, ValueModel)>,
    key: Seq<char>,
    val: Seq<char>,
) -> Seq<(Seq<char>, ValueModel)> {
    match m.prefix {
        Some(p) => {
            let p_cmp = if m.case_sensitive {
                p
            } else {
                upper_of(p)
            };
            let k_cmp = if m.case_sensitive {
                key
            } else {
                upper_of(key)
            };
            if is_prefix(p_cmp, k_cmp) && !mapping_targets(m.field_mappings, key) {
                let field = lower_of(trim_prefix(k_cmp.skip(p_cmp.len() as int), m.separator));
                if obj_has(acc, field) {
                    acc
                } else {
                    obj_set(acc, field, coerce_model(val))
                }
            } else {
                acc
            }
        },
        None => acc,
    }
}

pub open spec fn scan_fold(
    m: EnvModel,
    acc: Seq<(Seq<char>, ValueModel)>,
    pairs: Seq<(Seq<char>, Seq<char>)>,
) -> Seq<(Seq<char>, ValueModel)>
    decreases pairs.len(),
{
    if pairs.len() == 0 {
        acc
    } else {
        scan_fold(m, scan_step(m, acc, pairs[0].0, pairs[0].1), pairs.drop_first())
    }
}

/// What `collect` yields on a snapshot: mapped collection followed by the
/// discovery scan when any field mapping is registered, and the flat scan
/// otherwise.
pub open spec fn collect_model(m: EnvModel, vars: Seq<(Seq<char>, Seq<char>)>) -> ValueModel {
    if m.field_mappings.len() > 0 {
        ValueModel::Object(scan_fold(m, mapped_fold(m, vars, Seq::empty(), m.field_mappings), vars))
    } else {
        collect_flat_model(m, vars)
    }
}

impl Default for Environment {
    /// The default source: no prefix, separator `_`, case-insensitive
    /// matching, no overrides, no field mappings.
    fn default() -> (r: Self)
        ensures
            r@ == (EnvModel {
                prefix: None,
                separator: "_"@,
                case_sensitive: false,
                overrides: Seq::empty(),
                field_mappings: Seq::empty(),
            }),
    {
        Environment::new()
    }
}

impl Environment {
    /// This source's kind.
    pub fn source_type(&self) -> (r: crate::source::Source)
        ensures
            r == crate::source::Source::Environment,
    {
        crate::source::Source::Environment
    }

    /// A source with no prefix, separator `_`, case-insensitive matching and
    /// no overrides or field mappings.
    pub fn new() -> (r: Self)
        ensures
            r@ == (EnvModel {
                prefix: None,
                separator: "_"@,
                case_sensitive: false,
                overrides: Seq::empty(),
                field_mappings: Seq::empty(),
            }),
    {
        let r = Environment {
            prefix: None,
            separator: "_".to_owned(),
            case_sensitive: false,
            overrides: Vec::new(),
            field_mappings: Vec::new(),
        };
        proof {
            assert(smap_model(Seq::<(String, String)>::empty()) =~= Seq::<
                (Seq<char>, Seq<char>),
            >::empty());
            assert(r@ =~= (EnvModel {
                prefix: None,
                separator: "_"@,
                case_sensitive: false,
                overrides: Seq::empty(),
                field_mappings: Seq::empty(),
            }));
        }
        r
    }

    /// Set the environment variable prefix.
    pub fn with_prefix(self, prefix: &str) -> (r: Self)
        ensures
            r@ == (EnvModel { prefix: Some(prefix@), ..self@ }),
    {
        let r = Environment { prefix: Some(Prefix::new(prefix.to_owned())), ..self };
        proof {
            assert(r@ =~= (EnvModel { prefix: Some(prefix@), ..self@ }));
        }
        r
    }

    /// Set the separator between the prefix and key parts.
    pub fn separator(self, sep: &str) -> (r: Self)
        ensures
            r@ == (EnvModel { separator: sep@, ..self@ }),
    {
        let r = Environment { separator: sep.to_owned(), ..self };
        proof {
            assert(r@ =~= (EnvModel { separator: sep@, ..self@ }));
        }
        r
    }

    /// Choose case-sensitive or case-insensitive (the default) matching.
    pub fn case_sensitive(self, sensitive: bool) -> (r: Self)
        ensures
            r@ == (EnvModel { case_sensitive: sensitive, ..self@ }),
    {
        let r = Environment { case_sensitive: sensitive, ..self };
        proof {
            assert(r@ =~= (EnvModel { case_sensitive: sensitive, ..self@ }));
        }
        r
    }

    /// Record a key/value pair that takes precedence over the same variable
    /// name read from a snapshot.
    pub fn override_with(self, key: &str, value: &str) -> (r: Self)
        ensures
            r@ == (EnvModel {
                overrides: obj_set(self@.overrides, key@, value@),
                ..self@
            }),
    {
        let mut overrides = self.overrides;
        let ghost m0 = self@;
        smap_set(&mut overrides, key.to_owned(), value.to_owned());
        let r = Environment { overrides, ..self };
        proof {
            assert(r@ =~= (EnvModel { overrides: obj_set(m0.overrides, key@, value@), ..m0 }));
        }
        r
    }

    /// Map a field name to the explicit environment variable it is read
    /// from, bypassing the prefix/separator derivation for that field.
    pub fn with_field_mapping(self, field_name: &str, env_key: &str) -> (r: Self)
        ensures
            r@ == (EnvModel {
                field_mappings: obj_set(self@.field_mappings, field_name@, env_key@),
                ..self@
            }),
    {
        let mut field_mappings = self.field_mappings;
        let ghost m0 = self@;
        smap_set(&mut field_mappings, field_name.to_owned(), env_key.to_owned());
        let r = Environment { field_mappings, ..self };
        proof {
            assert(r@ =~= (EnvModel {
                field_mappings: obj_set(m0.field_mappings, field_name@, env_key@),
                ..m0
            }));
        }
        r
    }

    /// The single variable name for a key path, per `env_key_model`.
    #[verifier::loop_isolation(false)]
    pub fn build_env_key(&self, path: &Vec<String>) -> (r: String)
        ensures
            r@ == env_key_model(self@, Seq::new(path@.len(), |i: int| path@[i]@)),
    {
        let ghost path_m = Seq::new(path@.len(), |i: int| path@[i]@);
        let ghost off: int = if self@.prefix is Some {
            1int
        } else {
            0int
        };
        let mut parts: Vec<String> = Vec::new();
        match &self.prefix {
            Some(p) => parts.push(p.as_str().to_owned()),
            None => {},
        }
        let mut i: usize = 0;
        while i < path.len()
            invariant
                i <= path.len(),
                parts@.len() == i + off,
                self@.prefix matches Some(p) ==> parts@.len() >= 1 && parts@[0]@ == p,
                forall|j: int| off <= j < i + off ==> (#[trigger] parts@[j])@ == path_m[j - off],
            decreases path.len() - i,
        {
            parts.push(path[i].clone());
            i = i + 1;
        }
        let ghost parts_m = match self@.prefix {
            Some(p) => seq![p] + path_m,
            None => path_m,
        };
        proof {
            assert(Seq::new(parts@.len(), |j: int| parts@[j]@) =~= parts_m);
        }
        let joined = join_strings(&parts, self.separator.as_str());
        if self.case_sensitive {
            joined
        } else {
            to_upper(joined.as_str())
        }
    }
}

/// What a single-key query yields: the override table first, then the
/// snapshot, under the constructed variable name; on a hit the value is
/// coerced.
pub open spec fn get_value_model(
    m: EnvModel,
    vars: Seq<(Seq<char>, Seq<char>)>,
    key: Seq<char>,
) -> Option<ValueModel> {
    let ek = env_key_model(m, seq![key]);
    match obj_get(m.overrides, ek) {
        Some(ov) => Some(coerce_model(ov)),
        None => match obj_get(vars, ek) {
            Some(v) => Some(coerce_model(v)),
            None => None,
        },
    }
}

pub open spec fn option_value_model(r: Option<ConfigValue>) -> Option<ValueModel> {
    match r {
        Some(v) => Some(v@),
        None => None,
    }
}

pub open spec fn opt_str_model(o: Option<String>) -> Option<Seq<char>> {
    match o {
        Some(s) => Some(s@),
        None => None,
    }
}

/// A string with every trailing underscore removed.
pub open spec fn trim_trailing_underscores(s: Seq<char>) -> Seq<char>
    decreases s.len(),
{
    if s.len() > 0 && s.last() == '_' {
        trim_trailing_underscores(s.drop_last())
    } else {
        s
    }
}

/// The variable name a struct field is read from: its explicit override
/// where one is given, else the uppercased prefix (if any), struct name and
/// field name joined with underscores, trailing underscores trimmed.
pub open spec fn struct_env_key(
    m: EnvModel,
    struct_name: Seq<char>,
    field: Seq<char>,
    over: Option<Seq<char>>,
) -> Seq<char> {
    match over {
        Some(o) => o,
        None => match m.prefix {
            Some(p) => trim_trailing_underscores(
                upper_of(p) + "_"@ + upper_of(struct_name) + "_"@ + upper_of(field) + "_"@,
            ),
            None => upper_of(struct_name) + "_"@ + upper_of(field),
        },
    }
}

pub open spec fn struct_fold(
    m: EnvModel,
    struct_name: Seq<char>,
    vars: Seq<(Seq<char>, Seq<char>)>,
    acc: Seq<(Seq<char>, ValueModel)>,
    fields: Seq<(Seq<char>, Option<Seq<char>>)>,
) -> Seq<(Seq<char>, ValueModel)>
    decreases fields.len(),
{
    if fields.len() == 0 {
        acc
    } else {
        struct_fold(
            m,
            struct_name,
            vars,
            mapped_step(
                m,
                vars,
                acc,
                fields[0].0,
                struct_env_key(m, struct_name, fields[0].0, fields[0].1),
            ),
            fields.drop_first(),
        )
    }
}

/// Apply one flat-scan step to the accumulated object.
#[verifier::loop_isolation(false)]
fn flat_apply(env: &Environment, out: &mut Vec<(String, ConfigValue)>, key: &str, val: &str)
    ensures
        entries_model(final(out)@) == flat_step(env@, entries_model(old(out)@), key@, val@),
{
    match &env.prefix {
        Some(p) => {
            let p_cmp = if env.case_sensitive {
                p.as_str().to_owned()
            } else {
                to_upper(p.as_str())
            };
            let k_cmp = if env.case_sensitive {
                key.to_owned()
            } else {
                to_upper(key)
            };
            if str_starts_with(k_cmp.as_str(), p_cmp.as_str()) {
                let after = str_skip(k_cmp.as_str(), p_cmp.as_str().unicode_len());
                let trimmed = str_trim_start_matches(after, env.separator.as_str());
                let name = to_lower(trimmed);
                object_set(out, name, crate::coerce::coerce(val));
            }
        },
        None => {
            object_set(out, to_lower(key), crate::coerce::coerce(val));
        },
    }
}

/// Does any field mapping name this exact variable as its explicit key?
fn mapping_values_contain(fms: &Vec<(String, String)>, key: &str) -> (r: bool)
    ensures
        r == mapping_targets(smap_model(fms@), key@),
{
    let ghost m = smap_model(fms@);
    let mut i: usize = 0;
    while i < fms.len()
        invariant
            i <= fms.len(),
            m == smap_model(fms@),
            forall|j: int| 0 <= j < i ==> (#[trigger] m[j]).1 != key@,
        decreases fms.len() - i,
    {
        if str_eq(fms[i].1.as_str(), key) {
            proof {
                assert(m[i as int].1 == key@);
            }
            return true;
        }
        i = i + 1;
    }
    false
}

impl Environment {
    /// Flat/prefix collection on a snapshot: keep the variables that pass
    /// the prefix rule under de-prefixed, lowercased names, then apply the
    /// override table on top.
    #[verifier::loop_isolation(false)]
    pub fn collect_with_flat_keys(&self, vars: &Vec<(String, String)>) -> (r: Result<
        ConfigValue,
        crate::error::Error,
    >)
        ensures
            r matches Ok(v) && v@ == collect_flat_model(self@, smap_model(vars@)),
    {
        let ghost m = self@;
        let ghost vm = smap_model(vars@);
        let mut out: Vec<(String, ConfigValue)> = Vec::new();
        proof {
            assert(entries_model(Seq::<(String, ConfigValue)>::empty()) =~= Seq::<
                (Seq<char>, ValueModel),
            >::empty());
        }
        let ghost scanned = flat_fold(m, Seq::empty(), vm);
        proof {
            assert(vm.skip(0) =~= vm);
        }
        let mut i: usize = 0;
        while i < vars.len()
            invariant
                i <= vars.len(),
                scanned == flat_fold(m, entries_model(out@), vm.skip(i as int)),
            decreases vars.len() - i,
        {
            flat_apply(self, &mut out, vars[i].0.as_str(), vars[i].1.as_str());
            proof {
                assert(vm.skip(i as int).drop_first() =~= vm.skip(i as int + 1));
                assert(vm.skip(i as int)[0] == vm[i as int]);
            }
            i = i + 1;
        }
        proof {
            assert(vm.skip(vm.len() as int) =~= Seq::empty());
        }
        let ghost target = flat_fold(m, scanned, m.overrides);
        proof {
            assert(m.overrides.skip(0) =~= m.overrides);
        }
        let mut j: usize = 0;
        while j < self.overrides.len()
            invariant
                j <= self.overrides.len(),
                target == flat_fold(m, entries_model(out@), m.overrides.skip(j as int)),
            decreases self.overrides.len() - j,
        {
            flat_apply(self, &mut out, self.overrides[j].0.as_str(), self.overrides[j].1.as_str());
            proof {
                assert(m.overrides.skip(j as int).drop_first() =~= m.overrides.skip(j as int + 1));
                assert(m.overrides.skip(j as int)[0] == m.overrides[j as int]);
            }
            j = j + 1;
        }
        proof {
            assert(m.overrides.skip(m.overrides.len() as int) =~= Seq::empty());
        }
        Ok(ConfigValue::Object(out))
    }

    /// Produce the snapshot's structured value: mapped collection followed
    /// by prefix discovery when field mappings are registered, and the flat
    /// scan otherwise.
    #[verifier::loop_isolation(false)]
    pub fn collect(&self, vars: &Vec<(String, String)>) -> (r: Result<
        ConfigValue,
        crate::error::Error,
    >)
        ensures
            r matches Ok(v) && v@ == collect_model(self@, smap_model(vars@)),
    {
        let ghost m = self@;
        let ghost vm = smap_model(vars@);
        if self.field_mappings.len() == 0 {
            return self.collect_with_flat_keys(vars);
        }
        let mut out: Vec<(String, ConfigValue)> = Vec::new();
        proof {
            assert(entries_model(Seq::<(String, ConfigValue)>::empty()) =~= Seq::<
                (Seq<char>, ValueModel),
            >::empty());
        }
        let ghost mapped = mapped_fold(m, vm, Seq::empty(), m.field_mappings);
        proof {
            assert(m.field_mappings.skip(0) =~= m.field_mappings);
        }
        let mut i: usize = 0;
        while i < self.field_mappings.len()
            invariant
                i <= self.field_mappings.len(),
                mapped == mapped_fold(m, vm, entries_model(out@), m.field_mappings.skip(i as int)),
            decreases self.field_mappings.len() - i,
        {
            let field = self.field_mappings[i].0.clone();
            let env_key = self.field_mappings[i].1.clone();
            match smap_get(&self.overrides, env_key.as_str()) {
                Some(ov) => {
                    let coerced = crate::coerce::coerce(ov.as_str());
                    object_set(&mut out, field, coerced);
                },
                None => {
                    match smap_get(vars, env_key.as_str()) {
                        Some(v) => {
                            let coerced = crate::coerce::coerce(v.as_str());
                            object_set(&mut out, field, coerced);
                        },
                        None => {},
                    }
                },
            }
            proof {
                assert(m.field_mappings.skip(i as int).drop_first() =~= m.field_mappings.skip(
                    i as int + 1,
                ));
                assert(m.field_mappings.skip(i as int)[0] == m.field_mappings[i as int]);
            }
            i = i + 1;
        }
        proof {
            assert(m.field_mappings.skip(m.field_mappings.len() as int) =~= Seq::empty());
        }
        let ghost target = scan_fold(m, mapped, vm);
        proof {
            assert(vm.skip(0) =~= vm);
        }
        let mut j: usize = 0;
        while j < vars.len()
            invariant
                j <= vars.len(),
                target == scan_fold(m, entries_model(out@), vm.skip(j as int)),
            decreases vars.len() - j,
        {
            let key = vars[j].0.as_str();
            let val = vars[j].1.as_str();
            match &self.prefix {
                Some(p) => {
                    let p_cmp = if self.case_sensitive {
                        p.as_str().to_owned()
                    } else {
                        to_upper(p.as_str())
                    };
                    let k_cmp = if self.case_sensitive {
                        key.to_owned()
                    } else {
                        to_upper(key)
                    };
                    if str_starts_with(k_cmp.as_str(), p_cmp.as_str())
                        && !mapping_values_contain(&self.field_mappings, key) {
                        let after = str_skip(k_cmp.as_str(), p_cmp.as_str().unicode_len());
                        let trimmed = str_trim_start_matches(after, self.separator.as_str());
                        let name = to_lower(trimmed);
                        match object_index(&out, &name) {
                            Some(_) => {},
                            None => {
                                object_set(&mut out, name, crate::coerce::coerce(val));
                            },
                        }
                    }
                },
                None => {},
            }
            proof {
                assert(vm.skip(j as int).drop_first() =~= vm.skip(j as int + 1));
                assert(vm.skip(j as int)[0] == vm[j as int]);
            }
            j = j + 1;
        }
        proof {
            assert(vm.skip(vm.len() as int) =~= Seq::empty());
        }
        Ok(ConfigValue::Object(out))
    }

    /// Is the constructed variable name for `key` set, in the override
    /// table or in the snapshot?
    pub fn has_value(&self, key: &str, vars: &Vec<(String, String)>) -> (r: bool)
        ensures
            r == (get_value_model(self@, smap_model(vars@), key@) is Some),
    {
        self.get_value(key, vars).is_some()
    }

    /// The coerced value under the constructed variable name for `key`: the
    /// override table first, then the snapshot.
    pub fn get_value(&self, key: &str, vars: &Vec<(String, String)>) -> (r: Option<ConfigValue>)
        ensures
            option_value_model(r) == get_value_model(self@, smap_model(vars@), key@),
    {
        let path = vec![key.to_owned()];
        let env_key = self.build_env_key(&path);
        proof {
            assert(Seq::new(path@.len(), |i: int| path@[i]@) =~= seq![key@]);
        }
        match smap_get(&self.overrides, env_key.as_str()) {
            Some(ov) => Some(crate::coerce::coerce(ov.as_str())),
            None => match smap_get(vars, env_key.as_str()) {
                Some(v) => Some(crate::coerce::coerce(v.as_str())),
                None => None,
            },
        }
    }

    /// Resolve each declared struct field from the override table or the
    /// snapshot, under `struct_env_key`'s naming.
    #[verifier::loop_isolation(false)]
    pub fn collect_for_struct(
        &self,
        struct_name: &str,
        fields: &Vec<(String, Option<String>)>,
        vars: &Vec<(String, String)>,
    ) -> (r: Vec<(String, ConfigValue)>)
        ensures
            entries_model(r@) == struct_fold(
                self@,
                struct_name@,
                smap_model(vars@),
                Seq::empty(),
                Seq::new(fields@.len(), |i: int| (fields@[i].0@, opt_str_model(fields@[i].1))),
            ),
    {
        let ghost m = self@;
        let ghost vm = smap_model(vars@);
        let ghost fm = Seq::new(
            fields@.len(),
            |i: int| (fields@[i].0@, opt_str_model(fields@[i].1)),
        );
        let mut out: Vec<(String, ConfigValue)> = Vec::new();
        proof {
            assert(entries_model(Seq::<(String, ConfigValue)>::empty()) =~= Seq::<
                (Seq<char>, ValueModel),
            >::empty());
        }
        let ghost target = struct_fold(m, struct_name@, vm, Seq::empty(), fm);
        proof {
            assert(fm.skip(0) =~= fm);
        }
        let mut i: usize = 0;
        while i < fields.len()
            invariant
                i <= fields.len(),
                target == struct_fold(m, struct_name@, vm, entries_model(out@), fm.skip(i as int)),
            decreases fields.len() - i,
        {
            let field = fields[i].0.clone();
            let env_key: String = match &fields[i].1 {
                Some(o) => o.clone(),
                None => match &self.prefix {
                    Some(p) => {
                        let up_p = to_upper(p.as_str());
                        let up_s = to_upper(struct_name);
                        let up_f = to_upper(field.as_str());
                        let a = str_concat(up_p.as_str(), "_");
                        let b = str_concat(a.as_str(), up_s.as_str());
                        let c = str_concat(b.as_str(), "_");
                        let d = str_concat(c.as_str(), up_f.as_str());
                        let e = str_concat(d.as_str(), "_");
                        trim_trailing(e.as_str())
                    },
                    None => {
                        let up_s = to_upper(struct_name);
                        let up_f = to_upper(field.as_str());
                        let a = str_concat(up_s.as_str(), "_");
                        str_concat(a.as_str(), up_f.as_str())
                    },
                },
            };
            match smap_get(&self.overrides, env_key.as_str()) {
                Some(ov) => {
                    let coerced = crate::coerce::coerce(ov.as_str());
                    object_set(&mut out, field, coerced);
                },
                None => {
                    match smap_get(vars, env_key.as_str()) {
                        Some(v) => {
                            let coerced = crate::coerce::coerce(v.as_str());
                            object_set(&mut out, field, coerced);
                        },
                        None => {},
                    }
                },
            }
            proof {
                assert(fm.skip(i as int).drop_first() =~= fm.skip(i as int + 1));
                assert(fm.skip(i as int)[0] == fm[i as int]);
            }
            i = i + 1;
        }
        proof {
            assert(fm.skip(fm.len() as int) =~= Seq::empty());
        }
        out
    }
}

/// Strip every trailing underscore.
#[verifier::loop_isolation(false)]
fn trim_trailing(s: &str) -> (r: String)
    ensures
        r@ == trim_trailing_underscores(s@),
{
    let n = s.unicode_len();
    proof {
        assert(s@.take(s@.len() as int) =~= s@);
    }
    let mut end: usize = n;
    while end > 0 && s.get_char(end - 1) == '_'
        invariant
            end <= n,
            n == s@.len(),
            trim_trailing_underscores(s@) == trim_trailing_underscores(s@.take(end as int)),
        decreases end,
    {
        proof {
            assert(s@.take(end as int).last() == s@[end - 1]);
            assert(s@.take(end as int).drop_last() =~= s@.take(end as int - 1));
        }
        end = end - 1;
    }
    let cut = s.substring_char(0, end);
    proof {
        if end > 0 {
            assert(s@.take(end as int).last() == s@[end - 1]);
        }
        assert(trim_trailing_underscores(s@.take(end as int)) == s@.take(end as int));
    }
    cut.to_owned()
}

/// Join strings with a separator, as `join_parts` denotes.
#[verifier::loop_isolation(false)]
fn join_strings(parts: &Vec<String>, sep: &str) -> (r: String)
    ensures
        r@ == join_parts(Seq::new(parts@.len(), |i: int| parts@[i]@), sep@),
{
    let ghost pm = Seq::new(parts@.len(), |i: int| parts@[i]@);
    if parts.len() == 0 {
        let r = String::new();
        proof {
            assert(r@ =~= join_parts(pm, sep@));
        }
        return r;
    }
    let mut acc = parts[0].clone();
    let mut i: usize = 1;
    while i < parts.len()
        invariant
            1 <= i <= parts.len(),
            acc@ == join_parts(pm.take(i as int), sep@),
        decreases parts.len() - i,
    {
        let with_sep = str_concat(acc.as_str(), sep);
        acc = str_concat(with_sep.as_str(), parts[i].as_str());
        proof {
            assert(pm.take(i as int + 1).drop_last() =~= pm.take(i as int));
            assert(pm.take(i as int + 1).last() == pm[i as int]);
        }
        i = i + 1;
    }
    proof {
        assert(pm.take(parts@.len() as int) =~= pm);
        assert(pm.take(1) =~= seq![pm[0]]);
    }
    acc
}

} // verus!
