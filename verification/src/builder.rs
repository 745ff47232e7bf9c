//! The builder: accumulate configuration sources, then merge their values
//! under the fixed precedence order into one structured value.
//!
//! Accumulation is pure: nothing is scanned until `build_value` runs, and
//! that runs on a supplied environment snapshot, so the whole pipeline is a
//! function of the builder and the snapshot.

use vstd::prelude::*;

use crate::cli::Cli;
use crate::config::{config_data_model, config_get_model, Config, ConfigFormat};
use crate::environment::{collect_model, get_value_model, option_value_model, EnvModel, Environment};
use crate::error::Error;
use crate::merge::{merged_model, pairs_model, ConfigMerger, MergeStrategy};
use crate::source::{priority_of, Source};
use crate::strings::smap_model;
use crate::value::{entries_model, obj_get, obj_has, ConfigValue, ValueModel};

verus! {

/// One registered configuration source: an environment scanner, a parsed
/// file, parsed command-line arguments, or programmatic defaults.
#[derive(Debug, Clone)]
pub enum ConfigSource {
    Environment(Environment),
    File(Config),
    Cli(Cli),
    Defaults(ConfigValue),
}

/// The kind, and so the priority, of a registered source.
pub open spec fn source_kind(s: ConfigSource) -> Source {
    match s {
        ConfigSource::Environment(_) => Source::Environment,
        ConfigSource::File(_) => Source::ConfigFile,
        ConfigSource::Cli(_) => Source::Cli,
        ConfigSource::Defaults(_) => Source::Default,
    }
}

/// What a registered source yields on a snapshot.
pub open spec fn source_collect_model(
    s: ConfigSource,
    vars: Seq<(Seq<char>, Seq<char>)>,
) -> ValueModel {
    match s {
        ConfigSource::Environment(e) => collect_model(e@, vars),
        ConfigSource::File(c) => config_data_model(c),
        ConfigSource::Cli(c) => ValueModel::Object(entries_model(c.parsed_values@)),
        ConfigSource::Defaults(v) => v@,
    }
}

/// What a point query on a registered source yields.
pub open spec fn source_get_model(
    s: ConfigSource,
    vars: Seq<(Seq<char>, Seq<char>)>,
    key: Seq<char>,
) -> Option<ValueModel> {
    match s {
        ConfigSource::Environment(e) => get_value_model(e@, vars, key),
        ConfigSource::File(c) => config_get_model(c, key),
        ConfigSource::Cli(c) => obj_get(entries_model(c.parsed_values@), key),
        ConfigSource::Defaults(v) => match v@ {
            ValueModel::Object(es) => obj_get(es, key),
            _ => None,
        },
    }
}

impl ConfigSource {
    /// This source's kind.
    pub fn source_type(&self) -> (r: Source)
        ensures
            r == source_kind(*self),
    {
        match self {
            ConfigSource::Environment(_) => Source::Environment,
            ConfigSource::File(_) => Source::ConfigFile,
            ConfigSource::Cli(_) => Source::Cli,
            ConfigSource::Defaults(_) => Source::Default,
        }
    }

    /// Produce this source's structured value on a snapshot.
    pub fn collect(&self, vars: &Vec<(String, String)>) -> (r: Result<ConfigValue, Error>)
        ensures
            r matches Ok(v) && v@ == source_collect_model(*self, smap_model(vars@)),
    {
        match self {
            ConfigSource::Environment(e) => e.collect(vars),
            ConfigSource::File(c) => c.collect(),
            ConfigSource::Cli(c) => c.collect(),
            ConfigSource::Defaults(v) => Ok(v.clone()),
        }
    }

    /// Does this source hold a value for the key?
    pub fn has_value(&self, key: &str, vars: &Vec<(String, String)>) -> (r: bool)
        ensures
            r == (source_get_model(*self, smap_model(vars@), key@) is Some),
    {
        match self {
            ConfigSource::Environment(e) => e.has_value(key, vars),
            ConfigSource::File(c) => c.has_value(key),
            ConfigSource::Cli(c) => c.get_value(key).is_some(),
            ConfigSource::Defaults(v) => match v {
                ConfigValue::Object(es) => {
                    let owned = key.to_owned();
                    crate::value::object_index(es, &owned).is_some()
                },
                _ => false,
            },
        }
    }

    /// The value this source holds for the key, where it holds one.
    pub fn get_value(&self, key: &str, vars: &Vec<(String, String)>) -> (r: Option<ConfigValue>)
        ensures
            option_value_model(r) == source_get_model(*self, smap_model(vars@), key@),
    {
        match self {
            ConfigSource::Environment(e) => e.get_value(key, vars),
            ConfigSource::File(c) => c.get_value(key),
            ConfigSource::Cli(c) => c.get_value(key),
            ConfigSource::Defaults(v) => match v {
                ConfigValue::Object(es) => {
                    let owned = key.to_owned();
                    match crate::value::object_index(es, &owned) {
                        Some(j) => {
                            proof {
                                broadcast use crate::value::lemma_entries_model;

                            }
                            Some(es[j].1.clone())
                        },
                        None => None,
                    }
                },
                _ => None,
            },
        }
    }
}

/// The values all sources yield on a snapshot, each tagged with its kind's
/// priority, in registration order.
pub open spec fn collect_pairs(
    sources: Seq<ConfigSource>,
    vars: Seq<(Seq<char>, Seq<char>)>,
) -> Seq<(ValueModel, u8)> {
    Seq::new(
        sources.len(),
        |i: int| (source_collect_model(sources[i], vars), priority_of(source_kind(sources[i]))),
    )
}

/// What a build yields: every source collected, tagged, stable-sorted by
/// priority and folded under the merge strategy.
pub open spec fn builder_merged_model(
    strategy: MergeStrategy,
    sources: Seq<ConfigSource>,
    vars: Seq<(Seq<char>, Seq<char>)>,
) -> ValueModel {
    merged_model(strategy, collect_pairs(sources, vars))
}

/// Builder for assembling configuration from several sources with a merge
/// strategy.
pub struct ConfigBuilder {
    pub sources: Vec<ConfigSource>,
    pub merge_strategy: MergeStrategy,
}

impl Default for ConfigBuilder {
    /// The same as `new`: no sources, Deep merging.
    fn default() -> (r: Self)
        ensures
            r.sources@.len() == 0,
            r.merge_strategy == MergeStrategy::Deep,
    {
        ConfigBuilder::new()
    }
}

impl ConfigBuilder {
    /// An empty builder with the Deep merge strategy.
    pub fn new() -> (r: Self)
        ensures
            r.sources@.len() == 0,
            r.merge_strategy == MergeStrategy::Deep,
    {
        ConfigBuilder { sources: Vec::new(), merge_strategy: MergeStrategy::Deep }
    }

    /// Choose the merge strategy for combining sources.
    pub fn with_merge_strategy(self, strategy: MergeStrategy) -> (r: Self)
        ensures
            r.sources@ == self.sources@,
            r.merge_strategy == strategy,
    {
        ConfigBuilder { merge_strategy: strategy, ..self }
    }

    /// Register a source after those already registered.
    pub fn add_source(self, source: ConfigSource) -> (r: Self)
        ensures
            r.sources@ == self.sources@.push(source),
            r.merge_strategy == self.merge_strategy,
    {
        let mut sources = self.sources;
        sources.push(source);
        ConfigBuilder { sources, ..self }
    }

    /// Register an environment source with the given prefix and defaults
    /// otherwise.
    pub fn with_env(self, prefix: &str) -> (r: Self)
        ensures
            r.merge_strategy == self.merge_strategy,
            r.sources@.len() == self.sources@.len() + 1,
            r.sources@.take(self.sources@.len() as int) == self.sources@,
            r.sources@.last() matches ConfigSource::Environment(e) && e@ == (EnvModel {
                prefix: Some(prefix@),
                separator: "_"@,
                case_sensitive: false,
                overrides: Seq::empty(),
                field_mappings: Seq::empty(),
            }),
    {
        let env_source = Environment::new().with_prefix(prefix);
        let r = self.add_source(ConfigSource::Environment(env_source));
        proof {
            assert(r.sources@.take(r.sources@.len() - 1) =~= r.sources@.drop_last());
        }
        r
    }

    /// Register a fully configured environment source.
    pub fn with_env_custom(self, env: Environment) -> (r: Self)
        ensures
            r.sources@ == self.sources@.push(ConfigSource::Environment(env)),
            r.merge_strategy == self.merge_strategy,
    {
        self.add_source(ConfigSource::Environment(env))
    }

    /// Register a required configuration file from its path and text; the
    /// format comes from the path's extension.
    pub fn with_file(self, path: &str, content: &str) -> (r: Result<Self, Error>)
        ensures
            match crate::config::format_of_path(path@) {
                None => r matches Err(e) && e is Config,
                Some(fmt) => match crate::config::doc_model(fmt, content@) {
                    Some(v) => r matches Ok(b) && b.merge_strategy == self.merge_strategy
                        && b.sources@.len() == self.sources@.len() + 1 && b.sources@.take(
                        self.sources@.len() as int,
                    ) == self.sources@ && (b.sources@.last() matches ConfigSource::File(c)
                        && config_data_model(c) == v),
                    None => r matches Err(e) && e is Serialization,
                },
            },
    {
        match Config::from_file(path, content) {
            Ok(config) => {
                let b = self.add_source(ConfigSource::File(config));
                proof {
                    assert(b.sources@.take(b.sources@.len() - 1) =~= b.sources@.drop_last());
                }
                Ok(b)
            },
            Err(e) => Err(e),
        }
    }

    /// Register an optional configuration file: missing text (a missing
    /// file) contributes an empty document; present text must still be in a
    /// recognised format and well-formed.
    pub fn with_file_optional(self, path: &str, content: Option<&str>) -> (r: Result<Self, Error>)
        ensures
            match content {
                None => r matches Ok(b) && b.merge_strategy == self.merge_strategy
                    && b.sources@.len() == self.sources@.len() + 1 && b.sources@.take(
                    self.sources@.len() as int,
                ) == self.sources@ && (b.sources@.last() matches ConfigSource::File(c)
                    && config_data_model(c) == ValueModel::Object(Seq::empty())),
                Some(text) => match crate::config::format_of_path(path@) {
                    None => r matches Err(e) && e is Config,
                    Some(fmt) => match crate::config::doc_model(fmt, text@) {
                        Some(v) => r matches Ok(b) && b.merge_strategy == self.merge_strategy
                            && b.sources@.len() == self.sources@.len() + 1 && b.sources@.take(
                            self.sources@.len() as int,
                        ) == self.sources@ && (b.sources@.last() matches ConfigSource::File(c)
                            && config_data_model(c) == v),
                        None => r matches Err(e) && e is Serialization,
                    },
                },
            },
    {
        match Config::from_file_optional(path, content) {
            Ok(config) => {
                let b = self.add_source(ConfigSource::File(config));
                proof {
                    assert(b.sources@.take(b.sources@.len() - 1) =~= b.sources@.drop_last());
                }
                Ok(b)
            },
            Err(e) => Err(e),
        }
    }

    /// Register a configuration file from its text under an explicit format.
    pub fn with_file_format(self, path: &str, content: &str, format: ConfigFormat) -> (r: Result<
        Self,
        Error,
    >)
        ensures
            match crate::config::doc_model(format, content@) {
                Some(v) => r matches Ok(b) && b.merge_strategy == self.merge_strategy
                    && b.sources@.len() == self.sources@.len() + 1 && b.sources@.take(
                    self.sources@.len() as int,
                ) == self.sources@ && (b.sources@.last() matches ConfigSource::File(c)
                    && config_data_model(c) == v),
                None => r matches Err(e) && e is Serialization,
            },
    {
        match Config::with_format(path, content, format) {
            Ok(config) => {
                let b = self.add_source(ConfigSource::File(config));
                proof {
                    assert(b.sources@.take(b.sources@.len() - 1) =~= b.sources@.drop_last());
                }
                Ok(b)
            },
            Err(e) => Err(e),
        }
    }

    /// Register a fully configured command-line source.
    pub fn with_cli_custom(self, cli: Cli) -> (r: Self)
        ensures
            r.sources@ == self.sources@.push(ConfigSource::Cli(cli)),
            r.merge_strategy == self.merge_strategy,
    {
        self.add_source(ConfigSource::Cli(cli))
    }

    /// Register default values. They are always inserted first, so they
    /// cannot outrank any real source even among equal priorities.
    pub fn with_defaults(self, defaults: ConfigValue) -> (r: Result<Self, Error>)
        ensures
            r matches Ok(b) && b.merge_strategy == self.merge_strategy && b.sources@ == seq![
                ConfigSource::Defaults(defaults),
            ] + self.sources@,
    {
        let mut sources = self.sources;
        let ghost s0 = sources@;
        let ghost d0 = defaults;
        sources.insert(0, ConfigSource::Defaults(defaults));
        proof {
            assert(sources@ =~= seq![ConfigSource::Defaults(d0)] + s0);
        }
        Ok(ConfigBuilder { sources, ..self })
    }

    /// Collect every source on the snapshot, tag each value with its kind's
    /// priority, and merge them under the strategy, lowest priority first.
    #[verifier::loop_isolation(false)]
    pub fn build_value(&self, vars: &Vec<(String, String)>) -> (r: Result<ConfigValue, Error>)
        ensures
            r matches Ok(v) && v@ == builder_merged_model(
                self.merge_strategy,
                self.sources@,
                smap_model(vars@),
            ),
    {
        let ghost vm = smap_model(vars@);
        let ghost cp = collect_pairs(self.sources@, vm);
        let mut source_values: Vec<(ConfigValue, u8)> = Vec::new();
        let mut i: usize = 0;
        while i < self.sources.len()
            invariant
                i <= self.sources@.len(),
                source_values@.len() == i,
                forall|j: int|
                    0 <= j < i ==> (#[trigger] source_values@[j]).0@ == cp[j].0
                        && source_values@[j].1 == cp[j].1,
            decreases self.sources@.len() - i,
        {
            let source = &self.sources[i];
            match source.collect(vars) {
                Ok(value) => {
                    let priority = source.source_type().priority();
                    source_values.push((value, priority));
                },
                Err(e) => {
                    return Err(e);
                },
            }
            i = i + 1;
        }
        proof {
            assert(pairs_model(source_values@) =~= cp);
        }
        let merger = ConfigMerger::new(self.merge_strategy);
        Ok(merger.merge_sources(source_values))
    }

    /// The registered sources, in registration order.
    pub fn sources(&self) -> (r: &Vec<ConfigSource>)
        ensures
            r == &self.sources,
    {
        &self.sources
    }

    /// The first registered source of the given kind, where one exists.
    pub fn get_source(&self, kind: Source) -> (r: Option<&ConfigSource>)
        ensures
            match r {
                Some(src) => source_kind(*src) == kind && (exists|i: int|
                    0 <= i < self.sources@.len() && self.sources@[i] == *src),
                None => forall|i: int|
                    0 <= i < self.sources@.len() ==> source_kind(#[trigger] self.sources@[i])
                        != kind,
            },
    {
        let mut i: usize = 0;
        while i < self.sources.len()
            invariant
                i <= self.sources@.len(),
                forall|j: int|
                    0 <= j < i ==> source_kind(#[trigger] self.sources@[j]) != kind,
            decreases self.sources@.len() - i,
        {
            if self.sources[i].source_type() == kind {
                return Some(&self.sources[i]);
            }
            i = i + 1;
        }
        None
    }
}

} // verus!
