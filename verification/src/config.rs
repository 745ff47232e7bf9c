//! The file source: a parsed configuration document, its format chosen by
//! file extension or explicitly. The file's text is handed in by the caller,
//! so parsing is a pure function of it.

use vstd::prelude::*;

use crate::coerce::{json_value_of, option_model, parse_json_str};
use crate::error::Error;
use crate::strings::{first_pos, lemma_first_pos_at, lemma_first_pos_bounds, lemma_first_pos_none, lower_of, str_eq, to_lower};
use crate::value::{entries_model, obj_get, ConfigValue, ValueModel};

verus! {

/// Supported configuration file formats.
#[derive(Debug, Clone, Copy, PartialEq, Eq, Structural)]
pub enum ConfigFormat {
    Json,
    Yaml,
    Toml,
}

/// The format a file extension names, compared case-insensitively.
pub open spec fn from_extension_model(ext: Seq<char>) -> Option<ConfigFormat> {
    if lower_of(ext) == "json"@ {
        Some(ConfigFormat::Json)
    } else if lower_of(ext) == "yaml"@ || lower_of(ext) == "yml"@ {
        Some(ConfigFormat::Yaml)
    } else if lower_of(ext) == "toml"@ {
        Some(ConfigFormat::Toml)
    } else {
        None
    }
}

/// The structured value that a string denotes as a YAML document, when it is
/// one; a function of the characters alone.
pub uninterp spec fn yaml_value_of(s: Seq<char>) -> Option<ValueModel>;

/// The structured value that a string denotes as a TOML document, when it is
/// one; a function of the characters alone.
pub uninterp spec fn toml_value_of(s: Seq<char>) -> Option<ValueModel>;

/// Relies on serde_yaml::from_str: whether a string is a well-formed YAML
/// document with string keys, and which value it denotes, is a function of
/// the characters alone.
#[verifier::external_body]
fn parse_yaml_str(s: &str) -> (r: Option<ConfigValue>)
    ensures
        option_model(r) == yaml_value_of(s@),
{
    match serde_yaml::from_str::<serde_json::Value>(s) {
        Ok(v) => Some(crate::coerce::value_from_json(&v)),
        Err(_) => None,
    }
}

/// Relies on toml::from_str: whether a string is a well-formed TOML document,
/// and which value it denotes, is a function of the characters alone.
#[verifier::external_body]
fn parse_toml_str(s: &str) -> (r: Option<ConfigValue>)
    ensures
        option_model(r) == toml_value_of(s@),
{
    match toml::from_str::<serde_json::Value>(s) {
        Ok(v) => Some(crate::coerce::value_from_json(&v)),
        Err(_) => None,
    }
}

/// The value a document denotes under a given format.
pub open spec fn doc_model(format: ConfigFormat, s: Seq<char>) -> Option<ValueModel> {
    match format {
        ConfigFormat::Json => json_value_of(s),
        ConfigFormat::Yaml => yaml_value_of(s),
        ConfigFormat::Toml => toml_value_of(s),
    }
}

impl ConfigFormat {
    /// Detect the format from a file extension: `json`, `yaml`/`yml` or
    /// `toml`, compared case-insensitively.
    pub fn from_extension(ext: &str) -> (r: Option<ConfigFormat>)
        ensures
            r == from_extension_model(ext@),
    {
        let low = to_lower(ext);
        if str_eq(low.as_str(), "json") {
            Some(ConfigFormat::Json)
        } else if str_eq(low.as_str(), "yaml") || str_eq(low.as_str(), "yml") {
            Some(ConfigFormat::Yaml)
        } else if str_eq(low.as_str(), "toml") {
            Some(ConfigFormat::Toml)
        } else {
            None
        }
    }

    /// Parse a document under this format into a structured value; a
    /// document the format's parser refuses is a serialization error.
    pub fn parse(&self, content: &str) -> (r: Result<ConfigValue, Error>)
        ensures
            match doc_model(*self, content@) {
                Some(m) => r matches Ok(v) && v@ == m,
                None => r matches Err(e) && e is Serialization,
            },
    {
        let parsed = match self {
            ConfigFormat::Json => parse_json_str(content),
            ConfigFormat::Yaml => parse_yaml_str(content),
            ConfigFormat::Toml => parse_toml_str(content),
        };
        match parsed {
            Some(v) => Ok(v),
            None => {
                let msg = match self {
                    ConfigFormat::Json => "JSON parse error",
                    ConfigFormat::Yaml => "YAML parse error",
                    ConfigFormat::Toml => "TOML parse error",
                };
                Err(Error::Serialization(msg.to_owned()))
            },
        }
    }
}

/// Position of the last occurrence of `c`, or -1.
pub open spec fn last_pos(s: Seq<char>, c: char) -> int
    decreases s.len(),
{
    if s.len() == 0 {
        -1
    } else if s.last() == c {
        s.len() - 1
    } else {
        last_pos(s.drop_last(), c)
    }
}

/// The extension of a path: what follows the last dot of the part after the
/// last slash, provided that dot is not the part's first character.
pub open spec fn file_ext_model(path: Seq<char>) -> Option<Seq<char>> {
    let sl = last_pos(path, '/');
    let dot = last_pos(path, '.');
    if dot > sl + 1 {
        Some(path.skip(dot + 1))
    } else {
        None
    }
}

/// The format a path's extension names, where it has one.
pub open spec fn format_of_path(path: Seq<char>) -> Option<ConfigFormat> {
    match file_ext_model(path) {
        Some(e) => from_extension_model(e),
        None => None,
    }
}

/// Find the last occurrence of `c`, as `last_pos` denotes it.
#[verifier::loop_isolation(false)]
fn find_last(s: &str, c: char) -> (r: Option<usize>)
    ensures
        match r {
            Some(j) => j < s@.len() && last_pos(s@, c) == j as int,
            None => last_pos(s@, c) == -1,
        },
{
    let n = s.unicode_len();
    proof {
        assert(s@.take(n as int) =~= s@);
    }
    let mut i: usize = n;
    while i > 0
        invariant
            i <= n,
            last_pos(s@, c) == last_pos(s@.take(i as int), c),
        decreases i,
    {
        proof {
            assert(s@.take(i as int).last() == s@[i - 1]);
            assert(s@.take(i as int).drop_last() =~= s@.take(i as int - 1));
        }
        if s.get_char(i - 1) == c {
            return Some(i - 1);
        }
        i = i - 1;
    }
    None
}

/// The file extension of a path, as `file_ext_model` denotes it.
fn path_extension(path: &str) -> (r: Option<String>)
    ensures
        match r {
            Some(e) => file_ext_model(path@) == Some(e@),
            None => file_ext_model(path@) is None,
        },
{
    let dot = find_last(path, '.');
    let sl = find_last(path, '/');
    match dot {
        Some(d) => {
            let keep: bool = match sl {
                Some(s_pos) => d > s_pos && d - s_pos >= 2,
                None => d >= 1,
            };
            if keep {
                let n = path.unicode_len();
                Some(path.substring_char(d + 1, n).to_owned())
            } else {
                None
            }
        },
        None => None,
    }
}

/// A configuration file source: a path, a format, whether the file is
/// required, and the parsed document where one was loaded.
#[derive(Debug, Clone)]
pub struct Config {
    pub path: String,
    pub format: ConfigFormat,
    pub required: bool,
    pub data: Option<ConfigValue>,
}

/// Two file sources with the same path, format and required flag.
pub open spec fn same_identity(a: Config, b: Config) -> bool {
    a.format == b.format && a.path@ == b.path@ && a.required == b.required
}

/// What a file source yields when collected: its document, or an empty
/// object where none was loaded.
pub open spec fn config_data_model(c: Config) -> ValueModel {
    match c.data {
        Some(d) => d@,
        None => ValueModel::Object(Seq::empty()),
    }
}

/// Split a dotted key into its parts.
pub open spec fn split_dots(s: Seq<char>) -> Seq<Seq<char>>
    decreases s.len(),
    via split_dots_decreases
{
    let p = first_pos(s, '.');
    if p == -1 {
        seq![s]
    } else {
        seq![s.take(p)] + split_dots(s.skip(p + 1))
    }
}

#[via_fn]
proof fn split_dots_decreases(s: Seq<char>) {
    lemma_first_pos_bounds(s, '.');
}

/// Walk a value along a key path: each part selects an object entry.
pub open spec fn walk(m: ValueModel, parts: Seq<Seq<char>>) -> Option<ValueModel>
    decreases parts.len(),
{
    if parts.len() == 0 {
        Some(m)
    } else {
        match m {
            ValueModel::Object(es) => match obj_get(es, parts[0]) {
                Some(v) => walk(v, parts.drop_first()),
                None => None,
            },
            _ => None,
        }
    }
}

/// What a dotted-key query on a file source yields.
pub open spec fn config_get_model(c: Config, key: Seq<char>) -> Option<ValueModel> {
    match c.data {
        Some(d) => walk(d@, split_dots(key)),
        None => None,
    }
}

impl Config {
    /// Load a required configuration file from its text, detecting the
    /// format from the path's extension. An unrecognised extension is a
    /// configuration error; text the format's parser refuses is a
    /// serialization error.
    pub fn from_file(path: &str, content: &str) -> (r: Result<Config, Error>)
        ensures
            match format_of_path(path@) {
                None => r matches Err(e) && e is Config,
                Some(fmt) => match doc_model(fmt, content@) {
                    Some(v) => r matches Ok(c) && c.path@ == path@ && c.format == fmt && c.required
                        && (c.data matches Some(d) && d@ == v),
                    None => r matches Err(e) && e is Serialization,
                },
            },
    {
        let format = match path_extension(path) {
            Some(e) => ConfigFormat::from_extension(e.as_str()),
            None => None,
        };
        match format {
            None => Err(Error::Config("unknown config format".to_owned())),
            Some(fmt) => match fmt.parse(content) {
                Ok(v) => Ok(
                    Config { path: path.to_owned(), format: fmt, required: true, data: Some(v) },
                ),
                Err(e) => Err(e),
            },
        }
    }

    /// Load an optional configuration file from its text, where the file
    /// exists. A missing file (no text) is not an error and yields an empty
    /// document; a present file still needs a recognised extension and
    /// well-formed text.
    pub fn from_file_optional(path: &str, content: Option<&str>) -> (r: Result<Config, Error>)
        ensures
            match content {
                None => r matches Ok(c) && c.path@ == path@ && !c.required && (c.data matches Some(
                    d,
                ) && d@ == ValueModel::Object(Seq::empty())),
                Some(text) => match format_of_path(path@) {
                    None => r matches Err(e) && e is Config,
                    Some(fmt) => match doc_model(fmt, text@) {
                        Some(v) => r matches Ok(c) && c.path@ == path@ && c.format == fmt
                            && !c.required && (c.data matches Some(d) && d@ == v),
                        None => r matches Err(e) && e is Serialization,
                    },
                },
            },
    {
        match content {
            None => {
                let format = match path_extension(path) {
                    Some(e) => match ConfigFormat::from_extension(e.as_str()) {
                        Some(f) => f,
                        None => ConfigFormat::Json,
                    },
                    None => ConfigFormat::Json,
                };
                let empty = ConfigValue::Object(Vec::new());
                proof {
                    assert(entries_model(Seq::<(String, ConfigValue)>::empty()) =~= Seq::<
                        (Seq<char>, ValueModel),
                    >::empty());
                }
                Ok(
                    Config {
                        path: path.to_owned(),
                        format,
                        required: false,
                        data: Some(empty),
                    },
                )
            },
            Some(text) => {
                let format = match path_extension(path) {
                    Some(e) => ConfigFormat::from_extension(e.as_str()),
                    None => None,
                };
                match format {
                    None => Err(Error::Config("unknown config format".to_owned())),
                    Some(fmt) => match fmt.parse(text) {
                        Ok(v) => Ok(
                            Config {
                                path: path.to_owned(),
                                format: fmt,
                                required: false,
                                data: Some(v),
                            },
                        ),
                        Err(e) => Err(e),
                    },
                }
            },
        }
    }

    /// Load a configuration file from its text under an explicit format,
    /// bypassing extension detection.
    pub fn with_format(path: &str, content: &str, format: ConfigFormat) -> (r: Result<
        Config,
        Error,
    >)
        ensures
            match doc_model(format, content@) {
                Some(v) => r matches Ok(c) && c.path@ == path@ && c.format == format && c.required
                    && (c.data matches Some(d) && d@ == v),
                None => r matches Err(e) && e is Serialization,
            },
    {
        match format.parse(content) {
            Ok(v) => Ok(
                Config { path: path.to_owned(), format, required: true, data: Some(v) },
            ),
            Err(e) => Err(e),
        }
    }

    /// Replace the document with freshly supplied text, keeping the format:
    /// no text means the file could not be read, which is an I/O error for a
    /// required file and an empty document for an optional one.
    pub fn reload(&mut self, content: Option<&str>) -> (r: Result<(), Error>)
        ensures
            same_identity(*final(self), *old(self)),
            match content {
                Some(text) => match doc_model(old(self).format, text@) {
                    Some(v) => r is Ok && (final(self).data matches Some(d) && d@ == v),
                    None => r matches Err(e) && e is Serialization && final(self).data == old(
                        self,
                    ).data,
                },
                None => {
                    if old(self).required {
                        r matches Err(e) && e is Io && final(self).data == old(self).data
                    } else {
                        r is Ok && (final(self).data matches Some(d) && d@ == ValueModel::Object(
                            Seq::empty(),
                        ))
                    }
                },
            },
    {
        match content {
            Some(text) => match self.format.parse(text) {
                Ok(v) => {
                    self.data = Some(v);
                    Ok(())
                },
                Err(e) => Err(e),
            },
            None => {
                if self.required {
                    Err(Error::Io("could not read config file".to_owned()))
                } else {
                    let empty = ConfigValue::Object(Vec::new());
                    proof {
                        assert(entries_model(Seq::<(String, ConfigValue)>::empty()) =~= Seq::<
                            (Seq<char>, ValueModel),
                        >::empty());
                    }
                    self.data = Some(empty);
                    Ok(())
                }
            },
        }
    }

    /// This source's kind.
    pub fn source_type(&self) -> (r: crate::source::Source)
        ensures
            r == crate::source::Source::ConfigFile,
    {
        crate::source::Source::ConfigFile
    }

    /// The parsed document, or an empty object where none was loaded.
    pub fn collect(&self) -> (r: Result<ConfigValue, Error>)
        ensures
            r matches Ok(v) && v@ == config_data_model(*self),
    {
        match &self.data {
            Some(d) => Ok(d.clone()),
            None => {
                let empty = ConfigValue::Object(Vec::new());
                proof {
                    assert(entries_model(Seq::<(String, ConfigValue)>::empty()) =~= Seq::<
                        (Seq<char>, ValueModel),
                    >::empty());
                }
                Ok(empty)
            },
        }
    }

    /// Does the document hold a value at this dotted key path?
    pub fn has_value(&self, key: &str) -> (r: bool)
        ensures
            r == (config_get_model(*self, key@) is Some),
    {
        self.get_value(key).is_some()
    }

    /// The value at a dotted key path, walking nested objects.
    #[verifier::loop_isolation(false)]
    pub fn get_value(&self, key: &str) -> (r: Option<ConfigValue>)
        ensures
            crate::environment::option_value_model(r) == config_get_model(*self, key@),
    {
        match &self.data {
            Some(d) => {
                let parts = split_key(key);
                let ghost pm = split_dots(key@);
                let mut current: &ConfigValue = d;
                let mut i: usize = 0;
                proof {
                    assert(pm.skip(0) =~= pm);
                }
                while i < parts.len()
                    invariant
                        i <= parts.len(),
                        walk(d@, pm) == walk(current@, pm.skip(i as int)),
                    decreases parts.len() - i,
                {
                    match current {
                        ConfigValue::Object(es) => {
                            match crate::value::object_index(es, &parts[i]) {
                                Some(j) => {
                                    proof {
                                        broadcast use crate::value::lemma_entries_model;

                                        assert(pm.skip(i as int)[0] == pm[i as int]);
                                        assert(pm.skip(i as int).drop_first() =~= pm.skip(
                                            i as int + 1,
                                        ));
                                    }
                                    current = &es[j].1;
                                },
                                None => {
                                    proof {
                                        assert(pm.skip(i as int)[0] == pm[i as int]);
                                    }
                                    return None;
                                },
                            }
                        },
                        _ => {
                            return None;
                        },
                    }
                    i = i + 1;
                }
                proof {
                    assert(pm.skip(parts@.len() as int) =~= Seq::empty());
                }
                Some(current.clone())
            },
            None => None,
        }
    }
}

/// Split a dotted key into its parts, as `split_dots` denotes.
#[verifier::loop_isolation(false)]
fn split_key(key: &str) -> (r: Vec<String>)
    ensures
        r@.len() == split_dots(key@).len(),
        forall|i: int| 0 <= i < r@.len() ==> (#[trigger] r@[i])@ == split_dots(key@)[i],
{
    let n = key.unicode_len();
    let mut parts: Vec<String> = Vec::new();
    proof {
        assert(key@.skip(0) =~= key@);
    }
    let mut start: usize = 0;
    let mut i: usize = 0;
    while i < n
        invariant
            start <= i <= n,
            n == key@.len(),
            forall|j: int| start <= j < i ==> key@[j] != '.',
            split_dots(key@) =~= Seq::new(parts@.len(), |l: int| parts@[l]@) + split_dots(
                key@.skip(start as int),
            ),
        decreases n - i,
    {
        if key.get_char(i) == '.' {
            let piece = key.substring_char(start, i);
            parts.push(piece.to_owned());
            proof {
                lemma_first_pos_at(key@.skip(start as int), '.', i - start);
                assert(key@.skip(start as int).take(i - start) =~= key@.subrange(
                    start as int,
                    i as int,
                ));
                assert(key@.skip(start as int).skip(i - start + 1) =~= key@.skip(i as int + 1));
                assert(split_dots(key@) =~= Seq::new(parts@.len(), |l: int| parts@[l]@)
                    + split_dots(key@.skip(i as int + 1)));
            }
            start = i + 1;
        }
        i = i + 1;
    }
    let piece = key.substring_char(start, n);
    parts.push(piece.to_owned());
    proof {
        lemma_first_pos_none(key@.skip(start as int), '.');
        assert(split_dots(key@.skip(start as int)) == seq![key@.skip(start as int)]);
        assert(key@.skip(start as int) =~= key@.subrange(start as int, n as int));
        assert(Seq::new(parts@.len(), |l: int| parts@[l]@) =~= split_dots(key@));
    }
    parts
}

} // verus!
