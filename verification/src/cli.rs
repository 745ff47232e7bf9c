//! The command-line source: parses an argument vector under the token
//! grammar `--key value`, `--key=value`, `-k value`, and bare `--flag` as
//! boolean true.

use vstd::prelude::*;

use crate::coerce::{coerce, coerce_model};
use crate::strings::{smap_model, smap_set, str_starts_with, str_trim_start_matches, trim_prefix};
use crate::value::{
    clone_entries, entries_model, obj_get, obj_has, obj_set, object_index, ConfigValue,
    ValueModel,
};

verus! {

/// A command-line argument source, holding the values parsed from an
/// argument vector and any field mappings registered on it.
#[derive(Debug, Clone)]
pub struct Cli {
    pub parsed_values: Vec<(String, ConfigValue)>,
    pub field_mappings: Vec<(String, String)>,
}

/// The strings of an argument vector.
pub open spec fn strings_model(s: Seq<String>) -> Seq<Seq<char>> {
    Seq::new(s.len(), |i: int| s[i]@)
}

/// What parsing stores from position `i` on, given what was stored before it:
/// a `--key=value` token binds the part before its first equals sign to the
/// coerced part after it; a plain `--key` takes the next token as its coerced
/// value unless that token is itself a `--` flag (then the key is boolean
/// true); a two-character `-k` does the same against `-` flags; everything
/// else is skipped.
pub open spec fn cli_fold(
    args: Seq<Seq<char>>,
    i: int,
    acc: Seq<(Seq<char>, ValueModel)>,
) -> Seq<(Seq<char>, ValueModel)>
    decreases args.len() - i,
{
    if i < 0 || i >= args.len() {
        acc
    } else {
        let arg = args[i];
        if crate::strings::is_prefix("--"@, arg) {
            let token = trim_prefix(arg, "--"@);
            let eq = crate::strings::first_pos(token, '=');
            if eq >= 0 {
                cli_fold(
                    args,
                    i + 1,
                    obj_set(acc, token.take(eq), coerce_model(token.skip(eq + 1))),
                )
            } else if i + 1 < args.len() && !crate::strings::is_prefix("--"@, args[i + 1]) {
                cli_fold(args, i + 2, obj_set(acc, token, coerce_model(args[i + 1])))
            } else {
                cli_fold(args, i + 1, obj_set(acc, token, ValueModel::Bool(true)))
            }
        } else if crate::strings::is_prefix("-"@, arg) && arg.len() == 2 {
            let key = trim_prefix(arg, "-"@);
            if i + 1 < args.len() && !crate::strings::is_prefix("-"@, args[i + 1]) {
                cli_fold(args, i + 2, obj_set(acc, key, coerce_model(args[i + 1])))
            } else {
                cli_fold(args, i + 1, obj_set(acc, key, ValueModel::Bool(true)))
            }
        } else {
            cli_fold(args, i + 1, acc)
        }
    }
}

/// What `Cli::from_vec` stores: the fold over every token after the program
/// name.
pub open spec fn cli_parse_model(args: Seq<Seq<char>>) -> Seq<(Seq<char>, ValueModel)> {
    cli_fold(args, 1, Seq::empty())
}

impl Cli {
    /// Parse an argument vector; the first element is the program name and
    /// is skipped.
    #[verifier::loop_isolation(false)]
    pub fn from_vec(args: Vec<String>) -> (r: Self)
        ensures
            entries_model(r.parsed_values@) == cli_parse_model(strings_model(args@)),
            r.field_mappings@.len() == 0,
    {
        let ghost am = strings_model(args@);
        let mut out: Vec<(String, ConfigValue)> = Vec::new();
        proof {
            assert(entries_model(Seq::<(String, ConfigValue)>::empty()) =~= Seq::<
                (Seq<char>, ValueModel),
            >::empty());
        }
        let mut i: usize = 1;
        while i < args.len()
            invariant
                1 <= i,
                cli_parse_model(am) == cli_fold(am, i as int, entries_model(out@)),
            decreases args.len() - i,
        {
            let arg = args[i].as_str();
            if str_starts_with(arg, "--") {
                let token = str_trim_start_matches(arg, "--");
                match crate::strings::str_find_first(token, '=') {
                    Some(p) => {
                        let key = token.substring_char(0, p).to_owned();
                        let tn = token.unicode_len();
                        let value = coerce(token.substring_char(p + 1, tn));
                        proof {
                            assert(token@.subrange(0, p as int) =~= token@.take(p as int));
                            assert(token@.subrange(p as int + 1, tn as int) =~= token@.skip(
                                p as int + 1,
                            ));
                        }
                        crate::value::object_set(&mut out, key, value);
                        i = i + 1;
                    },
                    None => {
                        let key = token.to_owned();
                        if i + 1 < args.len() && !str_starts_with(args[i + 1].as_str(), "--") {
                            let value = coerce(args[i + 1].as_str());
                            crate::value::object_set(&mut out, key, value);
                            i = i + 2;
                        } else {
                            crate::value::object_set(&mut out, key, ConfigValue::Bool(true));
                            i = i + 1;
                        }
                    },
                }
            } else if str_starts_with(arg, "-") && arg.unicode_len() == 2 {
                let key = str_trim_start_matches(arg, "-").to_owned();
                if i + 1 < args.len() && !str_starts_with(args[i + 1].as_str(), "-") {
                    let value = coerce(args[i + 1].as_str());
                    crate::value::object_set(&mut out, key, value);
                    i = i + 2;
                } else {
                    crate::value::object_set(&mut out, key, ConfigValue::Bool(true));
                    i = i + 1;
                }
            } else {
                i = i + 1;
            }
        }
        Cli { parsed_values: out, field_mappings: Vec::new() }
    }

    /// Map a field name to the command-line key it is read from.
    pub fn with_field_mapping(self, field_name: &str, cli_key: &str) -> (r: Self)
        ensures
            entries_model(r.parsed_values@) == entries_model(self.parsed_values@),
            smap_model(r.field_mappings@) == obj_set(
                smap_model(self.field_mappings@),
                field_name@,
                cli_key@,
            ),
    {
        let mut field_mappings = self.field_mappings;
        let ghost fm0 = smap_model(self.field_mappings@);
        smap_set(&mut field_mappings, field_name.to_owned(), cli_key.to_owned());
        Cli { field_mappings, ..self }
    }

    /// The parsed key/value table.
    pub fn get_matches(&self) -> (r: &Vec<(String, ConfigValue)>)
        ensures
            r == &self.parsed_values,
    {
        &self.parsed_values
    }

    /// This source's kind.
    pub fn source_type(&self) -> (r: crate::source::Source)
        ensures
            r == crate::source::Source::Cli,
    {
        crate::source::Source::Cli
    }

    /// The parsed arguments as one object value.
    pub fn collect(&self) -> (r: Result<ConfigValue, crate::error::Error>)
        ensures
            r matches Ok(v) && v@ == ValueModel::Object(entries_model(self.parsed_values@)),
    {
        Ok(ConfigValue::Object(clone_entries(&self.parsed_values)))
    }

    /// Was this key given on the command line?
    pub fn has_value(&self, key: &str) -> (r: bool)
        ensures
            r == obj_has(entries_model(self.parsed_values@), key@),
    {
        let owned = key.to_owned();
        object_index(&self.parsed_values, &owned).is_some()
    }

    /// The parsed value for a key, where one was given.
    pub fn get_value(&self, key: &str) -> (r: Option<ConfigValue>)
        ensures
            crate::environment::option_value_model(r) == obj_get(
                entries_model(self.parsed_values@),
                key@,
            ),
    {
        let owned = key.to_owned();
        match object_index(&self.parsed_values, &owned) {
            Some(j) => {
                proof {
                    broadcast use crate::value::lemma_entries_model;

                }
                Some(self.parsed_values[j].1.clone())
            },
            None => None,
        }
    }
}

} // verus!
