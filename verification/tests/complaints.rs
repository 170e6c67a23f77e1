use std::fmt;

use jiji_hamster_bridge::config::{Config, ConfigError};
use serde::de::{DeserializeSeed, Deserializer, Error, MapAccess, SeqAccess, Visitor};

/// What a field decodes to.
#[derive(Clone, Copy)]
enum Field {
    Text,
    OptionalText,
    Truth,
    OptionalTruth,
    Number,
    Texts,
}

/// A struct that denies unknown fields, decoded as serde decodes one.
struct Struct {
    name: &'static str,
    names: &'static [&'static str],
    fields: &'static [Field],
    needs: Option<usize>,
    has_default: bool,
}

const DEFAULTS: Struct = Struct {
    name: "Defaults",
    names: &[
        "switch_immediate",
        "return_debounce_secs",
        "untracked_grace_secs",
        "entity_tag_key",
        "extra_tags",
        "placeholder_activity",
        "placeholder_description",
        "resume_lookback_days",
        "mark_continuations",
    ],
    fields: &[
        Field::Truth,
        Field::Number,
        Field::Number,
        Field::Text,
        Field::Texts,
        Field::Text,
        Field::Text,
        Field::Number,
        Field::Truth,
    ],
    needs: None,
    has_default: true,
};

const ACTIVITY: Struct = Struct {
    name: "ActivityRule",
    names: &["entity", "category", "placeholder_activity", "placeholder_description"],
    fields: &[Field::OptionalText, Field::Text, Field::OptionalText, Field::OptionalText],
    needs: Some(1),
    has_default: false,
};

const WORKSPACE: Struct = Struct {
    name: "WorkspaceRule",
    names: &["entity", "track", "category", "placeholder_activity", "placeholder_description"],
    fields: &[
        Field::OptionalText,
        Field::OptionalTruth,
        Field::OptionalText,
        Field::OptionalText,
        Field::OptionalText,
    ],
    needs: None,
    has_default: false,
};

/// The position of a field's name.
struct Name(&'static [&'static str]);

impl<'de> DeserializeSeed<'de> for Name {
    type Value = usize;
    fn deserialize<D: Deserializer<'de>>(self, d: D) -> Result<usize, D::Error> {
        d.deserialize_identifier(self)
    }
}

impl<'de> Visitor<'de> for Name {
    type Value = usize;
    fn expecting(&self, f: &mut fmt::Formatter<'_>) -> fmt::Result {
        f.write_str("field identifier")
    }
    fn visit_str<E: Error>(self, v: &str) -> Result<usize, E> {
        match self.0.iter().position(|n| *n == v) {
            Some(i) => Ok(i),
            None => Err(E::unknown_field(v, self.0)),
        }
    }
}

struct Record(&'static Struct);

impl<'de> DeserializeSeed<'de> for Record {
    type Value = ();
    fn deserialize<D: Deserializer<'de>>(self, d: D) -> Result<(), D::Error> {
        d.deserialize_struct(self.0.name, self.0.names, self)
    }
}

impl<'de> Visitor<'de> for Record {
    type Value = ();
    fn expecting(&self, f: &mut fmt::Formatter<'_>) -> fmt::Result {
        f.write_str(&format!("struct {}", self.0.name))
    }
    fn visit_map<A: MapAccess<'de>>(self, mut map: A) -> Result<(), A::Error> {
        let mut seen = vec![false; self.0.names.len()];
        while let Some(i) = map.next_key_seed(Name(self.0.names))? {
            match self.0.fields[i] {
                Field::Text => drop(map.next_value::<String>()?),
                Field::OptionalText => drop(map.next_value::<Option<String>>()?),
                Field::Truth => drop(map.next_value::<bool>()?),
                Field::OptionalTruth => drop(map.next_value::<Option<bool>>()?),
                Field::Number => drop(map.next_value::<u64>()?),
                Field::Texts => drop(map.next_value::<Vec<String>>()?),
            }
            seen[i] = true;
        }
        match self.0.needs {
            Some(i) if !seen[i] => Err(A::Error::missing_field(self.0.names[i])),
            _ => Ok(()),
        }
    }
    fn visit_seq<A: SeqAccess<'de>>(self, mut seq: A) -> Result<(), A::Error> {
        for (i, field) in self.0.fields.iter().enumerate() {
            let found = match field {
                Field::Text => seq.next_element::<String>()?.is_some(),
                Field::OptionalText => seq.next_element::<Option<String>>()?.is_some(),
                Field::Truth => seq.next_element::<bool>()?.is_some(),
                Field::OptionalTruth => seq.next_element::<Option<bool>>()?.is_some(),
                Field::Number => seq.next_element::<u64>()?.is_some(),
                Field::Texts => seq.next_element::<Vec<String>>()?.is_some(),
            };
            if !found && !self.0.has_default {
                let n = self.0.fields.len();
                let expected = format!("struct {} with {n} elements", self.0.name);
                return Err(A::Error::invalid_length(i, &expected.as_str()));
            }
        }
        Ok(())
    }
}

/// Records under names of any kind.
struct Records(&'static Struct);

impl<'de> DeserializeSeed<'de> for Records {
    type Value = ();
    fn deserialize<D: Deserializer<'de>>(self, d: D) -> Result<(), D::Error> {
        d.deserialize_map(self)
    }
}

impl<'de> Visitor<'de> for Records {
    type Value = ();
    fn expecting(&self, f: &mut fmt::Formatter<'_>) -> fmt::Result {
        f.write_str("a map")
    }
    fn visit_map<A: MapAccess<'de>>(self, mut map: A) -> Result<(), A::Error> {
        while map.next_key::<String>()?.is_some() {
            map.next_value_seed(Record(self.0))?;
        }
        Ok(())
    }
}

struct Whole;

impl<'de> DeserializeSeed<'de> for Whole {
    type Value = ();
    fn deserialize<D: Deserializer<'de>>(self, d: D) -> Result<(), D::Error> {
        d.deserialize_struct("Config", &["defaults", "activities", "workspaces"], self)
    }
}

impl<'de> Visitor<'de> for Whole {
    type Value = ();
    fn expecting(&self, f: &mut fmt::Formatter<'_>) -> fmt::Result {
        f.write_str("struct Config")
    }
    fn visit_map<A: MapAccess<'de>>(self, mut map: A) -> Result<(), A::Error> {
        while let Some(i) = map.next_key_seed(Name(&["defaults", "activities", "workspaces"]))? {
            match i {
                0 => map.next_value_seed(Record(&DEFAULTS))?,
                1 => map.next_value_seed(Records(&ACTIVITY))?,
                _ => map.next_value_seed(Records(&WORKSPACE))?,
            }
        }
        Ok(())
    }
}

/// What decoding the text with serde complains of.
fn decoded(s: &str) -> Result<(), String> {
    toml::de::Deserializer::parse(s)
        .and_then(|d| Whole.deserialize(d))
        .map_err(|e| e.to_string())
}

/// What the library complains of, if not of a fault in a rule or a key.
fn parsed(s: &str) -> Result<(), String> {
    match Config::parse(s) {
        Err(ConfigError::InvalidToml { detail }) => Err(detail),
        _ => Ok(()),
    }
}

#[test]
fn complaints_are_those_of_decoding_with_serde() {
    for s in [
        "",
        "x =",
        "[a",
        "a = 1\na = 2\n",
        "bogus = 1\n",
        "[zzz]\n",
        "activities = 1\n",
        "activities = \"x\"\n",
        "activities = []\n",
        "[[activities]]\n",
        "workspaces = 2026-06-06T10:00:00Z\n",
        "activities = 2026-06-06\n",
        "defaults = 07:32:00\n",
        "defaults = 5\n",
        "defaults = \"a\\nb\\\"\"\n",
        "defaults = []\n",
        "defaults = [true, 1]\n",
        "defaults = [true, 1, -2]\n",
        "defaults = [1]\n",
        "defaults = [true, 1, 2, \"k\", [\"t\"], \"p\", \"d\", 3, false, 1e999]\n",
        "[defaults]\nbogus = 1\n",
        "[defaults]\nswitch_immediate = 1\n",
        "[defaults]\nswitch_immediate = \"true\"\n",
        "[defaults]\nswitch_immediate = 2026-06-06\n",
        "[defaults]\nreturn_debounce_secs = -1\n",
        "[defaults]\nreturn_debounce_secs = 1.0\n",
        "[defaults]\nreturn_debounce_secs = true\n",
        "[defaults]\nreturn_debounce_secs = 0x10\n",
        "[defaults]\nreturn_debounce_secs = 18446744073709551615\n",
        "[defaults]\nreturn_debounce_secs = 18446744073709551616\n",
        "[defaults]\nreturn_debounce_secs = 999999999999999999999999999999999999999999\n",
        "[defaults]\nextra_tags = [1]\n",
        "[defaults]\nextra_tags = [\"a\", [\n  \"b\"]]\n",
        "[defaults]\nextra_tags = \"a\"\n",
        "[defaults]\nextra_tags = { a = 1 }\n",
        "[defaults]\nextra_tags = 2026-06-06\n",
        "[defaults]\nextra_tags = 999999999999999999999999999999999999999999\n",
        "[defaults]\nplaceholder_activity = nan\n",
        "[defaults]\nplaceholder_activity = -inf\n",
        "[defaults]\nplaceholder_activity = 1e999\n",
        "[defaults]\nplaceholder_activity = 0.5\n",
        "defaults.bogus.x = 1\n",
        "[activities.x]\n",
        "[activities.ok]\ncategory = \"c\"\n[activities.x]\n",
        "[activities.x]\ncategory = 1\n",
        "[activities.x]\ncategory = []\n",
        "[activities.x]\ncategory = \"c\"\ntrack = true\n",
        "[activities.x]\nentity = 1\n",
        "[activities.\"é\"]\n\"ü\" = 1\n",
        "[activities]\nx = 1\n",
        "[activities]\nx = \"y\"\n",
        "[activities]\nx = 2026-06-06\n",
        "[activities]\nx = 99999999999999999999\n",
        "[activities]\nx = {}\n",
        "[activities]\nx = []\n",
        "[activities]\nx = [\"e\", \"c\", \"a\"]\n",
        "[activities]\nx = [\"e\", 1, \"a\"]\n",
        "[activities]\nx = [\"e\", \"c\", \"a\", \"d\"]\n",
        "[activities]\nx = [\"e\", \"c\", \"a\", \"d\", 99999999999999999999, 1e999, [nan]]\n",
        "activities.x.category = \"c\"\nactivities.y.entity = \"e\"\n",
        "[activities.b]\n[activities.a]\nbogus = 1\n",
        "[workspaces.x]\ntrack = \"no\"\n",
        "[workspaces.x]\ntrack = false\n",
        "[workspaces.x]\nbogus = false\n",
        "[workspaces]\nx = [\"e\"]\n",
        "[workspaces]\nx = [\"e\", 1]\n",
        "[workspaces]\nx = { entity = \"e\", track = 3 }\n",
        "[workspaces.x]\ntrack = 1\n[defaults]\nbogus = 1\n[activities.x]\n",
        "# comment\r\n[defaults]\r\nbogus = 1\r\n",
        "\tbogus = 1",
    ] {
        assert_eq!(parsed(s), decoded(s), "{s}");
    }
}

#[test]
fn complaints_point_at_the_place() {
    assert_eq!(
        parsed("[activities.ok]\ncategory = \"c\"\n[activities.x]\n"),
        Err("TOML parse error at line 3, column 1\n  |\n3 | [activities.x]\n  | ^^^^^^^^^^^^^^\n\
             missing field `category`\n"
            .into())
    );
    assert_eq!(
        parsed("[defaults]\nreturn_debounce_secs = -1\n"),
        Err("TOML parse error at line 2, column 24\n  |\n2 | return_debounce_secs = -1\n  \
             |                        ^^\ninvalid value: integer `-1`, expected u64\n"
            .into())
    );
    assert_eq!(
        parsed("bogus = 1\n"),
        Err("TOML parse error at line 1, column 1\n  |\n1 | bogus = 1\n  | ^^^^^\n\
             unknown field `bogus`, expected one of `defaults`, `activities`, `workspaces`\n"
            .into())
    );
    assert_eq!(
        parsed("[activities]\nx = [\"e\"]\n"),
        Err("TOML parse error at line 2, column 5\n  |\n2 | x = [\"e\"]\n  |     ^^^^^\n\
             invalid length 1, expected struct ActivityRule with 4 elements\n"
            .into())
    );
}

#[test]
fn items_behind_the_fields_are_not_looked_at() {
    let s = "[activities]\nx = [\"e\", \"c\", \"a\", \"d\", 99999999999999999999999999999999999999999]\n";
    let c = Config::parse(s).unwrap();
    assert_eq!(c.activities.get("x").unwrap().category, "c");
}
