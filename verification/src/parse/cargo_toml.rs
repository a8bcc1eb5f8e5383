use vstd::prelude::*;

use crate::parse::find_path::strs;

verus! {

#[verifier::external_type_specification]
#[verifier::external_body]
pub struct ExTomlValue(toml::Value);

/// A TOML value as plain data.
#[derive(Debug)]
pub enum TomlValue {
    String(String),
    Integer(i64),
    Boolean(bool),
    Array(Vec<TomlValue>),
    Table(Vec<(String, TomlValue)>),
    /// A float or a date-time.
    Other,
}

/// The mathematical form of a TOML value.
pub enum SpecToml {
    Str(Seq<char>),
    Int(i64),
    Bool(bool),
    Array(Seq<SpecToml>),
    Table(Seq<(Seq<char>, SpecToml)>),
    Other,
}

impl TomlValue {
    pub open spec fn view(self) -> SpecToml
        decreases self,
    {
        match self {
            TomlValue::String(s) => SpecToml::Str(s@),
            TomlValue::Integer(i) => SpecToml::Int(i),
            TomlValue::Boolean(b) => SpecToml::Bool(b),
            TomlValue::Array(a) => SpecToml::Array(toml_views(a@)),
            TomlValue::Table(t) => SpecToml::Table(toml_entry_views(t@)),
            TomlValue::Other => SpecToml::Other,
        }
    }
}

pub open spec fn toml_views(a: Seq<TomlValue>) -> Seq<SpecToml>
    decreases a,
{
    if a.len() == 0 {
        Seq::empty()
    } else {
        toml_views(a.drop_last()).push(a.last().view())
    }
}

pub open spec fn toml_entry_views(t: Seq<(String, TomlValue)>) -> Seq<(Seq<char>, SpecToml)>
    decreases t,
{
    if t.len() == 0 {
        Seq::empty()
    } else {
        toml_entry_views(t.drop_last()).push((t.last().0@, t.last().1.view()))
    }
}

pub proof fn lemma_toml_entry_views(t: Seq<(String, TomlValue)>)
    ensures
        toml_entry_views(t).len() == t.len(),
        forall|i: int| 0 <= i < t.len() ==> #[trigger] toml_entry_views(t)[i] == (t[i].0@, t[i].1.view()),
    decreases t.len(),
{
    if t.len() > 0 {
        lemma_toml_entry_views(t.drop_last());
    }
}

/// The document that the `toml` crate reads from a text, as a table, or none
/// when the text is not a TOML document.
pub uninterp spec fn toml_document(text: Seq<char>) -> Option<SpecToml>;

/// The same TOML value as plain data (floats and date-times are `Other`).
#[verifier::external_body]
fn convert_toml(v: toml::Value) -> TomlValue {
    match v {
        toml::Value::String(s) => TomlValue::String(s),
        toml::Value::Integer(i) => TomlValue::Integer(i),
        toml::Value::Float(_) => TomlValue::Other,
        toml::Value::Boolean(b) => TomlValue::Boolean(b),
        toml::Value::Datetime(_) => TomlValue::Other,
        toml::Value::Array(a) => TomlValue::Array(a.into_iter().map(convert_toml).collect()),
        toml::Value::Table(t) => TomlValue::Table(t.into_iter().map(|(k, v)| (k, convert_toml(v))).collect()),
    }
}

/// Reads a TOML document with `toml`'s `Table` parser (`str::parse`); the
/// result is the table as plain data, or none when the text does not parse.
/// Nothing is claimed of which texts parse or of what they hold beyond the
/// name `toml_document`.
#[verifier::external_body]
fn parse_toml_document(text: &str) -> (r: Option<TomlValue>)
    ensures
        match r {
            Some(v) => toml_document(text@) == Some(v.view()),
            None => toml_document(text@) is None,
        },
{
    match text.parse::<toml::Table>() {
        Ok(t) => Some(convert_toml(toml::Value::Table(t))),
        Err(_) => None,
    }
}

/// Why the dependencies of a manifest could not be read.
#[derive(Clone, Copy, Debug, PartialEq, Eq, Structural)]
pub enum CargoTomlError {
    /// The text is not a TOML document.
    Parse,
    /// There is no `dependencies` entry.
    NoDependencies,
    /// The `dependencies` entry is not a table.
    NotTable,
}

impl CargoTomlError {
    pub fn message(&self) -> (r: &'static str)
        ensures
            r@ == match *self {
                CargoTomlError::Parse => "Could not parse Cargo.toml"@,
                CargoTomlError::NoDependencies => "Could not find 'dependencies' section in Cargo.toml"@,
                CargoTomlError::NotTable => "Could not convert 'dependencies' section to a table"@,
            },
    {
        match self {
            CargoTomlError::Parse => "Could not parse Cargo.toml",
            CargoTomlError::NoDependencies => "Could not find 'dependencies' section in Cargo.toml",
            CargoTomlError::NotTable => "Could not convert 'dependencies' section to a table",
        }
    }
}

/// The value of the first entry named `key` of a table.
pub open spec fn table_get(t: Seq<(Seq<char>, SpecToml)>, key: Seq<char>, k: int) -> Option<SpecToml>
    decreases t.len() - k,
{
    if k < 0 || k >= t.len() {
        None
    } else if t[k].0 == key {
        Some(t[k].1)
    } else {
        table_get(t, key, k + 1)
    }
}

/// The path of a dependency given by a table with a string `path` and a
/// `dependency` entry.
pub open spec fn local_dependency(v: SpecToml) -> Option<Seq<char>> {
    match v {
        SpecToml::Table(t) => match (table_get(t, "path"@, 0), table_get(t, "dependency"@, 0)) {
            (Some(SpecToml::Str(p)), Some(_)) => Some(p),
            _ => None,
        },
        _ => None,
    }
}

/// The (name, path) pairs of the local dependencies among the entries.
pub open spec fn local_dependencies(entries: Seq<(Seq<char>, SpecToml)>) -> Seq<(Seq<char>, Seq<char>)>
    decreases entries.len(),
{
    if entries.len() == 0 {
        Seq::empty()
    } else {
        let prev = local_dependencies(entries.drop_last());
        match local_dependency(entries.last().1) {
            Some(p) => prev.push((entries.last().0, p)),
            None => prev,
        }
    }
}

/// The local dependencies a manifest document declares, or why they cannot be read.
pub open spec fn manifest_dependencies(doc: SpecToml) -> Result<Seq<(Seq<char>, Seq<char>)>, CargoTomlError> {
    let deps = match doc {
        SpecToml::Table(t) => table_get(t, "dependencies"@, 0),
        _ => None,
    };
    match deps {
        None => Err(CargoTomlError::NoDependencies),
        Some(SpecToml::Table(entries)) => Ok(local_dependencies(entries)),
        Some(_) => Err(CargoTomlError::NotTable),
    }
}

fn table_get_exec<'a>(t: &'a Vec<(String, TomlValue)>, key: &str) -> (r: Option<&'a TomlValue>)
    ensures
        match table_get(toml_entry_views(t@), key@, 0) {
            Some(v) => r matches Some(x) && x.view() == v,
            None => r is None,
        },
{
    proof {
        lemma_toml_entry_views(t@);
    }
    let k_s = String::from_str(key);
    let mut i: usize = 0;
    while i < t.len()
        invariant
            i <= t@.len(),
            k_s@ == key@,
            toml_entry_views(t@).len() == t@.len(),
            forall|j: int| 0 <= j < t@.len() ==> #[trigger] toml_entry_views(t@)[j] == (t@[j].0@, t@[j].1.view()),
            table_get(toml_entry_views(t@), key@, 0) == table_get(toml_entry_views(t@), key@, i as int),
        decreases t@.len() - i,
    {
        if t[i].0 == k_s {
            return Some(&t[i].1);
        }
        i = i + 1;
    }
    None
}

/// The (name, path) pairs of the dependencies of a manifest document that
/// are tables with a string `path` and a `dependency` entry.
pub fn cargo_dependencies(doc: &TomlValue) -> (r: Result<Vec<(String, String)>, CargoTomlError>)
    ensures
        match manifest_dependencies(doc.view()) {
            Ok(ds) => r matches Ok(v) && v@.map_values(|e: (String, String)| (e.0@, e.1@)) == ds,
            Err(e) => r == Err::<Vec<(String, String)>, CargoTomlError>(e),
        },
{
    let deps = match doc {
        TomlValue::Table(t) => table_get_exec(t, "dependencies"),
        _ => None,
    };
    match deps {
        None => Err(CargoTomlError::NoDependencies),
        Some(TomlValue::Table(entries)) => {
            proof {
                lemma_toml_entry_views(entries@);
            }
            let mut out: Vec<(String, String)> = Vec::new();
            let mut i: usize = 0;
            while i < entries.len()
                invariant
                    i <= entries@.len(),
                    toml_entry_views(entries@).len() == entries@.len(),
                    forall|j: int| 0 <= j < entries@.len() ==> #[trigger] toml_entry_views(entries@)[j] == (entries@[j].0@, entries@[j].1.view()),
                    out@.map_values(|e: (String, String)| (e.0@, e.1@)) == local_dependencies(toml_entry_views(entries@).take(i as int)),
                decreases entries@.len() - i,
            {
                let ghost tv = toml_entry_views(entries@);
                assert(tv.take(i + 1).drop_last() == tv.take(i as int));
                assert(tv.take(i + 1).last() == tv[i as int]);
                let (name, v) = (&entries[i].0, &entries[i].1);
                if let TomlValue::Table(t) = v {
                    let p = table_get_exec(t, "path");
                    let d = table_get_exec(t, "dependency");
                    if let (Some(TomlValue::String(p)), Some(_)) = (p, d) {
                        let ghost before = out@;
                        out.push((name.clone(), p.clone()));
                        assert(out@.map_values(|e: (String, String)| (e.0@, e.1@)) =~= before.map_values(|e: (String, String)| (e.0@, e.1@)).push((name@, p@)));
                    }
                }
                i = i + 1;
            }
            assert(toml_entry_views(entries@).take(entries@.len() as int) == toml_entry_views(entries@));
            Ok(out)
        },
        Some(_) => Err(CargoTomlError::NotTable),
    }
}

/// Reads a manifest's text and returns the (name, path) pairs of its local
/// dependencies.
pub fn parse_cargo_toml(contents: &str) -> (r: Result<Vec<(String, String)>, CargoTomlError>)
    ensures
        match toml_document(contents@) {
            None => r == Err::<Vec<(String, String)>, CargoTomlError>(CargoTomlError::Parse),
            Some(doc) => match manifest_dependencies(doc) {
                Ok(ds) => r matches Ok(v) && v@.map_values(|e: (String, String)| (e.0@, e.1@)) == ds,
                Err(e) => r == Err::<Vec<(String, String)>, CargoTomlError>(e),
            },
        },
{
    match parse_toml_document(contents) {
        None => Err(CargoTomlError::Parse),
        Some(doc) => cargo_dependencies(&doc),
    }
}

} // verus!
