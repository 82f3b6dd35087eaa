//! The manifest of the package that a script installs, as far as the
//! script is concerned: the name of the package in it can be replaced.
//!
//! The manifest is TOML, and reading and writing TOML is left to the
//! `toml` crate. What the crate returns is named here rather than spelled
//! out; which of its results are asked for, and what is done with each, is
//! decided and verified here.

use vstd::prelude::*;

verus! {

/// `Map` of `toml`, the type behind `toml::Table`: a table of a TOML
/// document. Nothing inside it is visible here.
#[verifier::external_type_specification]
#[verifier::external_body]
#[verifier::reject_recursive_types(K)]
#[verifier::reject_recursive_types(V)]
pub struct ExMap<K, V>(toml::map::Map<K, V>);

/// `Value` of `toml`: one value of a TOML document.
#[verifier::external_type_specification]
#[verifier::external_body]
pub struct ExValue(toml::Value);

/// `de::Error` of `toml`: what the parser says against a text.
#[verifier::external_type_specification]
#[verifier::external_body]
pub struct ExDeError(toml::de::Error);

/// `ser::Error` of `toml`: what the serializer says against a table.
#[verifier::external_type_specification]
#[verifier::external_body]
pub struct ExSerError(toml::ser::Error);

/// The table that `text` is read as, if it is a TOML document.
pub uninterp spec fn parsed(text: Seq<char>) -> Option<toml::Table>;

/// The TOML document that `table` is written as, if it can be written.
pub uninterp spec fn rendered(table: toml::Table) -> Option<Seq<char>>;

/// The value that `table` holds under `key`, if it holds one.
pub uninterp spec fn looked_up(table: toml::Table, key: Seq<char>) -> Option<toml::Value>;

/// The table that holds `value` under `key` and is otherwise as `table`.
pub uninterp spec fn with_entry(table: toml::Table, key: Seq<char>, value: toml::Value)
    -> toml::Table;

/// The table that `value` is, if it is one.
pub uninterp spec fn as_table(value: toml::Value) -> Option<toml::Table>;

/// The value that is the table `table`.
pub uninterp spec fn table_value(table: toml::Table) -> toml::Value;

/// Whether `value` is a string.
pub uninterp spec fn is_text(value: toml::Value) -> bool;

/// The value that is the string `text`.
pub uninterp spec fn text_value(text: Seq<char>) -> toml::Value;

/// `toml::from_str` of `toml`, reached through `str::parse`: the table
/// that `text` is read as, or the parser's error. The result depends on
/// the text alone.
#[verifier::external_body]
fn parse_table(text: &str) -> (r: Result<toml::Table, toml::de::Error>)
    ensures
        match r {
            Ok(table) => parsed(text@) == Some(table),
            Err(_) => parsed(text@) is None,
        },
{
    text.parse::<toml::Table>()
}

/// `toml::to_string` of `toml` on a table: the document that the table is
/// written as, or the serializer's error. The result depends on the table
/// alone.
#[verifier::external_body]
fn render_table(table: &toml::Table) -> (r: Result<String, toml::ser::Error>)
    ensures
        match r {
            Ok(text) => rendered(*table) == Some(text@),
            Err(_) => rendered(*table) is None,
        },
{
    toml::to_string(table)
}

/// `Map::get_mut` of `toml`: the place at which `table` holds its value
/// under `key`, if it holds one. What is written to that place is what the
/// table then holds under `key`; a table that is given back what it held
/// is unchanged.
#[verifier::external_body]
fn table_get_mut<'a>(table: &'a mut toml::Table, key: &str) -> (r: Option<&'a mut toml::Value>)
    ensures
        match r {
            Some(value) => {
                &&& looked_up(*old(table), key@) == Some(*value)
                &&& *final(table) == with_entry(*old(table), key@, *final(value))
                &&& with_entry(*old(table), key@, *value) == *old(table)
            },
            None => looked_up(*old(table), key@) is None && *final(table) == *old(table),
        },
{
    table.get_mut(key)
}

/// `Value::as_table_mut` of `toml`: the table that `value` is, if it is
/// one. What the table is changed to is what the value then is; a value
/// that is left the table it was is unchanged.
#[verifier::external_body]
fn value_as_table_mut<'a>(value: &'a mut toml::Value) -> (r: Option<&'a mut toml::Table>)
    ensures
        match r {
            Some(table) => {
                &&& as_table(*old(value)) == Some(*table)
                &&& *final(value) == table_value(*final(table))
                &&& table_value(*table) == *old(value)
            },
            None => as_table(*old(value)) is None && *final(value) == *old(value),
        },
{
    value.as_table_mut()
}

/// `Value::is_str` of `toml`: whether `value` is a string.
#[verifier::external_body]
fn value_is_str(value: &toml::Value) -> (r: bool)
    ensures
        r == is_text(*value),
{
    value.is_str()
}

/// `Value::from` of `toml` on a `String`: the value that is that string.
#[verifier::external_body]
fn value_from_string(text: String) -> (r: toml::Value)
    ensures
        r == text_value(text@),
{
    toml::Value::from(text)
}

/// Why the name of the package in a manifest cannot be replaced.
#[derive(Debug)]
pub enum ManifestError {
    /// The manifest is not a TOML document; the parser says why.
    Invalid(toml::de::Error),
    /// The manifest has no `package`.
    NoPackage,
    /// The package has no `name`.
    NoName,
    /// The manifest cannot be written back; the serializer says why.
    Unwritable(toml::ser::Error),
}

/// What a manifest lacks when the name of its package cannot be replaced.
#[derive(Clone, Copy, Debug, PartialEq, Eq, Structural)]
pub enum Gap {
    NoPackage,
    NoName,
}

/// What replacing the name comes to, without the words of the parser and
/// of the serializer.
pub enum Renamed {
    Invalid,
    NoPackage,
    NoName,
    Unwritable,
    Text(Seq<char>),
}

/// `table` with the name of its package replaced by `name`. The name is
/// replaced where `package` is a table and its `name` a string; where
/// `package` is no table, or `name` no string, the table stays as it is.
pub open spec fn with_package_name(table: toml::Table, name: Seq<char>) -> Result<
    toml::Table,
    Gap,
> {
    match looked_up(table, "package"@) {
        None => Err(Gap::NoPackage),
        Some(package) => match as_table(package) {
            None => Ok(table),
            Some(fields) => match looked_up(fields, "name"@) {
                None => Err(Gap::NoName),
                Some(old_name) => if is_text(old_name) {
                    Ok(
                        with_entry(
                            table,
                            "package"@,
                            table_value(with_entry(fields, "name"@, text_value(name))),
                        ),
                    )
                } else {
                    Ok(table)
                },
            },
        },
    }
}

/// What replacing the name of the package in `manifest` by `name` comes
/// to: the manifest is read, the name is replaced in the table, and the
/// table is written back.
pub open spec fn renamed(manifest: Seq<char>, name: Seq<char>) -> Renamed {
    match parsed(manifest) {
        None => Renamed::Invalid,
        Some(table) => match with_package_name(table, name) {
            Err(Gap::NoPackage) => Renamed::NoPackage,
            Err(Gap::NoName) => Renamed::NoName,
            Ok(table) => match rendered(table) {
                Some(text) => Renamed::Text(text),
                None => Renamed::Unwritable,
            },
        },
    }
}

/// Replaces the name of the package in `table` by `name`. A table without
/// a package, or with a package without a name, is left as it is.
pub fn set_package_name(table: &mut toml::Table, name: &str) -> (r: Result<(), Gap>)
    ensures
        match with_package_name(*old(table), name@) {
            Ok(named) => r is Ok && *final(table) == named,
            Err(gap) => r == Err::<(), Gap>(gap) && *final(table) == *old(table),
        },
{
    match table_get_mut(table, "package") {
        None => Err(Gap::NoPackage),
        Some(package) => match value_as_table_mut(package) {
            None => Ok(()),
            Some(fields) => match table_get_mut(fields, "name") {
                None => Err(Gap::NoName),
                Some(old_name) => {
                    if value_is_str(old_name) {
                        *old_name = value_from_string(name.to_owned());
                    }
                    Ok(())
                },
            },
        },
    }
}

/// Replaces the name of the package in `manifest` by `name` and returns
/// the manifest as it is written back.
pub fn rename_package(manifest: &str, name: &str) -> (r: Result<String, ManifestError>)
    ensures
        match renamed(manifest@, name@) {
            Renamed::Invalid => r matches Err(ManifestError::Invalid(_)),
            Renamed::NoPackage => r matches Err(ManifestError::NoPackage),
            Renamed::NoName => r matches Err(ManifestError::NoName),
            Renamed::Unwritable => r matches Err(ManifestError::Unwritable(_)),
            Renamed::Text(text) => r matches Ok(out) && out@ == text,
        },
{
    let mut table = match parse_table(manifest) {
        Ok(table) => table,
        Err(e) => {
            return Err(ManifestError::Invalid(e));
        },
    };
    match set_package_name(&mut table, name) {
        Ok(()) => {},
        Err(Gap::NoPackage) => {
            return Err(ManifestError::NoPackage);
        },
        Err(Gap::NoName) => {
            return Err(ManifestError::NoName);
        },
    }
    match render_table(&table) {
        Ok(text) => Ok(text),
        Err(e) => Err(ManifestError::Unwritable(e)),
    }
}

} // verus!
