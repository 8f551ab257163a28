//! The textual form of a snapshot: a TOML table of integers, read and
//! written by the `toml` crate.

use crate::snapshot::{rows_of, SnapshotEntry};
use std::collections::BTreeMap;
use vstd::prelude::*;

verus! {

#[verifier::external_type_specification]
#[verifier::external_body]
pub struct ExReadError(toml::de::Error);

#[verifier::external_type_specification]
#[verifier::external_body]
pub struct ExWriteError(toml::ser::Error);

/// The lines that a text holds when it is read as a TOML table from names to
/// unsigned 32-bit integers, or `None` where it cannot be read as one.
pub uninterp spec fn toml_table(text: Seq<char>) -> Option<Seq<(Seq<char>, u32)>>;

/// The text that a run of lines is written out as, or `None` where it
/// cannot be written.
pub uninterp spec fn toml_text(rows: Seq<(Seq<char>, u32)>) -> Option<Seq<char>>;

/// Calls `toml::from_str` for a map from `String` to `u32` and hands the
/// map's entries out in its own order. Assumed: what comes back depends on
/// the text alone.
#[verifier::external_body]
pub(crate) fn read_table(text: &str) -> (read: Result<Vec<SnapshotEntry>, toml::de::Error>)
    ensures
        match read {
            Ok(entries) => toml_table(text@) == Some(rows_of(entries@)),
            Err(_) => toml_table(text@) is None,
        },
{
    let table = toml::from_str::<BTreeMap<String, u32>>(text)?;
    Ok(table.into_iter().map(|(name, hash)| SnapshotEntry { name, hash }).collect())
}

/// Calls `toml::to_string_pretty` on the map from `String` to `u32` that
/// holds the given lines. Assumed: what comes back depends on the lines
/// alone.
#[verifier::external_body]
pub(crate) fn write_table(entries: &Vec<SnapshotEntry>) -> (written: Result<
    String,
    toml::ser::Error,
>)
    ensures
        match written {
            Ok(text) => toml_text(rows_of(entries@)) == Some(text@),
            Err(_) => toml_text(rows_of(entries@)) is None,
        },
{
    let table: BTreeMap<String, u32> =
        entries.iter().map(|entry| (entry.name.clone(), entry.hash)).collect();
    toml::to_string_pretty(&table)
}

} // verus!
