//! The listing data model: one row per filesystem child, plus the synthetic
//! parent row.

use vstd::prelude::*;

use crate::time::{clamp_timestamp, clamp_ts, ts_in_range};

verus! {

/// Mathematical model of one listing row.
#[verifier::ext_equal]
pub ghost struct EntryModel {
    /// The child's base name.
    pub name: Seq<char>,
    /// Byte count; present only for regular files.
    pub size: Option<u64>,
    /// Last-modification timestamp, seconds since the Unix epoch.
    pub modified: int,
    /// True for subdirectories and for the parent row.
    pub directory: bool,
}

/// One child discovered during a single listing operation, or the synthetic
/// parent row.
pub struct ListEntry {
    /// The child's base name.
    pub name: String,
    /// Byte count; present only for regular files.
    pub size: Option<u64>,
    /// Last-modification timestamp, seconds since the Unix epoch.
    pub modified: i64,
    /// True for subdirectories and for the parent row.
    pub directory: bool,
}

impl View for ListEntry {
    type V = EntryModel;

    open spec fn view(&self) -> EntryModel {
        EntryModel {
            name: self.name@,
            size: self.size,
            modified: self.modified as int,
            directory: self.directory,
        }
    }
}

/// A renderable row: its timestamp lies in the formatter's range.
pub open spec fn entry_wf(e: EntryModel) -> bool {
    ts_in_range(e.modified)
}

/// The synthetic parent row: named `".."`, a directory, no size.
pub open spec fn parent_model(now: int) -> EntryModel {
    EntryModel { name: ".."@, size: None, modified: now, directory: true }
}

/// The models of a sequence of rows.
pub open spec fn models(s: Seq<ListEntry>) -> Seq<EntryModel> {
    Seq::new(s.len(), |i: int| s[i]@)
}

/// Every row is renderable.
pub open spec fn all_wf(l: Seq<EntryModel>) -> bool {
    forall|i: int| 0 <= i < l.len() ==> entry_wf(#[trigger] l[i])
}

/// No two rows share a name.
pub open spec fn unique_names(l: Seq<EntryModel>) -> bool {
    forall|i: int, j: int| 0 <= i < j < l.len() ==> #[trigger] l[i].name != #[trigger] l[j].name
}

impl ListEntry {
    /// A regular-file row; an out-of-range timestamp is clamped.
    pub fn file(name: String, size: u64, modified: i64) -> (e: ListEntry)
        ensures
            e@ == (EntryModel {
                name: name@,
                size: Some(size),
                modified: clamp_ts(modified as int),
                directory: false,
            }),
            entry_wf(e@),
    {
        ListEntry { name, size: Some(size), modified: clamp_timestamp(modified), directory: false }
    }

    /// A subdirectory row; an out-of-range timestamp is clamped.
    pub fn subdir(name: String, modified: i64) -> (e: ListEntry)
        ensures
            e@ == (EntryModel {
                name: name@,
                size: None,
                modified: clamp_ts(modified as int),
                directory: true,
            }),
            entry_wf(e@),
    {
        ListEntry { name, size: None, modified: clamp_timestamp(modified), directory: true }
    }

    /// The synthetic parent row, carrying the current time.
    pub fn parent(now: i64) -> (e: ListEntry)
        ensures
            e@ == parent_model(clamp_ts(now as int)),
            entry_wf(e@),
    {
        ListEntry {
            name: String::from_str(".."),
            size: None,
            modified: clamp_timestamp(now),
            directory: true,
        }
    }
}

} // verus!
