//! The rows of the listing: what is shown of one entry of the directory.

use crate::time::Timestamp;
use vstd::prelude::*;
use vstd::string::*;

verus! {

/// The kind of an entry: a directory, or anything else.
#[derive(Clone, Copy, Debug, PartialEq, Eq, Structural)]
pub enum EntryType {
    Dir,
    File,
}

/// What is shown of one entry: each column as plain text and in color.
/// The plain text decides how wide a column is; the colored text is what
/// is written.
#[derive(Debug)]
pub struct EntryRow {
    pub name_plain: String,
    pub entry_type_plain: String,
    pub entry_type_colored: String,
    pub size_plain: String,
    pub size_colored: String,
    pub modified_plain: String,
    pub modified_colored: String,
    pub modified_time: Option<Timestamp>,
    pub name_with_git_colored: String,
    pub name_with_git_plain: String,
    pub is_dir: bool,
}

/// A row as the texts that it holds.
pub struct RowView {
    pub name_plain: Seq<char>,
    pub entry_type_plain: Seq<char>,
    pub entry_type_colored: Seq<char>,
    pub size_plain: Seq<char>,
    pub size_colored: Seq<char>,
    pub modified_plain: Seq<char>,
    pub modified_colored: Seq<char>,
    pub modified_time: Option<Timestamp>,
    pub name_with_git_colored: Seq<char>,
    pub name_with_git_plain: Seq<char>,
    pub is_dir: bool,
}

impl View for EntryRow {
    type V = RowView;

    open spec fn view(&self) -> RowView {
        RowView {
            name_plain: self.name_plain@,
            entry_type_plain: self.entry_type_plain@,
            entry_type_colored: self.entry_type_colored@,
            size_plain: self.size_plain@,
            size_colored: self.size_colored@,
            modified_plain: self.modified_plain@,
            modified_colored: self.modified_colored@,
            modified_time: self.modified_time,
            name_with_git_colored: self.name_with_git_colored@,
            name_with_git_plain: self.name_with_git_plain@,
            is_dir: self.is_dir,
        }
    }
}

/// The rows of `rows` as the texts that they hold.
pub open spec fn row_views(rows: Seq<EntryRow>) -> Seq<RowView> {
    Seq::new(rows.len(), |i: int| rows[i]@)
}

impl EntryRow {
    /// A copy of the row.
    pub fn duplicate(&self) -> (copy: EntryRow)
        ensures
            copy == *self,
    {
        EntryRow {
            name_plain: self.name_plain.clone(),
            entry_type_plain: self.entry_type_plain.clone(),
            entry_type_colored: self.entry_type_colored.clone(),
            size_plain: self.size_plain.clone(),
            size_colored: self.size_colored.clone(),
            modified_plain: self.modified_plain.clone(),
            modified_colored: self.modified_colored.clone(),
            modified_time: self.modified_time,
            name_with_git_colored: self.name_with_git_colored.clone(),
            name_with_git_plain: self.name_with_git_plain.clone(),
            is_dir: self.is_dir,
        }
    }
}

} // verus!
