use crate::metrics::{FileMetrics, Magnitude};
use crate::output::app::chart::Color;
use crate::text::{decimal, decimal_string};
use vstd::prelude::*;
use vstd::string::StringExecFns;

verus! {

/// One row of the table of files. The magnitude is kept as a number: it is
/// written out where the row is drawn.
#[derive(Debug, Clone)]
pub struct TableRow {
    pub filename: String,
    pub churn: String,
    pub complexity: String,
    pub magnitude: Magnitude,
}

/// `row` shows `file`: its name, its churn and its complexity in base ten,
/// and its magnitude.
pub open spec fn is_row_of(row: TableRow, file: FileMetrics) -> bool {
    &&& row.filename@ == file.filename@
    &&& row.churn@ == decimal(file.churn@)
    &&& row.complexity@ == decimal(file.complexity as nat)
    &&& row.magnitude@ == file.spec_magnitude()
}

/// The table of files: a heading, and one row for each file.
#[derive(Debug, Clone)]
pub struct FileTable {
    pub title: String,
    pub header: Vec<String>,
    pub header_color: Color,
    pub highlight_symbol: String,
    pub rows: Vec<TableRow>,
}

/// `table` is the table that lists `files`, one row each and in their
/// order, under the heading of the four columns.
pub open spec fn is_table_of(table: FileTable, files: Seq<FileMetrics>) -> bool {
    &&& table.title@ == "Files"@
    &&& table.header@.len() == 4
    &&& table.header@[0]@ == "Filename"@
    &&& table.header@[1]@ == "Churn"@
    &&& table.header@[2]@ == "Complexity"@
    &&& table.header@[3]@ == "Magnitude"@
    &&& table.header_color == Color::Red
    &&& table.highlight_symbol@ == ">> "@
    &&& table.rows@.len() == files.len()
    &&& forall|i: int| 0 <= i < files.len() ==> is_row_of(#[trigger] table.rows@[i], files[i])
}

impl FileMetrics {
    /// The file as a row of the table.
    pub fn to_cells(&self) -> (row: TableRow)
        ensures
            is_row_of(row, *self),
    {
        TableRow {
            filename: self.filename.clone(),
            churn: self.churn.to_string(),
            complexity: decimal_string(self.complexity as u64),
            magnitude: self.magnitude(),
        }
    }
}

/// The table that lists `items`, one row each, in their order.
pub fn file_table(items: &[FileMetrics]) -> (table: FileTable)
    ensures
        is_table_of(table, items@),
{
    let mut header: Vec<String> = Vec::new();
    header.push(String::from_str("Filename"));
    header.push(String::from_str("Churn"));
    header.push(String::from_str("Complexity"));
    header.push(String::from_str("Magnitude"));
    let mut rows: Vec<TableRow> = Vec::new();
    let mut i: usize = 0;
    while i < items.len()
        invariant
            i <= items@.len(),
            rows@.len() == i,
            forall|k: int| 0 <= k < i ==> is_row_of(#[trigger] rows@[k], items@[k]),
        decreases items@.len() - i,
    {
        rows.push(items[i].to_cells());
        i += 1;
    }
    FileTable {
        title: String::from_str("Files"),
        header,
        header_color: Color::Red,
        highlight_symbol: String::from_str(">> "),
        rows,
    }
}

} // verus!
