//! What is shown of a ranking: a plain table, or the frames of a dashboard.

use crate::metrics::{FileMetrics, ProjectMetrics};
use crate::output::app::App;
use crate::text::{decimal, decimal_string};
use vstd::prelude::*;
use vstd::string::StringExecFns;

pub mod app;

verus! {

/// How the ranking is shown.
#[derive(Debug, Clone, Copy, PartialEq, Eq, Structural)]
pub enum OutputMode {
    /// Print the results in the terminal as a human readable table
    StdOut,
    /// Display the results with a graph in a terminal application
    Tui,
}

/// The text that `comfy_table` draws for the table with the heading `header`
/// and the rows `rows`, with solid lines and round corners.
pub uninterp spec fn drawn_table(header: Seq<Seq<char>>, rows: Seq<Seq<Seq<char>>>) -> Seq<char>;

/// The characters of each cell of a row.
pub open spec fn row_cells(row: Seq<String>) -> Seq<Seq<char>> {
    row.map_values(|cell: String| cell@)
}

/// The characters of each cell of each row.
pub open spec fn cells_of(rows: Seq<Vec<String>>) -> Seq<Seq<Seq<char>>> {
    rows.map_values(|row: Vec<String>| row_cells(row@))
}

/// The number of characters that no cell of a drawn table reaches.
pub const CELL_LIMIT: usize = 21845;

/// The cell is short enough to be drawn.
pub open spec fn fits(cell: Seq<char>) -> bool {
    cell.len() < CELL_LIMIT
}

/// Draws a table with `comfy_table`: `Table::new`, then `set_header`,
/// `load_preset` with `UTF8_FULL`, `apply_modifier` with
/// `UTF8_ROUND_CORNERS` and `add_rows`, then its `Display`. The crate lays
/// a table out from the cells alone as long as no width, arrangement or
/// colour is set, and none is set here: the same cells give the same text.
/// It adds the padding to the width of a column in 16 bits, which a cell of
/// 65,534 columns would overflow; a character takes three columns at most,
/// so the cells are kept below a third of that.
#[verifier::external_body]
fn draw_table(header: Vec<String>, rows: Vec<Vec<String>>) -> (text: String)
    requires
        forall|i: int| 0 <= i < header@.len() ==> fits((#[trigger] header@[i])@),
        forall|r: int, c: int|
            0 <= r < rows@.len() && 0 <= c < rows@[r]@.len() ==> fits((#[trigger] rows@[r]@[c])@),
    ensures
        text@ == drawn_table(row_cells(header@), cells_of(rows@)),
{
    let mut table = comfy_table::Table::new();
    table
        .set_header(header)
        .load_preset(comfy_table::presets::UTF8_FULL)
        .apply_modifier(comfy_table::modifiers::UTF8_ROUND_CORNERS)
        .add_rows(rows);
    table.to_string()
}

/// The heading of the plain table.
pub open spec fn plain_header() -> Seq<Seq<char>> {
    seq!["Filename"@, "Churn"@, "Complexity"@]
}

/// The row of the plain table that shows `file`.
pub open spec fn plain_row(file: FileMetrics) -> Seq<Seq<char>> {
    seq![file.filename@, decimal(file.churn@), decimal(file.complexity as nat)]
}

/// The rows of the plain table of `files`: one for each file, in their
/// order.
pub open spec fn plain_rows(files: Seq<FileMetrics>) -> Seq<Seq<Seq<char>>> {
    files.map_values(|file: FileMetrics| plain_row(file))
}

/// The plain table of `files`, as text, with a line feed at the end.
pub open spec fn plain_table(files: Seq<FileMetrics>) -> Seq<char> {
    drawn_table(plain_header(), plain_rows(files)).push('\n')
}

/// What is to be done to show a ranking.
pub enum Output {
    /// Write this text.
    Text(String),
    /// Run the dashboard from this state.
    Dashboard(App),
}

/// Why a ranking cannot be shown.
#[derive(Debug, Clone, Copy, PartialEq, Eq, Structural)]
pub enum OutputError {
    /// A filename is too long for a cell of the plain table.
    FilenameTooLong,
}

/// Every filename of `files` fits into a cell of the plain table.
pub open spec fn filenames_fit(files: Seq<FileMetrics>) -> bool {
    forall|i: int| 0 <= i < files.len() ==> fits((#[trigger] files[i]).filename@)
}

/// Prepares the output of `metrics` in the way that `output_mode` asks for:
/// the text of the plain table, or the dashboard with no file selected. The
/// plain table is refused where a filename is too long for a cell.
pub fn print_output(output_mode: OutputMode, metrics: ProjectMetrics) -> (output: Result<
    Output,
    OutputError,
>)
    ensures
        match output_mode {
            OutputMode::StdOut => if filenames_fit(metrics@) {
                output matches Ok(Output::Text(text)) && text@ == plain_table(metrics@)
            } else {
                output matches Err(OutputError::FilenameTooLong)
            },
            OutputMode::Tui => output matches Ok(Output::Dashboard(app)) && app.cursor().is_none()
                && app.files() == metrics@,
        },
{
    match output_mode {
        OutputMode::StdOut => {
            let mut header: Vec<String> = Vec::new();
            header.push(String::from_str("Filename"));
            header.push(String::from_str("Churn"));
            header.push(String::from_str("Complexity"));
            proof {
                reveal_strlit("Filename");
                reveal_strlit("Churn");
                reveal_strlit("Complexity");
                assert(row_cells(header@) =~= plain_header());
            }
            let files = metrics.file_metrics();
            let mut rows: Vec<Vec<String>> = Vec::new();
            let mut i: usize = 0;
            while i < files.len()
                invariant
                    output_mode == OutputMode::StdOut,
                    files@ == metrics@,
                    i <= files@.len(),
                    rows@.len() == i,
                    forall|k: int| 0 <= k < i ==> fits((#[trigger] files@[k]).filename@),
                    forall|k: int|
                        0 <= k < i ==> row_cells(#[trigger] rows@[k]@) == plain_row(files@[k]),
                    forall|r: int, c: int|
                        0 <= r < i && 0 <= c < rows@[r]@.len() ==> fits((#[trigger] rows@[r]@[c])@),
                decreases files@.len() - i,
            {
                let metric = &files[i];
                if metric.filename.as_str().unicode_len() >= CELL_LIMIT {
                    assert(!fits(metrics@[i as int].filename@));
                    return Err(OutputError::FilenameTooLong);
                }
                let mut row: Vec<String> = Vec::new();
                row.push(metric.filename.clone());
                row.push(metric.churn.to_string());
                row.push(decimal_string(metric.complexity as u64));
                assert(row_cells(row@) =~= plain_row(*metric));
                rows.push(row);
                i += 1;
            }
            assert(cells_of(rows@) =~= plain_rows(files@));
            let mut text = draw_table(header, rows);
            proof {
                reveal_strlit("\n");
            }
            text.append("\n");
            assert(text@ =~= plain_table(metrics@));
            Ok(Output::Text(text))
        },
        OutputMode::Tui => Ok(Output::Dashboard(App::new(metrics))),
    }
}

} // verus!
