//! Range normalizer: a spreadsheet sheet's 2-D range with a header row.
//!
//! The named sheet's cells are read as text whatever their native type.
//! The first row of the range is the header row; the workbook reader
//! re-emits it as the first data row, so exactly that one leading row is
//! dropped before the rows are keyed positionally, like delimited records.

use vstd::prelude::*;
use calamine::Reader;
use vstd::string::*;
use crate::delimited::delimited_row;
use crate::delimited::lemma_row_dom;
use crate::delimited::record_row;
use crate::delimited::record_width;
use crate::delimited::trim_all;
use crate::delimited::trimmed;
use crate::detect::FileError;
use crate::detect::FileInfo;
use crate::table::DataFrame;
use crate::table::Row;
use crate::table::dedup_columns;
use crate::table::dedup_first;
use crate::table::lemma_dedup_first_props;

verus! {

/// What the workbook reader makes of the bytes and a sheet name: the grid
/// of cell texts (header row first) when the bytes are a readable workbook
/// holding that sheet, nothing otherwise; a function of bytes and name
/// alone.
pub uninterp spec fn xlsx_cells(bytes: Seq<u8>, sheet: Seq<char>) -> Option<Seq<Seq<Seq<char>>>>;

#[verifier::external_type_specification]
#[verifier::external_body]
pub struct ExXlsxError(calamine::XlsxError);

/// Relies on calamine::XlsxError's variants: each moved to the library's
/// error kind — a missing worksheet to `SheetNotFound`, a missing file to
/// `FileNotFound`, a missing table to `EmptyFile`, anything else to
/// `InvalidFile`.
#[verifier::external_body]
fn xlsx_error(e: calamine::XlsxError) -> (r: FileError)
    ensures
        !(r matches FileError::UnsupportedExtension(_)),
{
    match e {
        calamine::XlsxError::FileNotFound(_) => FileError::FileNotFound,
        calamine::XlsxError::WorksheetNotFound(_) => FileError::SheetNotFound,
        calamine::XlsxError::TableNotFound(_) => FileError::EmptyFile,
        _ => FileError::InvalidFile,
    }
}

/// Relies on calamine::Xlsx (crate `calamine`): `Xlsx::new` over the bytes
/// and `worksheet_range` for the named sheet, every cell taken as its
/// display text; the grid is a function of bytes and name alone, and a
/// failure is never an unsupported extension.
#[verifier::external_body]
fn xlsx_grid(bytes: &[u8], sheet: &str) -> (r: Result<Vec<Vec<String>>, FileError>)
    ensures
        (r matches Ok(g) ==> xlsx_cells(bytes@, sheet@) == Some(g.deep_view())),
        (r matches Err(e) ==> xlsx_cells(bytes@, sheet@) is None && !(e
            matches FileError::UnsupportedExtension(_))),
{
    let mut workbook = match calamine::Xlsx::new(std::io::Cursor::new(bytes)) {
        Ok(wb) => wb,
        Err(e) => return Err(xlsx_error(e)),
    };
    match workbook.worksheet_range(sheet) {
        Ok(range) => Ok(
            range.rows().map(|row| row.iter().map(|c| c.to_string()).collect()).collect(),
        ),
        Err(e) => Err(xlsx_error(e)),
    }
}

/// What a successfully built range table looks like: the trimmed header row
/// (first occurrence of each name) as columns, and each later grid row keyed
/// positionally — exactly one leading row, the header re-emitted as data,
/// has been dropped.
pub open spec fn range_ok(grid: Seq<Seq<Seq<char>>>, df: DataFrame) -> bool {
    &&& df.columns.deep_view() == dedup_first(trimmed(grid[0]))
    &&& df.rows@.len() == grid.len() - 1
    &&& forall|i: int|
        0 <= i < grid.len() - 1 ==> (#[trigger] df.rows@[i])@ == delimited_row(
            trimmed(grid[0]),
            grid[i + 1],
        )
    &&& df.well_formed()
}

/// Builds the range table from a sheet's grid of cell texts. The first row
/// is the header row and is dropped from the data exactly once; fails with
/// `EmptyFile` exactly when no data rows remain after that.
pub fn range_table(grid: &Vec<Vec<String>>) -> (r: Result<DataFrame, FileError>)
    ensures
        grid.deep_view().len() <= 1 ==> (r matches Err(e) && e is EmptyFile),
        grid.deep_view().len() > 1 ==> (r matches Ok(df) && range_ok(grid.deep_view(), df)),
{
    let ghost g = grid.deep_view();
    if grid.len() <= 1 {
        return Err(FileError::EmptyFile);
    }
    let cols_trimmed = trim_all(&grid[0]);
    let ghost tcols = cols_trimmed.deep_view();
    let columns = dedup_columns(&cols_trimmed);
    let mut rows: Vec<Row> = Vec::new();
    let mut i: usize = 1;
    while i < grid.len()
        invariant
            1 <= i <= grid@.len(),
            g == grid.deep_view(),
            tcols == cols_trimmed.deep_view(),
            tcols == trimmed(g[0]),
            rows@.len() == i - 1,
            forall|k: int|
                0 <= k < i - 1 ==> (#[trigger] rows@[k])@ == delimited_row(tcols, g[k + 1]),
        decreases grid@.len() - i,
    {
        let row = record_row(&cols_trimmed, &grid[i]);
        rows.push(row);
        i = i + 1;
    }
    let df = DataFrame { columns, rows };
    proof {
        lemma_dedup_first_props(tcols);
        assert forall|k: int| 0 <= k < g.len() - 1 implies (#[trigger] df.rows@[k])@.dom().subset_of(
            df.columns.deep_view().to_set(),
        ) by {
            lemma_row_dom(tcols, g[k + 1], record_width(tcols, g[k + 1]));
            assert forall|x: Seq<char>| #[trigger]
                df.rows@[k]@.dom().contains(x) implies df.columns.deep_view().to_set().contains(
                x,
            ) by {
                assert(tcols.contains(x));
                assert(dedup_first(tcols).contains(x));
            }
        }
    }
    Ok(df)
}

impl FileInfo {
    /// Reads a workbook's named sheet (`"Sheet1"` when none is given) into
    /// the common table shape. The header row the reader re-emits as data
    /// is dropped exactly once; fails with `EmptyFile` exactly when no data
    /// rows remain, and otherwise as the workbook reader decides —
    /// `SheetNotFound` for a missing sheet, never an unsupported extension.
    pub fn read_excel(content: &[u8], sheet_name: Option<String>) -> (r: Result<
        DataFrame,
        FileError,
    >)
        ensures
            ({
                let sheet = match sheet_name {
                    Some(s) => s@,
                    None => "Sheet1"@,
                };
                &&& (xlsx_cells(content@, sheet) matches Some(g) ==> ((g.len() <= 1 ==> (r
                    matches Err(e) && e is EmptyFile)) && (g.len() > 1 ==> (r matches Ok(df)
                    && range_ok(g, df)))))
                &&& (xlsx_cells(content@, sheet) is None ==> (r matches Err(e) && !(e
                    matches FileError::UnsupportedExtension(_))))
            }),
    {
        let sheet: String = match sheet_name {
            Some(s) => s,
            None => "Sheet1".to_owned(),
        };
        match xlsx_grid(content, sheet.as_str()) {
            Ok(grid) => range_table(&grid),
            Err(e) => Err(e),
        }
    }
}

} // verus!
