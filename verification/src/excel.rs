//! Building whole workbooks in memory.
use vstd::prelude::*;

use crate::models::IndexError;
use crate::query::texts;
use crate::knubs::matrix_texts;
use crate::xlsx::{autofit, no_cells, sheet_cells, string_write_ok};

verus! {

broadcast use vstd::string::group_string_axioms;

/// What the worksheets of a workbook hold, in order: the text cells of each, as
/// `sheet_cells` reads a worksheet.
pub uninterp spec fn workbook_sheets(wb: rust_xlsxwriter::Workbook) -> Seq<Map<(u32, u16), Seq<char>>>;

/// Calls `Workbook::new()`: a workbook with no worksheet.
#[verifier::external_body]
fn workbook_new() -> (r: rust_xlsxwriter::Workbook)
    ensures
        workbook_sheets(r).len() == 0,
{
    rust_xlsxwriter::Workbook::new()
}

/// Calls `Workbook::add_worksheet`: the workbook gains, last, a new worksheet
/// with no cell, and the reference handed back is that worksheet (its name
/// `SheetN` is always valid, so the call does not fail).
#[verifier::external_body]
fn add_worksheet(wb: &mut rust_xlsxwriter::Workbook) -> (r: &mut rust_xlsxwriter::Worksheet)
    ensures
        sheet_cells(*r) == no_cells(),
        workbook_sheets(*final(wb)) == workbook_sheets(*old(wb)).push(sheet_cells(*final(r))),
{
    wb.add_worksheet()
}

/// The cells after writing text `t` at (`r`, `c`) without a format, or `None`
/// when the write fails: an empty text is ignored.
pub open spec fn cell_write(
    sheet: Map<(u32, u16), Seq<char>>,
    r: u32,
    c: u16,
    t: Seq<char>,
) -> Option<Map<(u32, u16), Seq<char>>> {
    if t.len() == 0 {
        Some(sheet)
    } else if string_write_ok(r, c, t) {
        Some(sheet.insert((r, c), t))
    } else {
        None
    }
}

/// The cells after writing a row of texts on row `r` from column 0 on, stopping
/// at the first write that fails, and whether all of them were written.
pub open spec fn row_write(sheet: Map<(u32, u16), Seq<char>>, r: u32, row: Seq<Seq<char>>) -> (
    Map<(u32, u16), Seq<char>>,
    bool,
)
    decreases row.len(),
{
    if row.len() == 0 {
        (sheet, true)
    } else {
        let (s, ok) = row_write(sheet, r, row.drop_last());
        if !ok {
            (s, false)
        } else {
            match cell_write(s, r, (row.len() - 1) as u16, row.last()) {
                Some(s2) => (s2, true),
                None => (s, false),
            }
        }
    }
}

/// The cells after writing a matrix of texts row by row from the top left cell,
/// stopping at the first write that fails (`Worksheet::write_row_matrix`), and
/// whether all of them were written.
pub open spec fn matrix_write(sheet: Map<(u32, u16), Seq<char>>, m: Seq<Seq<Seq<char>>>) -> (
    Map<(u32, u16), Seq<char>>,
    bool,
)
    decreases m.len(),
{
    if m.len() == 0 {
        (sheet, true)
    } else {
        let (s, ok) = matrix_write(sheet, m.drop_last());
        if !ok {
            (s, false)
        } else {
            row_write(s, (m.len() - 1) as u32, m.last())
        }
    }
}

/// A matrix that the row and column counters of `write_row_matrix` can walk:
/// fewer rows than the last `u32` row number and fewer cells in a row than the
/// last `u16` column number (past them the counters overflow).
pub open spec fn matrix_fits_counters(m: Seq<Vec<String>>) -> bool {
    &&& m.len() < u32::MAX
    &&& forall|i: int| 0 <= i < m.len() ==> (#[trigger] m[i])@.len() < u16::MAX
}

/// Calls `Worksheet::write_row_matrix` from the top left cell. As its source
/// shows, it walks the rows with a `u32` row counter and each row with a `u16`
/// column counter (`write_row`), writing each text with `write`, which stores
/// it without a format (`store_string`), and stops at the first write that
/// fails (`?`); so the cells afterwards are those of `matrix_write`. Only
/// matrices that the counters can walk without overflowing are admitted.
#[verifier::external_body]
fn write_row_matrix(ws: &mut rust_xlsxwriter::Worksheet, matrix: Vec<Vec<String>>) -> (r: Result<
    (),
    rust_xlsxwriter::XlsxError,
>)
    requires
        matrix_fits_counters(matrix@),
    ensures
        sheet_cells(*final(ws)) == matrix_write(sheet_cells(*old(ws)), matrix_texts(matrix@)).0,
        r is Ok == matrix_write(sheet_cells(*old(ws)), matrix_texts(matrix@)).1,
{
    match ws.write_row_matrix(0, 0, matrix) {
        Ok(_) => Ok(()),
        Err(e) => Err(e),
    }
}

/// Calls `Workbook::save_to_buffer`. The bytes record the time of saving, so
/// only what holds of every save is stated: a successful save is a non-empty
/// buffer, since `save_internal` always writes the package's parts into it
/// (`Packager::assemble_file`). (The crate reads the system clock for that time
/// and panics when it reads a time before 1970.)
#[verifier::external_body]
pub(crate) fn save_to_buffer(wb: &mut rust_xlsxwriter::Workbook) -> (r: Result<Vec<u8>, rust_xlsxwriter::XlsxError>)
    ensures
        r matches Ok(b) ==> b@.len() > 0,
{
    wb.save_to_buffer()
}

/// The bytes of a saved workbook, or the error of saving it.
fn saved_bytes(wb: &mut rust_xlsxwriter::Workbook) -> (r: Result<Vec<u8>, IndexError>)
    ensures
        r matches Err(e) ==> e is XlsxwriterError,
        r matches Ok(b) ==> b@.len() > 0,
{
    match save_to_buffer(wb) {
        Ok(bytes) => Ok(bytes),
        Err(e) => Err(IndexError::XlsxwriterError(e)),
    }
}

/// A workbook with one worksheet and no cell in it.
pub fn example_workbook() -> (wb: rust_xlsxwriter::Workbook)
    ensures
        workbook_sheets(wb) == seq![Map::<(u32, u16), Seq<char>>::empty()],
{
    let mut workbook_handle = workbook_new();
    let _worksheet_handle = add_worksheet(&mut workbook_handle);
    workbook_handle
}

/// A workbook with one empty worksheet (`example_workbook`), as bytes.
pub fn new_example() -> (r: Result<Vec<u8>, IndexError>)
    ensures
        r matches Err(e) ==> e is XlsxwriterError,
        r matches Ok(b) ==> b@.len() > 0,
{
    let mut workbook_handle = example_workbook();
    saved_bytes(&mut workbook_handle)
}

/// A workbook with one worksheet that holds `matrix` from its top left cell, as
/// far as Excel's limits let it be written, columns fitted to their contents.
pub fn matrix_workbook(matrix: Vec<Vec<String>>) -> (wb: rust_xlsxwriter::Workbook)
    requires
        matrix_fits_counters(matrix@),
    ensures
        workbook_sheets(wb) == seq![matrix_write(Map::empty(), matrix_texts(matrix@)).0],
{
    let mut workbook_handle = workbook_new();
    let worksheet_handle = add_worksheet(&mut workbook_handle);
    let _ = write_row_matrix(worksheet_handle, matrix);
    autofit(worksheet_handle);
    workbook_handle
}

/// A workbook whose one worksheet holds `matrix` from its top left cell, columns
/// fitted to their contents (`matrix_workbook`), as bytes. Each text is written without a format,
/// row by row; writing stops at the first cell past Excel's limits, and the
/// workbook is saved with what was written.
pub fn new_excel_file_t(matrix: Vec<Vec<String>>) -> (r: Result<Vec<u8>, IndexError>)
    requires
        matrix_fits_counters(matrix@),
    ensures
        r matches Err(e) ==> e is XlsxwriterError,
        r matches Ok(b) ==> b@.len() > 0,
{
    let mut workbook_handle = matrix_workbook(matrix);
    saved_bytes(&mut workbook_handle)
}

/// A workbook whose one worksheet holds `matrix` from its top left cell, columns
/// fitted to their contents, as bytes.
pub fn new_excel_file(matrix: Vec<Vec<&str>>) -> (r: Result<Vec<u8>, IndexError>)
    requires
        matrix@.len() < u32::MAX,
        forall|i: int| 0 <= i < matrix@.len() ==> (#[trigger] matrix@[i])@.len() < u16::MAX,
    ensures
        r matches Err(e) ==> e is XlsxwriterError,
        r matches Ok(b) ==> b@.len() > 0,
{
    let mut owned: Vec<Vec<String>> = Vec::new();
    let mut i: usize = 0;
    while i < matrix.len()
        invariant
            i <= matrix@.len(),
            owned@.len() == i,
            forall|k: int| 0 <= k < i ==> texts((#[trigger] owned@[k])@) == matrix@[k]@.map_values(|s: &str| s@),
        decreases matrix@.len() - i,
    {
        let row = &matrix[i];
        let mut out: Vec<String> = Vec::new();
        let mut j: usize = 0;
        while j < row.len()
            invariant
                j <= row@.len(),
                texts(out@) == row@.take(j as int).map_values(|s: &str| s@),
            decreases row@.len() - j,
        {
            let ghost prev = out@;
            let s = row[j].to_string();
            out.push(s);
            proof {
                assert(texts(out@) =~= texts(prev).push(s@));
                assert(row@.take(j + 1).map_values(|s: &str| s@) =~= row@.take(j as int).map_values(
                    |s: &str| s@,
                ).push(row@[j as int]@));
            }
            j = j + 1;
        }
        assert(row@.take(j as int) =~= row@);
        let ghost prev_owned = owned@;
        owned.push(out);
        proof {
            assert forall|k: int| 0 <= k < i + 1 implies texts((#[trigger] owned@[k])@) == matrix@[k]@.map_values(
                |s: &str| s@,
            ) by {
                if k < i {
                    assert(owned@[k] == prev_owned[k]);
                }
            }
        }
        i = i + 1;
    }
    new_excel_file_t(owned)
}

} // verus!
