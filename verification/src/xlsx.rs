//! The parts of `rust_xlsxwriter` that the library calls, with what is believed
//! of them.
use vstd::prelude::*;

use crate::text::decimal;

verus! {

#[verifier::external_type_specification]
#[verifier::external_body]
pub struct ExWorkbook(rust_xlsxwriter::Workbook);

#[verifier::external_type_specification]
#[verifier::external_body]
pub struct ExWorksheet(rust_xlsxwriter::Worksheet);

#[verifier::external_type_specification]
#[verifier::external_body]
pub struct ExFormat(rust_xlsxwriter::Format);

#[verifier::external_type_specification]
#[verifier::external_body]
pub struct ExColor(rust_xlsxwriter::Color);

/// The text cells of a worksheet: for each (row, column) written with a string,
/// that string; a formatted blank cell has the empty text.
pub uninterp spec fn sheet_cells(ws: rust_xlsxwriter::Worksheet) -> Map<(u32, u16), Seq<char>>;

/// The formats of the cells of a worksheet written with a format: for each such
/// (row, column), the bold flag, font size text and RGB background of the format
/// (as `format_bold`, `format_font_size` and `format_background` read it).
pub uninterp spec fn sheet_styles(ws: rust_xlsxwriter::Worksheet) -> Map<(u32, u16), (bool, Seq<char>, Option<Highlight>)>;

/// The style triple of a format.
pub open spec fn format_triple(f: rust_xlsxwriter::Format) -> (bool, Seq<char>, Option<Highlight>) {
    (format_bold(f), format_font_size(f), format_background(f))
}

/// A worksheet with no cell written.
pub open spec fn no_cells() -> Map<(u32, u16), Seq<char>> {
    Map::empty()
}

/// The number of UTF-16 code units of a text.
pub open spec fn utf16_len(s: Seq<char>) -> nat
    decreases s.len(),
{
    if s.len() == 0 {
        0
    } else {
        utf16_len(s.drop_last()) + if s.last() > '\u{ffff}' {
            2nat
        } else {
            1nat
        }
    }
}

/// Excel's limits for a string cell: row below 1,048,576, column below 16,384,
/// at most 32,767 UTF-16 code units.
pub open spec fn string_write_ok(row: u32, col: u16, text: Seq<char>) -> bool {
    &&& row < 1_048_576
    &&& col < 16_384
    &&& utf16_len(text) <= 32_767
}

/// Calls `Worksheet::write_with_format` with a `String`. As its source shows
/// (`store_string`, `store_blank`): it fails, changing no cell, when the row or
/// column is past Excel's limit or a non-empty text is longer than 32,767 UTF-16
/// units; otherwise the cell holds the text (an empty text makes a formatted
/// blank) with the format (`format_xf_index`). Worksheets in constant-memory mode, which behave otherwise, need a
/// crate feature that is not enabled here.
#[verifier::external_body]
pub(crate) fn write_string_with_format(
    ws: &mut rust_xlsxwriter::Worksheet,
    row: u32,
    col: u16,
    text: String,
    format: &rust_xlsxwriter::Format,
) -> (r: Result<(), rust_xlsxwriter::XlsxError>)
    ensures
        r is Ok <==> string_write_ok(row, col, text@),
        r is Ok ==> sheet_cells(*final(ws)) == sheet_cells(*old(ws)).insert((row, col), text@),
        r is Err ==> sheet_cells(*final(ws)) == sheet_cells(*old(ws)),
        r is Ok ==> sheet_styles(*final(ws)) == sheet_styles(*old(ws)).insert((row, col), format_triple(*format)),
        r is Err ==> sheet_styles(*final(ws)) == sheet_styles(*old(ws)),
{
    match ws.write_with_format(row, col, text, format) {
        Ok(_) => Ok(()),
        Err(e) => Err(e),
    }
}

/// Calls `Worksheet::autofit`, which only sets column widths: no cell and no
/// cell's format changes.
#[verifier::external_body]
pub(crate) fn autofit(ws: &mut rust_xlsxwriter::Worksheet)
    ensures
        sheet_cells(*final(ws)) == sheet_cells(*old(ws)),
        sheet_styles(*final(ws)) == sheet_styles(*old(ws)),
{
    ws.autofit();
}

/// Whether a format sets the bold font (its font's `bold` field).
pub uninterp spec fn format_bold(f: rust_xlsxwriter::Format) -> bool;

/// The font size of a format as the crate keeps it, a text (its font's `size`
/// field): "11" unless set.
pub uninterp spec fn format_font_size(f: rust_xlsxwriter::Format) -> Seq<char>;

/// The highlight colors that report cells use.
#[derive(Debug, Clone, Copy, PartialEq, Eq, Structural)]
pub enum Highlight {
    Cyan,
    Pink,
}

/// The background color of a format's fill, when it is `Color::Cyan` or
/// `Color::Pink`; `None` for any other color (the default one included).
pub uninterp spec fn format_background(f: rust_xlsxwriter::Format) -> Option<Highlight>;

/// Which highlight a color is: `Color::Cyan` or `Color::Pink`; `None` for any
/// other color.
pub uninterp spec fn color_highlight(c: rust_xlsxwriter::Color) -> Option<Highlight>;

/// Calls `Format::new()`: not bold, font size "11" (`Font::default`), the
/// default background color (`Fill::default`, `Color::Default`), which is no
/// highlight.
#[verifier::external_body]
pub(crate) fn format_new() -> (r: rust_xlsxwriter::Format)
    ensures
        !format_bold(r),
        format_font_size(r) == "11"@,
        format_background(r) is None,
{
    rust_xlsxwriter::Format::new()
}

/// Calls `Format::set_bold`, which sets the bold flag and nothing else.
#[verifier::external_body]
pub(crate) fn format_set_bold(f: rust_xlsxwriter::Format) -> (r: rust_xlsxwriter::Format)
    ensures
        format_bold(r),
        format_font_size(r) == format_font_size(f),
        format_background(r) == format_background(f),
{
    f.set_bold()
}

/// Calls `Format::set_font_size` with a whole number of points, which sets the
/// size to the text of that number as an `f64` (`to_string`, which writes a whole
/// number without a fraction) and nothing else.
#[verifier::external_body]
pub(crate) fn format_set_font_size(f: rust_xlsxwriter::Format, size: u16) -> (r: rust_xlsxwriter::Format)
    ensures
        format_font_size(r) == decimal(size as nat),
        format_bold(r) == format_bold(f),
        format_background(r) == format_background(f),
{
    f.set_font_size(size)
}

/// Calls `Format::set_background_color`, which sets the fill's background color
/// when the color is valid (every named color is) and nothing else.
#[verifier::external_body]
pub(crate) fn format_set_background_color(
    f: rust_xlsxwriter::Format,
    color: rust_xlsxwriter::Color,
) -> (r: rust_xlsxwriter::Format)
    ensures
        format_bold(r) == format_bold(f),
        format_font_size(r) == format_font_size(f),
        color_highlight(color) matches Some(h) ==> format_background(r) == Some(h),
{
    f.set_background_color(color)
}

/// Gives `Color::Cyan`.
#[verifier::external_body]
pub(crate) fn color_cyan() -> (r: rust_xlsxwriter::Color)
    ensures
        color_highlight(r) == Some(Highlight::Cyan),
{
    rust_xlsxwriter::Color::Cyan
}

/// Gives `Color::Pink`.
#[verifier::external_body]
pub(crate) fn color_pink() -> (r: rust_xlsxwriter::Color)
    ensures
        color_highlight(r) == Some(Highlight::Pink),
{
    rust_xlsxwriter::Color::Pink
}

} // verus!
