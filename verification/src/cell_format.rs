//! Cell formats of the `rust_xlsxwriter` crate, each with the properties it
//! was built with as plain values: bold, text wrap and background color.
//! A format is only built through the functions here, each of which makes
//! the crate's call and records what that call sets, and it is only handed
//! to the crate by the cell write here.

use vstd::prelude::*;
use crate::workbook::{col_limit, formatted_put, row_limit, sheet_cells, sheet_has_tables, sheet_name, sheet_styles, sizes_kept, utf16_len, view_kept};

verus! {

#[verifier::external_type_specification]
#[verifier::external_body]
pub struct ExFormat(rust_xlsxwriter::Format);

/// The properties of a cell format that the workbook sets.
#[derive(Clone, Copy, PartialEq, Eq, Structural, Debug)]
pub struct CellStyle {
    pub bold: bool,
    pub wrap: bool,
    /// The background color as `0xRRGGBB`, where one is set.
    pub fill: Option<u32>,
}

/// A format of the crate together with its properties.
pub struct CellFormat {
    style: CellStyle,
    format: rust_xlsxwriter::Format,
}

impl CellFormat {
    /// The properties the format was built with.
    pub closed spec fn style(&self) -> CellStyle {
        self.style
    }
}

/// `Format::new`: neither bold nor wrapped, no background color.
#[verifier::external_body]
pub(crate) fn format_new() -> (f: CellFormat)
    ensures
        f.style() == (CellStyle { bold: false, wrap: false, fill: None }),
{
    CellFormat { style: CellStyle { bold: false, wrap: false, fill: None }, format: rust_xlsxwriter::Format::new() }
}

/// `Format::set_text_wrap`: the format wraps its text; the rest stays.
#[verifier::external_body]
pub(crate) fn format_text_wrap(f: CellFormat) -> (g: CellFormat)
    ensures
        g.style() == (CellStyle { wrap: true, ..f.style() }),
{
    CellFormat { style: CellStyle { wrap: true, ..f.style }, format: f.format.set_text_wrap() }
}

/// `Format::set_bold`: the format is bold; the rest stays.
#[verifier::external_body]
pub(crate) fn format_bold(f: CellFormat) -> (g: CellFormat)
    ensures
        g.style() == (CellStyle { bold: true, ..f.style() }),
{
    CellFormat { style: CellStyle { bold: true, ..f.style }, format: f.format.set_bold() }
}

/// `Format::set_background_color` with `Color::RGB(color)`: the background
/// color becomes `color` (the crate ignores a value above `0xFFFFFF`, which
/// is left out); the rest stays.
#[verifier::external_body]
pub(crate) fn format_background(f: CellFormat, color: u32) -> (g: CellFormat)
    requires
        color <= 0xFFFFFF,
    ensures
        g.style() == (CellStyle { fill: Some(color), ..f.style() }),
{
    CellFormat { style: CellStyle { fill: Some(color), ..f.style }, format: f.format.set_background_color(color) }
}

/// `Format::clone` (derived): a format with the same properties.
#[verifier::external_body]
pub(crate) fn format_clone(f: &CellFormat) -> (g: CellFormat)
    ensures
        g.style() == f.style(),
{
    CellFormat { style: f.style, format: f.format.clone() }
}

/// `Worksheet::write_string_with_format`: the text is stored at the cell (an
/// empty text as a blank cell; every worksheet keeps all its cells, as the
/// crate's `constant_memory` feature is not enabled) with the format;
/// refused outside the sheet's rows and columns and for a text longer than
/// 32767 UTF-16 units, and only then.
#[verifier::external_body]
pub(crate) fn write_string_with_format(
    ws: &mut rust_xlsxwriter::Worksheet,
    row: u32,
    col: u16,
    text: &str,
    format: &CellFormat,
) -> (r: Result<(), rust_xlsxwriter::XlsxError>)
    ensures
        r is Ok ==> sheet_cells(*final(ws)) == formatted_put(sheet_cells(*old(ws)), (row as int, col as int), text@),
        r is Ok ==> sheet_styles(*final(ws)) == sheet_styles(*old(ws)).insert((row as int, col as int), format.style()),
        r is Ok ==> row < row_limit() && col < col_limit(),
        sheet_name(*final(ws)) == sheet_name(*old(ws)),
        sheet_has_tables(*final(ws)) == sheet_has_tables(*old(ws)),
        view_kept(*old(ws), *final(ws)),
        sizes_kept(*old(ws), *final(ws)),
        row < row_limit() && col < col_limit() && utf16_len(text@) <= 32767 ==> r is Ok,
{
    ws.write_string_with_format(row, col, text, &format.format).map(|_| ())
}

} // verus!
