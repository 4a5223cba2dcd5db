//! The colored workbook: the report table on a "Birthdays" sheet, each data
//! row filled by its category, and a "Legend" sheet. The workbook is built
//! and saved by the `rust_xlsxwriter` crate.

use vstd::prelude::*;
use crate::cell_format::{
    format_background, format_bold, format_clone, format_new, format_text_wrap, write_string_with_format, CellFormat,
    CellStyle,
};
use crate::text::{chars_eq, chars_of};

verus! {

#[verifier::external_type_specification]
#[verifier::external_body]
pub struct ExWorkbook(rust_xlsxwriter::Workbook);

#[verifier::external_type_specification]
#[verifier::external_body]
pub struct ExWorksheet(rust_xlsxwriter::Worksheet);

#[verifier::external_type_specification]
#[verifier::external_body]
pub struct ExXlsxError(rust_xlsxwriter::XlsxError);

/// Why no workbook was made.
#[derive(Debug)]
pub enum WorkbookError {
    /// The data row with this index does not have as many cells as the
    /// header row.
    RowWidth(usize),
    /// The `rust_xlsxwriter` crate refused a call.
    Xlsx(rust_xlsxwriter::XlsxError),
}

/// The name of a worksheet.
pub uninterp spec fn sheet_name(ws: rust_xlsxwriter::Worksheet) -> Seq<char>;

/// The text cells of a worksheet: the text written at each (row, column).
pub uninterp spec fn sheet_cells(ws: rust_xlsxwriter::Worksheet) -> Map<(int, int), Seq<char>>;

/// The properties of the format each cell of a worksheet was written with;
/// a cell written without a format has none.
pub uninterp spec fn sheet_styles(ws: rust_xlsxwriter::Worksheet) -> Map<(int, int), CellStyle>;

/// The worksheet holds a table (`Worksheet::add_table`), whose autofilter
/// another autofilter must not overlap.
pub uninterp spec fn sheet_has_tables(ws: rust_xlsxwriter::Worksheet) -> bool;

/// The cell below and right of a worksheet's frozen panes, as (row,
/// column); (0, 0) where nothing is frozen.
pub uninterp spec fn sheet_frozen(ws: rust_xlsxwriter::Worksheet) -> (int, int);

/// The range of a worksheet's autofilter as (first row, first column, last
/// row, last column), where it has one.
pub uninterp spec fn sheet_filter(ws: rust_xlsxwriter::Worksheet) -> Option<(int, int, int, int)>;

/// The width each column of a worksheet was last given, in character units
/// as given (the crate keeps it in pixels).
pub uninterp spec fn sheet_widths(ws: rust_xlsxwriter::Worksheet) -> Map<int, int>;

/// The height each row of a worksheet was last given, in character units as
/// given (the crate keeps it in pixels).
pub uninterp spec fn sheet_heights(ws: rust_xlsxwriter::Worksheet) -> Map<int, int>;

/// What a worksheet shows: its name, text cells, the properties of its
/// cells' formats, its frozen panes, its autofilter, and the widths and
/// heights given to its columns and rows.
pub struct SheetContents {
    pub name: Seq<char>,
    pub cells: Map<(int, int), Seq<char>>,
    pub styles: Map<(int, int), CellStyle>,
    pub frozen: (int, int),
    pub filter: Option<(int, int, int, int)>,
    pub widths: Map<int, int>,
    pub heights: Map<int, int>,
}

/// The worksheets of a workbook in their order.
pub uninterp spec fn workbook_sheets(wb: rust_xlsxwriter::Workbook) -> Seq<SheetContents>;

/// What a worksheet shows.
pub open spec fn sheet_contents(ws: rust_xlsxwriter::Worksheet) -> SheetContents {
    SheetContents {
        name: sheet_name(ws),
        cells: sheet_cells(ws),
        styles: sheet_styles(ws),
        frozen: sheet_frozen(ws),
        filter: sheet_filter(ws),
        widths: sheet_widths(ws),
        heights: sheet_heights(ws),
    }
}

/// A call left the name, the cells, their formats and the tables as they
/// were.
pub open spec fn sheet_kept(before: rust_xlsxwriter::Worksheet, after: rust_xlsxwriter::Worksheet) -> bool {
    &&& sheet_name(after) == sheet_name(before)
    &&& sheet_cells(after) == sheet_cells(before)
    &&& sheet_styles(after) == sheet_styles(before)
    &&& sheet_has_tables(after) == sheet_has_tables(before)
}

/// A call left the widths and heights of columns and rows as they were.
pub open spec fn sizes_kept(before: rust_xlsxwriter::Worksheet, after: rust_xlsxwriter::Worksheet) -> bool {
    &&& sheet_widths(after) == sheet_widths(before)
    &&& sheet_heights(after) == sheet_heights(before)
}

/// A call left the panes and the autofilter as they were.
pub open spec fn view_kept(before: rust_xlsxwriter::Worksheet, after: rust_xlsxwriter::Worksheet) -> bool {
    &&& sheet_frozen(after) == sheet_frozen(before)
    &&& sheet_filter(after) == sheet_filter(before)
}

/// The rows and columns of a worksheet (`ROW_MAX`, `COL_MAX` in the crate).
pub open spec fn row_limit() -> int {
    1_048_576
}

pub open spec fn col_limit() -> int {
    16_384
}

/// The length of `text` in UTF-16 units: two for a character above
/// `U+FFFF`, one for any other.
pub open spec fn utf16_len(text: Seq<char>) -> nat
    decreases text.len(),
{
    if text.len() == 0 {
        0
    } else {
        utf16_len(text.drop_last()) + if (text.last() as u32) > 0xFFFFu32 {
            2nat
        } else {
            1nat
        }
    }
}

/// A text takes at most two UTF-16 units per character.
pub proof fn lemma_utf16_len_bound(text: Seq<char>)
    ensures
        utf16_len(text) <= 2 * text.len(),
    decreases text.len(),
{
    if text.len() > 0 {
        lemma_utf16_len_bound(text.drop_last());
    }
}

/// The cells after a formatted write of `text` at `key`: an empty text makes
/// a blank cell, which holds no text.
pub open spec fn formatted_put(m: Map<(int, int), Seq<char>>, key: (int, int), text: Seq<char>) -> Map<(int, int), Seq<char>> {
    if text.len() == 0 {
        m.remove(key)
    } else {
        m.insert(key, text)
    }
}

/// The cells after a plain write of `text` at `key`: an empty text is not
/// stored.
pub open spec fn plain_put(m: Map<(int, int), Seq<char>>, key: (int, int), text: Seq<char>) -> Map<(int, int), Seq<char>> {
    if text.len() == 0 {
        m
    } else {
        m.insert(key, text)
    }
}

/// The cell formats after a plain write of `text` at `key`: a stored text
/// has no format of its own.
pub open spec fn plain_style_put(m: Map<(int, int), CellStyle>, key: (int, int), text: Seq<char>) -> Map<(int, int), CellStyle> {
    if text.len() == 0 {
        m
    } else {
        m.remove(key)
    }
}

/// No text cells.
pub open spec fn no_cells() -> Map<(int, int), Seq<char>> {
    Map::empty()
}

/// No cell formats.
pub open spec fn no_styles() -> Map<(int, int), CellStyle> {
    Map::empty()
}

/// No column widths or row heights.
pub open spec fn no_sizes() -> Map<int, int> {
    Map::empty()
}

/// `Workbook::new`: a workbook without worksheets.
#[verifier::external_body]
fn workbook_new() -> (wb: rust_xlsxwriter::Workbook)
    ensures
        workbook_sheets(wb).len() == 0,
{
    rust_xlsxwriter::Workbook::new()
}

/// `Worksheet::new`: a worksheet without a name, cells, tables, frozen
/// panes or autofilter.
#[verifier::external_body]
fn worksheet_new() -> (ws: rust_xlsxwriter::Worksheet)
    ensures
        sheet_name(ws).len() == 0,
        sheet_frozen(ws) == (0int, 0int),
        sheet_filter(ws) is None,
        sheet_widths(ws) == no_sizes(),
        sheet_heights(ws) == no_sizes(),
        sheet_cells(ws) == no_cells(),
        sheet_styles(ws) == no_styles(),
        !sheet_has_tables(ws),
{
    rust_xlsxwriter::Worksheet::new()
}

/// `Workbook::push_worksheet`: the worksheet becomes the workbook's last
/// one, as it is (the crate names a worksheet without a name, which is left
/// out).
#[verifier::external_body]
fn push_worksheet(wb: &mut rust_xlsxwriter::Workbook, ws: rust_xlsxwriter::Worksheet)
    requires
        sheet_name(ws).len() > 0,
    ensures
        workbook_sheets(*final(wb)) == workbook_sheets(*old(wb)).push(sheet_contents(ws)),
{
    wb.push_worksheet(ws)
}

/// `Workbook::save_to_buffer`: the xlsx file's bytes. They hold the time of
/// the workbook's creation, so nothing is said of them.
#[verifier::external_body]
fn save_to_buffer(wb: &mut rust_xlsxwriter::Workbook) -> Result<Vec<u8>, rust_xlsxwriter::XlsxError> {
    wb.save_to_buffer()
}

/// An ASCII letter, digit or space.
pub open spec fn is_plain_name_char(c: char) -> bool {
    ('a' <= c && c <= 'z') || ('A' <= c && c <= 'Z') || ('0' <= c && c <= '9') || c == ' '
}

/// `Worksheet::set_name`. The crate refuses only an empty name, one longer
/// than 31 UTF-16 units, one with any of `*?:[]\/`, and one that begins or
/// ends with an apostrophe; so a name of 1 to 31 letters, digits and spaces
/// is taken. The cells and tables stay.
#[verifier::external_body]
fn set_name(ws: &mut rust_xlsxwriter::Worksheet, name: &str) -> (r: Result<(), rust_xlsxwriter::XlsxError>)
    ensures
        r is Ok ==> sheet_name(*final(ws)) == name@,
        r is Err ==> sheet_name(*final(ws)) == sheet_name(*old(ws)),
        sheet_cells(*final(ws)) == sheet_cells(*old(ws)),
        sheet_styles(*final(ws)) == sheet_styles(*old(ws)),
        sheet_has_tables(*final(ws)) == sheet_has_tables(*old(ws)),
        view_kept(*old(ws), *final(ws)),
        sizes_kept(*old(ws), *final(ws)),
        (0 < name@.len() <= 31 && forall|i: int| 0 <= i < name@.len() ==> is_plain_name_char(#[trigger] name@[i]))
            ==> r is Ok,
{
    ws.set_name(name).map(|_| ())
}

/// `Worksheet::set_freeze_panes`: the panes are frozen above `row` and left
/// of `col`; refused only outside the sheet's rows and columns. The rest
/// stays.
#[verifier::external_body]
fn set_freeze_panes(ws: &mut rust_xlsxwriter::Worksheet, row: u32, col: u16) -> (r: Result<(), rust_xlsxwriter::XlsxError>)
    ensures
        sheet_kept(*old(ws), *final(ws)),
        sizes_kept(*old(ws), *final(ws)),
        sheet_filter(*final(ws)) == sheet_filter(*old(ws)),
        sheet_frozen(*final(ws)) == (if r is Ok { (row as int, col as int) } else { sheet_frozen(*old(ws)) }),
        row < row_limit() && col < col_limit() ==> r is Ok,
{
    ws.set_freeze_panes(row, col).map(|_| ())
}

/// `Worksheet::write_string`: the text is stored at the cell without a
/// format of its own (an empty text is not stored); refused only outside
/// the sheet's rows and columns or for a text longer than 32767 UTF-16
/// units.
#[verifier::external_body]
fn write_string(ws: &mut rust_xlsxwriter::Worksheet, row: u32, col: u16, text: &str) -> (r: Result<(), rust_xlsxwriter::XlsxError>)
    ensures
        r is Ok ==> sheet_cells(*final(ws)) == plain_put(sheet_cells(*old(ws)), (row as int, col as int), text@),
        r is Ok ==> sheet_styles(*final(ws)) == plain_style_put(sheet_styles(*old(ws)), (row as int, col as int), text@),
        sheet_name(*final(ws)) == sheet_name(*old(ws)),
        sheet_has_tables(*final(ws)) == sheet_has_tables(*old(ws)),
        view_kept(*old(ws), *final(ws)),
        sizes_kept(*old(ws), *final(ws)),
        row < row_limit() && col < col_limit() && utf16_len(text@) <= 32767 ==> r is Ok,
{
    ws.write_string(row, col, text).map(|_| ())
}

/// `Worksheet::set_column_width`, in character units: the column is given
/// `width`; refused only for a column outside the sheet. The name, cells and tables stay.
#[verifier::external_body]
fn set_column_width(ws: &mut rust_xlsxwriter::Worksheet, col: u16, width: u16) -> (r: Result<(), rust_xlsxwriter::XlsxError>)
    ensures
        sheet_kept(*old(ws), *final(ws)),
        view_kept(*old(ws), *final(ws)),
        sheet_heights(*final(ws)) == sheet_heights(*old(ws)),
        sheet_widths(*final(ws)) == (if r is Ok { sheet_widths(*old(ws)).insert(col as int, width as int) } else { sheet_widths(*old(ws)) }),
        r is Ok <==> col < col_limit(),
{
    ws.set_column_width(col, width).map(|_| ())
}

/// `Worksheet::set_row_height`, in character units: the row is given
/// `height`; refused only for a row outside the sheet. The name, cells and tables stay.
#[verifier::external_body]
fn set_row_height(ws: &mut rust_xlsxwriter::Worksheet, row: u32, height: u16) -> (r: Result<(), rust_xlsxwriter::XlsxError>)
    ensures
        sheet_kept(*old(ws), *final(ws)),
        view_kept(*old(ws), *final(ws)),
        sheet_widths(*final(ws)) == sheet_widths(*old(ws)),
        sheet_heights(*final(ws)) == (if r is Ok { sheet_heights(*old(ws)).insert(row as int, height as int) } else { sheet_heights(*old(ws)) }),
        r is Ok <==> row < row_limit(),
{
    ws.set_row_height(row, height).map(|_| ())
}

/// `Worksheet::autofilter`: the range becomes the autofilter's; refused
/// only for a range outside the sheet, in the wrong order, or overlapping a
/// table's autofilter. The name, cells, tables and panes stay.
#[verifier::external_body]
fn autofilter(
    ws: &mut rust_xlsxwriter::Worksheet,
    first_row: u32,
    first_col: u16,
    last_row: u32,
    last_col: u16,
) -> (r: Result<(), rust_xlsxwriter::XlsxError>)
    ensures
        sheet_kept(*old(ws), *final(ws)),
        sizes_kept(*old(ws), *final(ws)),
        sheet_frozen(*final(ws)) == sheet_frozen(*old(ws)),
        r is Ok ==> sheet_filter(*final(ws)) == Some((first_row as int, first_col as int, last_row as int, last_col as int)),
        last_row < row_limit() && last_col < col_limit() && first_row <= last_row && first_col <= last_col
            && !sheet_has_tables(*old(ws)) ==> r is Ok,
{
    ws.autofilter(first_row, first_col, last_row, last_col).map(|_| ())
}

/// How a data row is filled.
#[derive(Clone, Copy, PartialEq, Eq, Structural, Debug)]
pub enum RowFill {
    /// Pale red: the row has address notes.
    Invalid,
    /// Pale blue: next generation (15 and younger).
    Generation,
    /// Pale green: team people.
    Team,
    /// No fill.
    Plain,
}

/// The first column headed exactly `name`.
pub open spec fn header_position(headers: Seq<Seq<char>>, name: Seq<char>) -> Option<nat> {
    crate::columns::first_known(headers, seq![name])
}

/// The cell of column `i` is `value`, where there is such a column.
pub open spec fn cell_is(row: Seq<Seq<char>>, i: Option<nat>, value: Seq<char>) -> bool {
    i matches Some(i) && row[i as int] == value
}

/// The fill of a data row: address notes come before Generation, which
/// comes before Team.
pub open spec fn fill_of(headers: Seq<Seq<char>>, row: Seq<Seq<char>>) -> RowFill {
    let notes = header_position(headers, "Notes"@);
    if notes matches Some(i) && row[i as int].len() > 0 {
        RowFill::Invalid
    } else if cell_is(row, header_position(headers, "Generation"@), "Yes"@) {
        RowFill::Generation
    } else if cell_is(row, header_position(headers, "Team"@), "Yes"@) {
        RowFill::Team
    } else {
        RowFill::Plain
    }
}

/// Column `g` is the first one headed exactly `name`.
pub open spec fn first_headed(headers: Seq<Seq<char>>, name: Seq<char>, g: int) -> bool {
    &&& 0 <= g < headers.len()
    &&& headers[g] == name
    &&& forall|k: int| 0 <= k < g ==> headers[k] != name
}

/// The first column headed `name` holds text.
pub open spec fn has_text_under(headers: Seq<Seq<char>>, row: Seq<Seq<char>>, name: Seq<char>) -> bool {
    exists|g: int| first_headed(headers, name, g) && row[g].len() > 0
}

/// The first column headed `name` holds exactly `Yes`.
pub open spec fn says_yes_under(headers: Seq<Seq<char>>, row: Seq<Seq<char>>, name: Seq<char>) -> bool {
    exists|g: int| first_headed(headers, name, g) && row[g] == "Yes"@
}

proof fn lemma_first_known_single(headers: Seq<Seq<char>>, name: Seq<char>, i: nat)
    requires
        i <= headers.len(),
    ensures
        crate::columns::first_known_from(headers, seq![name], i) matches Some(g) ==> i <= g < headers.len()
            && headers[g as int] == name && forall|k: int| i <= k < g ==> headers[k] != name,
        crate::columns::first_known_from(headers, seq![name], i) is None ==> forall|k: int| i <= k < headers.len()
            ==> headers[k] != name,
    decreases headers.len() - i,
{
    if i < headers.len() {
        assert(seq![name][0] == name);
        if headers[i as int] != name {
            assert(!seq![name].contains(headers[i as int])) by {
                if seq![name].contains(headers[i as int]) {
                    let m = choose|m: int| 0 <= m < 1 && seq![name][m] == headers[i as int];
                }
            }
            lemma_first_known_single(headers, name, i + 1);
        }
    }
}

/// `header_position` finds the first column headed exactly `name`, and
/// nothing where no column is.
proof fn lemma_header_position(headers: Seq<Seq<char>>, name: Seq<char>)
    ensures
        header_position(headers, name) matches Some(g) ==> first_headed(headers, name, g as int),
        header_position(headers, name) is None ==> forall|g: int| !first_headed(headers, name, g),
        forall|g1: int, g2: int| first_headed(headers, name, g1) && first_headed(headers, name, g2) ==> g1 == g2,
{
    lemma_first_known_single(headers, name, 0);
    assert forall|g1: int, g2: int| first_headed(headers, name, g1) && first_headed(headers, name, g2) implies g1 == g2 by {
        if g1 < g2 {
            assert(headers[g1] != name);
        } else if g2 < g1 {
            assert(headers[g2] != name);
        }
    }
}

/// The fill of a data row by priority: red where its first Notes column
/// holds text; else blue where its first Generation column holds exactly
/// `Yes`; else green where its first Team column holds exactly `Yes`; else
/// none. A missing column counts as not matching.
pub proof fn law_fill_priority(headers: Seq<Seq<char>>, row: Seq<Seq<char>>)
    requires
        row.len() == headers.len(),
    ensures
        (fill_of(headers, row) == RowFill::Invalid) <==> has_text_under(headers, row, "Notes"@),
        !has_text_under(headers, row, "Notes"@) ==> ((fill_of(headers, row) == RowFill::Generation)
            <==> says_yes_under(headers, row, "Generation"@)),
        !has_text_under(headers, row, "Notes"@) && !says_yes_under(headers, row, "Generation"@) ==> ((fill_of(
            headers,
            row,
        ) == RowFill::Team) <==> says_yes_under(headers, row, "Team"@)),
        (fill_of(headers, row) == RowFill::Plain) <==> !has_text_under(headers, row, "Notes"@) && !says_yes_under(
            headers,
            row,
            "Generation"@,
        ) && !says_yes_under(headers, row, "Team"@),
{
    lemma_header_position(headers, "Notes"@);
    lemma_header_position(headers, "Generation"@);
    lemma_header_position(headers, "Team"@);
    match header_position(headers, "Notes"@) {
        Some(g) => {
            assert(has_text_under(headers, row, "Notes"@) <==> row[g as int].len() > 0);
        },
        None => {},
    }
    match header_position(headers, "Generation"@) {
        Some(g) => {
            assert(says_yes_under(headers, row, "Generation"@) <==> row[g as int] == "Yes"@);
        },
        None => {},
    }
    match header_position(headers, "Team"@) {
        Some(g) => {
            assert(says_yes_under(headers, row, "Team"@) <==> row[g as int] == "Yes"@);
        },
        None => {},
    }
}

/// The width of a column by its header: wide for Notes and Address, narrow
/// for Team and Generation.
pub open spec fn column_width_of(header: Seq<char>) -> u16 {
    if header == "Notes"@ || header == "Address"@ {
        42
    } else if header == "Team"@ || header == "Generation"@ {
        13
    } else {
        22
    }
}

/// The first column headed exactly `name`.
fn header_index(headers: &Vec<String>, name: &str) -> (r: Option<usize>)
    ensures
        crate::columns::opt_nat(r) == header_position(crate::text::string_views(headers@), name@),
{
    let names = [name];
    assert(crate::columns::str_views(names@) =~= seq![name@]);
    crate::columns::column_of_keys(headers.as_slice(), names.as_slice())
}

/// `s` holds exactly `lit`.
fn text_is(s: &String, lit: &str) -> (r: bool)
    ensures
        r == (s@ == lit@),
{
    chars_eq(chars_of(s.as_str()).as_slice(), chars_of(lit).as_slice())
}

/// The width of a column by its header.
pub fn column_width(header: &String) -> (w: u16)
    ensures
        w == column_width_of(header@),
{
    if text_is(header, "Notes") || text_is(header, "Address") {
        42
    } else if text_is(header, "Team") || text_is(header, "Generation") {
        13
    } else {
        22
    }
}

/// The fill of a data row.
pub fn row_fill(headers: &Vec<String>, row: &Vec<String>) -> (f: RowFill)
    requires
        row@.len() == headers@.len(),
    ensures
        f == fill_of(crate::text::string_views(headers@), crate::text::string_views(row@)),
{
    let ghost hv = crate::text::string_views(headers@);
    let ghost rv = crate::text::string_views(row@);
    let notes = header_index(headers, "Notes");
    let generation = header_index(headers, "Generation");
    let team = header_index(headers, "Team");
    proof {
        crate::columns::lemma_first_known_from_bound(hv, seq!["Notes"@], 0);
        crate::columns::lemma_first_known_from_bound(hv, seq!["Generation"@], 0);
        crate::columns::lemma_first_known_from_bound(hv, seq!["Team"@], 0);
    }
    let issue = match notes {
        Some(i) => {
            assert(rv[i as int] == row@[i as int]@);
            !row[i].as_str().is_empty()
        },
        None => false,
    };
    if issue {
        return RowFill::Invalid;
    }
    let is_generation = match generation {
        Some(i) => {
            assert(rv[i as int] == row@[i as int]@);
            text_is(&row[i], "Yes")
        },
        None => false,
    };
    if is_generation {
        return RowFill::Generation;
    }
    let is_team = match team {
        Some(i) => {
            assert(rv[i as int] == row@[i as int]@);
            text_is(&row[i], "Yes")
        },
        None => false,
    };
    if is_team {
        RowFill::Team
    } else {
        RowFill::Plain
    }
}

/// The background color of a data row with the given fill.
pub open spec fn fill_color(fill: RowFill) -> Option<u32> {
    match fill {
        RowFill::Invalid => Some(0xFDEEEEu32),
        RowFill::Generation => Some(0xEFF7FDu32),
        RowFill::Team => Some(0xF3FAF0u32),
        RowFill::Plain => None,
    }
}

/// The format of a data row with the given fill: wrapped text on its color.
pub open spec fn row_style(fill: RowFill) -> CellStyle {
    CellStyle { bold: false, wrap: true, fill: fill_color(fill) }
}

/// The format of the header row and of the legend's title: bold, wrapped,
/// on neutral gray.
pub open spec fn heading_style() -> CellStyle {
    CellStyle { bold: true, wrap: true, fill: Some(0xF2F2F2u32) }
}

/// The formats of the workbook.
struct Formats {
    base: CellFormat,
    green: CellFormat,
    blue: CellFormat,
    red: CellFormat,
    heading: CellFormat,
}

impl Formats {
    /// Each format has the properties of its use.
    spec fn wf(&self) -> bool {
        &&& self.base.style() == row_style(RowFill::Plain)
        &&& self.green.style() == row_style(RowFill::Team)
        &&& self.blue.style() == row_style(RowFill::Generation)
        &&& self.red.style() == row_style(RowFill::Invalid)
        &&& self.heading.style() == heading_style()
    }

    fn new() -> (f: Formats)
        ensures
            f.wf(),
    {
        let base = format_text_wrap(format_new());
        let green = format_background(format_clone(&base), 0xF3FAF0);
        let blue = format_background(format_clone(&base), 0xEFF7FD);
        let red = format_background(format_clone(&base), 0xFDEEEE);
        let heading = format_background(format_bold(format_clone(&base)), 0xF2F2F2);
        Formats { base, green, blue, red, heading }
    }

    /// The format of a data row with the given fill.
    fn for_fill(&self, fill: RowFill) -> (f: &CellFormat)
        requires
            self.wf(),
        ensures
            f.style() == row_style(fill),
            *f == match fill {
                RowFill::Invalid => self.red,
                RowFill::Generation => self.blue,
                RowFill::Team => self.green,
                RowFill::Plain => self.base,
            },
    {
        match fill {
            RowFill::Invalid => &self.red,
            RowFill::Generation => &self.blue,
            RowFill::Team => &self.green,
            RowFill::Plain => &self.base,
        }
    }
}

/// The cells after formatted writes of the first `n` of `cells` along row
/// `row`, from column 0 on.
pub open spec fn put_row(m: Map<(int, int), Seq<char>>, row: int, cells: Seq<Seq<char>>, n: nat) -> Map<(int, int), Seq<char>>
    decreases n,
{
    if n == 0 {
        m
    } else {
        formatted_put(put_row(m, row, cells, (n - 1) as nat), (row, n - 1), cells[n - 1])
    }
}

/// The cells after the first `n` of `rows` are written as sheet rows 1 to
/// `n`.
pub open spec fn put_rows(m: Map<(int, int), Seq<char>>, rows: Seq<Seq<Seq<char>>>, n: nat) -> Map<(int, int), Seq<char>>
    decreases n,
{
    if n == 0 {
        m
    } else {
        put_row(put_rows(m, rows, (n - 1) as nat), n as int, rows[n - 1], rows[n - 1].len())
    }
}

/// The cells after the table is written: the header row as sheet row 0, the
/// data rows below it.
pub open spec fn table_sheet_cells(m: Map<(int, int), Seq<char>>, headers: Seq<Seq<char>>, rows: Seq<Seq<Seq<char>>>) -> Map<(int, int), Seq<char>> {
    put_rows(put_row(m, 0, headers, headers.len()), rows, rows.len())
}

/// The cell formats after the first `n` cells of row `row` are written with
/// `style`.
pub open spec fn style_row(m: Map<(int, int), CellStyle>, row: int, style: CellStyle, n: nat) -> Map<(int, int), CellStyle>
    decreases n,
{
    if n == 0 {
        m
    } else {
        style_row(m, row, style, (n - 1) as nat).insert((row, n - 1), style)
    }
}

/// The cell formats after the first `n` of `rows` are written as sheet rows
/// 1 to `n`, each in the format of its fill.
pub open spec fn style_rows(m: Map<(int, int), CellStyle>, headers: Seq<Seq<char>>, rows: Seq<Seq<Seq<char>>>, n: nat) -> Map<(int, int), CellStyle>
    decreases n,
{
    if n == 0 {
        m
    } else {
        style_row(style_rows(m, headers, rows, (n - 1) as nat), n as int, row_style(fill_of(headers, rows[n - 1])), rows[n - 1].len())
    }
}

/// The cell formats after the table is written: the header row in the
/// heading format, each data row in the format of its fill.
pub open spec fn table_sheet_styles(m: Map<(int, int), CellStyle>, headers: Seq<Seq<char>>, rows: Seq<Seq<Seq<char>>>) -> Map<(int, int), CellStyle> {
    style_rows(style_row(m, 0, heading_style(), headers.len()), headers, rows, rows.len())
}

proof fn lemma_style_row_at(m: Map<(int, int), CellStyle>, row: int, style: CellStyle, n: nat, key: (int, int))
    ensures
        key.0 == row && 0 <= key.1 < n ==> style_row(m, row, style, n).contains_key(key) && style_row(m, row, style, n)[key] == style,
        !(key.0 == row && 0 <= key.1 < n) ==> style_row(m, row, style, n).contains_key(key) == m.contains_key(key)
            && (m.contains_key(key) ==> style_row(m, row, style, n)[key] == m[key]),
    decreases n,
{
    if n > 0 {
        lemma_style_row_at(m, row, style, (n - 1) as nat, key);
    }
}

proof fn lemma_put_row_at(m: Map<(int, int), Seq<char>>, row: int, cells: Seq<Seq<char>>, n: nat, key: (int, int))
    requires
        n <= cells.len(),
    ensures
        key.0 == row && 0 <= key.1 < n ==> put_row(m, row, cells, n).contains_key(key) == (cells[key.1].len() > 0)
            && (cells[key.1].len() > 0 ==> put_row(m, row, cells, n)[key] == cells[key.1]),
        !(key.0 == row && 0 <= key.1 < n) ==> put_row(m, row, cells, n).contains_key(key) == m.contains_key(key)
            && (m.contains_key(key) ==> put_row(m, row, cells, n)[key] == m[key]),
    decreases n,
{
    if n > 0 {
        lemma_put_row_at(m, row, cells, (n - 1) as nat, key);
    }
}

proof fn lemma_style_rows_at(m: Map<(int, int), CellStyle>, headers: Seq<Seq<char>>, rows: Seq<Seq<Seq<char>>>, n: nat, key: (int, int))
    requires
        n <= rows.len(),
    ensures
        1 <= key.0 <= n && 0 <= key.1 < rows[key.0 - 1].len() ==> style_rows(m, headers, rows, n).contains_key(key)
            && style_rows(m, headers, rows, n)[key] == row_style(fill_of(headers, rows[key.0 - 1])),
        !(1 <= key.0 <= n && 0 <= key.1 < rows[key.0 - 1].len()) ==> style_rows(m, headers, rows, n).contains_key(key)
            == m.contains_key(key) && (m.contains_key(key) ==> style_rows(m, headers, rows, n)[key] == m[key]),
    decreases n,
{
    if n > 0 {
        lemma_style_rows_at(m, headers, rows, (n - 1) as nat, key);
        lemma_style_row_at(style_rows(m, headers, rows, (n - 1) as nat), n as int, row_style(fill_of(headers, rows[n - 1])), rows[n - 1].len(), key);
    }
}

proof fn lemma_put_rows_at(m: Map<(int, int), Seq<char>>, rows: Seq<Seq<Seq<char>>>, n: nat, key: (int, int))
    requires
        n <= rows.len(),
    ensures
        1 <= key.0 <= n && 0 <= key.1 < rows[key.0 - 1].len() ==> put_rows(m, rows, n).contains_key(key)
            == (rows[key.0 - 1][key.1].len() > 0) && (rows[key.0 - 1][key.1].len() > 0 ==> put_rows(m, rows, n)[key]
            == rows[key.0 - 1][key.1]),
        !(1 <= key.0 <= n && 0 <= key.1 < rows[key.0 - 1].len()) ==> put_rows(m, rows, n).contains_key(key)
            == m.contains_key(key) && (m.contains_key(key) ==> put_rows(m, rows, n)[key] == m[key]),
    decreases n,
{
    if n > 0 {
        lemma_put_rows_at(m, rows, (n - 1) as nat, key);
        lemma_put_row_at(put_rows(m, rows, (n - 1) as nat), n as int, rows[n - 1], rows[n - 1].len(), key);
    }
}

/// On the table's sheet, each header cell is in the heading format and each
/// cell of data row `i` (sheet row `i + 1`) in the format of that row's fill.
pub proof fn law_table_styles(m: Map<(int, int), CellStyle>, headers: Seq<Seq<char>>, rows: Seq<Seq<Seq<char>>>, i: int, j: int)
    ensures
        0 <= j < headers.len() ==> table_sheet_styles(m, headers, rows).contains_key((0, j))
            && table_sheet_styles(m, headers, rows)[(0, j)] == heading_style(),
        0 <= i < rows.len() && 0 <= j < rows[i].len() ==> table_sheet_styles(m, headers, rows).contains_key((i + 1, j))
            && table_sheet_styles(m, headers, rows)[(i + 1, j)] == row_style(fill_of(headers, rows[i])),
{
    let h = style_row(m, 0, heading_style(), headers.len());
    lemma_style_row_at(m, 0, heading_style(), headers.len(), (0, j));
    lemma_style_rows_at(h, headers, rows, rows.len(), (0, j));
    lemma_style_rows_at(h, headers, rows, rows.len(), (i + 1, j));
}

/// On the table's sheet, each header cell holds its header and each cell of
/// data row `i` (sheet row `i + 1`) its text; an empty text leaves the cell
/// without text.
pub proof fn law_table_cells(m: Map<(int, int), Seq<char>>, headers: Seq<Seq<char>>, rows: Seq<Seq<Seq<char>>>, i: int, j: int)
    ensures
        0 <= j < headers.len() ==> table_sheet_cells(m, headers, rows).contains_key((0, j)) == (headers[j].len() > 0)
            && (headers[j].len() > 0 ==> table_sheet_cells(m, headers, rows)[(0, j)] == headers[j]),
        0 <= i < rows.len() && 0 <= j < rows[i].len() ==> table_sheet_cells(m, headers, rows).contains_key((i + 1, j))
            == (rows[i][j].len() > 0) && (rows[i][j].len() > 0 ==> table_sheet_cells(m, headers, rows)[(i + 1, j)]
            == rows[i][j]),
{
    let h = put_row(m, 0, headers, headers.len());
    lemma_put_row_at(m, 0, headers, headers.len(), (0, j));
    lemma_put_rows_at(h, rows, rows.len(), (0, j));
    lemma_put_rows_at(h, rows, rows.len(), (i + 1, j));
}

/// The cell `key` lies in the table as it is written: in the header row
/// within the headers, or in a data row within its cells.
pub open spec fn in_table(headers: Seq<Seq<char>>, rows: Seq<Seq<Seq<char>>>, key: (int, int)) -> bool {
    ||| key.0 == 0 && 0 <= key.1 < headers.len()
    ||| 1 <= key.0 <= rows.len() && 0 <= key.1 < rows[key.0 - 1].len()
}

/// Writing the table leaves every cell outside it, its text and its format,
/// as it was.
pub proof fn law_table_leaves_the_rest(
    cells: Map<(int, int), Seq<char>>,
    styles: Map<(int, int), CellStyle>,
    headers: Seq<Seq<char>>,
    rows: Seq<Seq<Seq<char>>>,
    key: (int, int),
)
    requires
        !in_table(headers, rows, key),
    ensures
        table_sheet_cells(cells, headers, rows).contains_key(key) == cells.contains_key(key),
        cells.contains_key(key) ==> table_sheet_cells(cells, headers, rows)[key] == cells[key],
        table_sheet_styles(styles, headers, rows).contains_key(key) == styles.contains_key(key),
        styles.contains_key(key) ==> table_sheet_styles(styles, headers, rows)[key] == styles[key],
{
    lemma_put_row_at(cells, 0, headers, headers.len(), key);
    lemma_put_rows_at(put_row(cells, 0, headers, headers.len()), rows, rows.len(), key);
    lemma_style_row_at(styles, 0, heading_style(), headers.len(), key);
    lemma_style_rows_at(style_row(styles, 0, heading_style(), headers.len()), headers, rows, rows.len(), key);
}

/// The widths given to the first `n` columns, each by its header.
pub open spec fn header_widths(m: Map<int, int>, headers: Seq<Seq<char>>, n: nat) -> Map<int, int>
    decreases n,
{
    if n == 0 {
        m
    } else {
        header_widths(m, headers, (n - 1) as nat).insert(n - 1, column_width_of(headers[n - 1]) as int)
    }
}

/// The heights after sheet rows 1 to `n` are given 48.
pub open spec fn data_row_heights(m: Map<int, int>, n: nat) -> Map<int, int>
    decreases n,
{
    if n == 0 {
        m
    } else {
        data_row_heights(m, (n - 1) as nat).insert(n as int, 48)
    }
}

/// The table fits on a sheet: the header row and the data rows within the
/// sheet's rows, the columns within its columns, and every text within the
/// crate's 32767 UTF-16 units.
pub open spec fn table_fits(headers: Seq<Seq<char>>, rows: Seq<Seq<Seq<char>>>) -> bool {
    &&& headers.len() <= col_limit()
    &&& rows.len() < row_limit()
    &&& forall|j: int| 0 <= j < headers.len() ==> utf16_len(#[trigger] headers[j]) <= 32767
    &&& forall|i: int, j: int| 0 <= i < rows.len() && 0 <= j < rows[i].len() ==> utf16_len(#[trigger] rows[i][j]) <= 32767
}

/// Every row has `width` cells.
pub open spec fn rows_of_width(rows: Seq<Seq<Seq<char>>>, width: nat) -> bool {
    forall|i: int| 0 <= i < rows.len() ==> (#[trigger] rows[i]).len() == width
}

/// A ragged row makes `r` an error, and a `RowWidth` error names the first
/// row without `width` cells.
pub open spec fn width_checked<T>(r: Result<T, WorkbookError>, rows: Seq<Seq<Seq<char>>>, width: nat) -> bool {
    &&& !rows_of_width(rows, width) ==> r is Err
    &&& r matches Err(WorkbookError::RowWidth(i)) ==> {
        &&& i < rows.len()
        &&& rows[i as int].len() != width
        &&& rows_of_width(rows.take(i as int), width)
    }
}

/// Writes the report table to the "Birthdays" sheet: neutral bold headers,
/// frozen header row and first three columns, widths by header, and each
/// data row filled by `row_fill`, with an autofilter over the table. A data
/// row without as many cells as the header row stops it with `RowWidth`.
/// When it succeeds, the sheet's text cells become those of the table,
/// their formats those of `table_sheet_styles`, and the autofilter spans
/// the table; on a sheet without tables it succeeds where the table fits.
fn write_table_sheet(
    ws: &mut rust_xlsxwriter::Worksheet,
    formats: &Formats,
    headers: &Vec<String>,
    rows: &Vec<Vec<String>>,
) -> (r: Result<(), WorkbookError>)
    requires
        headers@.len() >= 1,
        formats.wf(),
    ensures
        ({
            let hv = crate::text::string_views(headers@);
            let rv = crate::csvio::records_view(rows@);
            &&& width_checked(r, rv, hv.len())
            &&& r is Ok ==> sheet_name(*final(ws)) == "Birthdays"@
            &&& r is Ok ==> sheet_frozen(*final(ws)) == (1int, 3int)
            &&& r is Ok ==> sheet_filter(*final(ws)) == Some((0int, 0int, rv.len() as int, hv.len() - 1))
            &&& r is Ok ==> sheet_cells(*final(ws)) == table_sheet_cells(sheet_cells(*old(ws)), hv, rv)
            &&& r is Ok ==> sheet_styles(*final(ws)) == table_sheet_styles(sheet_styles(*old(ws)), hv, rv)
            &&& r is Ok ==> sheet_widths(*final(ws)) == header_widths(sheet_widths(*old(ws)), hv, hv.len())
            &&& r is Ok ==> sheet_heights(*final(ws)) == data_row_heights(sheet_heights(*old(ws)), rv.len())
            &&& table_fits(hv, rv) && rows_of_width(rv, hv.len()) && !sheet_has_tables(*old(ws)) ==> r is Ok
            &&& table_fits(hv, rv) && !rows_of_width(rv, hv.len()) && !sheet_has_tables(*old(ws))
                ==> (r matches Err(WorkbookError::RowWidth(_)))
        }),
{
    let ghost hv = crate::text::string_views(headers@);
    let ghost rv = crate::csvio::records_view(rows@);
    let ghost start = sheet_cells(*ws);
    let ghost start_styles = sheet_styles(*ws);
    let ghost start_widths = sheet_widths(*ws);
    let ghost start_heights = sheet_heights(*ws);
    let ghost tables = sheet_has_tables(*ws);
    let ghost fits = table_fits(hv, rv);
    proof {
        reveal_strlit("Birthdays");
    }
    assert(forall|i: int| 0 <= i < "Birthdays"@.len() ==> is_plain_name_char(#[trigger] "Birthdays"@[i]));
    if let Err(e) = set_name(ws, "Birthdays") {
        return Err(WorkbookError::Xlsx(e));
    }
    if let Err(e) = set_freeze_panes(ws, 1, 3) {
        return Err(WorkbookError::Xlsx(e));
    }
    let mut c: usize = 0;
    while c < headers.len()
        invariant
            c <= headers@.len(),
            c <= col_limit(),
            formats.wf(),
            hv == crate::text::string_views(headers@),
            rv == crate::csvio::records_view(rows@),
            fits == table_fits(hv, rv),
            sheet_name(*ws) == "Birthdays"@,
            sheet_frozen(*ws) == (1int, 3int),
            sheet_has_tables(*ws) == tables,
            tables == sheet_has_tables(*old(ws)),
            start == sheet_cells(*old(ws)),
            start_styles == sheet_styles(*old(ws)),
            sheet_cells(*ws) == put_row(start, 0, hv, c as nat),
            sheet_styles(*ws) == style_row(start_styles, 0, heading_style(), c as nat),
            sheet_widths(*ws) == header_widths(start_widths, hv, c as nat),
            sheet_heights(*ws) == start_heights,
        decreases headers@.len() - c,
    {
        assert(hv[c as int] == headers@[c as int]@);
        let col: u16 = #[verifier::truncate] (c as u16);
        assert(col == c);
        if let Err(e) = write_string_with_format(ws, 0, col, headers[c].as_str(), &formats.heading) {
            return Err(WorkbookError::Xlsx(e));
        }
        if let Err(e) = set_column_width(ws, col, column_width(&headers[c])) {
            return Err(WorkbookError::Xlsx(e));
        }
        c = c + 1;
    }
    let ghost after_headers = put_row(start, 0, hv, hv.len());
    let ghost after_header_styles = style_row(start_styles, 0, heading_style(), hv.len());
    assert(hv.len() == headers@.len());
    let mut count: u32 = 0;
    let mut r: usize = 0;
    while r < rows.len()
        invariant
            r <= rows@.len(),
            r < row_limit(),
            headers@.len() >= 1,
            headers@.len() <= col_limit(),
            formats.wf(),
            hv == crate::text::string_views(headers@),
            rv == crate::csvio::records_view(rows@),
            hv.len() == headers@.len(),
            rv.len() == rows@.len(),
            rows_of_width(rv.take(r as int), hv.len()),
            fits == table_fits(hv, rv),
            sheet_name(*ws) == "Birthdays"@,
            sheet_frozen(*ws) == (1int, 3int),
            sheet_has_tables(*ws) == tables,
            tables == sheet_has_tables(*old(ws)),
            start == sheet_cells(*old(ws)),
            start_styles == sheet_styles(*old(ws)),
            after_headers == put_row(start, 0, hv, hv.len()),
            after_header_styles == style_row(start_styles, 0, heading_style(), hv.len()),
            sheet_cells(*ws) == put_rows(after_headers, rv, r as nat),
            sheet_styles(*ws) == style_rows(after_header_styles, hv, rv, r as nat),
            sheet_widths(*ws) == header_widths(start_widths, hv, hv.len()),
            sheet_heights(*ws) == data_row_heights(start_heights, r as nat),
            count == r,
        decreases rows@.len() - r,
    {
        assert(rv[r as int] == crate::text::string_views(rows@[r as int]@));
        if rows[r].len() != headers.len() {
            return Err(WorkbookError::RowWidth(r));
        }
        let row_num: u32 = #[verifier::truncate] ((r as u64 + 1) as u32);
        assert(row_num == r + 1);
        count = row_num;
        if let Err(e) = set_row_height(ws, row_num, 48) {
            return Err(WorkbookError::Xlsx(e));
        }
        let fill = row_fill(headers, &rows[r]);
        let format = formats.for_fill(fill);
        let ghost before_row = put_rows(after_headers, rv, r as nat);
        let ghost before_row_styles = style_rows(after_header_styles, hv, rv, r as nat);
        let ghost style = row_style(fill_of(hv, rv[r as int]));
        assert(format.style() == style);
        let mut c: usize = 0;
        while c < rows[r].len()
            invariant
                r < rows@.len(),
                r + 1 < row_limit(),
                c <= rows@[r as int]@.len(),
                headers@.len() <= col_limit(),
                rows@[r as int]@.len() == headers@.len(),
                hv == crate::text::string_views(headers@),
                rv == crate::csvio::records_view(rows@),
                rv[r as int] == crate::text::string_views(rows@[r as int]@),
                fits == table_fits(hv, rv),
                format.style() == style,
                sheet_name(*ws) == "Birthdays"@,
                sheet_frozen(*ws) == (1int, 3int),
                sheet_has_tables(*ws) == tables,
                tables == sheet_has_tables(*old(ws)),
                row_num == r + 1,
                sheet_cells(*ws) == put_row(before_row, r + 1, rv[r as int], c as nat),
                sheet_styles(*ws) == style_row(before_row_styles, r + 1, style, c as nat),
                sheet_widths(*ws) == header_widths(start_widths, hv, hv.len()),
                sheet_heights(*ws) == data_row_heights(start_heights, (r + 1) as nat),
            decreases rows@[r as int]@.len() - c,
        {
            assert(rv[r as int][c as int] == rows@[r as int]@[c as int]@);
            let col: u16 = #[verifier::truncate] (c as u16);
            assert(col == c);
            if let Err(e) = write_string_with_format(ws, row_num, col, rows[r][c].as_str(), format) {
                return Err(WorkbookError::Xlsx(e));
            }
            c = c + 1;
        }
        assert(rv.take(r + 1) =~= rv.take(r as int).push(rv[r as int]));
        r = r + 1;
    }
    assert(rv.take(rv.len() as int) =~= rv);
    assert(sheet_cells(*ws) == table_sheet_cells(start, hv, rv));
    assert(sheet_styles(*ws) == table_sheet_styles(start_styles, hv, rv));
    let last_col: u16 = #[verifier::truncate] ((headers.len() - 1) as u16);
    assert(last_col == headers@.len() - 1);
    if let Err(e) = autofilter(ws, 0, 0, count, last_col) {
        return Err(WorkbookError::Xlsx(e));
    }
    Ok(())
}

/// The cells after the legend is written.
pub open spec fn legend_cells(m: Map<(int, int), Seq<char>>) -> Map<(int, int), Seq<char>> {
    let m = formatted_put(m, (0, 0), "Legend"@);
    let m = formatted_put(m, (1, 0), "Team people"@);
    let m = plain_put(m, (1, 1), "Green row: department is filled in"@);
    let m = formatted_put(m, (2, 0), "Next Generation (15 and younger)"@);
    let m = plain_put(m, (2, 1), "Blue row: age 0–15 on the reference date"@);
    let m = formatted_put(m, (3, 0), "Invalid address"@);
    let m = plain_put(m, (3, 1), "Red row: address issues to review"@);
    let m = plain_put(m, (5, 0), "Overlapping categories"@);
    plain_put(m, (5, 1), "Priority: Invalid address, then Generation, then Team"@)
}

/// The cell formats after the legend is written: the title in the heading
/// format, each label on the color it explains, the rest without a format.
pub open spec fn legend_styles(m: Map<(int, int), CellStyle>) -> Map<(int, int), CellStyle> {
    let m = m.insert((0, 0), heading_style());
    let m = m.insert((1, 0), row_style(RowFill::Team));
    let m = plain_style_put(m, (1, 1), "Green row: department is filled in"@);
    let m = m.insert((2, 0), row_style(RowFill::Generation));
    let m = plain_style_put(m, (2, 1), "Blue row: age 0–15 on the reference date"@);
    let m = m.insert((3, 0), row_style(RowFill::Invalid));
    let m = plain_style_put(m, (3, 1), "Red row: address issues to review"@);
    let m = plain_style_put(m, (5, 0), "Overlapping categories"@);
    plain_style_put(m, (5, 1), "Priority: Invalid address, then Generation, then Team"@)
}

/// Writes the "Legend" sheet: the three fills with their meaning, and their
/// priority. It always succeeds.
fn write_legend_sheet(ws: &mut rust_xlsxwriter::Worksheet, formats: &Formats) -> (r: Result<(), WorkbookError>)
    requires
        formats.wf(),
    ensures
        r is Ok,
        sheet_name(*final(ws)) == "Legend"@,
        sheet_cells(*final(ws)) == legend_cells(sheet_cells(*old(ws))),
        sheet_styles(*final(ws)) == legend_styles(sheet_styles(*old(ws))),
        view_kept(*old(ws), *final(ws)),
        sheet_widths(*final(ws)) == sheet_widths(*old(ws)).insert(0, 44).insert(1, 65),
        sheet_heights(*final(ws)) == sheet_heights(*old(ws)),
{
    proof {
        reveal_strlit("Legend");
        reveal_strlit("Team people");
        reveal_strlit("Green row: department is filled in");
        reveal_strlit("Next Generation (15 and younger)");
        reveal_strlit("Blue row: age 0–15 on the reference date");
        reveal_strlit("Invalid address");
        reveal_strlit("Red row: address issues to review");
        reveal_strlit("Overlapping categories");
        reveal_strlit("Priority: Invalid address, then Generation, then Team");
        lemma_utf16_len_bound("Legend"@);
        lemma_utf16_len_bound("Team people"@);
        lemma_utf16_len_bound("Green row: department is filled in"@);
        lemma_utf16_len_bound("Next Generation (15 and younger)"@);
        lemma_utf16_len_bound("Blue row: age 0–15 on the reference date"@);
        lemma_utf16_len_bound("Invalid address"@);
        lemma_utf16_len_bound("Red row: address issues to review"@);
        lemma_utf16_len_bound("Overlapping categories"@);
        lemma_utf16_len_bound("Priority: Invalid address, then Generation, then Team"@);
    }
    assert(forall|i: int| 0 <= i < "Legend"@.len() ==> is_plain_name_char(#[trigger] "Legend"@[i]));
    if let Err(e) = set_name(ws, "Legend") {
        return Err(WorkbookError::Xlsx(e));
    }
    if let Err(e) = set_column_width(ws, 0, 44) {
        return Err(WorkbookError::Xlsx(e));
    }
    if let Err(e) = set_column_width(ws, 1, 65) {
        return Err(WorkbookError::Xlsx(e));
    }
    if let Err(e) = write_string_with_format(ws, 0, 0, "Legend", &formats.heading) {
        return Err(WorkbookError::Xlsx(e));
    }
    if let Err(e) = write_string_with_format(ws, 1, 0, "Team people", &formats.green) {
        return Err(WorkbookError::Xlsx(e));
    }
    if let Err(e) = write_string(ws, 1, 1, "Green row: department is filled in") {
        return Err(WorkbookError::Xlsx(e));
    }
    if let Err(e) = write_string_with_format(ws, 2, 0, "Next Generation (15 and younger)", &formats.blue) {
        return Err(WorkbookError::Xlsx(e));
    }
    if let Err(e) = write_string(ws, 2, 1, "Blue row: age 0–15 on the reference date") {
        return Err(WorkbookError::Xlsx(e));
    }
    if let Err(e) = write_string_with_format(ws, 3, 0, "Invalid address", &formats.red) {
        return Err(WorkbookError::Xlsx(e));
    }
    if let Err(e) = write_string(ws, 3, 1, "Red row: address issues to review") {
        return Err(WorkbookError::Xlsx(e));
    }
    if let Err(e) = write_string(ws, 5, 0, "Overlapping categories") {
        return Err(WorkbookError::Xlsx(e));
    }
    if let Err(e) = write_string(ws, 5, 1, "Priority: Invalid address, then Generation, then Team") {
        return Err(WorkbookError::Xlsx(e));
    }
    Ok(())
}

/// The worksheets of the colored workbook: "Birthdays"
/// with the table, then "Legend".
pub open spec fn colored_sheets(headers: Seq<Seq<char>>, rows: Seq<Seq<Seq<char>>>) -> Seq<SheetContents> {
    seq![
        SheetContents {
            name: "Birthdays"@,
            cells: table_sheet_cells(no_cells(), headers, rows),
            styles: table_sheet_styles(no_styles(), headers, rows),
            frozen: (1, 3),
            filter: Some((0, 0, rows.len() as int, headers.len() - 1)),
            widths: header_widths(no_sizes(), headers, headers.len()),
            heights: data_row_heights(no_sizes(), rows.len()),
        },
        SheetContents {
            name: "Legend"@,
            cells: legend_cells(no_cells()),
            styles: legend_styles(no_styles()),
            frozen: (0, 0),
            filter: None,
            widths: no_sizes().insert(0, 44).insert(1, 65),
            heights: no_sizes(),
        },
    ]
}

/// The colored workbook of the report table: a "Birthdays" sheet holding
/// the table, its header row bold on gray and each data row on the color of
/// its fill, panes frozen below the header row and right of the third
/// column, an autofilter over the table, columns as wide as their headers
/// ask and data rows 48 high; then a "Legend" sheet. A data row without as
/// many cells as the header row gives `RowWidth`; a table that fits always
/// gives a workbook.
pub fn build_workbook(headers: &Vec<String>, rows: &Vec<Vec<String>>) -> (r: Result<rust_xlsxwriter::Workbook, WorkbookError>)
    requires
        headers@.len() >= 1,
    ensures
        ({
            let hv = crate::text::string_views(headers@);
            let rv = crate::csvio::records_view(rows@);
            &&& width_checked(r, rv, hv.len())
            &&& table_fits(hv, rv) && rows_of_width(rv, hv.len()) ==> r is Ok
            &&& table_fits(hv, rv) && !rows_of_width(rv, hv.len()) ==> (r matches Err(WorkbookError::RowWidth(_)))
            &&& r is Ok ==> workbook_sheets(r->Ok_0) == colored_sheets(hv, rv)
        }),
{
    let formats = Formats::new();
    let mut table = worksheet_new();
    match write_table_sheet(&mut table, &formats, headers, rows) {
        Ok(()) => {},
        Err(e) => {
            return Err(e);
        },
    }
    let mut legend = worksheet_new();
    match write_legend_sheet(&mut legend, &formats) {
        Ok(()) => {},
        Err(e) => {
            return Err(e);
        },
    }
    proof {
        reveal_strlit("Birthdays");
        reveal_strlit("Legend");
    }
    let mut workbook = workbook_new();
    push_worksheet(&mut workbook, table);
    push_worksheet(&mut workbook, legend);
    Ok(workbook)
}

/// The report table as the bytes of an xlsx workbook with a Birthdays sheet
/// and a Legend sheet (see `build_workbook`). A data row without as many
/// cells as the header row gives `RowWidth`; where the workbook is built,
/// the result is what saving it gives.
pub fn colored_workbook(headers: &Vec<String>, rows: &Vec<Vec<String>>) -> (r: Result<Vec<u8>, WorkbookError>)
    requires
        headers@.len() >= 1,
    ensures
        width_checked(r, crate::csvio::records_view(rows@), headers@.len()),
        table_fits(crate::text::string_views(headers@), crate::csvio::records_view(rows@))
            && !rows_of_width(crate::csvio::records_view(rows@), headers@.len())
            ==> (r matches Err(WorkbookError::RowWidth(_))),
{
    let mut workbook = match build_workbook(headers, rows) {
        Ok(w) => w,
        Err(e) => {
            return Err(e);
        },
    };
    match save_to_buffer(&mut workbook) {
        Ok(bytes) => Ok(bytes),
        Err(e) => Err(WorkbookError::Xlsx(e)),
    }
}

} // verus!
