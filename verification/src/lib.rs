//! Monthly birthday lists from a contacts table: day-first birth dates,
//! ages on a reference date, mailing-address formatting and checks, and the
//! assembly of the output table and its colored workbook.

pub mod text;
pub mod date;
pub mod pattern;
pub mod address;
pub mod sheets;
pub mod columns;
pub mod csvio;
pub mod report;
pub mod summary;
pub mod cell_format;
pub mod workbook;
pub mod laws;
