//! Reading and writing CSV through the `csv` crate.
//!
//! What the crate reads from a text, and what it writes for a list of
//! records, are not written out here: each is given a name.

use vstd::prelude::*;
use crate::text::string_views;

verus! {

#[verifier::external_type_specification]
#[verifier::external_body]
pub struct ExCsvError(csv::Error);

/// The cells of a list of records.
pub open spec fn records_view(v: Seq<Vec<String>>) -> Seq<Seq<Seq<char>>> {
    v.map_values(|r: Vec<String>| string_views(r@))
}

/// The records that a `csv` reader built with `has_headers(false)` and
/// `flexible(true)` reads from `text`; `None` where it reports an error.
pub uninterp spec fn csv_records(text: Seq<char>) -> Option<Seq<Seq<Seq<char>>>>;

/// The bytes that a `csv::Writer` with default settings writes for `rows`,
/// one record each; `None` where it reports an error.
pub uninterp spec fn csv_encoding(rows: Seq<Seq<Seq<char>>>) -> Option<Seq<u8>>;

/// Every record has `n` fields.
pub open spec fn all_of_width(rows: Seq<Seq<Seq<char>>>, n: nat) -> bool {
    forall|i: int| 0 <= i < rows.len() ==> #[trigger] rows[i].len() == n
}

/// Reads all records of `text` with `csv::ReaderBuilder` (no header row,
/// records of any length), stopping at the first error as the reader's
/// record iterator reports it.
#[verifier::external_body]
pub(crate) fn read_records(text: &str) -> (r: Result<Vec<Vec<String>>, csv::Error>)
    ensures
        r matches Ok(rows) ==> csv_records(text@) == Some(records_view(rows@)),
        r is Err <==> csv_records(text@) is None,
{
    csv::ReaderBuilder::new()
        .has_headers(false)
        .flexible(true)
        .from_reader(text.as_bytes())
        .records()
        .map(|rec| rec.map(|rec| rec.iter().map(String::from).collect()))
        .collect()
}

/// Writes `rows` with `csv::Writer::from_writer` into a byte buffer. The
/// writer reports an error only for a record whose field count differs from
/// the first record's (writing to memory does not fail), so records of one
/// nonzero width are always written.
#[verifier::external_body]
pub(crate) fn write_records(rows: &Vec<Vec<String>>) -> (r: Result<Vec<u8>, csv::Error>)
    ensures
        r matches Ok(bytes) ==> csv_encoding(records_view(rows@)) == Some(bytes@),
        r is Err <==> csv_encoding(records_view(rows@)) is None,
        (exists|n: nat| n > 0 && all_of_width(records_view(rows@), n)) ==> r is Ok,
{
    let mut w = csv::Writer::from_writer(Vec::new());
    rows.iter().try_for_each(|row| w.write_record(row))?;
    w.into_inner().map_err(|e| csv::Error::from(e.into_error()))
}

} // verus!
