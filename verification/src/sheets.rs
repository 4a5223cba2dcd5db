//! Where the contacts come from: a local CSV file or a Google Sheets share
//! link, rewritten to the sheet's CSV export link; and the checks on the
//! text that was read.

use vstd::prelude::*;
use crate::pattern::{Pattern, regex_capture, regex_compiles};
use crate::text::{chars_of, occurs_at, strip_start, string_of};

verus! {

/// A Google Sheets share link, capturing the document id.
pub open spec fn sheet_link_pattern() -> Seq<char> {
    "^https://docs\\.google\\.com/spreadsheets/d/([A-Za-z0-9_-]+)(?:/|\\?|#|$)"@
}

/// The sheet (tab) id in a share link.
pub open spec fn gid_pattern() -> Seq<char> {
    "[?#&]gid=(\\d+)"@
}

/// The CSV export link of a document, for one sheet of it where `gid` names
/// one.
pub open spec fn export_link(id: Seq<char>, gid: Option<Seq<char>>) -> Seq<char> {
    "https://docs.google.com/spreadsheets/d/"@ + id + "/export?format=csv"@ + match gid {
        Some(g) => "&gid="@ + g,
        None => Seq::empty(),
    }
}

/// Why a source could not be turned into an export link.
#[derive(Debug)]
pub enum SheetLinkError {
    /// A pattern was refused by the regex crate.
    Pattern(regex::Error),
    /// The source is not a Google Sheets share link.
    NotSheetsLink,
}

/// The message for a source that is not a Google Sheets share link.
pub fn not_sheets_link_message() -> (r: String)
    ensures
        r@ == "Expected an https://docs.google.com/spreadsheets/d/... URL"@,
{
    String::from_str("Expected an https://docs.google.com/spreadsheets/d/... URL")
}

/// The CSV export link of document `id`, for sheet `gid` where given.
pub fn sheet_export_link(id: &str, gid: Option<&str>) -> (r: String)
    ensures
        r@ == export_link(id@, match gid {
            Some(g) => Some(g@),
            None => None,
        }),
{
    let mut r = String::from_str("https://docs.google.com/spreadsheets/d/");
    r.append(id);
    r.append("/export?format=csv");
    match gid {
        Some(g) => {
            r.append("&gid=");
            r.append(g);
        },
        None => {},
    }
    r
}

/// The CSV export link for a Google Sheets share link.
pub fn export_url(source: &str) -> (r: Result<String, SheetLinkError>)
    ensures
        !regex_compiles(sheet_link_pattern()) ==> r matches Err(SheetLinkError::Pattern(_)),
        regex_compiles(sheet_link_pattern()) ==> match regex_capture(sheet_link_pattern(), source@, 1) {
            None => r matches Err(SheetLinkError::NotSheetsLink),
            Some(id) => if regex_compiles(gid_pattern()) {
                r matches Ok(url) && url@ == export_link(id, regex_capture(gid_pattern(), source@, 1))
            } else {
                r matches Err(SheetLinkError::Pattern(_))
            },
        },
{
    let link = match Pattern::compile(
        "^https://docs\\.google\\.com/spreadsheets/d/([A-Za-z0-9_-]+)(?:/|\\?|#|$)",
    ) {
        Ok(p) => p,
        Err(e) => {
            return Err(SheetLinkError::Pattern(e));
        },
    };
    let id = match link.capture_text(source, 1) {
        Some(id) => id,
        None => {
            return Err(SheetLinkError::NotSheetsLink);
        },
    };
    let gid_re = match Pattern::compile("[?#&]gid=(\\d+)") {
        Ok(p) => p,
        Err(e) => {
            return Err(SheetLinkError::Pattern(e));
        },
    };
    let gid = gid_re.capture_text(source, 1);
    match gid {
        Some(g) => Ok(sheet_export_link(id.as_str(), Some(g.as_str()))),
        None => Ok(sheet_export_link(id.as_str(), None)),
    }
}

/// The source names a web address (`http:` or `https:`), to be downloaded
/// rather than read from disk.
pub open spec fn is_web_source(source: Seq<char>) -> bool {
    occurs_at(source, "http:"@, 0) || occurs_at(source, "https:"@, 0)
}

pub fn is_remote_source(source: &str) -> (r: bool)
    ensures
        r == is_web_source(source@),
{
    let s = chars_of(source);
    let http = chars_of("http:");
    let https = chars_of("https:");
    crate::text::occurs_at_exec(s.as_slice(), http.as_slice(), 0)
        || crate::text::occurs_at_exec(s.as_slice(), https.as_slice(), 0)
}

/// `s` without its leading byte-order marks.
pub open spec fn without_boms(s: Seq<char>) -> Seq<char>
    decreases s.len(),
{
    if s.len() > 0 && s[0] == '\u{feff}' {
        without_boms(s.drop_first())
    } else {
        s
    }
}

/// What was read is not usable as CSV.
#[derive(Clone, Copy, PartialEq, Eq, Structural, Debug)]
pub enum LoadError {
    /// The text is an HTML page, as a private sheet's sign-in page is.
    Html,
}

impl LoadError {
    pub fn message(&self) -> (r: String)
        ensures
            r@ == "Received HTML instead of CSV. Use a local CSV export for a private sheet."@,
    {
        String::from_str("Received HTML instead of CSV. Use a local CSV export for a private sheet.")
    }
}

/// Prepares text that was read for CSV parsing: leading byte-order marks are
/// dropped, and an HTML page is refused.
pub fn prepare_text(text: &str) -> (r: Result<String, LoadError>)
    ensures
        ({
            let t = without_boms(text@);
            let s = strip_start(t, false);
            if s.len() > 0 && s[0] == '<' {
                r == Err::<String, LoadError>(LoadError::Html)
            } else {
                r matches Ok(out) && out@ == t
            }
        }),
{
    let v = chars_of(text);
    let mut i: usize = 0;
    assert(v@.skip(0) =~= v@);
    while i < v.len() && v[i] == '\u{feff}'
        invariant
            i <= v@.len(),
            without_boms(v@) == without_boms(v@.skip(i as int)),
        decreases v@.len() - i,
    {
        assert(v@.skip(i as int).drop_first() =~= v@.skip(i + 1));
        i = i + 1;
    }
    let ghost t = v@.skip(i as int);
    assert(without_boms(v@) == t);
    let mut k: usize = i;
    assert(v@.skip(i as int) =~= v@.subrange(i as int, v@.len() as int));
    while k < v.len() && crate::text::white_space(v[k])
        invariant
            i <= k <= v@.len(),
            t == v@.subrange(i as int, v@.len() as int),
            strip_start(t, false) == strip_start(v@.subrange(k as int, v@.len() as int), false),
        decreases v@.len() - k,
    {
        assert(v@.subrange(k as int, v@.len() as int).drop_first() =~= v@.subrange(k + 1, v@.len() as int));
        k = k + 1;
    }
    if k < v.len() && v[k] == '<' {
        return Err(LoadError::Html);
    }
    let tail = crate::text::slice_chars(v.as_slice(), i, v.len());
    let rest = string_of(tail.as_slice());
    Ok(rest)
}

} // verus!
