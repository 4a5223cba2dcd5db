//! Finding the columns of the contacts table by their header names.

use vstd::prelude::*;
use crate::text::{chars_eq, chars_of, lowercase, string_of, string_views, strip_chars, to_lowercase, trim};

verus! {

/// The character sequences of a list of string slices.
pub open spec fn str_views(v: Seq<&str>) -> Seq<Seq<char>> {
    v.map_values(|x: &str| x@)
}

/// How a header is compared with the known names: trimmed, in lower case.
pub open spec fn header_key(h: Seq<char>) -> Seq<char> {
    lowercase(trim(h))
}

/// The first index at or after `i` of a key that is one of `names`.
pub open spec fn first_known_from(keys: Seq<Seq<char>>, names: Seq<Seq<char>>, i: nat) -> Option<nat>
    decreases keys.len() - i,
{
    if i >= keys.len() {
        None
    } else if names.contains(keys[i as int]) {
        Some(i)
    } else {
        first_known_from(keys, names, i + 1)
    }
}

/// The first index of a key that is one of `names`.
pub open spec fn first_known(keys: Seq<Seq<char>>, names: Seq<Seq<char>>) -> Option<nat> {
    first_known_from(keys, names, 0)
}

pub proof fn lemma_first_known_from_bound(keys: Seq<Seq<char>>, names: Seq<Seq<char>>, i: nat)
    ensures
        first_known_from(keys, names, i) matches Some(k) ==> k < keys.len(),
    decreases keys.len() - i,
{
    if i < keys.len() && !names.contains(keys[i as int]) {
        lemma_first_known_from_bound(keys, names, i + 1);
    }
}

/// A found index moved on by `k`.
pub open spec fn shifted(r: Option<nat>, k: nat) -> Option<nat> {
    match r {
        Some(i) => Some(i + k),
        None => None,
    }
}

/// The earlier of two found indices.
pub open spec fn earlier(a: Option<nat>, b: Option<nat>) -> Option<nat> {
    match (a, b) {
        (Some(i), Some(j)) => Some(if i <= j { i } else { j }),
        (Some(i), None) => Some(i),
        (None, r) => r,
    }
}

proof fn lemma_first_known_from_at_least(keys: Seq<Seq<char>>, names: Seq<Seq<char>>, i: nat)
    ensures
        first_known_from(keys, names, i) matches Some(k) ==> i <= k,
    decreases keys.len() - i,
{
    if i < keys.len() && !names.contains(keys[i as int]) {
        lemma_first_known_from_at_least(keys, names, i + 1);
    }
}

proof fn lemma_first_known_from_shift(k1: Seq<Seq<char>>, k2: Seq<Seq<char>>, names: Seq<Seq<char>>, j: nat)
    ensures
        first_known_from(k1 + k2, names, k1.len() + j) == shifted(first_known_from(k2, names, j), k1.len()),
    decreases k2.len() - j,
{
    if j < k2.len() {
        assert((k1 + k2)[(k1.len() + j) as int] == k2[j as int]);
        lemma_first_known_from_shift(k1, k2, names, j + 1);
        assert(k1.len() + j + 1 == k1.len() + (j + 1));
    }
}

proof fn lemma_first_known_from_concat(k1: Seq<Seq<char>>, k2: Seq<Seq<char>>, names: Seq<Seq<char>>, i: nat)
    requires
        i <= k1.len(),
    ensures
        first_known_from(k1 + k2, names, i) == match first_known_from(k1, names, i) {
            Some(x) => Some(x),
            None => shifted(first_known_from(k2, names, 0), k1.len()),
        },
    decreases k1.len() - i,
{
    if i < k1.len() {
        assert((k1 + k2)[i as int] == k1[i as int]);
        lemma_first_known_from_concat(k1, k2, names, i + 1);
    } else {
        lemma_first_known_from_shift(k1, k2, names, 0);
    }
}

proof fn lemma_first_known_from_names(keys: Seq<Seq<char>>, n1: Seq<Seq<char>>, n2: Seq<Seq<char>>, i: nat)
    ensures
        first_known_from(keys, n1 + n2, i) == earlier(first_known_from(keys, n1, i), first_known_from(keys, n2, i)),
    decreases keys.len() - i,
{
    if i < keys.len() {
        let key = keys[i as int];
        if n1.contains(key) {
            let m = choose|m: int| 0 <= m < n1.len() && n1[m] == key;
            assert((n1 + n2)[m] == key);
            lemma_first_known_from_at_least(keys, n2, i);
        } else if n2.contains(key) {
            let m = choose|m: int| 0 <= m < n2.len() && n2[m] == key;
            assert((n1 + n2)[n1.len() + m] == key);
            lemma_first_known_from_at_least(keys, n1, i);
        } else {
            assert(!(n1 + n2).contains(key)) by {
                if (n1 + n2).contains(key) {
                    let m = choose|m: int| 0 <= m < (n1 + n2).len() && (n1 + n2)[m] == key;
                    if m < n1.len() {
                        assert(n1[m] == key);
                    } else {
                        assert(n2[m - n1.len()] == key);
                    }
                }
            }
            lemma_first_known_from_names(keys, n1, n2, i + 1);
        }
    }
}

/// Looking up a column in two header lists joined gives the column found in
/// the first list, else the one found in the second, counted after the first.
pub proof fn law_column_of_joined_headers(h1: Seq<Seq<char>>, h2: Seq<Seq<char>>, names: Seq<Seq<char>>)
    ensures
        column(h1 + h2, names) == match column(h1, names) {
            Some(i) => Some(i),
            None => shifted(column(h2, names), h1.len()),
        },
{
    let f = |h: Seq<char>| header_key(h);
    assert((h1 + h2).map_values(f) =~= h1.map_values(f) + h2.map_values(f));
    lemma_first_known_from_concat(h1.map_values(f), h2.map_values(f), names, 0);
}

/// Looking up a column by two name lists joined gives the earlier of the
/// columns found by each.
pub proof fn law_column_of_joined_names(headers: Seq<Seq<char>>, n1: Seq<Seq<char>>, n2: Seq<Seq<char>>)
    ensures
        column(headers, n1 + n2) == earlier(column(headers, n1), column(headers, n2)),
{
    lemma_first_known_from_names(headers.map_values(|h: Seq<char>| header_key(h)), n1, n2, 0);
}

/// A column found is a column of the header row.
pub proof fn lemma_column_bound(headers: Seq<Seq<char>>, names: Seq<Seq<char>>)
    ensures
        column(headers, names) matches Some(k) ==> k < headers.len(),
{
    lemma_first_known_from_bound(headers.map_values(|h: Seq<char>| header_key(h)), names, 0);
}

/// The first column whose header, trimmed and in lower case, is one of
/// `names`.
pub open spec fn column(headers: Seq<Seq<char>>, names: Seq<Seq<char>>) -> Option<nat> {
    first_known(headers.map_values(|h: Seq<char>| header_key(h)), names)
}

pub open spec fn opt_nat(r: Option<usize>) -> Option<nat> {
    match r {
        Some(i) => Some(i as nat),
        None => None,
    }
}

/// `key` is one of `names`.
fn is_known(key: &String, names: &[&str]) -> (r: bool)
    ensures
        r == str_views(names@).contains(key@),
{
    let k = chars_of(key.as_str());
    let mut j: usize = 0;
    while j < names.len()
        invariant
            k@ == key@,
            j <= names@.len(),
            forall|m: int| 0 <= m < j ==> names@[m]@ != key@,
        decreases names@.len() - j,
    {
        let n = chars_of(names[j]);
        if chars_eq(k.as_slice(), n.as_slice()) {
            assert(str_views(names@)[j as int] == key@);
            return true;
        }
        j = j + 1;
    }
    assert forall|m: int| 0 <= m < str_views(names@).len() implies str_views(names@)[m] != key@ by {
        assert(str_views(names@)[m] == names@[m]@);
    }
    false
}

/// The first index of a key that is one of `names`, for keys already
/// trimmed and in lower case.
pub fn column_of_keys(keys: &[String], names: &[&str]) -> (r: Option<usize>)
    ensures
        opt_nat(r) == first_known(string_views(keys@), str_views(names@)),
{
    let mut i: usize = 0;
    while i < keys.len()
        invariant
            i <= keys@.len(),
            first_known(string_views(keys@), str_views(names@)) == first_known_from(
                string_views(keys@),
                str_views(names@),
                i as nat,
            ),
        decreases keys@.len() - i,
    {
        if is_known(&keys[i], names) {
            return Some(i);
        }
        i = i + 1;
    }
    None
}

/// The header as it is compared: trimmed, in lower case.
pub fn header_key_of(h: &String) -> (r: String)
    ensures
        r@ == header_key(h@),
{
    let t = string_of(strip_chars(chars_of(h.as_str()).as_slice(), false).as_slice());
    to_lowercase(t.as_str())
}

/// The first column whose header, trimmed and in lower case, is one of
/// `names`.
pub fn col(headers: &[String], names: &[&str]) -> (r: Option<usize>)
    ensures
        opt_nat(r) == column(string_views(headers@), str_views(names@)),
{
    let mut keys: Vec<String> = Vec::new();
    let mut i: usize = 0;
    while i < headers.len()
        invariant
            i <= headers@.len(),
            string_views(keys@) == string_views(headers@).take(i as int).map_values(
                |h: Seq<char>| header_key(h),
            ),
        decreases headers@.len() - i,
    {
        let k = header_key_of(&headers[i]);
        let ghost before = keys@;
        keys.push(k);
        assert(string_views(keys@) =~= string_views(before).push(k@));
        assert(string_views(headers@)[i as int] == headers@[i as int]@);
        i = i + 1;
        assert(string_views(keys@) =~= string_views(headers@).take(i as int).map_values(
            |h: Seq<char>| header_key(h),
        ));
    }
    assert(string_views(headers@).take(headers@.len() as int) =~= string_views(headers@));
    column_of_keys(keys.as_slice(), names)
}

/// Header names of the birth-date column.
pub open spec fn dob_names() -> Seq<Seq<char>> {
    seq!["date of birth"@, "dob"@, "birthday"@, "day of birth"@]
}

/// Header names of the address column.
pub open spec fn address_names() -> Seq<Seq<char>> {
    seq!["full mailing address"@, "address"@, "mailing address"@]
}

/// Header names of the postal-code column.
pub open spec fn zip_names() -> Seq<Seq<char>> {
    seq!["zip code / plz"@, "zip"@, "plz"@, "postal code"@, "zip code"@]
}

/// Header names of the city column.
pub open spec fn city_names() -> Seq<Seq<char>> {
    seq!["city"@, "town"@]
}

/// Header names of the department column.
pub open spec fn department_names() -> Seq<Seq<char>> {
    seq!["department"@, "departments"@]
}

/// Where the columns that the report reads stand.
pub struct Layout {
    pub width: nat,
    pub dob: Option<nat>,
    pub address: Option<nat>,
    pub zip: Option<nat>,
    pub city: Option<nat>,
    pub department: Option<nat>,
}

pub open spec fn layout_of(headers: Seq<Seq<char>>) -> Layout {
    Layout {
        width: headers.len(),
        dob: column(headers, dob_names()),
        address: column(headers, address_names()),
        zip: column(headers, zip_names()),
        city: column(headers, city_names()),
        department: column(headers, department_names()),
    }
}

/// The columns found in a header row.
pub struct Columns {
    pub dob: Option<usize>,
    pub address: Option<usize>,
    pub zip: Option<usize>,
    pub city: Option<usize>,
    pub department: Option<usize>,
}

impl Layout {
    /// Every column found is a column of the header row.
    pub open spec fn in_bounds(self) -> bool {
        &&& (self.dob matches Some(i) ==> i < self.width)
        &&& (self.address matches Some(i) ==> i < self.width)
        &&& (self.zip matches Some(i) ==> i < self.width)
        &&& (self.city matches Some(i) ==> i < self.width)
        &&& (self.department matches Some(i) ==> i < self.width)
    }
}

pub proof fn lemma_layout_in_bounds(headers: Seq<Seq<char>>)
    ensures
        layout_of(headers).in_bounds(),
{
    lemma_column_bound(headers, dob_names());
    lemma_column_bound(headers, address_names());
    lemma_column_bound(headers, zip_names());
    lemma_column_bound(headers, city_names());
    lemma_column_bound(headers, department_names());
}

impl Columns {
    pub open spec fn matches_layout(&self, lay: Layout) -> bool {
        &&& opt_nat(self.dob) == lay.dob
        &&& opt_nat(self.address) == lay.address
        &&& opt_nat(self.zip) == lay.zip
        &&& opt_nat(self.city) == lay.city
        &&& opt_nat(self.department) == lay.department
    }
}

/// Finds the birth-date, address, postal-code, city and department columns.
pub fn find_columns(headers: &[String]) -> (r: Columns)
    ensures
        r.matches_layout(layout_of(string_views(headers@))),
        layout_of(string_views(headers@)).in_bounds(),
{
    proof {
        lemma_layout_in_bounds(string_views(headers@));
    }
    let dob = ["date of birth", "dob", "birthday", "day of birth"];
    let address = ["full mailing address", "address", "mailing address"];
    let zip = ["zip code / plz", "zip", "plz", "postal code", "zip code"];
    let city = ["city", "town"];
    let department = ["department", "departments"];
    assert(str_views(dob@) =~= dob_names());
    assert(str_views(address@) =~= address_names());
    assert(str_views(zip@) =~= zip_names());
    assert(str_views(city@) =~= city_names());
    assert(str_views(department@) =~= department_names());
    Columns {
        dob: col(headers, dob.as_slice()),
        address: col(headers, address.as_slice()),
        zip: col(headers, zip.as_slice()),
        city: col(headers, city.as_slice()),
        department: col(headers, department.as_slice()),
    }
}

} // verus!
