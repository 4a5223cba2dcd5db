//! Properties of the report that hold for every input: what is listed, in
//! which order, and where the cells go.

use vstd::prelude::*;
use crate::columns::Layout;
use crate::date::{Date, age_on, birthday_key, date_le, lemma_dob_calendar};
use crate::report::{
    ReportOptions, added_cells, birth_of, checks, insert_by_key, key_le, listing_order, one_if,
    output_headers, output_row, picked, sorted_order, splits,
};
use crate::address::{AddressIssue, address_issues, address_lines, country_of, is_plz};
use crate::pattern::regex_find;
use crate::text::{contains, lowercase, trim};
use crate::report::{cell_or_empty, generation_flag, padded, report_of, skips_address_steps_of};
use crate::sheets::without_boms;
use crate::summary::{is_summary_of, label_count, lemma_text_lt_irreflexive, note_label, text_lt};

verus! {

/// `s` lists indices in birthday order, ties in increasing index order.
pub open spec fn in_birthday_order(s: Seq<nat>, keys: Seq<(int, int, int)>) -> bool {
    forall|i: int, j: int|
        0 <= i < j < s.len() ==> key_le(keys[#[trigger] s[i] as int], keys[#[trigger] s[j] as int]) && (
        keys[s[i] as int] == keys[s[j] as int] ==> s[i] < s[j])
}

pub proof fn lemma_key_le_transitive(a: (int, int, int), b: (int, int, int), c: (int, int, int))
    requires
        key_le(a, b),
        key_le(b, c),
    ensures
        key_le(a, c),
{
}

pub proof fn lemma_key_le_total(a: (int, int, int), b: (int, int, int))
    ensures
        !key_le(a, b) ==> key_le(b, a) && a != b,
{
}

/// Where `insert_by_key` puts `x`: after the indices whose keys do not come
/// after `x`'s, before the others.
pub proof fn lemma_insert_position(s: Seq<nat>, x: nat, keys: Seq<(int, int, int)>)
    ensures
        exists|p: int|
            0 <= p <= s.len() && insert_by_key(s, x, keys) == s.insert(p, x) && (p > 0 ==> key_le(
                keys[s[p - 1] as int],
                keys[x as int],
            )) && forall|q: int| p <= q < s.len() ==> !key_le(keys[#[trigger] s[q] as int], keys[x as int]),
    decreases s.len(),
{
    if s.len() == 0 || key_le(keys[s.last() as int], keys[x as int]) {
        assert(s.push(x) =~= s.insert(s.len() as int, x));
        if s.len() > 0 {
            assert(s[s.len() - 1] == s.last());
        }
    } else {
        let d = s.drop_last();
        lemma_insert_position(d, x, keys);
        let p = choose|p: int|
            0 <= p <= d.len() && insert_by_key(d, x, keys) == d.insert(p, x) && (p > 0 ==> key_le(
                keys[d[p - 1] as int],
                keys[x as int],
            )) && forall|q: int| p <= q < d.len() ==> !key_le(keys[#[trigger] d[q] as int], keys[x as int]);
        assert(d.insert(p, x).push(s.last()) =~= s.insert(p, x));
        assert forall|q: int| p <= q < s.len() implies !key_le(keys[#[trigger] s[q] as int], keys[x as int]) by {
            if q < d.len() {
                assert(s[q] == d[q]);
            }
        }
        if p > 0 {
            assert(s[p - 1] == d[p - 1]);
        }
    }
}

/// Inserting a new largest index keeps birthday order.
pub proof fn lemma_insert_keeps_order(s: Seq<nat>, x: nat, keys: Seq<(int, int, int)>)
    requires
        in_birthday_order(s, keys),
        forall|i: int| 0 <= i < s.len() ==> #[trigger] s[i] < x,
    ensures
        in_birthday_order(insert_by_key(s, x, keys), keys),
{
    lemma_insert_position(s, x, keys);
    let p = choose|p: int|
        0 <= p <= s.len() && insert_by_key(s, x, keys) == s.insert(p, x) && (p > 0 ==> key_le(
            keys[s[p - 1] as int],
            keys[x as int],
        )) && forall|q: int| p <= q < s.len() ==> !key_le(keys[#[trigger] s[q] as int], keys[x as int]);
    let t = s.insert(p, x);
    assert forall|i: int, j: int| 0 <= i < j < t.len() implies key_le(keys[#[trigger] t[i] as int], keys[#[trigger] t[j] as int]) && (
        keys[t[i] as int] == keys[t[j] as int] ==> t[i] < t[j]) by {
        if j < p {
            assert(t[i] == s[i] && t[j] == s[j]);
        } else if j == p {
            assert(t[i] == s[i]);
            if i < p - 1 {
                assert(key_le(keys[s[i] as int], keys[s[p - 1] as int]));
                lemma_key_le_transitive(keys[s[i] as int], keys[s[p - 1] as int], keys[x as int]);
            }
        } else if i == p {
            assert(t[j] == s[j - 1]);
            lemma_key_le_total(keys[s[j - 1] as int], keys[x as int]);
        } else if i < p {
            assert(t[i] == s[i] && t[j] == s[j - 1]);
        } else {
            assert(t[i] == s[i - 1] && t[j] == s[j - 1]);
        }
    }
}

/// The indices that `sorted_order` lists: each of `0..n` exactly once.
pub open spec fn lists_each_once(s: Seq<nat>, n: nat) -> bool {
    &&& s.len() == n
    &&& forall|i: int| 0 <= i < s.len() ==> #[trigger] s[i] < n
    &&& forall|i: int, j: int| 0 <= i < j < s.len() ==> #[trigger] s[i] != #[trigger] s[j]
}

/// Sorting by birthday lists every record exactly once, in birthday order
/// (day, then month, then year), records with equal birthdays in table order.
pub proof fn law_sorted_order(n: nat, keys: Seq<(int, int, int)>)
    ensures
        lists_each_once(sorted_order(n, keys), n),
        in_birthday_order(sorted_order(n, keys), keys),
    decreases n,
{
    if n > 0 {
        let prev = sorted_order((n - 1) as nat, keys);
        let x = (n - 1) as nat;
        law_sorted_order(x, keys);
        lemma_insert_keeps_order(prev, x, keys);
        lemma_insert_position(prev, x, keys);
        let p = choose|p: int|
            0 <= p <= prev.len() && insert_by_key(prev, x, keys) == prev.insert(p, x) && (p > 0 ==> key_le(
                keys[prev[p - 1] as int],
                keys[x as int],
            )) && forall|q: int| p <= q < prev.len() ==> !key_le(keys[#[trigger] prev[q] as int], keys[x as int]);
        let t = prev.insert(p, x);
        assert forall|i: int| 0 <= i < t.len() implies #[trigger] t[i] < n by {
            if i < p {
                assert(t[i] == prev[i]);
            } else if i > p {
                assert(t[i] == prev[i - 1]);
            }
        }
        assert forall|i: int, j: int| 0 <= i < j < t.len() implies #[trigger] t[i] != #[trigger] t[j] by {
            if i < p && j < p {
                assert(t[i] == prev[i] && t[j] == prev[j]);
            } else if i < p && j == p {
                assert(t[i] == prev[i]);
            } else if i < p {
                assert(t[i] == prev[i] && t[j] == prev[j - 1]);
            } else if i == p {
                assert(t[j] == prev[j - 1]);
            } else {
                assert(t[i] == prev[i - 1] && t[j] == prev[j - 1]);
            }
        }
    }
}


/// The birth date of a record is a calendar date not after `today`.
pub proof fn lemma_birth_of_valid(r: Seq<Seq<char>>, lay: Layout, today: Date)
    ensures
        birth_of(r, lay, today) matches Some(d) ==> d.is_calendar_date() && date_le(d, today),
{
    match lay.dob {
        Some(i) => lemma_dob_calendar(r[i as int]),
        None => {},
    }
}

/// Every listed record has a birth date that is a calendar date, not after
/// `today`; every listed record but with `all` was born in the month asked
/// for.
pub proof fn law_listed_records(data: Seq<Seq<Seq<char>>>, lay: Layout, opts: ReportOptions, today: Date)
    ensures
        forall|k: int| 0 <= k < picked(data, lay, opts, today).len() ==> {
            let b = (#[trigger] picked(data, lay, opts, today)[k]).1;
            &&& b matches Some(d) ==> d.is_calendar_date() && date_le(d, today)
            &&& !opts.all ==> (b matches Some(d) && d.month == opts.month)
        },
    decreases data.len(),
{
    if data.len() > 0 {
        let d = data.drop_last();
        law_listed_records(d, lay, opts, today);
        let p = picked(d, lay, opts, today);
        let r = crate::report::padded(data.last(), lay.width);
        lemma_birth_of_valid(r, lay, today);
        let b = birth_of(r, lay, today);
        assert forall|k: int| 0 <= k < picked(data, lay, opts, today).len() implies {
            let b = (#[trigger] picked(data, lay, opts, today)[k]).1;
            &&& b matches Some(d) ==> d.is_calendar_date() && date_le(d, today)
            &&& !opts.all ==> (b matches Some(d) && d.month == opts.month)
        } by {
            if k < p.len() {
                assert(p.push((r, b))[k] == p[k]);
            }
        }
    }
}

/// With the records sorted, those without a birth date come after all
/// those with one.
pub proof fn law_undated_records_last(sel: Seq<(Seq<Seq<char>>, Option<Date>)>, opts: ReportOptions)
    requires
        !opts.no_sort,
        forall|k: int| 0 <= k < sel.len() ==> ((#[trigger] sel[k]).1 matches Some(d) ==> d.is_calendar_date()),
    ensures
        ({
            let order = listing_order(sel, opts);
            forall|i: int, j: int| 0 <= i < j < order.len() && (#[trigger] sel[order[i] as int]).1 is None ==> (#[trigger] sel[order[j] as int]).1 is None
        }),
{
    let keys = sel.map_values(|p: (Seq<Seq<char>>, Option<Date>)| birthday_key(p.1));
    law_sorted_order(sel.len(), keys);
    let order = listing_order(sel, opts);
    assert forall|i: int, j: int| 0 <= i < j < order.len() && (#[trigger] sel[order[i] as int]).1 is None implies (#[trigger] sel[order[j] as int]).1 is None by {
        assert(key_le(keys[order[i] as int], keys[order[j] as int]));
    }
}

/// The added columns come first, in the order Notes, Team, Generation; the
/// original columns follow in their order, the address column renamed
/// `Address` where addresses are rewritten.
pub proof fn law_header_layout(headers: Seq<Seq<char>>, lay: Layout, opts: ReportOptions)
    requires
        lay.in_bounds(),
        headers.len() == lay.width,
    ensures
        ({
            let out = output_headers(headers, lay, opts);
            let a = added_cells(lay, opts);
            &&& out.take(a as int) == one_if(checks(lay, opts), "Notes"@) + one_if(lay.department is Some, "Team"@)
                + one_if(lay.dob is Some, "Generation"@)
            &&& forall|j: int| 0 <= j < lay.width ==> #[trigger] out[a + j] == if splits(lay, opts) && j == lay.address->0 {
                "Address"@
            } else {
                headers[j]
            }
        }),
{
    let out = output_headers(headers, lay, opts);
    let a = added_cells(lay, opts);
    let renamed = if splits(lay, opts) {
        headers.update(lay.address->0 as int, "Address"@)
    } else {
        headers
    };
    let extra = one_if(checks(lay, opts), "Notes"@) + one_if(lay.department is Some, "Team"@)
        + one_if(lay.dob is Some, "Generation"@);
    assert((renamed + extra).skip(lay.width as int) =~= extra);
    assert((renamed + extra).take(lay.width as int) =~= renamed);
    assert(out =~= extra + renamed);
    assert(out.take(a as int) =~= extra);
}

/// A data row keeps the record's cells, in their order, after the added
/// cells; where addresses are rewritten, the address cell holds the
/// rewritten address.
pub proof fn law_row_layout(
    r: Seq<Seq<char>>,
    born: Option<Date>,
    lay: Layout,
    opts: ReportOptions,
    today: Date,
    country_p: Seq<char>,
    street_p: Seq<char>,
)
    requires
        lay.in_bounds(),
        r.len() == lay.width,
    ensures
        ({
            let out = output_row(r, born, lay, opts, today, country_p, street_p);
            let a = added_cells(lay, opts);
            forall|j: int| 0 <= j < lay.width ==> #[trigger] out[a + j] == if splits(lay, opts) && j == lay.address->0 {
                address_lines(country_p, r[j], cell_or_empty(r, lay.zip), cell_or_empty(r, lay.city))
            } else {
                r[j]
            }
        }),
{
    let out = output_row(r, born, lay, opts, today, country_p, street_p);
    let a = added_cells(lay, opts);
    assert forall|j: int| 0 <= j < lay.width implies #[trigger] out[a + j] == if splits(lay, opts) && j == lay.address->0 {
        address_lines(country_p, r[j], cell_or_empty(r, lay.zip), cell_or_empty(r, lay.city))
    } else {
        r[j]
    } by {
    }
}

/// Nobody is younger than zero on a day not before their birth.
pub proof fn law_age_not_negative(born: Date, today: Date)
    requires
        date_le(born, today),
    ensures
        age_on(born, today) >= 0,
{
}


/// The sum of the counts of a summary.
pub open spec fn total_count(entries: Seq<(Seq<char>, nat)>) -> nat
    decreases entries.len(),
{
    if entries.len() == 0 {
        0
    } else {
        total_count(entries.drop_last()) + entries.last().1
    }
}

/// The sum over `labels` of the number of notes of each.
pub open spec fn sum_of_counts(labels: Seq<Seq<char>>, notes: Seq<Seq<char>>) -> nat
    decreases labels.len(),
{
    if labels.len() == 0 {
        0
    } else {
        sum_of_counts(labels.drop_last(), notes) + label_count(notes, labels.last())
    }
}

/// The number of members of `labels` equal to `x`.
pub open spec fn occurrences(labels: Seq<Seq<char>>, x: Seq<char>) -> nat
    decreases labels.len(),
{
    if labels.len() == 0 {
        0
    } else {
        occurrences(labels.drop_last(), x) + if labels.last() == x {
            1nat
        } else {
            0nat
        }
    }
}

pub open spec fn distinct(labels: Seq<Seq<char>>) -> bool {
    forall|i: int, j: int| 0 <= i < j < labels.len() ==> #[trigger] labels[i] != #[trigger] labels[j]
}

proof fn lemma_occurrences(labels: Seq<Seq<char>>, x: Seq<char>)
    requires
        distinct(labels),
    ensures
        occurrences(labels, x) == if labels.contains(x) {
            1nat
        } else {
            0nat
        },
    decreases labels.len(),
{
    if labels.len() > 0 {
        let d = labels.drop_last();
        assert forall|i: int, j: int| 0 <= i < j < d.len() implies #[trigger] d[i] != #[trigger] d[j] by {
            assert(d[i] == labels[i] && d[j] == labels[j]);
        }
        lemma_occurrences(d, x);
        if labels.last() == x {
            assert(labels[labels.len() - 1] == x);
            if d.contains(x) {
                let i = choose|i: int| 0 <= i < d.len() && d[i] == x;
                assert(labels[i] == x);
            }
        } else {
            if labels.contains(x) {
                let i = choose|i: int| 0 <= i < labels.len() && labels[i] == x;
                assert(i < d.len());
                assert(d[i] == x);
            }
            if d.contains(x) {
                let i = choose|i: int| 0 <= i < d.len() && d[i] == x;
                assert(labels[i] == x);
            }
        }
    }
}

proof fn lemma_sum_step(labels: Seq<Seq<char>>, notes: Seq<Seq<char>>)
    requires
        notes.len() > 0,
    ensures
        sum_of_counts(labels, notes) == sum_of_counts(labels, notes.drop_last()) + occurrences(
            labels,
            note_label(notes.last()),
        ),
    decreases labels.len(),
{
    if labels.len() > 0 {
        lemma_sum_step(labels.drop_last(), notes);
    }
}

proof fn lemma_sum_of_counts(labels: Seq<Seq<char>>, notes: Seq<Seq<char>>)
    requires
        distinct(labels),
        forall|k: int| 0 <= k < notes.len() ==> labels.contains(note_label(#[trigger] notes[k])),
    ensures
        sum_of_counts(labels, notes) == notes.len(),
    decreases notes.len(),
{
    if notes.len() == 0 {
        lemma_sum_empty(labels, notes);
    } else {
        let d = notes.drop_last();
        assert forall|k: int| 0 <= k < d.len() implies labels.contains(note_label(#[trigger] d[k])) by {
            assert(d[k] == notes[k]);
        }
        lemma_sum_of_counts(labels, d);
        lemma_sum_step(labels, notes);
        assert(notes.last() == notes[notes.len() - 1]);
        lemma_occurrences(labels, note_label(notes.last()));
    }
}

proof fn lemma_sum_empty(labels: Seq<Seq<char>>, notes: Seq<Seq<char>>)
    requires
        notes.len() == 0,
    ensures
        sum_of_counts(labels, notes) == 0,
    decreases labels.len(),
{
    if labels.len() > 0 {
        lemma_sum_empty(labels.drop_last(), notes);
    }
}

proof fn lemma_total_is_sum(entries: Seq<(Seq<char>, nat)>, notes: Seq<Seq<char>>)
    requires
        forall|i: int| 0 <= i < entries.len() ==> (#[trigger] entries[i]).1 == label_count(notes, entries[i].0),
    ensures
        total_count(entries) == sum_of_counts(entries.map_values(|e: (Seq<char>, nat)| e.0), notes),
    decreases entries.len(),
{
    if entries.len() > 0 {
        let d = entries.drop_last();
        assert forall|i: int| 0 <= i < d.len() implies (#[trigger] d[i]).1 == label_count(notes, d[i].0) by {
            assert(d[i] == entries[i]);
        }
        lemma_total_is_sum(d, notes);
        let ls = entries.map_values(|e: (Seq<char>, nat)| e.0);
        assert(ls.drop_last() =~= d.map_values(|e: (Seq<char>, nat)| e.0));
        assert(entries.last() == entries[entries.len() - 1]);
    }
}

/// The counts of a summary add up to the number of notes.
pub proof fn law_summary_total(entries: Seq<(Seq<char>, nat)>, notes: Seq<Seq<char>>)
    requires
        is_summary_of(entries, notes),
    ensures
        total_count(entries) == notes.len(),
{
    let ls = entries.map_values(|e: (Seq<char>, nat)| e.0);
    assert forall|i: int, j: int| 0 <= i < j < ls.len() implies #[trigger] ls[i] != #[trigger] ls[j] by {
        assert(text_lt(entries[i].0, entries[j].0));
        if ls[i] == ls[j] {
            lemma_text_lt_irreflexive(ls[i]);
        }
    }
    assert forall|k: int| 0 <= k < notes.len() implies ls.contains(note_label(#[trigger] notes[k])) by {
        let i = choose|i: int| 0 <= i < entries.len() && (#[trigger] entries[i]).0 == note_label(notes[k]);
        assert(ls[i] == note_label(notes[k]));
    }
    lemma_sum_of_counts(ls, notes);
    lemma_total_is_sum(entries, notes);
}


/// Generation is "Yes" exactly for those aged 0 to 15 on `today`.
pub proof fn law_generation(born: Date, today: Date)
    requires
        date_le(born, today),
    ensures
        (generation_flag(Some(born), today) == "Yes"@) <==> (0 <= age_on(born, today) <= 15),
        age_on(born, today) > 15 ==> generation_flag(Some(born), today) == "No"@,
        generation_flag(None, today) == "Unknown"@,
{
    reveal_strlit("Yes");
    reveal_strlit("No");
    assert("Yes"@ != "No"@) by {
        assert("Yes"@.len() != "No"@.len());
    }
}

/// Text prepared for parsing does not begin with a byte-order mark.
pub proof fn law_no_leading_bom(s: Seq<char>)
    ensures
        without_boms(s).len() > 0 ==> without_boms(s)[0] != '\u{feff}',
    decreases s.len(),
{
    if s.len() > 0 && s[0] == '\u{feff}' {
        law_no_leading_bom(s.drop_first());
    }
}


/// An address that names no recognised country gets no note about its
/// country: neither an invalid German postal code nor a country mismatch.
pub proof fn law_no_country_no_country_notes(
    country_p: Seq<char>,
    street_p: Seq<char>,
    raw: Seq<char>,
    zip_raw: Seq<char>,
    city_raw: Seq<char>,
)
    requires
        country_of(country_p, raw).len() == 0,
    ensures
        !address_issues(country_p, street_p, raw, zip_raw, city_raw).contains(AddressIssue::InvalidPostalCode),
        !address_issues(country_p, street_p, raw, zip_raw, city_raw).contains(AddressIssue::CountryMismatch),
{
    reveal_strlit("Germany");
    assert("Germany"@.len() == 7);
    let issues = address_issues(country_p, street_p, raw, zip_raw, city_raw);
    assert forall|i: int| 0 <= i < issues.len() implies #[trigger] issues[i] != AddressIssue::InvalidPostalCode
        && issues[i] != AddressIssue::CountryMismatch by {
    }
}

/// What is told before the records are processed, that the address steps
/// are skipped, is what the finished report states.
pub proof fn law_address_steps_told_before(
    records: Seq<Seq<Seq<char>>>,
    opts: ReportOptions,
    today: Date,
    country_p: Seq<char>,
    street_p: Seq<char>,
)
    ensures
        report_of(records, opts, today, country_p, street_p) matches Ok(v)
            ==> v.missing_address_column == skips_address_steps_of(records, opts),
{
}

/// Someone born on `born` has had their `n`-th birthday by `today`: the day
/// `born.month`-`born.day` of year `born.year + n` is not after `today`,
/// comparing year, then month, then day.
pub open spec fn had_birthday(born: Date, today: Date, n: int) -> bool {
    let y = born.year + n;
    ||| y < today.year
    ||| y == today.year && born.month < today.month
    ||| y == today.year && born.month == today.month && born.day <= today.day
}

/// The age on `today` is the number of birthdays had by then: the birthday
/// of that number is had, the next one is not yet.
pub proof fn law_age_counts_birthdays(born: Date, today: Date)
    ensures
        had_birthday(born, today, age_on(born, today)),
        !had_birthday(born, today, age_on(born, today) + 1),
{
}

/// A country mismatch is reported only for an address naming a recognised
/// country other than Germany, with a German postal code and a Berlin city;
/// and for every such address.
pub proof fn law_country_mismatch_only_abroad(
    country_p: Seq<char>,
    street_p: Seq<char>,
    raw: Seq<char>,
    zip_raw: Seq<char>,
    city_raw: Seq<char>,
)
    ensures
        address_issues(country_p, street_p, raw, zip_raw, city_raw).contains(AddressIssue::CountryMismatch)
            <==> {
            &&& is_plz(trim(zip_raw))
            &&& country_of(country_p, raw).len() > 0
            &&& country_of(country_p, raw) != "Germany"@
            &&& contains(lowercase(trim(city_raw)), "berlin"@)
        },
{
    let issues = address_issues(country_p, street_p, raw, zip_raw, city_raw);
    let zip = trim(zip_raw);
    let city = trim(city_raw);
    let country = country_of(country_p, raw);
    let cond = is_plz(zip) && country.len() > 0 && country != "Germany"@ && contains(lowercase(city), "berlin"@);
    let street = crate::address::street_of(country_p, raw, zip, city);
    let locality = crate::address::locality_of(zip, city);
    let first = if street.len() == 0 && locality.len() == 0 {
        seq![AddressIssue::NoAddress]
    } else {
        (if street.len() == 0 {
            seq![AddressIssue::NoStreet]
        } else {
            crate::address::when(
                !crate::text::has_ascii_digit(street) && crate::pattern::regex_is_match(street_p, street),
                AddressIssue::MissingHouseNumber,
            )
        }) + crate::address::when(zip.len() == 0, AddressIssue::MissingPostalCode) + crate::address::when(
            city.len() == 0,
            AddressIssue::MissingCity,
        )
    };
    let a = first + crate::address::when(zip.len() > 0 && country == "Germany"@ && !is_plz(zip), AddressIssue::InvalidPostalCode);
    let b = crate::address::when(cond, AddressIssue::CountryMismatch);
    let c = crate::address::when(
        contains(lowercase(raw), "gemany"@) || contains(lowercase(city), "gemany"@),
        AddressIssue::CityTypo,
    );
    assert(issues == a + b + c);
    assert forall|k: int| 0 <= k < a.len() implies #[trigger] a[k] != AddressIssue::CountryMismatch by {
        if k < first.len() {
            assert(a[k] == first[k]);
        }
    }
    if cond {
        assert(issues[a.len() as int] == AddressIssue::CountryMismatch);
    } else {
        assert forall|k: int| 0 <= k < issues.len() implies #[trigger] issues[k] != AddressIssue::CountryMismatch by {
            if k < a.len() {
                assert(issues[k] == a[k]);
            } else {
                assert(issues[k] == c[k - a.len()]);
            }
        }
    }
}

/// The country line depends on the country matched in the address only up
/// to letter case.
pub proof fn law_country_ignores_case(country_p: Seq<char>, raw1: Seq<char>, raw2: Seq<char>)
    requires
        regex_find(country_p, raw1) is Some,
        regex_find(country_p, raw2) is Some,
        lowercase(regex_find(country_p, raw1)->Some_0) == lowercase(regex_find(country_p, raw2)->Some_0),
    ensures
        country_of(country_p, raw1) == country_of(country_p, raw2),
{
}

/// Germany matched in any letter case gives the country line `Germany`.
pub proof fn law_germany_in_any_case(country_p: Seq<char>, raw: Seq<char>)
    requires
        regex_find(country_p, raw) is Some,
        lowercase(regex_find(country_p, raw)->Some_0) == "germany"@,
    ensures
        country_of(country_p, raw) == "Germany"@,
{
    reveal_strlit("germany");
    reveal_strlit("Germany");
    assert(country_of(country_p, raw) =~= "Germany"@);
}

/// Every data record with a birth date (a calendar date not after `today`)
/// in the month asked for is listed, and with `all` every record is.
pub proof fn law_month_records_listed(data: Seq<Seq<Seq<char>>>, lay: Layout, opts: ReportOptions, today: Date, j: int)
    requires
        0 <= j < data.len(),
    ensures
        ({
            let r = padded(data[j], lay.width);
            let b = birth_of(r, lay, today);
            (opts.all || (b matches Some(d) && d.month == opts.month)) ==> picked(data, lay, opts, today).contains((r, b))
        }),
    decreases data.len(),
{
    let r = padded(data[j], lay.width);
    let b = birth_of(r, lay, today);
    let d = data.drop_last();
    let p = picked(d, lay, opts, today);
    if j < data.len() - 1 {
        assert(d[j] == data[j]);
        law_month_records_listed(d, lay, opts, today, j);
        if opts.all || (b matches Some(x) && x.month == opts.month) {
            let k = choose|k: int| 0 <= k < p.len() && p[k] == (r, b);
            assert(picked(data, lay, opts, today) == p || picked(data, lay, opts, today) == p.push((padded(data.last(), lay.width), birth_of(padded(data.last(), lay.width), lay, today))));
            assert(p.push((padded(data.last(), lay.width), birth_of(padded(data.last(), lay.width), lay, today)))[k] == (r, b));
        }
    } else {
        assert(data.last() == data[j]);
        if opts.all || (b matches Some(x) && x.month == opts.month) {
            assert(picked(data, lay, opts, today) == p.push((r, b)));
            assert(p.push((r, b))[p.len() as int] == (r, b));
        }
    }
}

} // verus!
