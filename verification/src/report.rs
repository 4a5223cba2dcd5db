//! The monthly report: from the records of the contacts table to the output
//! table, with address notes, Team and Generation columns, sorted by
//! birthday.

use vstd::prelude::*;
use crate::address::{AddressRules, address_lines, address_notes};
use crate::columns::{Columns, Layout, find_columns, layout_of};
use crate::csvio::{all_of_width, csv_encoding, csv_records, read_records, records_view, write_records};
use crate::summary::{entry_views, is_summary_of, summarize};
use crate::date::{Date, age, age_on, birthday_key, date_le, date_not_after, dob, dob_spec};
use crate::text::{chars_of, decimal, push_decimal, join, join_strings, string_views, strip_chars, trim};

verus! {

/// What the user asked for.
pub struct ReportOptions {
    /// The month whose birthdays are listed.
    pub month: u32,
    /// List every record, not one month's.
    pub all: bool,
    /// Keep the table's order.
    pub no_sort: bool,
    /// Skip the address checks.
    pub no_check: bool,
    /// Keep addresses as written.
    pub no_split: bool,
}

/// A record with some cell that is not blank.
pub open spec fn is_nonblank(r: Seq<Seq<char>>) -> bool {
    exists|i: int| 0 <= i < r.len() && trim(#[trigger] r[i]).len() > 0
}

/// The records that are not blank, in order.
pub open spec fn nonblank_records(recs: Seq<Seq<Seq<char>>>) -> Seq<Seq<Seq<char>>>
    decreases recs.len(),
{
    if recs.len() == 0 {
        recs
    } else {
        let p = nonblank_records(recs.drop_last());
        if is_nonblank(recs.last()) {
            p.push(recs.last())
        } else {
            p
        }
    }
}

/// `r` filled up with empty cells to `width` cells.
pub open spec fn padded(r: Seq<Seq<char>>, width: nat) -> Seq<Seq<char>> {
    r + Seq::new((width - r.len()) as nat, |_i: int| Seq::<char>::empty())
}

/// The birth date of a record: a valid date that is not after `today`.
pub open spec fn birth_of(r: Seq<Seq<char>>, lay: Layout, today: Date) -> Option<Date> {
    match lay.dob {
        Some(i) => match dob_spec(r[i as int]) {
            Some(d) => if date_le(d, today) {
                Some(d)
            } else {
                None
            },
            None => None,
        },
        None => None,
    }
}

/// The record is listed: every record with `all`, else those born in the
/// month asked for.
pub open spec fn wanted(born: Option<Date>, opts: ReportOptions) -> bool {
    opts.all || (born matches Some(d) && d.month == opts.month)
}

/// The first data record at or after `i` with more cells than the header.
pub open spec fn first_overlong_from(data: Seq<Seq<Seq<char>>>, width: nat, i: nat) -> Option<nat>
    decreases data.len() - i,
{
    if i >= data.len() {
        None
    } else if data[i as int].len() > width {
        Some(i)
    } else {
        first_overlong_from(data, width, i + 1)
    }
}

/// The listed records, filled up to the header's width, with their birth
/// dates, in table order.
pub open spec fn picked(data: Seq<Seq<Seq<char>>>, lay: Layout, opts: ReportOptions, today: Date) -> Seq<(Seq<Seq<char>>, Option<Date>)>
    decreases data.len(),
{
    if data.len() == 0 {
        Seq::empty()
    } else {
        let p = picked(data.drop_last(), lay, opts, today);
        let r = padded(data.last(), lay.width);
        let b = birth_of(r, lay, today);
        if wanted(b, opts) {
            p.push((r, b))
        } else {
            p
        }
    }
}

/// The number of data records without a usable birth date.
pub open spec fn invalid_count(data: Seq<Seq<Seq<char>>>, lay: Layout, today: Date) -> nat
    decreases data.len(),
{
    if data.len() == 0 {
        0
    } else {
        invalid_count(data.drop_last(), lay, today) + if lay.dob is Some && birth_of(
            padded(data.last(), lay.width),
            lay,
            today,
        ) is None {
            1nat
        } else {
            0nat
        }
    }
}

/// `s` rotated left by `k`: the part from `k` on comes first.
pub open spec fn rotate(s: Seq<Seq<char>>, k: nat) -> Seq<Seq<char>> {
    s.skip(k as int) + s.take(k as int)
}

pub open spec fn one_if(b: bool, x: Seq<char>) -> Seq<Seq<char>> {
    if b {
        seq![x]
    } else {
        Seq::empty()
    }
}

/// Addresses are checked.
pub open spec fn checks(lay: Layout, opts: ReportOptions) -> bool {
    !opts.no_check && lay.address is Some
}

/// Addresses are rewritten as lines.
pub open spec fn splits(lay: Layout, opts: ReportOptions) -> bool {
    !opts.no_split && lay.address is Some
}

/// The cell of column `i`, or an empty one where there is no such column.
pub open spec fn cell_or_empty(r: Seq<Seq<char>>, i: Option<nat>) -> Seq<char> {
    match i {
        Some(i) => r[i as int],
        None => Seq::empty(),
    }
}

/// The header row of the output: the address column renamed, Notes, Team
/// and Generation added, and these added columns moved to the front.
pub open spec fn output_headers(headers: Seq<Seq<char>>, lay: Layout, opts: ReportOptions) -> Seq<Seq<char>> {
    let renamed = if splits(lay, opts) {
        headers.update(lay.address->0 as int, "Address"@)
    } else {
        headers
    };
    rotate(
        renamed + one_if(checks(lay, opts), "Notes"@) + one_if(lay.department is Some, "Team"@)
            + one_if(lay.dob is Some, "Generation"@),
        lay.width,
    )
}

/// Team: the department cell is filled in.
pub open spec fn team_flag(dept: Seq<char>) -> Seq<char> {
    if trim(dept).len() == 0 {
        "No"@
    } else {
        "Yes"@
    }
}

/// Generation: 15 years old or younger on `today`.
pub open spec fn generation_flag(born: Option<Date>, today: Date) -> Seq<char> {
    match born {
        Some(b) => if age_on(b, today) <= 15 {
            "Yes"@
        } else {
            "No"@
        },
        None => "Unknown"@,
    }
}

/// The address notes of a record, where addresses are checked.
pub open spec fn row_notes(
    r: Seq<Seq<char>>,
    lay: Layout,
    opts: ReportOptions,
    country_p: Seq<char>,
    street_p: Seq<char>,
) -> Seq<Seq<char>> {
    if checks(lay, opts) {
        let a = lay.address->0 as int;
        address_notes(country_p, street_p, r[a], cell_or_empty(r, lay.zip), cell_or_empty(r, lay.city))
    } else {
        Seq::empty()
    }
}

/// An output row: the address rewritten, Notes, Team and Generation added,
/// and these added cells moved to the front.
pub open spec fn output_row(
    r: Seq<Seq<char>>,
    born: Option<Date>,
    lay: Layout,
    opts: ReportOptions,
    today: Date,
    country_p: Seq<char>,
    street_p: Seq<char>,
) -> Seq<Seq<char>> {
    let a = lay.address->0 as int;
    let rewritten = if splits(lay, opts) {
        r.update(a, address_lines(country_p, r[a], cell_or_empty(r, lay.zip), cell_or_empty(r, lay.city)))
    } else {
        r
    };
    let team = match lay.department {
        Some(i) => seq![team_flag(r[i as int])],
        None => Seq::empty(),
    };
    rotate(
        rewritten + one_if(checks(lay, opts), join(row_notes(r, lay, opts, country_p, street_p), "; "@))
            + team + one_if(lay.dob is Some, generation_flag(born, today)),
        lay.width,
    )
}

/// Birthday order of two keys: `a` does not come after `b`.
pub open spec fn key_le(a: (int, int, int), b: (int, int, int)) -> bool {
    a.0 < b.0 || (a.0 == b.0 && (a.1 < b.1 || (a.1 == b.1 && a.2 <= b.2)))
}

/// `x` inserted into `s` after every index whose key does not come after
/// `x`'s.
pub open spec fn insert_by_key(s: Seq<nat>, x: nat, keys: Seq<(int, int, int)>) -> Seq<nat>
    decreases s.len(),
{
    if s.len() == 0 || key_le(keys[s.last() as int], keys[x as int]) {
        s.push(x)
    } else {
        insert_by_key(s.drop_last(), x, keys).push(s.last())
    }
}

/// The indices `0..n` in stable order of their keys.
pub open spec fn sorted_order(n: nat, keys: Seq<(int, int, int)>) -> Seq<nat>
    decreases n,
{
    if n == 0 {
        Seq::empty()
    } else {
        insert_by_key(sorted_order((n - 1) as nat, keys), (n - 1) as nat, keys)
    }
}

/// The order in which the listed records are written.
pub open spec fn listing_order(sel: Seq<(Seq<Seq<char>>, Option<Date>)>, opts: ReportOptions) -> Seq<nat> {
    if opts.no_sort {
        Seq::new(sel.len(), |i: int| i as nat)
    } else {
        sorted_order(sel.len(), sel.map_values(|p: (Seq<Seq<char>>, Option<Date>)| birthday_key(p.1)))
    }
}


/// A copy of a record.
fn clone_row(r: &Vec<String>) -> (c: Vec<String>)
    ensures
        string_views(c@) == string_views(r@),
{
    let mut c: Vec<String> = Vec::new();
    let mut i: usize = 0;
    while i < r.len()
        invariant
            i <= r@.len(),
            string_views(c@) == string_views(r@).take(i as int),
        decreases r@.len() - i,
    {
        let ghost before = c@;
        c.push(r[i].clone());
        assert(string_views(c@) =~= string_views(before).push(r@[i as int]@));
        i = i + 1;
        assert(string_views(c@) =~= string_views(r@).take(i as int));
    }
    assert(string_views(r@).take(r@.len() as int) =~= string_views(r@));
    c
}

/// Some cell of the record is not blank.
fn has_nonblank_cell(r: &Vec<String>) -> (b: bool)
    ensures
        b == is_nonblank(string_views(r@)),
{
    let mut i: usize = 0;
    while i < r.len()
        invariant
            i <= r@.len(),
            forall|j: int| 0 <= j < i ==> trim(#[trigger] string_views(r@)[j]).len() == 0,
        decreases r@.len() - i,
    {
        let t = strip_chars(chars_of(r[i].as_str()).as_slice(), false);
        assert(string_views(r@)[i as int] == r@[i as int]@);
        if t.len() > 0 {
            return true;
        }
        i = i + 1;
    }
    false
}

/// The records that are not blank, in order.
fn keep_nonblank(records: &Vec<Vec<String>>) -> (kept: Vec<Vec<String>>)
    ensures
        records_view(kept@) == nonblank_records(records_view(records@)),
{
    let mut kept: Vec<Vec<String>> = Vec::new();
    let mut i: usize = 0;
    while i < records.len()
        invariant
            i <= records@.len(),
            records_view(kept@) == nonblank_records(records_view(records@).take(i as int)),
        decreases records@.len() - i,
    {
        let ghost before = kept@;
        let ghost prefix = records_view(records@).take(i as int);
        assert(records_view(records@).take(i + 1).drop_last() =~= prefix);
        assert(records_view(records@).take(i + 1).last() == string_views(records@[i as int]@));
        if has_nonblank_cell(&records[i]) {
            kept.push(clone_row(&records[i]));
            assert(records_view(kept@) =~= records_view(before).push(string_views(records@[i as int]@)));
        }
        i = i + 1;
    }
    assert(records_view(records@).take(records@.len() as int) =~= records_view(records@));
    kept
}

/// The record filled up with empty cells to `width` cells.
fn pad_row(r: &Vec<String>, width: usize) -> (p: Vec<String>)
    requires
        r@.len() <= width,
    ensures
        string_views(p@) == padded(string_views(r@), width as nat),
        p@.len() == width,
{
    let mut p = clone_row(r);
    assert(p@.len() == string_views(p@).len());
    assert(string_views(r@) + Seq::new(0, |_i: int| Seq::<char>::empty()) =~= string_views(r@));
    while p.len() < width
        invariant
            r@.len() <= p@.len() <= width,
            string_views(p@) == string_views(r@) + Seq::new(
                (p@.len() - r@.len()) as nat,
                |_i: int| Seq::<char>::empty(),
            ),
        decreases width - p@.len(),
    {
        let ghost before = p@;
        p.push(String::new());
        assert(string_views(p@) =~= string_views(before).push(Seq::<char>::empty()));
        assert(string_views(p@) =~= string_views(r@) + Seq::new(
            (p@.len() - r@.len()) as nat,
            |_i: int| Seq::<char>::empty(),
        ));
    }
    p
}

/// The cells rotated left by `k`.
fn rotate_cells(v: &Vec<String>, k: usize) -> (r: Vec<String>)
    requires
        k <= v@.len(),
    ensures
        string_views(r@) == rotate(string_views(v@), k as nat),
{
    let mut r: Vec<String> = Vec::new();
    let mut i: usize = k;
    while i < v.len()
        invariant
            k <= i <= v@.len(),
            string_views(r@) == string_views(v@).subrange(k as int, i as int),
        decreases v@.len() - i,
    {
        let ghost before = r@;
        r.push(v[i].clone());
        assert(string_views(r@) =~= string_views(before).push(v@[i as int]@));
        assert(string_views(r@) =~= string_views(v@).subrange(k as int, i + 1));
        i = i + 1;
    }
    assert(string_views(v@).skip(k as int) =~= string_views(v@).subrange(k as int, v@.len() as int));
    assert(string_views(v@).take(0) =~= Seq::<Seq<char>>::empty());
    let mut j: usize = 0;
    while j < k
        invariant
            j <= k <= v@.len(),
            string_views(r@) == string_views(v@).skip(k as int) + string_views(v@).take(j as int),
        decreases k - j,
    {
        let ghost before = r@;
        r.push(v[j].clone());
        assert(string_views(r@) =~= string_views(before).push(v@[j as int]@));
        assert(string_views(r@) =~= string_views(v@).skip(k as int) + string_views(v@).take(j + 1));
        j = j + 1;
    }
    r
}

/// The birth date of a filled-up record: a valid date not after `today`.
fn birth_of_row(r: &Vec<String>, cols: &Columns, today: Date, Ghost(lay): Ghost<Layout>) -> (b: Option<Date>)
    requires
        cols.matches_layout(lay),
        lay.in_bounds(),
        r@.len() == lay.width,
    ensures
        b == birth_of(string_views(r@), lay, today),
        b matches Some(d) ==> d.is_calendar_date(),
{
    match cols.dob {
        Some(i) => {
            assert(string_views(r@)[i as int] == r@[i as int]@);
            match dob(r[i].as_str()) {
                Some(d) => if date_not_after(&d, &today) {
                    Some(d)
                } else {
                    None
                },
                None => None,
            }
        },
        None => None,
    }
}


/// Indices as natural numbers.
pub open spec fn idx_views(v: Seq<usize>) -> Seq<nat> {
    v.map_values(|i: usize| i as nat)
}

/// Birthday keys as integers.
pub open spec fn key_views(v: Seq<(u32, u32, i32)>) -> Seq<(int, int, int)> {
    v.map_values(|k: (u32, u32, i32)| (k.0 as int, k.1 as int, k.2 as int))
}

fn key_not_after(a: (u32, u32, i32), b: (u32, u32, i32)) -> (r: bool)
    ensures
        r == key_le((a.0 as int, a.1 as int, a.2 as int), (b.0 as int, b.1 as int, b.2 as int)),
{
    a.0 < b.0 || (a.0 == b.0 && (a.1 < b.1 || (a.1 == b.1 && a.2 <= b.2)))
}

/// The indices of `keys` in stable order of the keys.
fn sort_indices(keys: &Vec<(u32, u32, i32)>) -> (order: Vec<usize>)
    ensures
        idx_views(order@) == sorted_order(keys@.len(), key_views(keys@)),
{
    let ghost kv = key_views(keys@);
    let mut order: Vec<usize> = Vec::new();
    let mut x: usize = 0;
    while x < keys.len()
        invariant
            kv == key_views(keys@),
            x <= keys@.len(),
            order@.len() == x,
            forall|t: int| 0 <= t < order@.len() ==> order@[t] < x,
            idx_views(order@) == sorted_order(x as nat, kv),
        decreases keys@.len() - x,
    {
        let ghost s = idx_views(order@);
        let mut j: usize = order.len();
        assert(s.take(j as int) =~= s);
        assert(s.skip(j as int) =~= Seq::<nat>::empty());
        while j > 0 && !key_not_after(keys[order[j - 1]], keys[x])
            invariant
                kv == key_views(keys@),
                x < keys@.len(),
                s == idx_views(order@),
                forall|t: int| 0 <= t < order@.len() ==> order@[t] < x,
                j <= order@.len(),
                insert_by_key(s, x as nat, kv) == insert_by_key(s.take(j as int), x as nat, kv) + s.skip(
                    j as int,
                ),
            decreases j,
        {
            let ghost t = s.take(j as int);
            assert(t.last() == s[j - 1]);
            assert(t.drop_last() =~= s.take(j - 1));
            assert(kv[s[j - 1] as int] == (keys@[order@[j - 1] as int].0 as int, keys@[order@[j
                - 1] as int].1 as int, keys@[order@[j - 1] as int].2 as int));
            assert(insert_by_key(t, x as nat, kv) == insert_by_key(s.take(j - 1), x as nat, kv).push(
                s[j - 1],
            ));
            assert(s.skip(j - 1) =~= seq![s[j - 1]] + s.skip(j as int));
            assert(insert_by_key(s.take(j - 1), x as nat, kv).push(s[j - 1]) + s.skip(j as int)
                =~= insert_by_key(s.take(j - 1), x as nat, kv) + s.skip(j - 1));
            j = j - 1;
        }
        proof {
            let t = s.take(j as int);
            if j > 0 {
                assert(t.last() == s[j - 1]);
            }
            assert(insert_by_key(t, x as nat, kv) == t.push(x as nat));
            assert(t.push(x as nat) + s.skip(j as int) =~= s.insert(j as int, x as nat));
        }
        order.insert(j, x);
        assert(idx_views(order@) =~= s.insert(j as int, x as nat));
        x = x + 1;
    }
    order
}


/// The header row of the output.
fn output_header_row(headers: &Vec<String>, cols: &Columns, opts: &ReportOptions, Ghost(lay): Ghost<Layout>) -> (out: Vec<String>)
    requires
        cols.matches_layout(lay),
        lay.in_bounds(),
        headers@.len() == lay.width,
    ensures
        string_views(out@) == output_headers(string_views(headers@), lay, *opts),
{
    let mut h = clone_row(headers);
    assert(h@.len() == string_views(h@).len());
    let ghost hv = string_views(headers@);
    let split = !opts.no_split && cols.address.is_some();
    let check = !opts.no_check && cols.address.is_some();
    if split {
        match cols.address {
            Some(a) => {
                h.set(a, String::from_str("Address"));
                assert(string_views(h@) =~= hv.update(a as int, "Address"@));
            },
            None => {},
        }
    }
    let ghost renamed = string_views(h@);
    if check {
        h.push(String::from_str("Notes"));
    }
    assert(string_views(h@) =~= renamed + one_if(checks(lay, *opts), "Notes"@));
    let ghost with_notes = string_views(h@);
    if cols.department.is_some() {
        h.push(String::from_str("Team"));
    }
    assert(string_views(h@) =~= with_notes + one_if(lay.department is Some, "Team"@));
    let ghost with_team = string_views(h@);
    if cols.dob.is_some() {
        h.push(String::from_str("Generation"));
    }
    assert(string_views(h@) =~= with_team + one_if(lay.dob is Some, "Generation"@));
    rotate_cells(&h, headers.len())
}

/// The Team flag of a department cell.
fn team_text(dept: &String) -> (t: String)
    ensures
        t@ == team_flag(dept@),
{
    let v = strip_chars(chars_of(dept.as_str()).as_slice(), false);
    if v.len() == 0 {
        String::from_str("No")
    } else {
        String::from_str("Yes")
    }
}

/// The Generation flag of a birth date.
fn generation_text(born: Option<Date>, today: Date) -> (t: String)
    requires
        today.is_calendar_date(),
        born matches Some(b) ==> b.is_calendar_date(),
    ensures
        t@ == generation_flag(born, today),
{
    match born {
        Some(b) => if age(b, today) <= 15 {
            String::from_str("Yes")
        } else {
            String::from_str("No")
        },
        None => String::from_str("Unknown"),
    }
}

/// An output row and the address notes of the record.
fn output_record(
    rules: &AddressRules,
    cols: &Columns,
    opts: &ReportOptions,
    today: Date,
    r: &Vec<String>,
    born: Option<Date>,
    Ghost(lay): Ghost<Layout>,
) -> (out: (Vec<String>, Vec<String>))
    requires
        cols.matches_layout(lay),
        lay.in_bounds(),
        r@.len() == lay.width,
        today.is_calendar_date(),
        born matches Some(b) ==> b.is_calendar_date(),
    ensures
        string_views(out.0@) == output_row(
            string_views(r@),
            born,
            lay,
            *opts,
            today,
            rules.country@,
            rules.street@,
        ),
        string_views(out.1@) == row_notes(string_views(r@), lay, *opts, rules.country@, rules.street@),
{
    let ghost rv = string_views(r@);
    let mut row = clone_row(r);
    assert(row@.len() == string_views(row@).len());
    let mut notes: Vec<String> = Vec::new();
    let check = !opts.no_check && cols.address.is_some();
    let split = !opts.no_split && cols.address.is_some();
    let team = match cols.department {
        Some(i) => {
            assert(rv[i as int] == r@[i as int]@);
            Some(team_text(&r[i]))
        },
        None => None,
    };
    proof {
        reveal_strlit("");
    }
    assert(""@ =~= Seq::<char>::empty());
    if check || split {
        match cols.address {
            Some(a) => {
                let zip: &str = match cols.zip {
                    Some(i) => {
                        assert(rv[i as int] == r@[i as int]@);
                        r[i].as_str()
                    },
                    None => "",
                };
                let city: &str = match cols.city {
                    Some(i) => {
                        assert(rv[i as int] == r@[i as int]@);
                        r[i].as_str()
                    },
                    None => "",
                };
                assert(zip@ == cell_or_empty(rv, lay.zip));
                assert(city@ == cell_or_empty(rv, lay.city));
                assert(rv[a as int] == r@[a as int]@);
                let (address, ns) = rules.process(r[a].as_str(), zip, city);
                if split {
                    row.set(a, address);
                }
                if check {
                    row.push(join_strings(&ns, "; "));
                    notes = ns;
                }
            },
            None => {},
        }
    }
    let ghost rewritten = if splits(lay, *opts) {
        rv.update(
            lay.address->0 as int,
            address_lines(
                rules.country@,
                rv[lay.address->0 as int],
                cell_or_empty(rv, lay.zip),
                cell_or_empty(rv, lay.city),
            ),
        )
    } else {
        rv
    };
    assert(string_views(notes@) =~= row_notes(rv, lay, *opts, rules.country@, rules.street@));
    assert(string_views(row@) =~= rewritten + one_if(
        checks(lay, *opts),
        join(row_notes(rv, lay, *opts, rules.country@, rules.street@), "; "@),
    ));
    let ghost with_notes = string_views(row@);
    match team {
        Some(t) => {
            row.push(t);
        },
        None => {},
    }
    let ghost team_part = match lay.department {
        Some(i) => seq![team_flag(rv[i as int])],
        None => Seq::<Seq<char>>::empty(),
    };
    assert(string_views(row@) =~= with_notes + team_part);
    let ghost with_team = string_views(row@);
    if cols.dob.is_some() {
        row.push(generation_text(born, today));
    }
    assert(string_views(row@) =~= with_team + one_if(lay.dob is Some, generation_flag(born, today)));
    let out = rotate_cells(&row, r.len());
    (out, notes)
}


/// Why no report is made.
pub enum Refusal {
    NoData,
    NoDobColumn,
    TooManyFields(nat),
}

/// The report, as a value.
pub struct ReportView {
    pub headers: Seq<Seq<char>>,
    pub rows: Seq<Seq<Seq<char>>>,
    pub invalid: nat,
    pub missing_address_column: bool,
    pub notes: Seq<Seq<char>>,
}

/// The address notes of the listed records, in output order.
pub open spec fn notes_in_order(
    sel: Seq<(Seq<Seq<char>>, Option<Date>)>,
    order: Seq<nat>,
    lay: Layout,
    opts: ReportOptions,
    country_p: Seq<char>,
    street_p: Seq<char>,
) -> Seq<Seq<char>>
    decreases order.len(),
{
    if order.len() == 0 {
        Seq::empty()
    } else {
        notes_in_order(sel, order.drop_last(), lay, opts, country_p, street_p) + row_notes(
            sel[order.last() as int].0,
            lay,
            opts,
            country_p,
            street_p,
        )
    }
}

/// The report made from the records of a contacts table: the first record
/// that is not blank is the header row, the later ones are the data.
pub open spec fn report_of(
    records: Seq<Seq<Seq<char>>>,
    opts: ReportOptions,
    today: Date,
    country_p: Seq<char>,
    street_p: Seq<char>,
) -> Result<ReportView, Refusal> {
    let kept = nonblank_records(records);
    if kept.len() == 0 {
        Err(Refusal::NoData)
    } else {
        let headers = kept[0];
        let lay = layout_of(headers);
        let data = kept.drop_first();
        if lay.dob is None && !opts.all {
            Err(Refusal::NoDobColumn)
        } else {
            match first_overlong_from(data, lay.width, 0) {
                Some(i) => Err(Refusal::TooManyFields(i + 1)),
                None => {
                    let sel = picked(data, lay, opts, today);
                    let order = listing_order(sel, opts);
                    Ok(
                        ReportView {
                            headers: output_headers(headers, lay, opts),
                            rows: order.map_values(
                                |k: nat|
                                    output_row(
                                        sel[k as int].0,
                                        sel[k as int].1,
                                        lay,
                                        opts,
                                        today,
                                        country_p,
                                        street_p,
                                    ),
                            ),
                            invalid: invalid_count(data, lay, today),
                            missing_address_column: lay.address is None && (!opts.no_check
                                || !opts.no_split),
                            notes: notes_in_order(sel, order, lay, opts, country_p, street_p),
                        },
                    )
                },
            }
        }
    }
}

/// Why no report was made.
#[derive(Debug)]
pub enum ReportError {
    /// The table has no record that is not blank.
    NoData,
    /// No column is headed as a birth date, and a month was asked for.
    NoDobColumn,
    /// Data record `n` (counted from 1) has more cells than the header.
    TooManyFields(usize),
    /// The CSV reader or writer failed.
    Csv(csv::Error),
}

pub open spec fn refusal_is(e: ReportError, f: Refusal) -> bool {
    match f {
        Refusal::NoData => e is NoData,
        Refusal::NoDobColumn => e is NoDobColumn,
        Refusal::TooManyFields(n) => e matches ReportError::TooManyFields(m) && m == n,
    }
}

/// The output table and what is said about it.
pub struct Table {
    /// The header row.
    pub headers: Vec<String>,
    /// The data rows, in listing order.
    pub rows: Vec<Vec<String>>,
    /// The number of data records without a usable birth date.
    pub invalid: usize,
    /// Address steps were asked for but no address column was found.
    pub missing_address_column: bool,
    /// The address notes of all listed records, in output order.
    pub notes: Vec<String>,
}

impl Table {
    pub open spec fn is_view_of(&self, v: ReportView) -> bool {
        &&& string_views(self.headers@) == v.headers
        &&& records_view(self.rows@) == v.rows
        &&& self.invalid == v.invalid
        &&& self.missing_address_column == v.missing_address_column
        &&& string_views(self.notes@) == v.notes
    }
}

/// The listed records and their birth dates.
pub open spec fn sel_views(v: Seq<(Vec<String>, Option<Date>)>) -> Seq<(Seq<Seq<char>>, Option<Date>)> {
    v.map_values(|p: (Vec<String>, Option<Date>)| (string_views(p.0@), p.1))
}

/// Picks the listed records of the data, filled up to `width`, and counts
/// those without a usable birth date.
fn pick_records(
    kept: &Vec<Vec<String>>,
    cols: &Columns,
    opts: &ReportOptions,
    today: Date,
    Ghost(lay): Ghost<Layout>,
) -> (r: Result<(Vec<(Vec<String>, Option<Date>)>, usize), usize>)
    requires
        kept@.len() >= 1,
        cols.matches_layout(lay),
        lay.in_bounds(),
        lay.width == kept@[0]@.len(),
    ensures
        ({
            let data = records_view(kept@).drop_first();
            match r {
                Err(n) => first_overlong_from(data, lay.width, 0) == Some((n - 1) as nat) && n >= 1,
                Ok((sel, invalid)) => {
                    &&& first_overlong_from(data, lay.width, 0) is None
                    &&& sel_views(sel@) == picked(data, lay, *opts, today)
                    &&& invalid == invalid_count(data, lay, today)
                    &&& forall|k: int| 0 <= k < sel@.len() ==> (#[trigger] sel@[k]).0@.len() == lay.width
                        && (sel@[k].1 matches Some(b) ==> b.is_calendar_date())
                }
            }
        }),
{
    let ghost data = records_view(kept@).drop_first();
    let width = kept[0].len();
    let mut sel: Vec<(Vec<String>, Option<Date>)> = Vec::new();
    let mut invalid: usize = 0;
    let mut i: usize = 1;
    while i < kept.len()
        invariant
            1 <= i <= kept@.len(),
            data == records_view(kept@).drop_first(),
            width == lay.width,
            cols.matches_layout(lay),
            lay.in_bounds(),
            first_overlong_from(data, lay.width, 0) == first_overlong_from(data, lay.width, (i - 1) as nat),
            sel_views(sel@) == picked(data.take(i - 1), lay, *opts, today),
            invalid == invalid_count(data.take(i - 1), lay, today),
            invalid <= i,
            forall|k: int| 0 <= k < sel@.len() ==> (#[trigger] sel@[k]).0@.len() == lay.width
                && (sel@[k].1 matches Some(b) ==> b.is_calendar_date()),
        decreases kept@.len() - i,
    {
        let ghost prefix = data.take(i - 1);
        assert(data.take(i as int).drop_last() =~= prefix);
        assert(data[i - 1] == string_views(kept@[i as int]@));
        assert(data.take(i as int).last() == data[i - 1]);
        if kept[i].len() > width {
            assert(first_overlong_from(data, lay.width, (i - 1) as nat) == Some((i - 1) as nat));
            return Err(i);
        }
        let row = pad_row(&kept[i], width);
        let born = birth_of_row(&row, cols, today, Ghost(lay));
        if cols.dob.is_some() && born.is_none() {
            invalid = invalid + 1;
        }
        let want = opts.all || match born {
            Some(d) => d.month == opts.month,
            None => false,
        };
        if want {
            let ghost before = sel@;
            sel.push((row, born));
            assert(sel_views(sel@) =~= sel_views(before).push((string_views(row@), born)));
        }
        i = i + 1;
    }
    assert(data.take(kept@.len() - 1) =~= data);
    assert(first_overlong_from(data, lay.width, (kept@.len() - 1) as nat) is None);
    Ok((sel, invalid))
}

/// The birthday keys of the listed records.
fn birthday_keys(sel: &Vec<(Vec<String>, Option<Date>)>) -> (keys: Vec<(u32, u32, i32)>)
    ensures
        key_views(keys@) == sel_views(sel@).map_values(
            |p: (Seq<Seq<char>>, Option<Date>)| birthday_key(p.1),
        ),
{
    let mut keys: Vec<(u32, u32, i32)> = Vec::new();
    let mut k: usize = 0;
    while k < sel.len()
        invariant
            k <= sel@.len(),
            key_views(keys@) == sel_views(sel@).take(k as int).map_values(
                |p: (Seq<Seq<char>>, Option<Date>)| birthday_key(p.1),
            ),
        decreases sel@.len() - k,
    {
        let key: (u32, u32, i32) = match sel[k].1 {
            Some(d) => (d.day, d.month, d.year),
            None => (99, 99, 9999),
        };
        let ghost before = keys@;
        keys.push(key);
        assert(key_views(keys@) =~= key_views(before).push((key.0 as int, key.1 as int, key.2 as int)));
        assert(sel_views(sel@)[k as int] == (string_views(sel@[k as int].0@), sel@[k as int].1));
        k = k + 1;
        assert(key_views(keys@) =~= sel_views(sel@).take(k as int).map_values(
            |p: (Seq<Seq<char>>, Option<Date>)| birthday_key(p.1),
        ));
    }
    assert(sel_views(sel@).take(sel@.len() as int) =~= sel_views(sel@));
    keys
}

/// The order in which the listed records are written.
fn listing_indices(sel: &Vec<(Vec<String>, Option<Date>)>, opts: &ReportOptions) -> (order: Vec<usize>)
    ensures
        idx_views(order@) == listing_order(sel_views(sel@), *opts),
{
    if opts.no_sort {
        let mut order: Vec<usize> = Vec::new();
        let mut k: usize = 0;
        while k < sel.len()
            invariant
                k <= sel@.len(),
                idx_views(order@) == Seq::new(k as nat, |i: int| i as nat),
            decreases sel@.len() - k,
        {
            let ghost before = order@;
            order.push(k);
            assert(idx_views(order@) =~= idx_views(before).push(k as nat));
            k = k + 1;
            assert(idx_views(order@) =~= Seq::new(k as nat, |i: int| i as nat));
        }
        assert(sel_views(sel@).len() == sel@.len());
        order
    } else {
        let keys = birthday_keys(sel);
        assert(keys@.len() == key_views(keys@).len());
        assert(sel_views(sel@).len() == sel@.len());
        sort_indices(&keys)
    }
}

/// Builds the output table from the records of a contacts table.
pub fn build_table(
    records: &Vec<Vec<String>>,
    opts: &ReportOptions,
    today: Date,
    rules: &AddressRules,
) -> (r: Result<Table, ReportError>)
    requires
        today.is_calendar_date(),
    ensures
        match report_of(records_view(records@), *opts, today, rules.country@, rules.street@) {
            Ok(v) => r matches Ok(t) && t.is_view_of(v),
            Err(f) => r matches Err(e) && refusal_is(e, f),
        },
{
    let kept = keep_nonblank(records);
    if kept.len() == 0 {
        return Err(ReportError::NoData);
    }
    let headers = clone_row(&kept[0]);
    assert(string_views(headers@) == records_view(kept@)[0]);
    assert(headers@.len() == string_views(headers@).len());
    let cols = find_columns(headers.as_slice());
    let ghost lay = layout_of(string_views(headers@));
    if cols.dob.is_none() && !opts.all {
        return Err(ReportError::NoDobColumn);
    }
    let (sel, invalid) = match pick_records(&kept, &cols, opts, today, Ghost(lay)) {
        Ok(p) => p,
        Err(n) => {
            return Err(ReportError::TooManyFields(n));
        },
    };
    let ghost sv = sel_views(sel@);
    let order = listing_indices(&sel, opts);
    let ghost ord = idx_views(order@);
    proof {
        lemma_order_in_bounds(sv, *opts);
    }
    let out_headers = output_header_row(&headers, &cols, opts, Ghost(lay));
    let mut rows: Vec<Vec<String>> = Vec::new();
    let mut notes: Vec<String> = Vec::new();
    let mut t: usize = 0;
    while t < order.len()
        invariant
            t <= order@.len(),
            ord == idx_views(order@),
            sv == sel_views(sel@),
            forall|j: int| 0 <= j < ord.len() ==> ord[j] < sv.len(),
            cols.matches_layout(lay),
            lay.in_bounds(),
            today.is_calendar_date(),
            forall|k: int| 0 <= k < sel@.len() ==> (#[trigger] sel@[k]).0@.len() == lay.width
                && (sel@[k].1 matches Some(b) ==> b.is_calendar_date()),
            records_view(rows@) == ord.take(t as int).map_values(
                |k: nat| output_row(sv[k as int].0, sv[k as int].1, lay, *opts, today, rules.country@, rules.street@),
            ),
            string_views(notes@) == notes_in_order(sv, ord.take(t as int), lay, *opts, rules.country@, rules.street@),
        decreases order@.len() - t,
    {
        let k = order[t];
        assert(ord[t as int] == k as nat);
        let (row, mut ns) = output_record(rules, &cols, opts, today, &sel[k].0, sel[k].1, Ghost(lay));
        let ghost before_rows = rows@;
        let ghost before_notes = notes@;
        rows.push(row);
        assert(records_view(rows@) =~= records_view(before_rows).push(string_views(row@)));
        assert(sv[k as int] == (string_views(sel@[k as int].0@), sel@[k as int].1));
        notes.append(&mut ns);
        assert(ord.take(t + 1).drop_last() =~= ord.take(t as int));
        assert(records_view(rows@) =~= ord.take(t + 1).map_values(
            |k: nat| output_row(sv[k as int].0, sv[k as int].1, lay, *opts, today, rules.country@, rules.street@),
        ));
        assert(string_views(notes@) =~= string_views(before_notes) + row_notes(sv[k as int].0, lay, *opts, rules.country@, rules.street@));
        t = t + 1;
    }
    assert(ord.take(order@.len() as int) =~= ord);
    let missing_address_column = cols.address.is_none() && (!opts.no_check || !opts.no_split);
    Ok(Table { headers: out_headers, rows, invalid, missing_address_column, notes })
}

/// Every index of the listing order is an index of the listed records.
pub proof fn lemma_order_in_bounds(sel: Seq<(Seq<Seq<char>>, Option<Date>)>, opts: ReportOptions)
    ensures
        forall|j: int| 0 <= j < listing_order(sel, opts).len() ==> #[trigger] listing_order(sel, opts)[j] < sel.len(),
{
    if !opts.no_sort {
        let keys = sel.map_values(|p: (Seq<Seq<char>>, Option<Date>)| birthday_key(p.1));
        lemma_sorted_order_members(sel.len(), keys);
    }
}

/// `insert_by_key` adds `x` to the members of `s`.
pub proof fn lemma_insert_members(s: Seq<nat>, x: nat, keys: Seq<(int, int, int)>)
    ensures
        insert_by_key(s, x, keys).len() == s.len() + 1,
        forall|j: int| 0 <= j < insert_by_key(s, x, keys).len() ==> (#[trigger] insert_by_key(s, x, keys)[j] == x || s.contains(insert_by_key(s, x, keys)[j])),
    decreases s.len(),
{
    if s.len() == 0 || key_le(keys[s.last() as int], keys[x as int]) {
        assert forall|j: int| 0 <= j < s.push(x).len() implies (#[trigger] s.push(x)[j] == x || s.contains(s.push(x)[j])) by {
            if j < s.len() {
                assert(s.push(x)[j] == s[j]);
            }
        }
    } else {
        let p = s.drop_last();
        lemma_insert_members(p, x, keys);
        let q = insert_by_key(p, x, keys);
        assert forall|j: int| 0 <= j < q.push(s.last()).len() implies (#[trigger] q.push(s.last())[j] == x || s.contains(q.push(s.last())[j])) by {
            if j < q.len() {
                assert(q.push(s.last())[j] == q[j]);
                if q[j] != x {
                    let m = choose|m: int| 0 <= m < p.len() && p[m] == q[j];
                    assert(s[m] == q[j]);
                }
            } else {
                assert(s[s.len() - 1] == s.last());
            }
        }
    }
}

/// The sorted order of `0..n` holds indices below `n` only.
pub proof fn lemma_sorted_order_members(n: nat, keys: Seq<(int, int, int)>)
    ensures
        sorted_order(n, keys).len() == n,
        forall|j: int| 0 <= j < sorted_order(n, keys).len() ==> #[trigger] sorted_order(n, keys)[j] < n,
    decreases n,
{
    if n > 0 {
        let prev = sorted_order((n - 1) as nat, keys);
        lemma_sorted_order_members((n - 1) as nat, keys);
        lemma_insert_members(prev, (n - 1) as nat, keys);
        assert forall|j: int| 0 <= j < sorted_order(n, keys).len() implies #[trigger] sorted_order(n, keys)[j] < n by {
            let v = sorted_order(n, keys)[j];
            if v != n - 1 {
                let m = choose|m: int| 0 <= m < prev.len() && prev[m] == v;
            }
        }
    }
}


/// Every record kept is not blank.
pub proof fn lemma_nonblank_records(recs: Seq<Seq<Seq<char>>>)
    ensures
        forall|i: int| 0 <= i < nonblank_records(recs).len() ==> is_nonblank(#[trigger] nonblank_records(recs)[i]),
    decreases recs.len(),
{
    if recs.len() > 0 {
        lemma_nonblank_records(recs.drop_last());
        let p = nonblank_records(recs.drop_last());
        if is_nonblank(recs.last()) {
            assert forall|i: int| 0 <= i < p.push(recs.last()).len() implies is_nonblank(#[trigger] p.push(recs.last())[i]) by {
                if i < p.len() {
                    assert(p.push(recs.last())[i] == p[i]);
                }
            }
        }
    }
}

/// The number of cells that the report adds to each row.
pub open spec fn added_cells(lay: Layout, opts: ReportOptions) -> nat {
    (if checks(lay, opts) { 1nat } else { 0nat }) + (if lay.department is Some { 1nat } else { 0nat }) + (
    if lay.dob is Some { 1nat } else { 0nat })
}

pub proof fn lemma_output_lengths(
    headers: Seq<Seq<char>>,
    r: Seq<Seq<char>>,
    born: Option<Date>,
    lay: Layout,
    opts: ReportOptions,
    today: Date,
    country_p: Seq<char>,
    street_p: Seq<char>,
)
    requires
        lay.in_bounds(),
        headers.len() == lay.width,
        r.len() == lay.width,
    ensures
        output_headers(headers, lay, opts).len() == lay.width + added_cells(lay, opts),
        output_row(r, born, lay, opts, today, country_p, street_p).len() == lay.width + added_cells(lay, opts),
{
}

/// The report, with the CSV text of its table and the count of notes by
/// kind.
pub struct Report {
    pub table: Table,
    /// The CSV text: the header row, then the data rows.
    pub csv: Vec<u8>,
    /// The number of notes of each kind, in increasing order of kind.
    pub summary: Vec<(String, usize)>,
}

/// The records that are written: the header row, then the data rows.
pub open spec fn written_records(v: ReportView) -> Seq<Seq<Seq<char>>> {
    seq![v.headers] + v.rows
}

/// The table has data and a birth-date column where a month is asked for,
/// yet no address column while address checks or splitting are asked for:
/// the report is made without its address steps.
pub open spec fn skips_address_steps_of(records: Seq<Seq<Seq<char>>>, opts: ReportOptions) -> bool {
    let kept = nonblank_records(records);
    &&& kept.len() > 0
    &&& !(layout_of(kept[0]).dob is None && !opts.all)
    &&& layout_of(kept[0]).address is None
    &&& (!opts.no_check || !opts.no_split)
}

/// Whether the report of the CSV text will be made without its address
/// steps, told before the records are processed.
pub fn skips_address_steps(text: &str, opts: &ReportOptions) -> (r: bool)
    ensures
        r == (csv_records(text@) matches Some(recs) && skips_address_steps_of(recs, *opts)),
{
    let records = match read_records(text) {
        Ok(rs) => rs,
        Err(_) => {
            return false;
        },
    };
    let kept = keep_nonblank(&records);
    if kept.len() == 0 {
        return false;
    }
    assert(string_views(kept@[0]@) == records_view(kept@)[0]);
    let cols = find_columns(kept[0].as_slice());
    !(cols.dob.is_none() && !opts.all) && cols.address.is_none() && (!opts.no_check || !opts.no_split)
}

/// Reads the contacts table from CSV text and makes the report.
pub fn make_report(text: &str, opts: &ReportOptions, today: Date, rules: &AddressRules) -> (r: Result<Report, ReportError>)
    requires
        today.is_calendar_date(),
    ensures
        match csv_records(text@) {
            None => r matches Err(ReportError::Csv(_)),
            Some(recs) => match report_of(recs, *opts, today, rules.country@, rules.street@) {
                Err(f) => r matches Err(e) && refusal_is(e, f),
                Ok(v) => r matches Ok(rep) && rep.table.is_view_of(v) && csv_encoding(written_records(v))
                    == Some(rep.csv@) && is_summary_of(entry_views(rep.summary@), v.notes),
            },
        },
{
    let records = match read_records(text) {
        Ok(rs) => rs,
        Err(e) => {
            return Err(ReportError::Csv(e));
        },
    };
    let table = match build_table(&records, opts, today, rules) {
        Ok(t) => t,
        Err(e) => {
            return Err(e);
        },
    };
    let ghost v = report_of(records_view(records@), *opts, today, rules.country@, rules.street@)->Ok_0;
    proof {
        let kept = nonblank_records(records_view(records@));
        lemma_nonblank_records(records_view(records@));
        assert(is_nonblank(kept[0]));
        let lay = layout_of(kept[0]);
        crate::columns::lemma_layout_in_bounds(kept[0]);
        let data = kept.drop_first();
        let sel = picked(data, lay, *opts, today);
        lemma_picked_width(data, lay, *opts, today);
        let order = listing_order(sel, *opts);
        lemma_order_in_bounds(sel, *opts);
        lemma_output_lengths(kept[0], kept[0], None, lay, *opts, today, rules.country@, rules.street@);
        assert forall|i: int| 0 <= i < written_records(v).len() implies #[trigger] written_records(v)[i].len()
            == lay.width + added_cells(lay, *opts) by {
            if i > 0 {
                let k = order[i - 1];
                lemma_output_lengths(kept[0], sel[k as int].0, sel[k as int].1, lay, *opts, today, rules.country@, rules.street@);
            }
        }
        assert(all_of_width(written_records(v), lay.width + added_cells(lay, *opts)));
    }
    let mut all: Vec<Vec<String>> = Vec::new();
    all.push(clone_row(&table.headers));
    let mut i: usize = 0;
    while i < table.rows.len()
        invariant
            i <= table.rows@.len(),
            records_view(all@) == seq![string_views(table.headers@)] + records_view(table.rows@).take(i as int),
        decreases table.rows@.len() - i,
    {
        let ghost before = all@;
        all.push(clone_row(&table.rows[i]));
        assert(records_view(all@) =~= records_view(before).push(string_views(table.rows@[i as int]@)));
        i = i + 1;
        assert(records_view(all@) =~= seq![string_views(table.headers@)] + records_view(table.rows@).take(i as int));
    }
    assert(records_view(table.rows@).take(table.rows@.len() as int) =~= records_view(table.rows@));
    assert(records_view(all@) =~= written_records(v));
    let csv = match write_records(&all) {
        Ok(b) => b,
        Err(e) => {
            return Err(ReportError::Csv(e));
        },
    };
    let summary = summarize(&table.notes);
    Ok(Report { table, csv, summary })
}

/// Every listed record is filled up to the header's width.
pub proof fn lemma_picked_width(data: Seq<Seq<Seq<char>>>, lay: Layout, opts: ReportOptions, today: Date)
    requires
        first_overlong_from(data, lay.width, 0) is None,
    ensures
        forall|k: int| 0 <= k < picked(data, lay, opts, today).len() ==> (#[trigger] picked(data, lay, opts, today)[k]).0.len() == lay.width,
    decreases data.len(),
{
    lemma_no_overlong(data, lay.width, 0);
    if data.len() > 0 {
        let d = data.drop_last();
        assert forall|j: int| 0 <= j < d.len() implies (#[trigger] d[j]).len() <= lay.width by {
            assert(d[j] == data[j]);
        }
        lemma_all_short(d, lay.width, 0);
        lemma_picked_width(d, lay, opts, today);
        let p = picked(d, lay, opts, today);
        let r = padded(data.last(), lay.width);
        assert(data.last() == data[data.len() - 1]);
        assert(r.len() == lay.width);
        assert forall|k: int| 0 <= k < picked(data, lay, opts, today).len() implies (#[trigger] picked(data, lay, opts, today)[k]).0.len() == lay.width by {
            if k < p.len() {
                assert(p.push((r, birth_of(r, lay, today)))[k] == p[k]);
            }
        }
    }
}

/// Where no record from `i` on is too long, every such record fits.
pub proof fn lemma_no_overlong(data: Seq<Seq<Seq<char>>>, width: nat, i: nat)
    requires
        first_overlong_from(data, width, i) is None,
    ensures
        forall|j: int| i <= j < data.len() ==> (#[trigger] data[j]).len() <= width,
    decreases data.len() - i,
{
    if i < data.len() {
        lemma_no_overlong(data, width, i + 1);
    }
}

/// Where every record from `i` on fits, none is too long.
pub proof fn lemma_all_short(data: Seq<Seq<Seq<char>>>, width: nat, i: nat)
    requires
        forall|j: int| i <= j < data.len() ==> (#[trigger] data[j]).len() <= width,
    ensures
        first_overlong_from(data, width, i) is None,
    decreases data.len() - i,
{
    if i < data.len() {
        lemma_all_short(data, width, i + 1);
    }
}


impl ReportError {
    /// The message for the user; `None` for a CSV error, which the `csv`
    /// crate describes.
    pub fn message(&self) -> (r: Option<String>)
        ensures
            match self {
                ReportError::NoData => r matches Some(m) && m@ == "No data found"@,
                ReportError::NoDobColumn => r matches Some(m) && m@ == "No Date of Birth column found"@,
                ReportError::TooManyFields(n) => r matches Some(m) && m@ == "Data record "@ + decimal(
                    *n as nat,
                ) + " has more fields than the header"@,
                ReportError::Csv(_) => r is None,
            },
    {
        match self {
            ReportError::NoData => Some(String::from_str("No data found")),
            ReportError::NoDobColumn => Some(String::from_str("No Date of Birth column found")),
            ReportError::TooManyFields(n) => {
                let mut m = String::from_str("Data record ");
                push_decimal(&mut m, *n as u64);
                m.append(" has more fields than the header");
                Some(m)
            },
            ReportError::Csv(_) => None,
        }
    }
}

/// The decimal writing of an integer, with a minus sign where negative.
pub open spec fn signed_decimal(y: int) -> Seq<char> {
    if y < 0 {
        seq!['-'] + decimal((-y) as nat)
    } else {
        decimal(y as nat)
    }
}

/// The decimal writing of `m` with at least two digits.
pub open spec fn two_digits(m: nat) -> Seq<char> {
    if m < 10 {
        seq!['0'] + decimal(m)
    } else {
        decimal(m)
    }
}

/// The output file used when none is given.
pub open spec fn default_output(all: bool, year: int, month: nat) -> Seq<char> {
    if all {
        "contacts-processed.csv"@
    } else {
        "birthdays-"@ + signed_decimal(year) + "-"@ + two_digits(month) + ".csv"@
    }
}

/// The output file used when none is given: `birthdays-YYYY-MM.csv`, or
/// `contacts-processed.csv` when every record is listed.
pub fn default_output_name(all: bool, year: i32, month: u32) -> (r: String)
    ensures
        r@ == default_output(all, year as int, month as nat),
{
    if all {
        return String::from_str("contacts-processed.csv");
    }
    let mut r = String::from_str("birthdays-");
    let ghost start = r@;
    if year < 0 {
        r.append("-");
        proof {
            reveal_strlit("-");
        }
        let magnitude: u64 = (0i64 - year as i64) as u64;
        push_decimal(&mut r, magnitude);
    } else {
        push_decimal(&mut r, year as u64);
    }
    assert(r@ =~= start + signed_decimal(year as int));
    let ghost with_year = r@;
    r.append("-");
    let ghost with_dash = r@;
    if month < 10 {
        r.append("0");
        proof {
            reveal_strlit("0");
        }
    }
    push_decimal(&mut r, month as u64);
    assert(r@ =~= with_dash + two_digits(month as nat));
    r.append(".csv");
    r
}

} // verus!
