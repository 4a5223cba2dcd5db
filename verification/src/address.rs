//! Mailing addresses: a free-text address cell, with its postal-code and
//! city cells, is rewritten as street / locality / country lines, and checked
//! for common gaps.

use vstd::prelude::*;
use crate::pattern::{Pattern, regex_find, regex_is_match, regex_replace_all};
use crate::text::{
    all_ascii_digits, append_chars, chars_eq, chars_of, contains, find, find_chars,
    has_ascii_digit, any_ascii_digit, lemma_join_push, lemma_find_from_occurs, lemma_strip_idempotent, lowercase, only_ascii_digits, push_chars, strip,
    strip_chars, string_of, string_views, to_lowercase, trim,
};

verus! {

/// Country names recognised in an address, in any letter case, as whole words.
pub open spec fn country_pattern() -> Seq<char> {
    "(?i)\\b(Germany|Czechia|Colombia|India)\\b"@
}

/// Words that name a street.
pub open spec fn street_pattern() -> Seq<char> {
    "(?i)(stra(ß|ss)e|str\\.?|weg|allee|ring|ufer|chaussee|platz|gasse|damm|pocket|garden)"@
}

/// A gap or inconsistency found in an address.
#[derive(Clone, Copy, PartialEq, Eq, Structural, Debug)]
pub enum AddressIssue {
    NoAddress,
    NoStreet,
    MissingHouseNumber,
    MissingPostalCode,
    MissingCity,
    InvalidPostalCode,
    CountryMismatch,
    CityTypo,
}

/// The note written for an issue; `zip` is the trimmed postal code.
pub open spec fn issue_message(issue: AddressIssue, zip: Seq<char>) -> Seq<char> {
    match issue {
        AddressIssue::NoAddress => "No address"@,
        AddressIssue::NoStreet => "No street (only city/postal code)"@,
        AddressIssue::MissingHouseNumber => "Missing house number"@,
        AddressIssue::MissingPostalCode => "Missing postal code"@,
        AddressIssue::MissingCity => "Missing city"@,
        AddressIssue::InvalidPostalCode => "Invalid postal code ("@ + zip + ")"@,
        AddressIssue::CountryMismatch => "Country mismatch (Berlin postal code, non-German country)"@,
        AddressIssue::CityTypo => "City typo"@,
    }
}

pub open spec fn ascii_upper(c: char) -> char {
    if 'a' <= c && c <= 'z' {
        (c as int - 32) as char
    } else {
        c
    }
}

/// `s` with its first character in ASCII upper case.
pub open spec fn capitalized(s: Seq<char>) -> Seq<char> {
    if s.len() == 0 {
        s
    } else {
        seq![ascii_upper(s[0])] + s.drop_first()
    }
}

/// The country named in `raw`, capitalised; empty where none is named.
pub open spec fn country_of(country_p: Seq<char>, raw: Seq<char>) -> Seq<char> {
    match regex_find(country_p, raw) {
        Some(m) => capitalized(lowercase(m)),
        None => Seq::empty(),
    }
}

/// `h` up to the first occurrence of `n`.
pub open spec fn before_first(h: Seq<char>, n: Seq<char>) -> Seq<char> {
    match find(h, n) {
        Some(k) => h.take(k as int),
        None => h,
    }
}

/// The street line: the address without country names, cut before the
/// postal code (or else before the city), trimmed of white space and commas.
pub open spec fn street_of(country_p: Seq<char>, raw: Seq<char>, zip: Seq<char>, city: Seq<char>) -> Seq<char> {
    let clean = strip(regex_replace_all(country_p, raw, ""@), true);
    let cut = if zip.len() > 0 && contains(clean, zip) {
        before_first(clean, zip)
    } else if city.len() > 0 && contains(clean, city) {
        before_first(clean, city)
    } else {
        clean
    };
    strip(cut, true)
}

/// The locality line: postal code and city.
pub open spec fn locality_of(zip: Seq<char>, city: Seq<char>) -> Seq<char> {
    trim(zip + seq![' '] + city)
}

/// The nonempty members of `parts`, in order.
pub open spec fn nonempty_parts(parts: Seq<Seq<char>>) -> Seq<Seq<char>>
    decreases parts.len(),
{
    if parts.len() == 0 {
        parts
    } else {
        let r = nonempty_parts(parts.drop_last());
        if parts.last().len() > 0 {
            r.push(parts.last())
        } else {
            r
        }
    }
}

/// The address as lines: street, locality and country, without empty lines.
pub open spec fn formatted_address(street: Seq<char>, locality: Seq<char>, country: Seq<char>) -> Seq<char> {
    crate::text::join(nonempty_parts(seq![street, locality, country]), seq!['\n'])
}

pub open spec fn when(b: bool, issue: AddressIssue) -> Seq<AddressIssue> {
    if b {
        seq![issue]
    } else {
        Seq::empty()
    }
}

/// A German postal code: five ASCII digits.
pub open spec fn is_plz(zip: Seq<char>) -> bool {
    zip.len() == 5 && all_ascii_digits(zip)
}

/// The issues found, in the order in which they are reported.
pub open spec fn address_issues(
    country_p: Seq<char>,
    street_p: Seq<char>,
    raw: Seq<char>,
    zip_raw: Seq<char>,
    city_raw: Seq<char>,
) -> Seq<AddressIssue> {
    let zip = trim(zip_raw);
    let city = trim(city_raw);
    let country = country_of(country_p, raw);
    let street = street_of(country_p, raw, zip, city);
    let locality = locality_of(zip, city);
    let first = if street.len() == 0 && locality.len() == 0 {
        seq![AddressIssue::NoAddress]
    } else {
        (if street.len() == 0 {
            seq![AddressIssue::NoStreet]
        } else {
            when(
                !has_ascii_digit(street) && regex_is_match(street_p, street),
                AddressIssue::MissingHouseNumber,
            )
        }) + when(zip.len() == 0, AddressIssue::MissingPostalCode) + when(
            city.len() == 0,
            AddressIssue::MissingCity,
        )
    };
    let plz = is_plz(zip);
    first + when(
        zip.len() > 0 && country == "Germany"@ && !plz,
        AddressIssue::InvalidPostalCode,
    ) + when(
        plz && country.len() > 0 && country != "Germany"@ && contains(lowercase(city), "berlin"@),
        AddressIssue::CountryMismatch,
    ) + when(
        contains(lowercase(raw), "gemany"@) || contains(lowercase(city), "gemany"@),
        AddressIssue::CityTypo,
    )
}

/// The notes written for an address.
pub open spec fn address_notes(
    country_p: Seq<char>,
    street_p: Seq<char>,
    raw: Seq<char>,
    zip_raw: Seq<char>,
    city_raw: Seq<char>,
) -> Seq<Seq<char>> {
    address_issues(country_p, street_p, raw, zip_raw, city_raw).map_values(
        |i: AddressIssue| issue_message(i, trim(zip_raw)),
    )
}

/// The rewritten address.
pub open spec fn address_lines(country_p: Seq<char>, raw: Seq<char>, zip_raw: Seq<char>, city_raw: Seq<char>) -> Seq<char> {
    let zip = trim(zip_raw);
    let city = trim(city_raw);
    formatted_address(
        street_of(country_p, raw, zip, city),
        locality_of(zip, city),
        country_of(country_p, raw),
    )
}

/// The compiled rules: which countries are recognised, and which words name a
/// street.
pub struct AddressRules {
    pub country: Pattern,
    pub street: Pattern,
}

/// A pattern of the address rules was refused by the regex crate.
#[derive(Debug)]
pub struct RulesError {
    pub error: regex::Error,
}

impl AddressRules {
    pub open spec fn has_standard_patterns(&self) -> bool {
        self.country@ == country_pattern() && self.street@ == street_pattern()
    }

    /// Compiles the country and street patterns.
    pub fn new() -> (r: Result<AddressRules, RulesError>)
        ensures
            r matches Ok(rules) ==> rules.has_standard_patterns(),
            r is Ok <==> crate::pattern::regex_compiles(country_pattern())
                && crate::pattern::regex_compiles(street_pattern()),
    {
        let country = match Pattern::compile("(?i)\\b(Germany|Czechia|Colombia|India)\\b") {
            Ok(p) => p,
            Err(e) => {
                return Err(RulesError { error: e });
            },
        };
        let street = match Pattern::compile(
            "(?i)(stra(ß|ss)e|str\\.?|weg|allee|ring|ufer|chaussee|platz|gasse|damm|pocket|garden)",
        ) {
            Ok(p) => p,
            Err(e) => {
                return Err(RulesError { error: e });
            },
        };
        Ok(AddressRules { country, street })
    }

    /// Rewrites an address as street, locality and country lines, and lists
    /// the issues found in it.
    pub fn process(&self, raw: &str, zip: &str, city: &str) -> (r: (String, Vec<String>))
        ensures
            r.0@ == address_lines(self.country@, raw@, zip@, city@),
            string_views(r.1@) == address_notes(self.country@, self.street@, raw@, zip@, city@),
    {
        let zip_v = strip_chars(chars_of(zip).as_slice(), false);
        let city_v = strip_chars(chars_of(city).as_slice(), false);
        proof {
            lemma_strip_idempotent(zip@, false);
            lemma_strip_idempotent(city@, false);
        }
        let country = self.country_name(raw);
        let street = self.street_line(raw, &zip_v, &city_v);
        let locality = locality_line(&zip_v, &city_v);
        let address = address_text(&street, &locality, &country);
        let notes = self.notes(raw, &zip_v, &city_v, &country, &street, &locality);
        (address, notes)
    }

    /// The country named in `raw`, capitalised.
    fn country_name(&self, raw: &str) -> (r: Vec<char>)
        ensures
            r@ == country_of(self.country@, raw@),
    {
        match self.country.find_text(raw) {
            Some(m) => {
                let lower = to_lowercase(m.as_str());
                let mut v = chars_of(lower.as_str());
                if v.len() > 0 {
                    let c = v[0];
                    if c >= 'a' && c <= 'z' {
                        let up: char = ((c as u8) - 32u8) as char;
                        assert(up == ascii_upper(c));
                        v.set(0, up);
                    }
                    assert(v@ =~= capitalized(lower@));
                }
                v
            },
            None => Vec::new(),
        }
    }

    /// The street line of `raw`, given the trimmed postal code and city.
    fn street_line(&self, raw: &str, zip: &Vec<char>, city: &Vec<char>) -> (r: Vec<char>)
        ensures
            r@ == street_of(self.country@, raw@, zip@, city@),
    {
        let removed = self.country.replace_all(raw, "");
        let clean = strip_chars(chars_of(removed.as_str()).as_slice(), true);
        let cut: Vec<char> = if zip.len() > 0 && find_chars(clean.as_slice(), zip.as_slice()).is_some() {
            prefix_before(&clean, zip)
        } else if city.len() > 0 && find_chars(clean.as_slice(), city.as_slice()).is_some() {
            prefix_before(&clean, city)
        } else {
            clean
        };
        strip_chars(cut.as_slice(), true)
    }

    /// The notes for an address whose parts are computed already.
    fn notes(
        &self,
        raw: &str,
        zip: &Vec<char>,
        city: &Vec<char>,
        country: &Vec<char>,
        street: &Vec<char>,
        locality: &Vec<char>,
    ) -> (r: Vec<String>)
        requires
            zip@ == trim(zip@),
            city@ == trim(city@),
            country@ == country_of(self.country@, raw@),
            street@ == street_of(self.country@, raw@, zip@, city@),
            locality@ == locality_of(zip@, city@),
        ensures
            string_views(r@) == address_issues(self.country@, self.street@, raw@, zip@, city@).map_values(
                |i: AddressIssue| issue_message(i, zip@),
            ),
    {
        let ghost issues = address_issues(self.country@, self.street@, raw@, zip@, city@);
        let mut notes: Vec<String> = Vec::new();
        let ghost mut found: Seq<AddressIssue> = Seq::empty();
        if street.len() == 0 && locality.len() == 0 {
            notes.push(String::from_str("No address"));
            proof {
                found = seq![AddressIssue::NoAddress];
            }
        } else {
            if street.len() == 0 {
                notes.push(String::from_str("No street (only city/postal code)"));
                proof {
                    found = seq![AddressIssue::NoStreet];
                }
            } else if !any_ascii_digit(street.as_slice()) && self.street.is_match(
                string_of(street.as_slice()).as_str(),
            ) {
                notes.push(String::from_str("Missing house number"));
                proof {
                    found = seq![AddressIssue::MissingHouseNumber];
                }
            }
            if zip.len() == 0 {
                notes.push(String::from_str("Missing postal code"));
                proof {
                    found = found.push(AddressIssue::MissingPostalCode);
                }
            }
            if city.len() == 0 {
                notes.push(String::from_str("Missing city"));
                proof {
                    found = found.push(AddressIssue::MissingCity);
                }
            }
        }
        assert(string_views(notes@) =~= found.map_values(|i: AddressIssue| issue_message(i, zip@)));
        let ghost first = found;
        let plz = zip.len() == 5 && only_ascii_digits(zip.as_slice());
        let germany = chars_of("Germany");
        let is_germany = chars_eq(country.as_slice(), germany.as_slice());
        if zip.len() > 0 && is_germany && !plz {
            let mut m = String::from_str("Invalid postal code (");
            push_chars(&mut m, zip.as_slice());
            m.append(")");
            notes.push(m);
            proof {
                found = found.push(AddressIssue::InvalidPostalCode);
            }
        }
        assert(string_views(notes@) =~= found.map_values(|i: AddressIssue| issue_message(i, zip@)));
        let city_lower = chars_of(to_lowercase(string_of(city.as_slice()).as_str()).as_str());
        let berlin = chars_of("berlin");
        if plz && country.len() > 0 && !is_germany && find_chars(
            city_lower.as_slice(),
            berlin.as_slice(),
        ).is_some() {
            notes.push(String::from_str("Country mismatch (Berlin postal code, non-German country)"));
            proof {
                found = found.push(AddressIssue::CountryMismatch);
            }
        }
        assert(string_views(notes@) =~= found.map_values(|i: AddressIssue| issue_message(i, zip@)));
        let raw_lower = chars_of(to_lowercase(raw).as_str());
        let gemany = chars_of("gemany");
        if find_chars(raw_lower.as_slice(), gemany.as_slice()).is_some() || find_chars(
            city_lower.as_slice(),
            gemany.as_slice(),
        ).is_some() {
            notes.push(String::from_str("City typo"));
            proof {
                found = found.push(AddressIssue::CityTypo);
            }
        }
        assert(string_views(notes@) =~= found.map_values(|i: AddressIssue| issue_message(i, zip@)));
        assert(trim(zip@) == zip@);
        assert(found =~= issues);
        notes
    }
}

/// `h` up to the first occurrence of `n`, which occurs in it.
fn prefix_before(h: &Vec<char>, n: &Vec<char>) -> (r: Vec<char>)
    ensures
        r@ == before_first(h@, n@),
{
    match find_chars(h.as_slice(), n.as_slice()) {
        Some(k) => {
            proof {
                lemma_find_from_occurs(h@, n@, 0);
            }
            let mut r: Vec<char> = Vec::new();
            let mut i: usize = 0;
            while i < k
                invariant
                    i <= k,
                    k <= h@.len(),
                    r@ == h@.take(i as int),
                decreases k - i,
            {
                r.push(h[i]);
                i = i + 1;
                assert(r@ =~= h@.take(i as int));
            }
            r
        },
        None => h.clone(),
    }
}

/// Postal code and city, separated by a space, trimmed.
fn locality_line(zip: &Vec<char>, city: &Vec<char>) -> (r: Vec<char>)
    ensures
        r@ == locality_of(zip@, city@),
{
    let mut v = zip.clone();
    v.push(' ');
    append_chars(&mut v, city.as_slice());
    assert(v@ =~= zip@ + seq![' '] + city@);
    strip_chars(v.as_slice(), false)
}

/// Street, locality and country, each on a line of its own, empty ones left
/// out.
fn address_text(street: &Vec<char>, locality: &Vec<char>, country: &Vec<char>) -> (r: String)
    ensures
        r@ == formatted_address(street@, locality@, country@),
{
    let ghost parts = seq![street@, locality@, country@];
    proof {
        reveal_strlit("\n");
    }
    assert("\n"@ =~= seq!['\n']);
    let mut out = String::new();
    let mut any = false;
    if street.len() > 0 {
        push_chars(&mut out, street.as_slice());
        any = true;
    }
    assert(parts.take(1).drop_last() =~= Seq::<Seq<char>>::empty());
    assert(nonempty_parts(Seq::<Seq<char>>::empty()) =~= Seq::<Seq<char>>::empty());
    assert(nonempty_parts(parts.take(1)) =~= if street@.len() > 0 {
        seq![street@]
    } else {
        Seq::<Seq<char>>::empty()
    });
    assert(out@ == crate::text::join(nonempty_parts(parts.take(1)), seq!['\n']));
    assert(any == (nonempty_parts(parts.take(1)).len() > 0));
    if locality.len() > 0 {
        if any {
            out.append("\n");
        }
        push_chars(&mut out, locality.as_slice());
        any = true;
    }
    assert(parts.take(2).drop_last() =~= parts.take(1));
    proof {
        lemma_join_push(nonempty_parts(parts.take(1)), locality@, seq!['\n']);
    }
    assert(parts.take(2).last() == locality@);
    assert(out@ =~= crate::text::join(nonempty_parts(parts.take(2)), seq!['\n']));
    assert(any == (nonempty_parts(parts.take(2)).len() > 0));
    if country.len() > 0 {
        if any {
            out.append("\n");
        }
        push_chars(&mut out, country.as_slice());
    }
    assert(parts.take(3).drop_last() =~= parts.take(2));
    assert(parts.take(3) =~= parts);
    proof {
        lemma_join_push(nonempty_parts(parts.take(2)), country@, seq!['\n']);
    }
    assert(parts.last() == country@);
    assert(out@ =~= crate::text::join(nonempty_parts(parts), seq!['\n']));
    out
}

} // verus!
