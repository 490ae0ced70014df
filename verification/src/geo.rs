//! Where a node sits on the world map, and which country it belongs to.
//!
//! The control plane sends `country` (ISO 3166-1 alpha-2) and a display `city`,
//! and nothing else: no coordinates. So the placement is looked up here: the
//! city first, the middle of the country when the city is unknown. A node that
//! matches neither is left off the map rather than dropped somewhere wrong; the
//! list still carries it.
use crate::places::{CITIES, COUNTRIES, COUNTRY_NAMES};
use crate::text;
use vstd::prelude::*;
use vstd::string::*;

verus! {

/// A point of the globe, in hundredths of a degree.
#[derive(Clone, Copy, PartialEq, Eq, Structural, Debug)]
pub struct Place {
    pub lat: i32,
    pub lon: i32,
}

/// The plain letter an accented lower-case letter folds to.
pub open spec fn fold_char(c: char) -> char {
    match c {
        'á' | 'à' | 'â' | 'ä' | 'ã' | 'å' => 'a',
        'é' | 'è' | 'ê' | 'ë' => 'e',
        'í' | 'ì' | 'î' | 'ï' => 'i',
        'ó' | 'ò' | 'ô' | 'ö' | 'õ' => 'o',
        'ú' | 'ù' | 'û' | 'ü' => 'u',
        'ç' => 'c',
        'ñ' => 'n',
        'ý' | 'ÿ' => 'y',
        other => other,
    }
}

/// `s` with its accents folded away.
pub open spec fn plain(s: Seq<char>) -> Seq<char> {
    s.map_values(|c: char| fold_char(c))
}

/// `s` trimmed, in lower case, its accents folded away.
pub open spec fn folded(s: Seq<char>) -> Seq<char> {
    plain(text::lowercase(text::trimmed(s)))
}

/// Lowercases and folds the accents that separate `Montréal` from `montreal`,
/// so a table can be written one way and still match what the service sends.
///
/// It is also the sort key for country names. Comparing them character by
/// character puts `États-Unis` after `Suède`, because every accented letter
/// outranks the whole ASCII alphabet, which is not where a reader looks for it.
pub fn fold(value: &str) -> (r: String)
    ensures
        r@ == folded(value@),
        forall|i: int| 0 <= i < r@.len() ==> !text::is_capital(#[trigger] r@[i]),
        text::is_ascii_text(value@) ==> r@ == text::ascii_lower(text::trimmed(value@)),
{
    normalise(value)
}

fn normalise(value: &str) -> (r: String)
    ensures
        r@ == folded(value@),
        forall|i: int| 0 <= i < r@.len() ==> !text::is_capital(#[trigger] r@[i]),
        text::is_ascii_text(value@) ==> r@ == text::ascii_lower(text::trimmed(value@)),
{
    // Unicode lowercasing, not ASCII: the folding below only names lowercase
    // letters, so an accented capital would sail through unfolded.
    let trimmed = text::trim(value);
    let lower = text::to_lowercase(trimmed.as_str());
    let r = fold_lower(lower.as_str());
    proof {
        text::lemma_trimmed_ascii(value@);
        if text::is_ascii_text(value@) {
            assert(text::is_ascii_text(trimmed@));
            assert forall|i: int| 0 <= i < r@.len() implies r@[i] == lower@[i] by {
                assert(text::ascii_lower(trimmed@)[i] == text::lower_char(trimmed@[i]));
                assert((trimmed@[i] as u32) < 128);
            }
            assert(r@ =~= lower@);
        }
    }
    r
}

/// Folds the accents of a text that is in lower case already.
pub fn fold_lower(lower: &str) -> (r: String)
    ensures
        r@ == plain(lower@),
{
    let chars = text::chars_of(lower);
    let mut r = String::new();
    let mut i: usize = 0;
    assert(r@ =~= plain(lower@.take(0)));
    while i < chars.len()
        invariant
            i <= chars@.len(),
            chars@ == lower@,
            r@ == plain(lower@.take(i as int)),
        decreases chars@.len() - i,
    {
        let plain_char = match chars[i] {
            'á' | 'à' | 'â' | 'ä' | 'ã' | 'å' => 'a',
            'é' | 'è' | 'ê' | 'ë' => 'e',
            'í' | 'ì' | 'î' | 'ï' => 'i',
            'ó' | 'ò' | 'ô' | 'ö' | 'õ' => 'o',
            'ú' | 'ù' | 'û' | 'ü' => 'u',
            'ç' => 'c',
            'ñ' => 'n',
            'ý' | 'ÿ' => 'y',
            other => other,
        };
        r.push(plain_char);
        assert(plain(lower@.take(i as int + 1)) =~= plain(lower@.take(i as int)).push(
            fold_char(chars@[i as int]),
        ));
        i += 1;
    }
    assert(lower@.take(i as int) =~= lower@);
    r
}

/// The first city of the table, from `from` on, of that country and name.
pub open spec fn city_from(country: Seq<char>, city: Seq<char>, from: int) -> Option<Place>
    decreases CITIES@.len() - from,
{
    if from < 0 || from >= CITIES@.len() {
        None
    } else if CITIES@[from].0@ == country && CITIES@[from].1@ == city {
        Some(Place { lat: CITIES@[from].2, lon: CITIES@[from].3 })
    } else {
        city_from(country, city, from + 1)
    }
}

/// The first country of the table, from `from` on, of that code.
pub open spec fn country_from(country: Seq<char>, from: int) -> Option<Place>
    decreases COUNTRIES@.len() - from,
{
    if from < 0 || from >= COUNTRIES@.len() {
        None
    } else if COUNTRIES@[from].0@ == country {
        Some(Place { lat: COUNTRIES@[from].1, lon: COUNTRIES@[from].2 })
    } else {
        country_from(country, from + 1)
    }
}

/// Where a country and city, both folded, are: the city when the table has it,
/// else the middle of the country.
pub open spec fn located(country: Seq<char>, city: Seq<char>) -> Option<Place> {
    match city_from(country, city, 0) {
        Some(place) => Some(place),
        None => country_from(country, 0),
    }
}

/// Whether row `k` of the cities' table is the first of that country and name.
pub open spec fn is_city_row(country: Seq<char>, city: Seq<char>, k: int) -> bool {
    &&& 0 <= k < CITIES@.len()
    &&& CITIES@[k].0@ == country
    &&& CITIES@[k].1@ == city
    &&& forall|i: int| 0 <= i < k ==> CITIES@[i].0@ != country || (#[trigger] CITIES@[i]).1@ != city
}

/// Whether row `k` of the countries' table is the first of that code.
pub open spec fn is_country_row(country: Seq<char>, k: int) -> bool {
    &&& 0 <= k < COUNTRIES@.len()
    &&& COUNTRIES@[k].0@ == country
    &&& forall|i: int| 0 <= i < k ==> (#[trigger] COUNTRIES@[i]).0@ != country
}

/// Where a node is, from its country code and the name of its city.
pub fn locate(country: &str, city: &str) -> (r: Option<Place>)
    ensures
        r == located(folded(country@), folded(city@)),
        forall|k: int|
            #![trigger CITIES@[k]]
            is_city_row(folded(country@), folded(city@), k) ==> r == Some(
                Place { lat: CITIES@[k].2, lon: CITIES@[k].3 },
            ),
        forall|k: int|
            #![trigger COUNTRIES@[k]]
            (forall|i: int| !is_city_row(folded(country@), folded(city@), i)) && is_country_row(folded(country@), k) ==> r == Some(
                Place { lat: COUNTRIES@[k].1, lon: COUNTRIES@[k].2 },
            ),
        r matches Some(place) ==> -9000 <= place.lat <= 9000 && -18000 <= place.lon <= 18000,
{
    let country = normalise(country);
    let city = normalise(city);
    locate_folded(country.as_str(), city.as_str())
}

/// Where a node is, from a country code and a city that are already folded.
pub fn locate_folded(country: &str, city: &str) -> (r: Option<Place>)
    ensures
        r == located(country@, city@),
        forall|k: int|
            #![trigger CITIES@[k]]
            is_city_row(country@, city@, k) ==> r == Some(
                Place { lat: CITIES@[k].2, lon: CITIES@[k].3 },
            ),
        forall|k: int|
            #![trigger COUNTRIES@[k]]
            (forall|i: int| !is_city_row(country@, city@, i)) && is_country_row(country@, k) ==> r == Some(
                Place { lat: COUNTRIES@[k].1, lon: COUNTRIES@[k].2 },
            ),
        r matches Some(place) ==> -9000 <= place.lat <= 9000 && -18000 <= place.lon <= 18000,
{
    let mut i: usize = 0;
    while i < CITIES.len()
        invariant
            i <= CITIES@.len(),
            city_from(country@, city@, 0) == city_from(country@, city@, i as int),
        decreases CITIES@.len() - i,
    {
        if text::same(CITIES[i].0, country) && text::same(CITIES[i].1, city) {
            proof {
                lemma_located(country@, city@);
            }
            return Some(Place { lat: CITIES[i].2, lon: CITIES[i].3 });
        }
        i += 1;
    }
    let mut j: usize = 0;
    while j < COUNTRIES.len()
        invariant
            j <= COUNTRIES@.len(),
            city_from(country@, city@, 0) is None,
            country_from(country@, 0) == country_from(country@, j as int),
        decreases COUNTRIES@.len() - j,
    {
        if text::same(COUNTRIES[j].0, country) {
            proof {
                lemma_located(country@, city@);
            }
            return Some(Place { lat: COUNTRIES[j].1, lon: COUNTRIES[j].2 });
        }
        j += 1;
    }
    proof {
        lemma_located(country@, city@);
    }
    None
}

/// Whether `code` is two letters.
pub open spec fn is_alpha2(code: Seq<char>) -> bool {
    code.len() == 2 && text::is_letter(code[0]) && text::is_letter(code[1])
}

/// The code of the first record whose name folds to `wanted`.
pub open spec fn code_named(records: Seq<Seq<char>>, wanted: Seq<char>) -> Option<Seq<char>>
    decreases records.len(),
{
    if records.len() == 0 {
        None
    } else {
        match text::cut(records[0], '\t') {
            Some((code, name)) if folded(name) == wanted => Some(text::ascii_lower(code)),
            _ => code_named(records.drop_first(), wanted),
        }
    }
}

/// The name in the first record of that code.
pub open spec fn name_of(records: Seq<Seq<char>>, code: Seq<char>) -> Option<Seq<char>>
    decreases records.len(),
{
    if records.len() == 0 {
        None
    } else {
        match text::cut(records[0], '\t') {
            Some((c, name)) if c == code => Some(name),
            _ => name_of(records.drop_first(), code),
        }
    }
}

/// The country a code and a name settle on: the code when it is one, else the
/// record the name matches.
pub open spec fn resolved(code: Seq<char>, name: Seq<char>) -> Option<Seq<char>> {
    let lower = text::ascii_lower(text::trimmed(code));
    if is_alpha2(lower) {
        Some(lower)
    } else if folded(name).len() == 0 {
        None
    } else {
        code_named(text::lines_of(COUNTRY_NAMES@), folded(name))
    }
}

/// Settles which country a record belongs to.
///
/// The control plane sends both an ISO-2 `country_code` and a full English
/// `country`, and leaves the code empty on some records while still naming them.
/// So the code is used when it is there, and the name resolves it when it is
/// not; otherwise those exits would have no flag, no position and no country to
/// sit under.
pub fn resolve_code(country_code: &str, country_name: &str) -> (r: Option<String>)
    ensures
        text::maybe(r) == resolved(country_code@, country_name@),
{
    let code = text::to_ascii_lowercase(text::trim(country_code).as_str());
    let letters = text::chars_of(code.as_str());
    if letters.len() == 2 && letter(letters[0]) && letter(letters[1]) {
        return Some(code);
    }
    let wanted = fold(country_name);
    if wanted.as_str().is_empty() {
        return None;
    }
    code_of(wanted.as_str())
}

/// Whether `c` is one of the 26 ASCII letters, in either case.
fn letter(c: char) -> (r: bool)
    ensures
        r == text::is_letter(c),
{
    ('a' <= c && c <= 'z') || ('A' <= c && c <= 'Z')
}

/// The code of the first country whose folded name is `wanted`.
pub fn code_of(wanted: &str) -> (r: Option<String>)
    ensures
        text::maybe(r) == code_named(text::lines_of(COUNTRY_NAMES@), wanted@),
{
    let chars = text::chars_of(COUNTRY_NAMES);
    let n: usize = chars.len();
    let ghost all = COUNTRY_NAMES@;
    let mut from: usize = 0;
    assert(all.skip(0) =~= all);
    while from < n
        invariant
            from <= n == chars@.len(),
            chars@ == all,
            all == COUNTRY_NAMES@,
            code_named(text::lines_of(all), wanted@) == code_named(
                text::lines_of(all.skip(from as int)),
                wanted@,
            ),
        decreases n - from,
    {
        let (end, next) = line_at(&chars, from);
        let line = text::string_of(&chars, from, end);
        if let Some((code, name)) = text::split_once(line.as_str(), '\t') {
            if text::same(fold(name.as_str()).as_str(), wanted) {
                return Some(text::to_ascii_lowercase(code.as_str()));
            }
        }
        from = next;
    }
    assert(all.skip(n as int).len() == 0);
    None
}

/// Where the line that starts at `from` ends, and where the next one starts.
fn line_at(chars: &Vec<char>, from: usize) -> (r: (usize, usize))
    requires
        from < chars@.len(),
    ensures
        from <= r.0 <= r.1 <= chars@.len(),
        from < r.1,
        text::lines_of(chars@.skip(from as int)).len() > 0,
        text::lines_of(chars@.skip(from as int))[0] == chars@.subrange(from as int, r.0 as int),
        text::lines_of(chars@.skip(from as int)).drop_first() == text::lines_of(chars@.skip(r.1 as int)),
{
    let n: usize = chars.len();
    let ghost rest = chars@.skip(from as int);
    let at = text::find(chars, from, '\n');
    if at == n {
        assert(chars@.subrange(from as int, n as int) =~= rest);
        assert(chars@.skip(n as int).len() == 0);
        assert(text::lines_of(rest) =~= seq![rest]);
        assert(text::lines_of(rest).drop_first() =~= text::lines_of(chars@.skip(n as int)));
        (n, n)
    } else {
        let end: usize = if at > from && chars[at - 1] == '\r' {
            at - 1
        } else {
            at
        };
        assert(rest.take(at - from) =~= chars@.subrange(from as int, at as int));
        assert(text::strip_cr(rest.take(at - from)) =~= chars@.subrange(from as int, end as int));
        assert(rest.skip(at - from + 1) =~= chars@.skip(at as int + 1));
        assert(text::lines_of(rest).drop_first() =~= text::lines_of(chars@.skip(at as int + 1)));
        (end, at + 1)
    }
}

/// The country's name for a list header. The control plane sends a code, and a
/// code is not a label.
pub fn english_name(code: &str) -> (r: Option<&'static str>)
    ensures
        r is Some <==> name_of(text::lines_of(COUNTRY_NAMES@), text::ascii_lower(text::trimmed(code@))) is Some,
        r matches Some(name) ==> name_of(text::lines_of(COUNTRY_NAMES@), text::ascii_lower(text::trimmed(code@)))
            == Some(name@),
{
    let wanted = text::to_ascii_lowercase(text::trim(code).as_str());
    let chars = text::chars_of(COUNTRY_NAMES);
    let n: usize = chars.len();
    let ghost all = COUNTRY_NAMES@;
    let mut from: usize = 0;
    assert(all.skip(0) =~= all);
    while from < n
        invariant
            from <= n == chars@.len(),
            chars@ == all,
            all == COUNTRY_NAMES@,
            wanted@ == text::ascii_lower(text::trimmed(code@)),
            name_of(text::lines_of(all), wanted@) == name_of(
                text::lines_of(all.skip(from as int)),
                wanted@,
            ),
        decreases n - from,
    {
        let (end, next) = line_at(&chars, from);
        let line = text::string_of(&chars, from, end);
        if let Some((own, name)) = text::split_once(line.as_str(), '\t') {
            if text::same(own.as_str(), wanted.as_str()) {
                let skip: usize = own.as_str().unicode_len();
                assert(line@.skip(skip as int + 1) =~= all.subrange(from + skip + 1, end as int));
                return Some(COUNTRY_NAMES.substring_char(from + skip + 1, end));
            }
        }
        from = next;
    }
    assert(all.skip(n as int).len() == 0);
    None
}

/// A code wins: when it is two letters, whatever the name says, the country is the
/// code's.
pub proof fn lemma_a_code_wins(code: Seq<char>, name: Seq<char>)
    requires
        is_alpha2(text::ascii_lower(text::trimmed(code))),
    ensures
        resolved(code, name) == Some(text::ascii_lower(text::trimmed(code))),
{
}

/// A code that is not two letters counts for nothing: the name alone settles it.
pub proof fn lemma_any_other_code_is_none(code: Seq<char>, name: Seq<char>)
    requires
        !is_alpha2(text::trimmed(code)),
    ensures
        resolved(code, name) == resolved(Seq::empty(), name),
{
    let none = Seq::<char>::empty();
    assert(text::trimmed(none).len() == 0);
    assert(text::ascii_lower(text::trimmed(none)).len() == 0);
    let lower = text::ascii_lower(text::trimmed(code));
    if lower.len() == 2 {
        assert(lower[0] == text::lower_char(text::trimmed(code)[0]));
        assert(lower[1] == text::lower_char(text::trimmed(code)[1]));
    }
}

proof fn lemma_named_again(records: Seq<Seq<char>>, code: Seq<char>, name: Seq<char>)
    requires
        name_of(records, code) == Some(name),
    ensures
        code_named(records, folded(name)) is Some,
    decreases records.len(),
{
    if records.len() > 0 {
        match text::cut(records[0], '\t') {
            Some((c, n)) if c == code => {},
            _ => {
                lemma_named_again(records.drop_first(), code, name);
            },
        }
    }
}

/// Whether a record gives that folded name to another code.
pub open spec fn names_other(record: Seq<char>, wanted: Seq<char>, code: Seq<char>) -> bool {
    match text::cut(record, '\t') {
        Some((c, name)) => folded(name) == wanted && text::ascii_lower(c) != code,
        None => false,
    }
}

proof fn lemma_named_as(records: Seq<Seq<char>>, wanted: Seq<char>, code: Seq<char>)
    requires
        code_named(records, wanted) is Some,
        forall|i: int| 0 <= i < records.len() ==> !names_other(#[trigger] records[i], wanted, code),
    ensures
        code_named(records, wanted) == Some(code),
    decreases records.len(),
{
    if records.len() > 0 {
        assert(!names_other(records[0], wanted, code));
        let rest = records.drop_first();
        assert forall|i: int| 0 <= i < rest.len() implies !names_other(
            #[trigger] rest[i],
            wanted,
            code,
        ) by {
            assert(rest[i] == records[i + 1]);
        }
        match text::cut(records[0], '\t') {
            Some((c, name)) if folded(name) == wanted => {},
            _ => {
                lemma_named_as(rest, wanted, code);
            },
        }
    }
}

/// Every name that is handed out for a code can be looked up again: without a code it
/// settles on a country, and on the same one when no record gives the name to another.
pub proof fn lemma_a_name_is_found_again(code: Seq<char>, name: Seq<char>)
    requires
        name_of(text::lines_of(COUNTRY_NAMES@), text::ascii_lower(text::trimmed(code))) == Some(
            name,
        ),
        folded(name).len() > 0,
    ensures
        resolved(Seq::empty(), name) is Some,
        (forall|i: int|
            0 <= i < text::lines_of(COUNTRY_NAMES@).len() ==> !names_other(
                #[trigger] text::lines_of(COUNTRY_NAMES@)[i],
                folded(name),
                text::ascii_lower(text::trimmed(code)),
            )) ==> resolved(Seq::empty(), name) == Some(text::ascii_lower(text::trimmed(code))),
{
    let records = text::lines_of(COUNTRY_NAMES@);
    let own = text::ascii_lower(text::trimmed(code));
    let none = Seq::<char>::empty();
    assert(text::ascii_lower(text::trimmed(none)).len() == 0);
    lemma_named_again(records, own, name);
    if forall|i: int| 0 <= i < records.len() ==> !names_other(#[trigger] records[i], folded(name), own) {
        lemma_named_as(records, folded(name), own);
    }
}

/// Whether `c` is one of the accented letters that fold to a plain one.
pub open spec fn is_accented(c: char) -> bool {
    fold_char(c) != c
}

/// Folding looks past white space around a text, keeps as many characters as its lower
/// case has, leaves no accented letter in it, and changes nothing else.
pub proof fn lemma_folding(s: Seq<char>)
    ensures
        folded(s) == folded(text::trimmed(s)),
        folded(s).len() == text::lowercase(text::trimmed(s)).len(),
        forall|i: int|
            0 <= i < folded(s).len() ==> {
                let c = text::lowercase(text::trimmed(s))[i];
                &&& !is_accented(#[trigger] folded(s)[i])
                &&& !is_accented(c) ==> folded(s)[i] == c
            },
        plain(folded(s)) == folded(s),
{
    text::lemma_trimmed_twice(s);
    assert(plain(folded(s)) =~= folded(s));
}

/// Folding twice is folding once, for every text whose folded form lower-casing leaves
/// alone, and such a name settles on the same country as its folded form.
pub proof fn lemma_folding_twice(s: Seq<char>)
    requires
        text::lowercase(text::trimmed(folded(s))) == folded(s),
    ensures
        folded(folded(s)) == folded(s),
        resolved(Seq::empty(), folded(s)) == resolved(Seq::empty(), s),
{
    lemma_folding(s);
}

/// A city beats its country: where the table has the city, that is where the node
/// is, and the middle of the country only covers for a city it does not have.
pub proof fn lemma_a_city_beats_its_country(country: Seq<char>, city: Seq<char>)
    ensures
        city_from(country, city, 0) is Some ==> located(country, city) == city_from(
            country,
            city,
            0,
        ),
        city_from(country, city, 0) is None ==> located(country, city) == country_from(country, 0),
{
}

/// The row of the countries' table that the country of each city stands in.
const HOMES: [usize; 111] = [
    1, 3, 4, 5, 5, 5, 5, 5, 7, 9, 10, 11, 13, 13, 13, 13,
    14, 14, 15, 17, 19, 20, 21, 21, 21, 21, 22, 26, 28, 28, 28, 29,
    30, 30, 30, 30, 31, 31, 31, 32, 33, 35, 36, 37, 38, 39, 40, 41,
    41, 41, 43, 44, 44, 44, 44, 45, 45, 48, 49, 51, 52, 53, 55, 57,
    59, 59, 60, 61, 62, 62, 62, 63, 63, 65, 67, 68, 70, 71, 73, 74,
    77, 77, 77, 78, 79, 80, 81, 83, 84, 85, 0, 86, 86, 86, 86, 86,
    86, 86, 86, 86, 86, 86, 86, 86, 86, 86, 86, 86, 90, 91, 91,
];

/// Whether the countries of the first `n` cities all stand where they should in the
/// countries' table.
spec fn homed(n: nat) -> bool
    decreases n,
{
    n == 0 || (homed((n - 1) as nat) && HOMES@[n - 1] < COUNTRIES@.len() && CITIES@[n - 1].0@
        == COUNTRIES@[HOMES@[n - 1] as int].0@)
}

proof fn lemma_homed()
    ensures
        homed(111),
{
    assert(homed(30)) by {
        reveal_with_fuel(homed, 31);
    }
    assert(homed(60)) by {
        reveal_with_fuel(homed, 31);
    }
    assert(homed(90)) by {
        reveal_with_fuel(homed, 31);
    }
    assert(homed(111)) by {
        reveal_with_fuel(homed, 22);
    }
}

proof fn lemma_homed_below(n: nat, i: int)
    requires
        homed(n),
        0 <= i < n,
    ensures
        HOMES@[i] < COUNTRIES@.len(),
        CITIES@[i].0@ == COUNTRIES@[HOMES@[i] as int].0@,
    decreases n,
{
    if i < n - 1 {
        lemma_homed_below((n - 1) as nat, i);
    }
}

proof fn lemma_country_found(country: Seq<char>, from: int, at: int)
    requires
        0 <= from <= at < COUNTRIES@.len(),
        COUNTRIES@[at].0@ == country,
    ensures
        country_from(country, from) is Some,
    decreases at - from,
{
    if from < at {
        lemma_country_found(country, from + 1, at);
    }
}

proof fn lemma_city_in_country(country: Seq<char>, city: Seq<char>, from: int)
    requires
        0 <= from,
        city_from(country, city, from) is Some,
    ensures
        country_from(country, 0) is Some,
    decreases CITIES@.len() - from,
{
    if CITIES@[from].0@ == country && CITIES@[from].1@ == city {
        lemma_homed();
        lemma_homed_below(111, from);
        lemma_country_found(country, 0, HOMES@[from] as int);
    } else {
        lemma_city_in_country(country, city, from + 1);
    }
}

/// Whether a node is placed depends on its country alone: the middle of the country
/// covers for any city, and no city is known of a country that is not.
pub proof fn lemma_placing_depends_on_the_country(
    country: Seq<char>,
    a: Seq<char>,
    b: Seq<char>,
)
    ensures
        located(country, a) is Some == located(country, b) is Some,
        located(country, a) is Some == country_from(country, 0) is Some,
{
    if city_from(country, a, 0) is Some {
        lemma_city_in_country(country, a, 0);
    }
    if city_from(country, b, 0) is Some {
        lemma_city_in_country(country, b, 0);
    }
}

proof fn lemma_city_row(country: Seq<char>, city: Seq<char>, from: int, k: int)
    requires
        0 <= from <= k,
        is_city_row(country, city, k),
    ensures
        city_from(country, city, from) == Some(Place { lat: CITIES@[k].2, lon: CITIES@[k].3 }),
    decreases k - from,
{
    if from < k {
        assert(CITIES@[from].0@ != country || CITIES@[from].1@ != city);
        lemma_city_row(country, city, from + 1, k);
    }
}

proof fn lemma_country_row(country: Seq<char>, from: int, k: int)
    requires
        0 <= from <= k,
        is_country_row(country, k),
    ensures
        country_from(country, from) == Some(
            Place { lat: COUNTRIES@[k].1, lon: COUNTRIES@[k].2 },
        ),
    decreases k - from,
{
    if from < k {
        assert(COUNTRIES@[from].0@ != country);
        lemma_country_row(country, from + 1, k);
    }
}

proof fn lemma_found_city_row(country: Seq<char>, city: Seq<char>, from: int) -> (k: int)
    requires
        0 <= from,
        city_from(country, city, from) is Some,
        forall|i: int|
            0 <= i < from && i < CITIES@.len() ==> CITIES@[i].0@ != country
                || (#[trigger] CITIES@[i]).1@ != city,
    ensures
        is_city_row(country, city, k),
    decreases CITIES@.len() - from,
{
    if CITIES@[from].0@ == country && CITIES@[from].1@ == city {
        from
    } else {
        lemma_found_city_row(country, city, from + 1)
    }
}

/// When no row of the cities' table is of the country and the city, a node is in the
/// middle of the country: its latitude is the latitude column of the first row of that
/// country, its longitude the longitude column.
pub proof fn lemma_the_middle_of_the_country(country: Seq<char>, city: Seq<char>, k: int)
    requires
        forall|i: int|
            0 <= i < CITIES@.len() ==> CITIES@[i].0@ != country || (#[trigger] CITIES@[i]).1@ != city,
        0 <= k < COUNTRIES@.len(),
        COUNTRIES@[k].0@ == country,
        forall|i: int| 0 <= i < k ==> (#[trigger] COUNTRIES@[i]).0@ != country,
    ensures
        located(country, city) == Some(Place { lat: COUNTRIES@[k].1, lon: COUNTRIES@[k].2 }),
{
    if city_from(country, city, 0) is Some {
        let i = lemma_found_city_row(country, city, 0);
        assert(CITIES@[i].0@ != country || CITIES@[i].1@ != city);
    }
    lemma_country_row(country, 0, k);
}

/// Where the cities' table has the country and the city, the node is where the first
/// such row says: at its latitude and its longitude.
pub proof fn lemma_the_place_of_the_city(country: Seq<char>, city: Seq<char>, k: int)
    requires
        0 <= k < CITIES@.len(),
        CITIES@[k].0@ == country,
        CITIES@[k].1@ == city,
        forall|i: int|
            0 <= i < k ==> CITIES@[i].0@ != country || (#[trigger] CITIES@[i]).1@ != city,
    ensures
        located(country, city) == Some(Place { lat: CITIES@[k].2, lon: CITIES@[k].3 }),
{
    lemma_city_row(country, city, 0, k);
}

/// A country that neither table has is nowhere on the map.
pub proof fn lemma_nowhere_on_the_map(country: Seq<char>, city: Seq<char>)
    requires
        forall|i: int| 0 <= i < COUNTRIES@.len() ==> (#[trigger] COUNTRIES@[i]).0@ != country,
    ensures
        located(country, city) is None,
{
    lemma_placing_depends_on_the_country(country, city, city);
    lemma_no_country_row(country, 0);
}

proof fn lemma_no_country_row(country: Seq<char>, from: int)
    requires
        0 <= from,
        forall|i: int| 0 <= i < COUNTRIES@.len() ==> (#[trigger] COUNTRIES@[i]).0@ != country,
    ensures
        country_from(country, from) is None,
    decreases COUNTRIES@.len() - from,
{
    if from < COUNTRIES@.len() {
        assert(COUNTRIES@[from].0@ != country);
        lemma_no_country_row(country, from + 1);
    }
}

/// Whether a point is one of the globe.
pub open spec fn is_on_globe(lat: i32, lon: i32) -> bool {
    -9000 <= lat <= 9000 && -18000 <= lon <= 18000
}

/// Whether the first `n` cities are on the globe.
spec fn cities_on_globe(n: nat) -> bool
    decreases n,
{
    n == 0 || (cities_on_globe((n - 1) as nat) && is_on_globe(CITIES@[n - 1].2, CITIES@[n - 1].3))
}

/// Whether the first `n` countries are on the globe.
spec fn countries_on_globe(n: nat) -> bool
    decreases n,
{
    n == 0 || (countries_on_globe((n - 1) as nat) && is_on_globe(
        COUNTRIES@[n - 1].1,
        COUNTRIES@[n - 1].2,
    ))
}

proof fn lemma_tables_on_globe()
    ensures
        cities_on_globe(111),
        countries_on_globe(92),
{
    assert(cities_on_globe(30)) by {
        reveal_with_fuel(cities_on_globe, 31);
    }
    assert(cities_on_globe(60)) by {
        reveal_with_fuel(cities_on_globe, 31);
    }
    assert(cities_on_globe(90)) by {
        reveal_with_fuel(cities_on_globe, 31);
    }
    assert(cities_on_globe(111)) by {
        reveal_with_fuel(cities_on_globe, 22);
    }
    assert(countries_on_globe(30)) by {
        reveal_with_fuel(countries_on_globe, 31);
    }
    assert(countries_on_globe(60)) by {
        reveal_with_fuel(countries_on_globe, 31);
    }
    assert(countries_on_globe(92)) by {
        reveal_with_fuel(countries_on_globe, 33);
    }
}

proof fn lemma_city_on_globe(n: nat, i: int)
    requires
        cities_on_globe(n),
        0 <= i < n,
    ensures
        is_on_globe(CITIES@[i].2, CITIES@[i].3),
    decreases n,
{
    if i < n - 1 {
        lemma_city_on_globe((n - 1) as nat, i);
    }
}

proof fn lemma_country_on_globe(n: nat, i: int)
    requires
        countries_on_globe(n),
        0 <= i < n,
    ensures
        is_on_globe(COUNTRIES@[i].1, COUNTRIES@[i].2),
    decreases n,
{
    if i < n - 1 {
        lemma_country_on_globe((n - 1) as nat, i);
    }
}

proof fn lemma_found_on_globe(country: Seq<char>, city: Seq<char>, from: int)
    requires
        0 <= from,
    ensures
        city_from(country, city, from) matches Some(place) ==> is_on_globe(place.lat, place.lon),
        country_from(country, from) matches Some(place) ==> is_on_globe(place.lat, place.lon),
    decreases 111 - from,
{
    lemma_tables_on_globe();
    if from < 111 {
        lemma_city_on_globe(111, from);
        lemma_found_on_globe(country, city, from + 1);
    }
    if from < 92 {
        lemma_country_on_globe(92, from);
    }
}

/// Every place that is handed out is a point of the globe: its latitude is within ninety
/// degrees of the equator, its longitude within a hundred and eighty of the meridian.
pub proof fn lemma_every_place_is_on_the_globe(country: Seq<char>, city: Seq<char>)
    ensures
        located(country, city) matches Some(place) ==> -9000 <= place.lat <= 9000 && -18000
            <= place.lon <= 18000,
{
    lemma_found_on_globe(country, city, 0);
}

proof fn lemma_located(country: Seq<char>, city: Seq<char>)
    ensures
        forall|k: int|
            #![trigger CITIES@[k]]
            is_city_row(country, city, k) ==> located(country, city) == Some(
                Place { lat: CITIES@[k].2, lon: CITIES@[k].3 },
            ),
        forall|k: int|
            #![trigger COUNTRIES@[k]]
            (forall|i: int| !is_city_row(country, city, i)) && is_country_row(country, k)
                ==> located(country, city) == Some(
                Place { lat: COUNTRIES@[k].1, lon: COUNTRIES@[k].2 },
            ),
        located(country, city) matches Some(place) ==> -9000 <= place.lat <= 9000 && -18000
            <= place.lon <= 18000,
{
    lemma_every_place_is_on_the_globe(country, city);
    assert forall|k: int|
        #![trigger CITIES@[k]]
        is_city_row(country, city, k) implies located(country, city) == Some(
        Place { lat: CITIES@[k].2, lon: CITIES@[k].3 },
    ) by {
        lemma_city_row(country, city, 0, k);
    }
    assert forall|k: int|
        #![trigger COUNTRIES@[k]]
        (forall|i: int| !is_city_row(country, city, i)) && is_country_row(
            country,
            k,
        ) implies located(country, city) == Some(
        Place { lat: COUNTRIES@[k].1, lon: COUNTRIES@[k].2 },
    ) by {
        if city_from(country, city, 0) is Some {
            let i = lemma_found_city_row(country, city, 0);
            assert(is_city_row(country, city, i));
        }
        lemma_country_row(country, 0, k);
    }
}

/// The letters that fold are the accented small letters of Latin-1, each to the letter
/// it is an accented form of; every other character stays as it is.
pub proof fn lemma_folded_letters(c: char)
    ensures
        0xE0 <= c as u32 <= 0xE5 ==> fold_char(c) == 'a',
        c as u32 == 0xE7 ==> fold_char(c) == 'c',
        0xE8 <= c as u32 <= 0xEB ==> fold_char(c) == 'e',
        0xEC <= c as u32 <= 0xEF ==> fold_char(c) == 'i',
        c as u32 == 0xF1 ==> fold_char(c) == 'n',
        0xF2 <= c as u32 <= 0xF6 ==> fold_char(c) == 'o',
        0xF9 <= c as u32 <= 0xFC ==> fold_char(c) == 'u',
        c as u32 == 0xFD || c as u32 == 0xFF ==> fold_char(c) == 'y',
        !(0xE0 <= c as u32 <= 0xE5 || 0xE7 <= c as u32 <= 0xEF || 0xF1 <= c as u32 <= 0xF6 || 0xF9
            <= c as u32 <= 0xFD || c as u32 == 0xFF) ==> fold_char(c) == c,
{
}

/// A name settles on the country of the first record that spells it, in any case and
/// with or without its accents: the record's code, in lower case. It settles on none
/// when no record does.
pub proof fn lemma_the_record_of_a_name(
    records: Seq<Seq<char>>,
    wanted: Seq<char>,
    k: int,
    code: Seq<char>,
    name: Seq<char>,
)
    requires
        0 <= k <= records.len(),
        forall|i: int|
            0 <= i < k ==> (text::cut(#[trigger] records[i], '\t') matches Some((_, other))
                ==> folded(other) != wanted),
        k < records.len() ==> text::cut(records[k], '\t') == Some((code, name)) && folded(name)
            == wanted,
    ensures
        k < records.len() ==> code_named(records, wanted) == Some(text::ascii_lower(code)),
        k == records.len() ==> code_named(records, wanted) is None,
    decreases k,
{
    if k > 0 {
        let rest = records.drop_first();
        assert forall|i: int| 0 <= i < k - 1 implies (text::cut(#[trigger] rest[i], '\t') matches Some(
            (_, other),
        ) ==> folded(other) != wanted) by {
            assert(rest[i] == records[i + 1]);
        }
        assert(text::cut(records[0], '\t') matches Some((_, other)) ==> folded(other) != wanted);
        lemma_the_record_of_a_name(rest, wanted, k - 1, code, name);
    }
}

/// The name of a code is the one in the first record of that code, and there is none
/// when no record is.
pub proof fn lemma_the_record_of_a_code(
    records: Seq<Seq<char>>,
    k: int,
    code: Seq<char>,
    name: Seq<char>,
)
    requires
        0 <= k <= records.len(),
        forall|i: int|
            0 <= i < k ==> (text::cut(#[trigger] records[i], '\t') matches Some((other, _))
                ==> other != code),
        k < records.len() ==> text::cut(records[k], '\t') == Some((code, name)),
    ensures
        k < records.len() ==> name_of(records, code) == Some(name),
        k == records.len() ==> name_of(records, code) is None,
    decreases k,
{
    if k > 0 {
        let rest = records.drop_first();
        assert forall|i: int| 0 <= i < k - 1 implies (text::cut(#[trigger] rest[i], '\t') matches Some(
            (other, _),
        ) ==> other != code) by {
            assert(rest[i] == records[i + 1]);
        }
        assert(text::cut(records[0], '\t') matches Some((other, _)) ==> other != code);
        lemma_the_record_of_a_code(rest, k - 1, code, name);
    }
}

/// A code is two letters, in either case, whatever white space stands around it; and one
/// that is anything else counts for nothing.
pub proof fn lemma_what_a_code_is(code: Seq<char>, name: Seq<char>)
    ensures
        ({
            let own = text::trimmed(code);
            let two = own.len() == 2 && text::is_letter(own[0]) && text::is_letter(own[1]);
            &&& two ==> resolved(code, name) == Some(text::ascii_lower(own))
            &&& !two ==> resolved(code, name) == resolved(Seq::empty(), name)
        }),
        folded(name).len() == 0 ==> resolved(Seq::empty(), name) is None,
        folded(name).len() > 0 ==> resolved(Seq::empty(), name) == code_named(
            text::lines_of(COUNTRY_NAMES@),
            folded(name),
        ),
{
    let none = Seq::<char>::empty();
    assert(text::trimmed(none).len() == 0);
    assert(text::ascii_lower(text::trimmed(none)).len() == 0);
    let own = text::trimmed(code);
    let lower = text::ascii_lower(own);
    if own.len() == 2 {
        assert(lower[0] == text::lower_char(own[0]));
        assert(lower[1] == text::lower_char(own[1]));
    }
}

} // verus!
