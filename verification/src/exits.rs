//! The list of exits: what it shows of what the service sent.
use crate::api::{Exit, KIND_UNKNOWN};
use crate::flags;
use crate::geo;
use crate::geo::Place;
use crate::order;
use crate::order::{sorted, Rank};
use crate::text;
use vstd::prelude::*;
use vstd::string::*;

verus! {

// One exit

/// The state of an exit the service has set up for this device.
pub const PROVISIONED: &'static str = "provisioned";

/// Whether the service has set an exit up for this device.
pub open spec fn ready(exit: Exit) -> bool {
    exit.state@ == PROVISIONED@
}

/// Whether the service has set an exit up for this device.
pub fn is_ready(exit: &Exit) -> (r: bool)
    ensures
        r == ready(*exit),
        r == (exit.state@ == PROVISIONED@),
{
    text::same(exit.state.as_str(), PROVISIONED)
}

/// Which country an exit belongs to.
pub open spec fn key_of(exit: Exit) -> Seq<char> {
    match geo::resolved(exit.country_code@, exit.country@) {
        Some(code) => code,
        None => geo::folded(exit.country@),
    }
}

/// Which country a record belongs to, as a lowercase ISO-2 code. Records the
/// service left without a code fall back to their name; one it cannot resolve at
/// all falls back to the folded name, so two unknown countries stay apart
/// instead of collapsing into one heap.
pub fn country_key(exit: &Exit) -> (r: String)
    ensures
        r@ == key_of(*exit),
{
    match geo::resolve_code(exit.country_code.as_str(), exit.country.as_str()) {
        Some(code) => code,
        None => geo::fold(exit.country.as_str()),
    }
}

/// The name a country goes by on screen.
pub open spec fn label_of(code: Seq<char>, sent: Seq<char>) -> Seq<char> {
    match geo::name_of(
        text::lines_of(crate::places::COUNTRY_NAMES@),
        text::ascii_lower(text::trimmed(code)),
    ) {
        Some(name) => name,
        None => sent,
    }
}

/// The flag set's name for the country, falling back to whatever the service
/// called it, which is already an English name, just occasionally a different
/// spelling of the same country.
pub fn country_label(code: &str, sent: &str) -> (r: String)
    ensures
        r@ == label_of(code@, sent@),
{
    match geo::english_name(code) {
        Some(name) => name.to_owned(),
        None => sent.to_owned(),
    }
}

/// Whether a field, folded, holds the needle.
pub open spec fn field_holds(field: Seq<char>, needle: Seq<char>) -> bool {
    text::holds(geo::folded(field), needle)
}

/// Whether an exit matches what was typed.
pub open spec fn found(exit: Exit, needle: Seq<char>) -> bool {
    ||| needle.len() == 0
    ||| field_holds(exit.country@, needle)
    ||| field_holds(exit.city@, needle)
    ||| field_holds(exit.moniker@, needle)
    ||| field_holds(key_of(exit), needle)
    ||| field_holds(label_of(key_of(exit), exit.country@), needle)
}

fn in_field(field: &str, needle: &str) -> (r: bool)
    ensures
        r == field_holds(field@, needle@),
{
    text::contains(geo::fold(field).as_str(), needle)
}

/// Whether an exit matches what was typed. Folded on both sides, so "suede"
/// finds Suède, and against the name on screen too.
pub fn matches_filter(exit: &Exit, needle: &str) -> (r: bool)
    ensures
        r == found(*exit, needle@),
        needle@.len() == 0 ==> r,
        forall|a: Seq<char>, b: Seq<char>|
            {
                ||| geo::folded(exit.city@) == #[trigger] (a + needle@ + b)
                ||| geo::folded(exit.country@) == a + needle@ + b
                ||| geo::folded(exit.moniker@) == a + needle@ + b
                ||| geo::folded(key_of(*exit)) == a + needle@ + b
                ||| geo::folded(label_of(key_of(*exit), exit.country@)) == a + needle@ + b
            } ==> r,
        r && needle@.len() > 0 ==> exists|a: Seq<char>, b: Seq<char>|
            {
                ||| geo::folded(exit.city@) == #[trigger] (a + needle@ + b)
                ||| geo::folded(exit.country@) == a + needle@ + b
                ||| geo::folded(exit.moniker@) == a + needle@ + b
                ||| geo::folded(key_of(*exit)) == a + needle@ + b
                ||| geo::folded(label_of(key_of(*exit), exit.country@)) == a + needle@ + b
            },
{
    if needle.is_empty() {
        return true;
    }
    let code = country_key(exit);
    let r = in_field(exit.country.as_str(), needle) || in_field(exit.city.as_str(), needle)
        || in_field(exit.moniker.as_str(), needle) || in_field(code.as_str(), needle) || in_field(
        country_label(code.as_str(), exit.country.as_str()).as_str(),
        needle,
    );
    proof {
        assert forall|a: Seq<char>, b: Seq<char>|
            {
                ||| geo::folded(exit.city@) == #[trigger] (a + needle@ + b)
                ||| geo::folded(exit.country@) == a + needle@ + b
                ||| geo::folded(exit.moniker@) == a + needle@ + b
                ||| geo::folded(key_of(*exit)) == a + needle@ + b
                ||| geo::folded(label_of(key_of(*exit), exit.country@)) == a + needle@ + b
            } implies r by {
            lemma_any_piece_finds_the_exit(*exit, a, needle@, b);
        }
        lemma_only_a_piece_finds_the_exit(*exit, needle@);
    }
    r
}

/// Where an exit is, from what the service sent, or else from the table.
#[derive(Clone, Copy, PartialEq, Eq, Structural, Debug)]
pub enum Spot {
    /// The latitude and the longitude the service sent, as the bits of doubles.
    Given(u64, u64),
    /// Where the table puts it.
    Listed(Place),
}

/// Where something is: the coordinates that were sent, else the table's.
pub open spec fn spot_of(coords: crate::api::Coords, country: Seq<char>, city: Seq<char>) -> Option<Spot> {
    match crate::api::given(coords) {
        Some((lat, lon)) => Some(Spot::Given(lat, lon)),
        None => match geo::located(geo::folded(country), geo::folded(city)) {
            Some(place) => Some(Spot::Listed(place)),
            None => None,
        },
    }
}

/// Where an exit belongs on the map.
pub open spec fn exit_spot(exit: Exit) -> Option<Spot> {
    spot_of(exit.coords, key_of(exit), exit.city@)
}

fn spot(coords: crate::api::Coords, country: &str, city: &str) -> (r: Option<Spot>)
    ensures
        r == spot_of(coords, country@, city@),
{
    match coords.pair() {
        Some((lat, lon)) => Some(Spot::Given(lat, lon)),
        None => match geo::locate(country, city) {
            Some(place) => Some(Spot::Listed(place)),
            None => None,
        },
    }
}

/// Where a node belongs on the map. Coordinates from the service win; the table
/// only covers for a service that does not send any.
pub fn spot_for(exit: &Exit) -> (r: Option<Spot>)
    ensures
        r == exit_spot(*exit),
{
    spot(exit.coords, country_key(exit).as_str(), exit.city.as_str())
}

/// Where an entry node belongs on the map.
pub fn relay_spot(relay: &crate::api::Relay) -> (r: Option<Spot>)
    ensures
        r == spot_of(relay.coords, relay.country@, relay.city@),
{
    spot(relay.coords, relay.country.as_str(), relay.city.as_str())
}

// Rows

/// The number that stands for no exit.
pub const NO_EXIT: i32 = -1;

/// A row of the list: a country, or a node under it.
pub struct ExitEntry {
    pub header: bool,
    pub collapsed: bool,
    pub id: i32,
    pub code: String,
    pub label: String,
    pub moniker: String,
    pub ready: bool,
    pub kind: i32,
    pub asn: String,
    pub count: i32,
    pub ready_count: i32,
    /// Whether the row shows the flag of its code.
    pub has_flag: bool,
}

/// A row, apart from how it is held.
#[verifier::ext_equal]
pub struct Row {
    pub header: bool,
    pub collapsed: bool,
    pub id: i32,
    pub code: Seq<char>,
    pub label: Seq<char>,
    pub moniker: Seq<char>,
    pub ready: bool,
    pub kind: i32,
    pub asn: Seq<char>,
    pub count: i32,
    pub ready_count: i32,
    pub has_flag: bool,
}

impl View for ExitEntry {
    type V = Row;

    open spec fn view(&self) -> Row {
        Row {
            header: self.header,
            collapsed: self.collapsed,
            id: self.id,
            code: self.code@,
            label: self.label@,
            moniker: self.moniker@,
            ready: self.ready,
            kind: self.kind,
            asn: self.asn@,
            count: self.count,
            ready_count: self.ready_count,
            has_flag: self.has_flag,
        }
    }
}

/// The rows behind a list.
pub open spec fn rows(v: Seq<ExitEntry>) -> Seq<Row> {
    Seq::new(v.len(), |i: int| v[i]@)
}

impl ExitEntry {
    /// Whether the two rows show the same.
    pub fn same(&self, other: &ExitEntry) -> (r: bool)
        ensures
            r == (self@ == other@),
    {
        self.header == other.header && self.collapsed == other.collapsed && self.id == other.id
            && self.ready == other.ready && self.kind == other.kind && self.count == other.count
            && self.ready_count == other.ready_count && self.has_flag == other.has_flag
            && text::same(self.code.as_str(), other.code.as_str()) && text::same(
            self.label.as_str(),
            other.label.as_str(),
        ) && text::same(self.moniker.as_str(), other.moniker.as_str()) && text::same(
            self.asn.as_str(),
            other.asn.as_str(),
        )
    }
}

/// Whether two lists show the same. Replacing a list rebuilds every row,
/// dropping hover and scroll and letting the sort reorder lines under the
/// pointer, so it is replaced only when something actually moved.
pub fn same_entries(a: &Vec<ExitEntry>, b: &Vec<ExitEntry>) -> (r: bool)
    ensures
        r == (rows(a@) == rows(b@)),
{
    if a.len() != b.len() {
        assert(rows(a@).len() != rows(b@).len());
        return false;
    }
    let mut i: usize = 0;
    while i < a.len()
        invariant
            i <= a@.len() == b@.len(),
            forall|j: int| 0 <= j < i ==> (#[trigger] a@[j])@ == b@[j]@,
        decreases a@.len() - i,
    {
        if !a[i].same(&b[i]) {
            assert(rows(a@)[i as int] != rows(b@)[i as int]);
            return false;
        }
        i += 1;
    }
    assert(rows(a@) =~= rows(b@));
    true
}

/// The row of a node.
pub open spec fn node_row(exit: Exit) -> Row {
    Row {
        header: false,
        collapsed: false,
        id: exit.id as i32,
        code: key_of(exit),
        label: exit.city@,
        moniker: exit.moniker@,
        ready: ready(exit),
        kind: crate::api::kind_of(exit.residential),
        asn: match exit.asn {
            Some(asn) => asn@,
            None => Seq::empty(),
        },
        count: 0,
        ready_count: 0,
        has_flag: false,
    }
}

/// One node, under the country that already names it.
pub fn to_entry(exit: &Exit) -> (r: ExitEntry)
    ensures
        r@ == node_row(*exit),
        !r.header,
        r.id == exit.id as i32,
        r.code@ == key_of(*exit),
        r.label@ == exit.city@,
        r.moniker@ == exit.moniker@,
        r.ready == (exit.state@ == PROVISIONED@),
        exit.asn matches Some(asn) ==> r.asn@ == asn@,
        exit.asn is None ==> r.asn@.len() == 0,
{
    let asn = match &exit.asn {
        Some(asn) => asn.clone(),
        None => String::new(),
    };
    let r = ExitEntry {
        header: false,
        collapsed: false,
        id: exit.id as i32,
        code: country_key(exit),
        label: exit.city.clone(),
        moniker: exit.moniker.clone(),
        ready: is_ready(exit),
        kind: exit.kind(),
        asn,
        count: 0,
        ready_count: 0,
        has_flag: false,
    };
    assert(r@ =~= node_row(*exit));
    r
}

// Which exits are shown

/// Whether an exit is one of the kind wanted. A negative kind is any.
pub open spec fn wanted_kind(exit: Exit, wanted: i32) -> bool {
    wanted < 0 || crate::api::kind_of(exit.residential) == wanted
}

/// The places, among the first `n` of a list, of the exits that match what was
/// typed and are of the kind wanted.
pub open spec fn matching_in(list: Seq<Exit>, needle: Seq<char>, wanted: i32, n: int) -> Seq<usize>
    decreases n,
{
    if n <= 0 {
        Seq::empty()
    } else {
        let before = matching_in(list, needle, wanted, n - 1);
        if found(list[n - 1], needle) && wanted_kind(list[n - 1], wanted) {
            before.push((n - 1) as usize)
        } else {
            before
        }
    }
}

/// The places of the exits that match what was typed and are of the kind wanted.
pub open spec fn matching_of(list: Seq<Exit>, needle: Seq<char>, wanted: i32) -> Seq<usize> {
    matching_in(list, needle, wanted, list.len() as int)
}

/// The places of the exits that match what was typed and are of the kind wanted.
pub fn matching(list: &Vec<Exit>, needle: &str, wanted: i32) -> (r: Vec<usize>)
    ensures
        r@ == matching_of(list@, needle@, wanted),
{
    let mut r: Vec<usize> = Vec::new();
    let mut i: usize = 0;
    while i < list.len()
        invariant
            i <= list@.len(),
            r@ == matching_in(list@, needle@, wanted, i as int),
        decreases list@.len() - i,
    {
        if matches_filter(&list[i], needle) && (wanted < 0 || list[i].kind() == wanted) {
            r.push(i);
        }
        i += 1;
    }
    r
}

/// Exactly the exits that match are shown, each once and in the order they came.
pub proof fn lemma_matching(list: Seq<Exit>, needle: Seq<char>, wanted: i32, n: int)
    requires
        0 <= n <= list.len(),
        list.len() <= usize::MAX,
    ensures
        forall|i: int|
            0 <= i < matching_in(list, needle, wanted, n).len() ==> (#[trigger] matching_in(
                list,
                needle,
                wanted,
                n,
            )[i]) < n && found(list[matching_in(list, needle, wanted, n)[i] as int], needle)
                && wanted_kind(list[matching_in(list, needle, wanted, n)[i] as int], wanted),
        forall|i: int, j: int|
            0 <= i < j < matching_in(list, needle, wanted, n).len() ==> (#[trigger] matching_in(
                list,
                needle,
                wanted,
                n,
            )[i]) < #[trigger] matching_in(list, needle, wanted, n)[j],
        forall|place: usize|
            place < n && #[trigger] found(list[place as int], needle) && wanted_kind(
                list[place as int],
                wanted,
            ) ==> matching_in(list, needle, wanted, n).contains(place),
    decreases n,
{
    if n > 0 {
        lemma_matching(list, needle, wanted, n - 1);
        let before = matching_in(list, needle, wanted, n - 1);
        let all = matching_in(list, needle, wanted, n);
        assert forall|place: usize|
            place < n && #[trigger] found(list[place as int], needle) && wanted_kind(
                list[place as int],
                wanted,
            ) implies all.contains(place) by {
            if place < n - 1 {
                assert(before.contains(place));
                let i = choose|i: int| 0 <= i < before.len() && before[i] == place;
                assert(all[i] == place);
            } else {
                assert(all[all.len() - 1] == place);
            }
        }
    }
}

// Countries folded open and shut

/// The countries the user has folded open or shut by hand. Only explicit choices
/// are recorded: everything else follows the default, which is shut unless the
/// country holds the exit currently in service.
pub struct Folds {
    choices: Vec<(String, bool)>,
}

/// The last choice recorded for a country.
spec fn choice_in(choices: Seq<(String, bool)>, code: Seq<char>) -> Option<bool>
    decreases choices.len(),
{
    if choices.len() == 0 {
        None
    } else if choices.last().0@ == code {
        Some(choices.last().1)
    } else {
        choice_in(choices.drop_last(), code)
    }
}

/// No choice is recorded twice.
spec fn is_settled(choices: Seq<(String, bool)>) -> bool {
    forall|i: int, j: int|
        0 <= i < j < choices.len() ==> (#[trigger] choices[i]).0@ != (#[trigger] choices[j]).0@
}

proof fn lemma_choice(choices: Seq<(String, bool)>, code: Seq<char>)
    ensures
        choice_in(choices, code) matches Some(open) ==> exists|i: int|
            0 <= i < choices.len() && (#[trigger] choices[i]).0@ == code && choices[i].1 == open,
        choice_in(choices, code) is None ==> forall|i: int|
            0 <= i < choices.len() ==> (#[trigger] choices[i]).0@ != code,
    decreases choices.len(),
{
    if choices.len() > 0 {
        let before = choices.drop_last();
        lemma_choice(before, code);
        assert(choices[choices.len() - 1] == choices.last());
        if choices.last().0@ != code {
            match choice_in(before, code) {
                Some(open) => {
                    let i = choose|i: int|
                        0 <= i < before.len() && (#[trigger] before[i]).0@ == code && before[i].1
                            == open;
                    assert(choices[i] == before[i]);
                },
                None => {
                    assert forall|i: int| 0 <= i < choices.len() implies (#[trigger] choices[i]).0@
                        != code by {
                        if i < before.len() {
                            assert(choices[i] == before[i]);
                        }
                    }
                },
            }
        }
    }
}

impl Folds {
    /// What was chosen for each country.
    pub closed spec fn choice(self, code: Seq<char>) -> Option<bool> {
        choice_in(self.choices@, code)
    }

    /// Nothing chosen yet.
    pub fn new() -> (r: Folds)
        ensures
            r.wf(),
            forall|code: Seq<char>| r.choice(code) is None,
    {
        Folds { choices: Vec::new() }
    }

    /// Each country is recorded once.
    pub closed spec fn wf(self) -> bool {
        is_settled(self.choices@)
    }

    /// What was chosen for a country.
    pub fn get(&self, code: &str) -> (r: Option<bool>)
        requires
            self.wf(),
        ensures
            r == self.choice(code@),
    {
        proof {
            lemma_choice(self.choices@, code@);
        }
        let mut i: usize = 0;
        while i < self.choices.len()
            invariant
                i <= self.choices@.len(),
                self.wf(),
                forall|j: int| 0 <= j < i ==> (#[trigger] self.choices@[j]).0@ != code@,
                choice_in(self.choices@, code@) matches Some(open) ==> exists|j: int|
                    0 <= j < self.choices@.len() && (#[trigger] self.choices@[j]).0@ == code@
                        && self.choices@[j].1 == open,
                choice_in(self.choices@, code@) is None ==> forall|j: int|
                    0 <= j < self.choices@.len() ==> (#[trigger] self.choices@[j]).0@ != code@,
            decreases self.choices@.len() - i,
        {
            if text::same(self.choices[i].0.as_str(), code) {
                assert(self.choices@[i as int].0@ == code@);
                return Some(self.choices[i].1);
            }
            i += 1;
        }
        None
    }

    /// Records a choice for a country, in place of any there was.
    pub fn set(&mut self, code: &str, open: bool)
        requires
            old(self).wf(),
        ensures
            final(self).wf(),
            final(self).choice(code@) == Some(open),
            forall|other: Seq<char>|
                other != code@ ==> #[trigger] final(self).choice(other) == old(self).choice(other),
    {
        let ghost before = self.choices@;
        let mut kept: Vec<(String, bool)> = Vec::new();
        let mut i: usize = 0;
        assert(before.take(0) =~= Seq::empty());
        while i < self.choices.len()
            invariant
                i <= self.choices@.len(),
                before == self.choices@,
                is_settled(before),
                is_settled(kept@),
                forall|j: int|
                    0 <= j < kept@.len() ==> (#[trigger] kept@[j]).0@ != code@ && exists|k: int|
                        0 <= k < i && (#[trigger] before[k]).0@ == kept@[j].0@,
                forall|other: Seq<char>|
                    other != code@ ==> #[trigger] choice_in(kept@, other) == choice_in(
                        before.take(i as int),
                        other,
                    ),
            decreases self.choices@.len() - i,
        {
            let ghost was = kept@;
            assert(before.take(i as int + 1).drop_last() =~= before.take(i as int));
            assert(before.take(i as int + 1).last() == before[i as int]);
            if !text::same(self.choices[i].0.as_str(), code) {
                kept.push((self.choices[i].0.clone(), self.choices[i].1));
                assert(kept@.drop_last() =~= was);
                assert(kept@.last().0@ == before[i as int].0@);
                assert forall|j: int, k: int| 0 <= j < k < kept@.len() implies (#[trigger] kept@[j]).0@
                    != (#[trigger] kept@[k]).0@ by {
                    if k == was.len() {
                        let m = choose|m: int|
                            0 <= m < i && (#[trigger] before[m]).0@ == was[j].0@;
                        assert(before[m].0@ != before[i as int].0@);
                        assert(kept@[j] == was[j]);
                    } else {
                        assert(kept@[j] == was[j] && kept@[k] == was[k]);
                    }
                }
                assert forall|j: int| 0 <= j < kept@.len() implies (#[trigger] kept@[j]).0@ != code@
                    && exists|k: int|
                    0 <= k < i + 1 && (#[trigger] before[k]).0@ == kept@[j].0@ by {
                    if j < was.len() {
                        assert(kept@[j] == was[j]);
                        let k = choose|k: int| 0 <= k < i && (#[trigger] before[k]).0@ == was[j].0@;
                        assert(before[k].0@ == kept@[j].0@);
                    } else {
                        assert(before[i as int].0@ == kept@[j].0@);
                    }
                }
            }
            assert forall|other: Seq<char>| other != code@ implies #[trigger] choice_in(kept@, other)
                == choice_in(before.take(i as int + 1), other) by {
                assert(choice_in(was, other) == choice_in(before.take(i as int), other));
            }
            i += 1;
        }
        assert(before.take(i as int) =~= before);
        let ghost was = kept@;
        kept.push((code.to_owned(), open));
        assert(kept@.drop_last() =~= was);
        self.choices = kept;
        assert forall|other: Seq<char>| other != code@ implies #[trigger] self.choice(other)
            == choice_in(before, other) by {
            assert(choice_in(was, other) == choice_in(before, other));
        }
    }
}

// Countries

/// Whether each of these is a place in a list of that length.
pub open spec fn are_places(places: Seq<usize>, n: nat) -> bool {
    forall|i: int| 0 <= i < places.len() ==> (#[trigger] places[i]) < n
}

/// The countries of some exits, each once, in the order they first come up.
pub open spec fn countries_of(list: Seq<Exit>, places: Seq<usize>) -> Seq<Seq<char>>
    decreases places.len(),
{
    if places.len() == 0 {
        Seq::empty()
    } else {
        let before = countries_of(list, places.drop_last());
        let code = key_of(list[places.last() as int]);
        if before.contains(code) {
            before
        } else {
            before.push(code)
        }
    }
}

/// The places of the exits that belong to a country, in order.
pub open spec fn members_of(list: Seq<Exit>, places: Seq<usize>, code: Seq<char>) -> Seq<usize>
    decreases places.len(),
{
    if places.len() == 0 {
        Seq::empty()
    } else {
        let before = members_of(list, places.drop_last(), code);
        if key_of(list[places.last() as int]) == code {
            before.push(places.last())
        } else {
            before
        }
    }
}

/// Every exit belongs to one of the countries, and a country is listed only when
/// an exit belongs to it, and once.
pub proof fn lemma_countries(list: Seq<Exit>, places: Seq<usize>)
    ensures
        forall|i: int|
            0 <= i < places.len() ==> countries_of(list, places).contains(
                key_of(list[#[trigger] places[i] as int]),
            ),
        forall|i: int, j: int|
            0 <= i < j < countries_of(list, places).len() ==> (#[trigger] countries_of(list, places)[i])
                != #[trigger] countries_of(list, places)[j],
        forall|g: int|
            0 <= g < countries_of(list, places).len() ==> members_of(
                list,
                places,
                #[trigger] countries_of(list, places)[g],
            ).len() > 0,
        countries_of(list, places).len() <= places.len(),
    decreases places.len(),
{
    if places.len() > 0 {
        let last = places.drop_last();
        lemma_countries(list, last);
        let before = countries_of(list, last);
        let all = countries_of(list, places);
        let code = key_of(list[places.last() as int]);
        assert forall|i: int| 0 <= i < places.len() implies all.contains(
            key_of(list[#[trigger] places[i] as int]),
        ) by {
            if i < last.len() {
                assert(last[i] == places[i]);
                let key = key_of(list[places[i] as int]);
                assert(before.contains(key));
                let g = choose|g: int| 0 <= g < before.len() && before[g] == key;
                assert(all[g] == key);
            } else if before.contains(code) {
                assert(all == before);
            } else {
                assert(all[all.len() - 1] == code);
            }
        }
        assert forall|g: int| 0 <= g < all.len() implies members_of(
            list,
            places,
            #[trigger] all[g],
        ).len() > 0 by {
            if g < before.len() {
                assert(all[g] == before[g]);
                assert(members_of(list, last, before[g]).len() > 0);
            }
        }
    }
}

/// An exit is a member of its own country and of no other: the countries part
/// the exits between them.
pub proof fn lemma_members(list: Seq<Exit>, places: Seq<usize>, code: Seq<char>)
    ensures
        forall|place: usize|
            members_of(list, places, code).contains(place) <==> (#[trigger] places.contains(place)
                && key_of(list[place as int]) == code),
    decreases places.len(),
{
    if places.len() > 0 {
        let last = places.drop_last();
        lemma_members(list, last, code);
        let before = members_of(list, last, code);
        let all = members_of(list, places, code);
        assert forall|place: usize|
            all.contains(place) <==> (#[trigger] places.contains(place) && key_of(
                list[place as int],
            ) == code) by {
            if all.contains(place) {
                let i = choose|i: int| 0 <= i < all.len() && all[i] == place;
                if i < before.len() {
                    assert(before[i] == place);
                    assert(before.contains(place));
                    assert(last.contains(place));
                    let j = choose|j: int| 0 <= j < last.len() && last[j] == place;
                    assert(places[j] == place);
                } else {
                    assert(places[places.len() - 1] == place);
                }
            }
            if places.contains(place) && key_of(list[place as int]) == code {
                let j = choose|j: int| 0 <= j < places.len() && places[j] == place;
                if j < last.len() {
                    assert(last[j] == place);
                    assert(last.contains(place));
                    assert(before.contains(place));
                    let i = choose|i: int| 0 <= i < before.len() && before[i] == place;
                    assert(all[i] == place);
                } else {
                    assert(all[all.len() - 1] == place);
                }
            }
        }
    } else {
        assert(members_of(list, places, code).len() == 0);
    }
}

/// Exits by country.
struct Countries {
    codes: Vec<String>,
    members: Vec<Vec<usize>>,
}

/// Whether exits have been parted by country, as far as `places` goes.
spec fn is_parted(c: Countries, list: Seq<Exit>, places: Seq<usize>) -> bool {
    &&& text::texts(c.codes@) == countries_of(list, places)
    &&& c.members@.len() == c.codes@.len()
    &&& forall|g: int|
        0 <= g < c.members@.len() ==> (#[trigger] c.members@[g])@ == members_of(
            list,
            places,
            c.codes@[g]@,
        )
}

/// The place of a country among some, if it is there.
fn place_of(codes: &Vec<String>, code: &str) -> (r: Option<usize>)
    ensures
        match r {
            Some(g) => g < codes@.len() && codes@[g as int]@ == code@,
            None => !text::texts(codes@).contains(code@),
        },
{
    let mut g: usize = 0;
    while g < codes.len()
        invariant
            g <= codes@.len(),
            forall|j: int| 0 <= j < g ==> (#[trigger] codes@[j])@ != code@,
        decreases codes@.len() - g,
    {
        if text::same(codes[g].as_str(), code) {
            return Some(g);
        }
        g += 1;
    }
    assert forall|j: int| 0 <= j < text::texts(codes@).len() implies text::texts(codes@)[j]
        != code@ by {
        assert(codes@[j]@ != code@);
    }
    None
}

fn part(list: &Vec<Exit>, places: &Vec<usize>) -> (r: Countries)
    requires
        are_places(places@, list@.len()),
    ensures
        is_parted(r, list@, places@),
{
    let mut r = Countries { codes: Vec::new(), members: Vec::new() };
    let mut i: usize = 0;
    assert(places@.take(0) =~= Seq::empty());
    assert(text::texts(r.codes@) =~= Seq::empty());
    while i < places.len()
        invariant
            i <= places@.len(),
            are_places(places@, list@.len()),
            is_parted(r, list@, places@.take(i as int)),
        decreases places@.len() - i,
    {
        let ghost was = r;
        let ghost before = places@.take(i as int);
        let ghost now = places@.take(i as int + 1);
        assert(now.drop_last() =~= before);
        let place = places[i];
        assert(now.last() == place);
        assert(place < list@.len());
        let code = country_key(&list[place]);
        proof {
            lemma_countries(list@, before);
        }
        match place_of(&r.codes, code.as_str()) {
            Some(g) => {
                let mut members: Vec<usize> = Vec::new();
                std::mem::swap(&mut members, &mut r.members[g]);
                members.push(place);
                std::mem::swap(&mut members, &mut r.members[g]);
                assert(text::texts(r.codes@)[g as int] == code@);
                assert(countries_of(list@, now) == countries_of(list@, before));
                assert forall|h: int| 0 <= h < r.members@.len() implies (#[trigger] r.members@[h])@
                    == members_of(list@, now, r.codes@[h]@) by {
                    assert(was.members@[h]@ == members_of(list@, before, was.codes@[h]@));
                    if h != g {
                        assert(countries_of(list@, before)[h] == r.codes@[h]@);
                        assert(countries_of(list@, before)[g as int] == code@);
                    }
                }
            },
            None => {
                proof {
                    lemma_no_members(list@, before, code@);
                }
                let mut members: Vec<usize> = Vec::new();
                members.push(place);
                r.codes.push(code);
                r.members.push(members);
                assert(text::texts(r.codes@) =~= text::texts(was.codes@).push(code@));
                assert forall|h: int| 0 <= h < r.members@.len() implies (#[trigger] r.members@[h])@
                    == members_of(list@, now, r.codes@[h]@) by {
                    if h < was.members@.len() {
                        assert(was.members@[h]@ == members_of(list@, before, was.codes@[h]@));
                        assert(countries_of(list@, before)[h] == was.codes@[h]@);
                        assert(was.codes@[h]@ != code@);
                    } else {
                        assert(members@ =~= seq![place]);
                        assert(members_of(list@, now, code@) =~= seq![place]);
                    }
                }
            },
        }
        i += 1;
    }
    assert(places@.take(i as int) =~= places@);
    r
}

/// A country none of the exits belongs to has no members.
proof fn lemma_no_members(list: Seq<Exit>, places: Seq<usize>, code: Seq<char>)
    requires
        forall|k: int| 0 <= k < places.len() ==> key_of(list[#[trigger] places[k] as int]) != code,
    ensures
        members_of(list, places, code).len() == 0,
    decreases places.len(),
{
    if places.len() > 0 {
        assert(places[places.len() - 1] == places.last());
        assert forall|k: int| 0 <= k < places.drop_last().len() implies key_of(
            list[#[trigger] places.drop_last()[k] as int],
        ) != code by {
            assert(places.drop_last()[k] == places[k]);
        }
        lemma_no_members(list, places.drop_last(), code);
    }
}

/// How many of these exits are ready.
pub open spec fn ready_in(list: Seq<Exit>, members: Seq<usize>) -> nat
    decreases members.len(),
{
    if members.len() == 0 {
        0
    } else {
        ready_in(list, members.drop_last()) + if ready(list[members.last() as int]) {
            1nat
        } else {
            0nat
        }
    }
}

/// The kind all of these exits are of, if it is one.
pub open spec fn common_kind(list: Seq<Exit>, members: Seq<usize>) -> i32 {
    let kind = crate::api::kind_of(list[members[0] as int].residential);
    if members.len() > 0 && forall|i: int|
        0 <= i < members.len() ==> crate::api::kind_of(list[#[trigger] members[i] as int].residential)
            == kind {
        kind
    } else {
        KIND_UNKNOWN
    }
}

/// Whether one of these exits has that number.
pub open spec fn holds_exit(list: Seq<Exit>, members: Seq<usize>, id: i64) -> bool {
    exists|i: int| 0 <= i < members.len() && list[#[trigger] members[i] as int].id == id
}

/// Whether a country is open. A filter opens everything it matched; otherwise
/// only the country in service is open, unless the user said otherwise.
pub open spec fn is_open(
    list: Seq<Exit>,
    members: Seq<usize>,
    chosen: i64,
    filtering: bool,
    choice: Option<bool>,
) -> bool {
    filtering || (match choice {
        Some(open) => open,
        None => holds_exit(list, members, chosen),
    })
}

/// The row of a country.
pub open spec fn country_row(
    list: Seq<Exit>,
    code: Seq<char>,
    members: Seq<usize>,
    open: bool,
) -> Row {
    Row {
        header: true,
        collapsed: !open,
        id: NO_EXIT,
        code,
        label: label_of(code, list[members[0] as int].country@),
        moniker: Seq::empty(),
        ready: ready_in(list, members) > 0,
        kind: common_kind(list, members),
        asn: Seq::empty(),
        count: members.len() as i32,
        ready_count: ready_in(list, members) as i32,
        has_flag: exists|i: int| flags::is_record(flags::key_of(code), i),
    }
}

/// What the nodes of a country are ordered by. Whatever is already running comes
/// first: picking it costs nothing.
pub open spec fn node_ranks(list: Seq<Exit>, members: Seq<usize>) -> Seq<
    (bool, Seq<char>, Seq<char>),
> {
    Seq::new(
        members.len(),
        |i: int|
            (
                !ready(list[members[i] as int]),
                list[members[i] as int].city@,
                list[members[i] as int].moniker@,
            ),
    )
}

/// The rows of the nodes of a country, in order.
pub open spec fn node_rows(list: Seq<Exit>, members: Seq<usize>) -> Seq<Row> {
    let order = order::order_of(node_ranks(list, members));
    Seq::new(members.len(), |i: int| node_row(list[members[order[i] as int] as int]))
}

/// The rows of a country: its own, and those of its nodes when it is open.
pub open spec fn country_rows(
    list: Seq<Exit>,
    places: Seq<usize>,
    code: Seq<char>,
    chosen: i64,
    filtering: bool,
    folds: Folds,
) -> Seq<Row> {
    let members = members_of(list, places, code);
    let open = is_open(list, members, chosen, filtering, folds.choice(code));
    seq![country_row(list, code, members, open)] + if open {
        node_rows(list, members)
    } else {
        Seq::empty()
    }
}

/// What the countries are ordered by: the name on screen, not the code behind
/// it. Folded, so accented names land where a reader looks for them rather than
/// past Z.
pub open spec fn country_ranks(list: Seq<Exit>, places: Seq<usize>) -> Seq<
    (bool, Seq<char>, Seq<char>),
> {
    let codes = countries_of(list, places);
    Seq::new(
        codes.len(),
        |g: int|
            (
                false,
                geo::folded(
                    label_of(
                        codes[g],
                        list[members_of(list, places, codes[g])[0] as int].country@,
                    ),
                ),
                Seq::<char>::empty(),
            ),
    )
}

/// The rows of the first `n` countries, in order.
pub open spec fn rows_of(
    list: Seq<Exit>,
    places: Seq<usize>,
    chosen: i64,
    filtering: bool,
    folds: Folds,
    n: int,
) -> Seq<Row>
    decreases n,
{
    if n <= 0 {
        Seq::empty()
    } else {
        let codes = countries_of(list, places);
        let at = order::order_of(country_ranks(list, places))[n - 1] as int;
        rows_of(list, places, chosen, filtering, folds, n - 1) + country_rows(
            list,
            places,
            codes[at],
            chosen,
            filtering,
            folds,
        )
    }
}

/// The whole list: a row per country, each followed by its nodes when it is
/// open.
pub open spec fn all_rows(
    list: Seq<Exit>,
    places: Seq<usize>,
    chosen: i64,
    filtering: bool,
    folds: Folds,
) -> Seq<Row> {
    rows_of(list, places, chosen, filtering, folds, countries_of(list, places).len() as int)
}

pub fn count_ready(list: &Vec<Exit>, members: &Vec<usize>) -> (r: usize)
    requires
        are_places(members@, list@.len()),
    ensures
        r == ready_in(list@, members@),
        r <= members@.len(),
{
    let mut r: usize = 0;
    let mut i: usize = 0;
    assert(members@.take(0) =~= Seq::empty());
    while i < members.len()
        invariant
            i <= members@.len(),
            are_places(members@, list@.len()),
            r <= i,
            r == ready_in(list@, members@.take(i as int)),
        decreases members@.len() - i,
    {
        assert(members@.take(i as int + 1).drop_last() =~= members@.take(i as int));
        assert(members@.take(i as int + 1).last() == members@[i as int]);
        assert(members@[i as int] < list@.len());
        if is_ready(&list[members[i]]) {
            r += 1;
        }
        i += 1;
    }
    assert(members@.take(i as int) =~= members@);
    r
}

fn kind_of_all(list: &Vec<Exit>, members: &Vec<usize>) -> (r: i32)
    requires
        are_places(members@, list@.len()),
        members@.len() > 0,
    ensures
        r == common_kind(list@, members@),
{
    assert(members@[0] < list@.len());
    let kind = list[members[0]].kind();
    let mut i: usize = 1;
    while i < members.len()
        invariant
            1 <= i <= members@.len(),
            are_places(members@, list@.len()),
            kind == crate::api::kind_of(list@[members@[0] as int].residential),
            forall|j: int|
                0 <= j < i ==> crate::api::kind_of(list@[#[trigger] members@[j] as int].residential)
                    == kind,
        decreases members@.len() - i,
    {
        assert(members@[i as int] < list@.len());
        if list[members[i]].kind() != kind {
            return KIND_UNKNOWN;
        }
        i += 1;
    }
    kind
}

fn has_exit(list: &Vec<Exit>, members: &Vec<usize>, id: i64) -> (r: bool)
    requires
        are_places(members@, list@.len()),
    ensures
        r == holds_exit(list@, members@, id),
{
    let mut i: usize = 0;
    while i < members.len()
        invariant
            i <= members@.len(),
            are_places(members@, list@.len()),
            forall|j: int| 0 <= j < i ==> list@[#[trigger] members@[j] as int].id != id,
        decreases members@.len() - i,
    {
        assert(members@[i as int] < list@.len());
        if list[members[i]].id == id {
            return true;
        }
        i += 1;
    }
    false
}

fn nodes(list: &Vec<Exit>, members: &Vec<usize>, out: &mut Vec<ExitEntry>)
    requires
        are_places(members@, list@.len()),
    ensures
        rows(final(out)@) == rows(old(out)@) + node_rows(list@, members@),
{
    let mut keys: Vec<Rank> = Vec::new();
    let mut i: usize = 0;
    while i < members.len()
        invariant
            i <= members@.len(),
            are_places(members@, list@.len()),
            keys@.len() == i,
            forall|j: int|
                0 <= j < i ==> (#[trigger] keys@[j])@ == node_ranks(list@, members@)[j],
        decreases members@.len() - i,
    {
        assert(members@[i as int] < list@.len());
        let exit = &list[members[i]];
        keys.push(Rank { late: !is_ready(exit), name: exit.city.clone(), tie: exit.moniker.clone() });
        i += 1;
    }
    assert(order::ranks(keys@) =~= node_ranks(list@, members@));
    let order = sorted(&keys);
    let ghost before = rows(out@);
    let ghost all = node_rows(list@, members@);
    let mut k: usize = 0;
    assert(before + all.take(0) =~= before);
    while k < order.len()
        invariant
            k <= order@.len() == members@.len(),
            are_places(members@, list@.len()),
            order::is_order(node_ranks(list@, members@), order@),
            order@ == order::order_of(node_ranks(list@, members@)),
            all == node_rows(list@, members@),
            rows(out@) == before + all.take(k as int),
        decreases order@.len() - k,
    {
        let at: usize = order[k];
        assert(at < members@.len());
        assert(members@[at as int] < list@.len());
        let ghost was = out@;
        out.push(to_entry(&list[members[at]]));
        assert(rows(out@) =~= rows(was).push(all[k as int]));
        assert(all.take(k as int + 1) =~= all.take(k as int).push(all[k as int]));
        k += 1;
    }
    assert(all.take(k as int) =~= all);
}

/// Lays the matching exits out as countries, each folding open onto its nodes.
///
/// The result is one flat list because that is what a list view takes: a row per
/// country, followed by its nodes when it is open. With it comes how many
/// countries there are.
pub fn group_by_country(
    list: &Vec<Exit>,
    places: &Vec<usize>,
    chosen: i64,
    filtering: bool,
    folds: &Folds,
) -> (r: (Vec<ExitEntry>, usize))
    requires
        are_places(places@, list@.len()),
        folds.wf(),
    ensures
        rows(r.0@) == all_rows(list@, places@, chosen, filtering, *folds),
        r.1 == countries_of(list@, places@).len(),
        forall|i: int, j: int|
            0 <= i < j < r.0@.len() && (#[trigger] r.0@[i]).header && (#[trigger] r.0@[j]).header
                ==> order::text_le(geo::folded(r.0@[i].label@), geo::folded(r.0@[j].label@)),
{
    let countries = part(list, places);
    let ghost codes = countries_of(list@, places@);
    proof {
        lemma_countries(list@, places@);
        assert forall|g: int| 0 <= g < codes.len() implies are_places(
            members_of(list@, places@, #[trigger] codes[g]),
            list@.len(),
        ) by {
            lemma_members_are_places(list@, places@, codes[g]);
        }
    }
    let n: usize = countries.codes.len();
    assert(text::texts(countries.codes@).len() == n);
    let mut keys: Vec<Rank> = Vec::new();
    let mut g: usize = 0;
    while g < n
        invariant
            g <= n == countries.codes@.len() == countries.members@.len(),
            is_parted(countries, list@, places@),
            codes == countries_of(list@, places@),
            forall|g: int|
                0 <= g < codes.len() ==> are_places(
                    members_of(list@, places@, #[trigger] codes[g]),
                    list@.len(),
                ),
            forall|g: int|
                0 <= g < codes.len() ==> members_of(list@, places@, #[trigger] codes[g]).len() > 0,
            keys@.len() == g,
            forall|j: int|
                0 <= j < g ==> (#[trigger] keys@[j])@ == country_ranks(list@, places@)[j],
        decreases n - g,
    {
        assert(codes[g as int] == countries.codes@[g as int]@);
        let first = countries.members[g][0];
        assert(first == members_of(list@, places@, codes[g as int])[0]);
        let label = country_label(countries.codes[g].as_str(), list[first].country.as_str());
        keys.push(Rank { late: false, name: geo::fold(label.as_str()), tie: String::new() });
        assert(keys@[g as int]@.2 =~= Seq::<char>::empty());
        g += 1;
    }
    assert(order::ranks(keys@) =~= country_ranks(list@, places@));
    let order = sorted(&keys);
    let mut r: Vec<ExitEntry> = Vec::new();
    let mut k: usize = 0;
    assert(rows(r@) =~= Seq::empty());
    while k < n
        invariant
            k <= n == countries.codes@.len() == countries.members@.len(),
            is_parted(countries, list@, places@),
            codes == countries_of(list@, places@),
            codes.len() == n,
            forall|g: int|
                0 <= g < codes.len() ==> are_places(
                    members_of(list@, places@, #[trigger] codes[g]),
                    list@.len(),
                ),
            forall|g: int|
                0 <= g < codes.len() ==> members_of(list@, places@, #[trigger] codes[g]).len() > 0,
            folds.wf(),
            order::is_order(country_ranks(list@, places@), order@),
            order@ == order::order_of(country_ranks(list@, places@)),
            rows(r@) == rows_of(list@, places@, chosen, filtering, *folds, k as int),
        decreases n - k,
    {
        let at: usize = order[k];
        assert(at < n);
        let code = countries.codes[at].as_str();
        assert(codes[at as int] == code@);
        let members = &countries.members[at];
        assert(members@ == members_of(list@, places@, code@));
        let open = filtering || (match folds.get(code) {
            Some(open) => open,
            None => has_exit(list, members, chosen),
        });
        let ready_count = count_ready(list, members);
        let row = ExitEntry {
            header: true,
            collapsed: !open,
            id: NO_EXIT,
            code: code.to_owned(),
            label: country_label(code, list[members[0]].country.as_str()),
            moniker: String::new(),
            ready: ready_count > 0,
            kind: kind_of_all(list, members),
            asn: String::new(),
            count: members.len() as i32,
            ready_count: ready_count as i32,
            has_flag: flags::known(code),
        };
        assert(row@ =~= country_row(list@, code@, members@, open));
        let ghost was = r@;
        r.push(row);
        assert(rows(r@) =~= rows(was) + seq![country_row(list@, code@, members@, open)]);
        if open {
            nodes(list, members, &mut r);
        }
        k += 1;
        assert(rows(r@) =~= rows(was) + country_rows(
            list@,
            places@,
            code@,
            chosen,
            filtering,
            *folds,
        ));
    }
    proof {
        let all = all_rows(list@, places@, chosen, filtering, *folds);
        assert(rows(r@) == all);
        assert forall|i: int, j: int|
            0 <= i < j < r@.len() && (#[trigger] r@[i]).header && (#[trigger] r@[j]).header implies order::text_le(
            geo::folded(r@[i].label@),
            geo::folded(r@[j].label@),
        ) by {
            assert(all[i] == r@[i]@ && all[j] == r@[j]@);
            assert(places@.len() == places.len());
            lemma_countries_are_listed_by_name(list@, places@, chosen, filtering, *folds, i, j);
            order::lemma_dictionary_order(geo::folded(all[i].label), geo::folded(all[j].label));
        }
    }
    (r, n)
}

/// The members of a country are places of the list too.
proof fn lemma_members_are_places(list: Seq<Exit>, places: Seq<usize>, code: Seq<char>)
    requires
        are_places(places, list.len()),
    ensures
        are_places(members_of(list, places, code), list.len()),
{
    lemma_members(list, places, code);
    let members = members_of(list, places, code);
    assert forall|i: int| 0 <= i < members.len() implies (#[trigger] members[i]) < list.len() by {
        assert(members.contains(members[i]));
        assert(places.contains(members[i]));
        let j = choose|j: int| 0 <= j < places.len() && places[j] == members[i];
        assert(places[j] < list.len());
    }
}

/// Whether a list shows a country open.
pub open spec fn shows_open(list: Seq<Row>, code: Seq<char>) -> bool {
    exists|i: int|
        0 <= i < list.len() && (#[trigger] list[i]).header && list[i].code == code
            && !list[i].collapsed
}

/// Whether the list shows a country open. Whatever it shows now is what a click
/// on it reverses.
pub fn showing_open(list: &Vec<ExitEntry>, code: &str) -> (r: bool)
    ensures
        r == shows_open(rows(list@), code@),
{
    let mut i: usize = 0;
    while i < list.len()
        invariant
            i <= list@.len(),
            forall|j: int|
                0 <= j < i ==> !((#[trigger] rows(list@)[j]).header && rows(list@)[j].code == code@
                    && !rows(list@)[j].collapsed),
        decreases list@.len() - i,
    {
        assert(rows(list@)[i as int] == list@[i as int]@);
        if list[i].header && !list[i].collapsed && text::same(list[i].code.as_str(), code) {
            return true;
        }
        i += 1;
    }
    false
}

/// The list shows a country open when it is listed and open.
pub proof fn lemma_the_list_shows_what_is_open(
    list: Seq<Exit>,
    places: Seq<usize>,
    chosen: i64,
    filtering: bool,
    folds: Folds,
    code: Seq<char>,
)
    requires
        places.len() <= usize::MAX,
    ensures
        shows_open(all_rows(list, places, chosen, filtering, folds), code) <==> (countries_of(
            list,
            places,
        ).contains(code) && is_open(
            list,
            members_of(list, places, code),
            chosen,
            filtering,
            folds.choice(code),
        )),
{
    let codes = countries_of(list, places);
    let keys = country_ranks(list, places);
    let order = order::order_of(keys);
    lemma_countries(list, places);
    order::lemma_order_exists(keys);
    order::lemma_order_names_all(keys, order);
    lemma_rows_shown(list, places, chosen, filtering, folds, code, codes.len() as int);
    if codes.contains(code) {
        let g = choose|g: int| 0 <= g < codes.len() && codes[g] == code;
        assert(order.contains(g as usize));
        let k = choose|k: int| 0 <= k < order.len() && order[k] == g as usize;
        assert(codes[order[k] as int] == code);
    }
}

/// The first `n` countries show one open when it is among them and open.
proof fn lemma_rows_shown(
    list: Seq<Exit>,
    places: Seq<usize>,
    chosen: i64,
    filtering: bool,
    folds: Folds,
    code: Seq<char>,
    n: int,
)
    requires
        0 <= n <= countries_of(list, places).len(),
        order::is_order(
            country_ranks(list, places),
            order::order_of(country_ranks(list, places)),
        ),
        countries_of(list, places).len() <= usize::MAX,
    ensures
        shows_open(rows_of(list, places, chosen, filtering, folds, n), code) <==> (exists|k: int|
            0 <= k < n && countries_of(list, places)[#[trigger] order::order_of(
                country_ranks(list, places),
            )[k] as int] == code) && is_open(
            list,
            members_of(list, places, code),
            chosen,
            filtering,
            folds.choice(code),
        ),
    decreases n,
{
    if n > 0 {
        lemma_rows_shown(list, places, chosen, filtering, folds, code, n - 1);
        let codes = countries_of(list, places);
        let order = order::order_of(country_ranks(list, places));
        let before = rows_of(list, places, chosen, filtering, folds, n - 1);
        let own = codes[order[n - 1] as int];
        let next = country_rows(list, places, own, chosen, filtering, folds);
        let all = rows_of(list, places, chosen, filtering, folds, n);
        assert(all == before + next);
        let open = is_open(
            list,
            members_of(list, places, own),
            chosen,
            filtering,
            folds.choice(own),
        );
        assert(next[0] == country_row(list, own, members_of(list, places, own), open));
        assert forall|i: int| 0 < i < next.len() implies !(#[trigger] next[i]).header by {}
        if shows_open(all, code) {
            let i = choose|i: int|
                0 <= i < all.len() && (#[trigger] all[i]).header && all[i].code == code
                    && !all[i].collapsed;
            if i < before.len() {
                assert(before[i] == all[i]);
                assert(shows_open(before, code));
            } else {
                assert(next[i - before.len()] == all[i]);
                assert(i == before.len());
            }
        }
        if shows_open(before, code) {
            let i = choose|i: int|
                0 <= i < before.len() && (#[trigger] before[i]).header && before[i].code == code
                    && !before[i].collapsed;
            assert(all[i] == before[i]);
        }
        if own == code && open {
            assert(all[before.len() as int] == next[0]);
        }
    }
}

/// A click on a country reverses what it shows: with nothing typed and no kind
/// picked, a listed country that showed open shows shut once its choice has been
/// recorded, and the other way round; and no other country changes.
pub proof fn lemma_a_click_reverses_the_row(
    list: Seq<Exit>,
    places: Seq<usize>,
    chosen: i64,
    before: Folds,
    after: Folds,
    code: Seq<char>,
    other: Seq<char>,
)
    requires
        places.len() <= usize::MAX,
        countries_of(list, places).contains(code),
        after.choice(code) == Some(
            !shows_open(all_rows(list, places, chosen, false, before), code),
        ),
        forall|c: Seq<char>| c != code ==> #[trigger] after.choice(c) == before.choice(c),
    ensures
        shows_open(all_rows(list, places, chosen, false, after), code) == !shows_open(
            all_rows(list, places, chosen, false, before),
            code,
        ),
        other != code ==> shows_open(all_rows(list, places, chosen, false, after), other)
            == shows_open(all_rows(list, places, chosen, false, before), other),
{
    lemma_the_list_shows_what_is_open(list, places, chosen, false, before, code);
    lemma_the_list_shows_what_is_open(list, places, chosen, false, after, code);
    lemma_the_list_shows_what_is_open(list, places, chosen, false, before, other);
    lemma_the_list_shows_what_is_open(list, places, chosen, false, after, other);
}

/// A row of one of the first `n` countries is among their rows.
proof fn lemma_rows_hold(
    list: Seq<Exit>,
    places: Seq<usize>,
    chosen: i64,
    filtering: bool,
    folds: Folds,
    k: int,
    n: int,
    row: Row,
)
    requires
        0 <= k < n,
        country_rows(
            list,
            places,
            countries_of(list, places)[order::order_of(country_ranks(list, places))[k] as int],
            chosen,
            filtering,
            folds,
        ).contains(row),
    ensures
        rows_of(list, places, chosen, filtering, folds, n).contains(row),
    decreases n,
{
    let codes = countries_of(list, places);
    let order = order::order_of(country_ranks(list, places));
    let before = rows_of(list, places, chosen, filtering, folds, n - 1);
    let next = country_rows(list, places, codes[order[n - 1] as int], chosen, filtering, folds);
    let all = rows_of(list, places, chosen, filtering, folds, n);
    assert(all == before + next);
    if k < n - 1 {
        lemma_rows_hold(list, places, chosen, filtering, folds, k, n - 1, row);
        let i = choose|i: int| 0 <= i < before.len() && before[i] == row;
        assert(all[i] == row);
    } else {
        let i = choose|i: int| 0 <= i < next.len() && next[i] == row;
        assert(all[before.len() + i] == row);
    }
}

/// Whatever matches is listed: every one of the exits shown has its row under a
/// country that is open.
pub proof fn lemma_every_match_is_listed(
    list: Seq<Exit>,
    places: Seq<usize>,
    chosen: i64,
    filtering: bool,
    folds: Folds,
    place: usize,
)
    requires
        places.len() <= usize::MAX,
        places.contains(place),
        is_open(
            list,
            members_of(list, places, key_of(list[place as int])),
            chosen,
            filtering,
            folds.choice(key_of(list[place as int])),
        ),
    ensures
        all_rows(list, places, chosen, filtering, folds).contains(node_row(list[place as int])),
{
    let code = key_of(list[place as int]);
    let codes = countries_of(list, places);
    let keys = country_ranks(list, places);
    let order = order::order_of(keys);
    lemma_countries(list, places);
    let p = choose|p: int| 0 <= p < places.len() && places[p] == place;
    assert(codes.contains(key_of(list[places[p] as int])));
    let g = choose|g: int| 0 <= g < codes.len() && codes[g] == code;
    order::lemma_order_exists(keys);
    order::lemma_order_names_all(keys, order);
    assert(order.contains(g as usize));
    let k = choose|k: int| 0 <= k < order.len() && order[k] == g as usize;
    let members = members_of(list, places, code);
    lemma_members(list, places, code);
    lemma_members_len(list, places, code);
    assert(members.contains(place));
    let m = choose|m: int| 0 <= m < members.len() && members[m] == place;
    let ranks = node_ranks(list, members);
    order::lemma_order_exists(ranks);
    order::lemma_order_names_all(ranks, order::order_of(ranks));
    assert(order::order_of(ranks).contains(m as usize));
    let i = choose|i: int|
        0 <= i < order::order_of(ranks).len() && order::order_of(ranks)[i] == m as usize;
    let row = node_row(list[place as int]);
    assert(node_rows(list, members)[i] == row);
    let own = country_rows(list, places, codes[order[k] as int], chosen, filtering, folds);
    assert(own[i + 1] == row);
    lemma_rows_hold(list, places, chosen, filtering, folds, k, codes.len() as int, row);
}

/// A country has no more members than there are exits.
proof fn lemma_members_len(list: Seq<Exit>, places: Seq<usize>, code: Seq<char>)
    ensures
        members_of(list, places, code).len() <= places.len(),
    decreases places.len(),
{
    if places.len() > 0 {
        lemma_members_len(list, places.drop_last(), code);
    }
}

/// What the counts on the countries' rows add up to.
pub open spec fn headed(rows: Seq<Row>) -> int
    decreases rows.len(),
{
    if rows.len() == 0 {
        0
    } else {
        headed(rows.drop_last()) + if rows.last().header {
            rows.last().count as int
        } else {
            0
        }
    }
}

proof fn lemma_headed_nodes(rows: Seq<Row>, nodes: Seq<Row>)
    requires
        forall|i: int| 0 <= i < nodes.len() ==> !(#[trigger] nodes[i]).header,
    ensures
        headed(rows + nodes) == headed(rows),
    decreases nodes.len(),
{
    if nodes.len() > 0 {
        let fewer = nodes.drop_last();
        assert forall|i: int| 0 <= i < fewer.len() implies !(#[trigger] fewer[i]).header by {
            assert(fewer[i] == nodes[i]);
        }
        lemma_headed_nodes(rows, fewer);
        assert((rows + nodes).drop_last() =~= rows + fewer);
        assert(!nodes[nodes.len() - 1].header);
        assert((rows + nodes).last() == nodes[nodes.len() - 1]);
    } else {
        assert(rows + nodes =~= rows);
    }
}

/// How many exits belong to one of some countries.
spec fn among(list: Seq<Exit>, places: Seq<usize>, codes: Set<Seq<char>>) -> nat
    decreases places.len(),
{
    if places.len() == 0 {
        0
    } else {
        among(list, places.drop_last(), codes) + if codes.contains(
            key_of(list[places.last() as int]),
        ) {
            1nat
        } else {
            0nat
        }
    }
}

/// One country more brings in its own members.
proof fn lemma_among_one_more(
    list: Seq<Exit>,
    places: Seq<usize>,
    codes: Set<Seq<char>>,
    code: Seq<char>,
)
    requires
        !codes.contains(code),
    ensures
        among(list, places, codes.insert(code)) == among(list, places, codes) + members_of(
            list,
            places,
            code,
        ).len(),
    decreases places.len(),
{
    if places.len() > 0 {
        lemma_among_one_more(list, places.drop_last(), codes, code);
    }
}

/// With every country in, every exit is.
proof fn lemma_among_all(list: Seq<Exit>, places: Seq<usize>, codes: Set<Seq<char>>)
    requires
        forall|i: int|
            0 <= i < places.len() ==> codes.contains(key_of(list[#[trigger] places[i] as int])),
    ensures
        among(list, places, codes) == places.len(),
    decreases places.len(),
{
    if places.len() > 0 {
        let fewer = places.drop_last();
        assert forall|i: int| 0 <= i < fewer.len() implies codes.contains(
            key_of(list[#[trigger] fewer[i] as int]),
        ) by {
            assert(fewer[i] == places[i]);
        }
        lemma_among_all(list, fewer, codes);
        assert(codes.contains(key_of(list[places[places.len() - 1] as int])));
    }
}

/// The countries of the first `n` rows of an order.
spec fn first_countries(codes: Seq<Seq<char>>, order: Seq<usize>, n: int) -> Set<Seq<char>>
    decreases n,
{
    if n <= 0 {
        Set::empty()
    } else {
        first_countries(codes, order, n - 1).insert(codes[order[n - 1] as int])
    }
}

proof fn lemma_first_countries(codes: Seq<Seq<char>>, order: Seq<usize>, n: int, code: Seq<char>)
    ensures
        first_countries(codes, order, n).contains(code) <==> exists|k: int|
            0 <= k < n && codes[#[trigger] order[k] as int] == code,
    decreases n,
{
    if n > 0 {
        lemma_first_countries(codes, order, n - 1, code);
        assert(codes[order[n - 1] as int] == codes[order[n - 1] as int]);
    }
}

proof fn lemma_headed_rows(
    list: Seq<Exit>,
    places: Seq<usize>,
    chosen: i64,
    filtering: bool,
    folds: Folds,
    n: int,
)
    requires
        places.len() <= i32::MAX,
        0 <= n <= countries_of(list, places).len(),
        order::is_order(
            country_ranks(list, places),
            order::order_of(country_ranks(list, places)),
        ),
    ensures
        headed(rows_of(list, places, chosen, filtering, folds, n)) == among(
            list,
            places,
            first_countries(
                countries_of(list, places),
                order::order_of(country_ranks(list, places)),
                n,
            ),
        ),
    decreases n,
{
    let codes = countries_of(list, places);
    let keys = country_ranks(list, places);
    let order = order::order_of(keys);
    if n > 0 {
        lemma_headed_rows(list, places, chosen, filtering, folds, n - 1);
        lemma_countries(list, places);
        order::lemma_order_names_all(keys, order);
        let code = codes[order[n - 1] as int];
        let earlier = first_countries(codes, order, n - 1);
        lemma_first_countries(codes, order, n - 1, code);
        if earlier.contains(code) {
            let k = choose|k: int| 0 <= k < n - 1 && codes[#[trigger] order[k] as int] == code;
            assert(order[k] != order[n - 1]);
            assert(order[k] < codes.len() && order[n - 1] < codes.len());
            if order[k] < order[n - 1] {
                assert(codes[order[k] as int] != codes[order[n - 1] as int]);
            } else {
                assert(codes[order[n - 1] as int] != codes[order[k] as int]);
            }
        }
        lemma_among_one_more(list, places, earlier, code);
        let before = rows_of(list, places, chosen, filtering, folds, n - 1);
        let members = members_of(list, places, code);
        lemma_members_len(list, places, code);
        let open = is_open(list, members, chosen, filtering, folds.choice(code));
        let head = country_row(list, code, members, open);
        let nodes = if open {
            node_rows(list, members)
        } else {
            Seq::empty()
        };
        let all = rows_of(list, places, chosen, filtering, folds, n);
        assert(all =~= before.push(head) + nodes);
        lemma_headed_nodes(before.push(head), nodes);
        assert(before.push(head).drop_last() =~= before);
    } else {
        lemma_among_none(list, places);
    }
}

proof fn lemma_among_none(list: Seq<Exit>, places: Seq<usize>)
    ensures
        among(list, places, Set::empty()) == 0,
    decreases places.len(),
{
    if places.len() > 0 {
        lemma_among_none(list, places.drop_last());
    }
}

/// Nobody is lost in the list: the counts on the countries' rows add up to the exits
/// that are shown, whichever countries are open.
pub proof fn lemma_the_list_accounts_for_everyone(
    list: Seq<Exit>,
    places: Seq<usize>,
    chosen: i64,
    filtering: bool,
    folds: Folds,
)
    requires
        places.len() <= i32::MAX,
    ensures
        headed(all_rows(list, places, chosen, filtering, folds)) == places.len(),
{
    let codes = countries_of(list, places);
    let keys = country_ranks(list, places);
    let order = order::order_of(keys);
    lemma_countries(list, places);
    order::lemma_order_exists(keys);
    order::lemma_order_names_all(keys, order);
    lemma_headed_rows(list, places, chosen, filtering, folds, codes.len() as int);
    let all = first_countries(codes, order, codes.len() as int);
    assert forall|i: int| 0 <= i < places.len() implies all.contains(
        key_of(list[#[trigger] places[i] as int]),
    ) by {
        let code = key_of(list[places[i] as int]);
        assert(codes.contains(code));
        let g = choose|g: int| 0 <= g < codes.len() && codes[g] == code;
        assert(order.contains(g as usize));
        let k = choose|k: int| 0 <= k < order.len() && order[k] == g as usize;
        lemma_first_countries(codes, order, codes.len() as int, code);
        assert(codes[order[k] as int] == code);
    }
    lemma_among_all(list, places, all);
}

// What was typed finds

/// Typing any piece of a name finds the exit: whatever run of characters of the folded
/// city, country, moniker, country code or name on screen is typed, the exit matches.
pub proof fn lemma_any_piece_finds_the_exit(exit: Exit, a: Seq<char>, n: Seq<char>, b: Seq<char>)
    requires
        ({
            ||| geo::folded(exit.city@) == a + n + b
            ||| geo::folded(exit.country@) == a + n + b
            ||| geo::folded(exit.moniker@) == a + n + b
            ||| geo::folded(key_of(exit)) == a + n + b
            ||| geo::folded(label_of(key_of(exit), exit.country@)) == a + n + b
        }),
    ensures
        found(exit, n),
{
    text::lemma_holding(a, n, b, a + n + b);
}

/// Nothing else finds it: an exit that matches what was typed has it as a run of
/// consecutive characters in one of those five, and everything matches when nothing was
/// typed.
pub proof fn lemma_only_a_piece_finds_the_exit(exit: Exit, n: Seq<char>)
    ensures
        found(exit, n) && n.len() > 0 ==> exists|a: Seq<char>, b: Seq<char>|
            {
                ||| geo::folded(exit.city@) == #[trigger] (a + n + b)
                ||| geo::folded(exit.country@) == a + n + b
                ||| geo::folded(exit.moniker@) == a + n + b
                ||| geo::folded(key_of(exit)) == a + n + b
                ||| geo::folded(label_of(key_of(exit), exit.country@)) == a + n + b
            },
        n.len() == 0 ==> found(exit, n),
{
    if found(exit, n) && n.len() > 0 {
        let e = Seq::<char>::empty();
        text::lemma_holding(e, n, e, geo::folded(exit.city@));
        text::lemma_holding(e, n, e, geo::folded(exit.country@));
        text::lemma_holding(e, n, e, geo::folded(exit.moniker@));
        text::lemma_holding(e, n, e, geo::folded(key_of(exit)));
        text::lemma_holding(e, n, e, geo::folded(label_of(key_of(exit), exit.country@)));
    }
}

/// What is shown when a kind is picked: the residential lines, those of datacentres or
/// those the service says nothing of, and all of them when none is.
pub proof fn lemma_the_kind_wanted(exit: Exit, wanted: i32)
    ensures
        wanted < 0 ==> wanted_kind(exit, wanted),
        wanted_kind(exit, crate::api::KIND_RESIDENTIAL) <==> exit.residential == Some(true),
        wanted_kind(exit, crate::api::KIND_DATACENTRE) <==> exit.residential == Some(false),
        wanted_kind(exit, KIND_UNKNOWN) <==> exit.residential is None,
{
}

/// A node's row says what the service sent of it.
pub proof fn lemma_a_node_row(exit: Exit)
    ensures
        !node_row(exit).header,
        i32::MIN <= exit.id <= i32::MAX ==> node_row(exit).id == exit.id,
        node_row(exit).code == key_of(exit),
        node_row(exit).label == exit.city@,
        node_row(exit).moniker == exit.moniker@,
        node_row(exit).ready <==> exit.state@ == PROVISIONED@,
        node_row(exit).kind == crate::api::KIND_RESIDENTIAL <==> exit.residential == Some(true),
        node_row(exit).kind == crate::api::KIND_DATACENTRE <==> exit.residential == Some(false),
        exit.asn matches Some(asn) ==> node_row(exit).asn == asn@,
        exit.asn is None ==> node_row(exit).asn.len() == 0,
{
}

/// The coordinates the service sent win; those it sends as zeros, or not both of, are
/// none, and the table covers for them by the country's code and the city.
pub proof fn lemma_coordinates_win(exit: Exit)
    ensures
        (exit.coords.latitude matches Some(lat) && exit.coords.longitude matches Some(lon) && !(
        crate::api::is_zero(lat) && crate::api::is_zero(lon))) ==> exit_spot(exit) == Some(
            Spot::Given(exit.coords.latitude->0, exit.coords.longitude->0),
        ),
        exit.coords.latitude is None || exit.coords.longitude is None ==> exit_spot(exit) == (
        match geo::located(geo::folded(key_of(exit)), geo::folded(exit.city@)) {
            Some(place) => Some(Spot::Listed(place)),
            None => None,
        }),
{
}

// How the list is laid out

/// Where a row of the list comes from: the country it stands under, and how far below
/// the country's own row.
proof fn lemma_row_at(
    list: Seq<Exit>,
    places: Seq<usize>,
    chosen: i64,
    filtering: bool,
    folds: Folds,
    n: int,
    i: int,
) -> (at: (int, int))
    requires
        0 <= n <= countries_of(list, places).len(),
        0 <= i < rows_of(list, places, chosen, filtering, folds, n).len(),
    ensures
        0 <= at.0 < n,
        0 <= at.1 < country_rows(
            list,
            places,
            countries_of(list, places)[order::order_of(country_ranks(list, places))[at.0] as int],
            chosen,
            filtering,
            folds,
        ).len(),
        rows_of(list, places, chosen, filtering, folds, n)[i] == country_rows(
            list,
            places,
            countries_of(list, places)[order::order_of(country_ranks(list, places))[at.0] as int],
            chosen,
            filtering,
            folds,
        )[at.1],
        i == rows_of(list, places, chosen, filtering, folds, at.0).len() + at.1,
    decreases n,
{
    let before = rows_of(list, places, chosen, filtering, folds, n - 1);
    if i < before.len() {
        lemma_row_at(list, places, chosen, filtering, folds, n - 1, i)
    } else {
        (n - 1, i - before.len())
    }
}

/// The rows of the first countries stand where they stand in the whole list, and those
/// of each follow those of the ones before.
proof fn lemma_rows_before(
    list: Seq<Exit>,
    places: Seq<usize>,
    chosen: i64,
    filtering: bool,
    folds: Folds,
    k: int,
    n: int,
)
    requires
        0 <= k <= n,
    ensures
        rows_of(list, places, chosen, filtering, folds, k).len() + (n - k) <= rows_of(
            list,
            places,
            chosen,
            filtering,
            folds,
            n,
        ).len(),
        rows_of(list, places, chosen, filtering, folds, k) =~= rows_of(
            list,
            places,
            chosen,
            filtering,
            folds,
            n,
        ).take(rows_of(list, places, chosen, filtering, folds, k).len() as int),
    decreases n - k,
{
    if k < n {
        lemma_rows_before(list, places, chosen, filtering, folds, k, n - 1);
    }
}

/// The countries are listed by the name on screen: of any two country rows the earlier
/// one's folded label is no later in the order of characters, so that after a beginning
/// they share it ends or goes on with a lower character.
pub proof fn lemma_countries_are_listed_by_name(
    list: Seq<Exit>,
    places: Seq<usize>,
    chosen: i64,
    filtering: bool,
    folds: Folds,
    i: int,
    j: int,
)
    requires
        places.len() <= usize::MAX,
        0 <= i < j < all_rows(list, places, chosen, filtering, folds).len(),
        all_rows(list, places, chosen, filtering, folds)[i].header,
        all_rows(list, places, chosen, filtering, folds)[j].header,
    ensures
        ({
            let a = geo::folded(all_rows(list, places, chosen, filtering, folds)[i].label);
            let b = geo::folded(all_rows(list, places, chosen, filtering, folds)[j].label);
            exists|k: int|
                0 <= k <= a.len() && k <= b.len() && #[trigger] a.take(k) == b.take(k) && (k
                    == a.len() || (k < b.len() && a[k] < b[k]))
        }),
        all_rows(list, places, chosen, filtering, folds)[i].code != all_rows(
            list,
            places,
            chosen,
            filtering,
            folds,
        )[j].code,
{
    let codes = countries_of(list, places);
    let keys = country_ranks(list, places);
    let order = order::order_of(keys);
    let n = codes.len() as int;
    lemma_countries(list, places);
    order::lemma_order_exists(keys);
    order::lemma_order_names_all(keys, order);
    let x = lemma_row_at(list, places, chosen, filtering, folds, n, i);
    let y = lemma_row_at(list, places, chosen, filtering, folds, n, j);
    assert(x.1 == 0 && y.1 == 0);
    if y.0 <= x.0 {
        lemma_rows_before(list, places, chosen, filtering, folds, y.0, x.0);
    }
    order::lemma_in_order(keys, order, x.0, y.0);
    let a = geo::folded(all_rows(list, places, chosen, filtering, folds)[i].label);
    let b = geo::folded(all_rows(list, places, chosen, filtering, folds)[j].label);
    assert(a == keys[order[x.0] as int].1);
    assert(b == keys[order[y.0] as int].1);
    order::lemma_dictionary_order(a, b);
    assert(order[x.0] != order[y.0]);
    if order[x.0] < order[y.0] {
        assert(codes[order[x.0] as int] != codes[order[y.0] as int]);
    } else {
        assert(codes[order[y.0] as int] != codes[order[x.0] as int]);
    }
}

/// A node's row stands under its own country's, which shows open, with nothing but rows
/// of that country between; and it is the row of one of the exits shown.
pub proof fn lemma_a_node_stands_under_its_country(
    list: Seq<Exit>,
    places: Seq<usize>,
    chosen: i64,
    filtering: bool,
    folds: Folds,
    i: int,
)
    requires
        places.len() <= usize::MAX,
        0 <= i < all_rows(list, places, chosen, filtering, folds).len(),
        !all_rows(list, places, chosen, filtering, folds)[i].header,
    ensures
        exists|place: usize|
            places.contains(place) && all_rows(list, places, chosen, filtering, folds)[i]
                == #[trigger] node_row(list[place as int]),
        exists|h: int|
            {
                &&& 0 <= h < i
                &&& (#[trigger] all_rows(list, places, chosen, filtering, folds)[h]).header
                &&& !all_rows(list, places, chosen, filtering, folds)[h].collapsed
                &&& all_rows(list, places, chosen, filtering, folds)[h].code == all_rows(
                    list,
                    places,
                    chosen,
                    filtering,
                    folds,
                )[i].code
                &&& forall|m: int|
                    h < m <= i ==> !(#[trigger] all_rows(
                        list,
                        places,
                        chosen,
                        filtering,
                        folds,
                    )[m]).header
            },
{
    let all = all_rows(list, places, chosen, filtering, folds);
    let codes = countries_of(list, places);
    let keys = country_ranks(list, places);
    let order = order::order_of(keys);
    let n = codes.len() as int;
    lemma_countries(list, places);
    order::lemma_order_exists(keys);
    let x = lemma_row_at(list, places, chosen, filtering, folds, n, i);
    let code = codes[order[x.0] as int];
    let members = members_of(list, places, code);
    let own = country_rows(list, places, code, chosen, filtering, folds);
    let h = i - x.1;
    lemma_rows_before(list, places, chosen, filtering, folds, x.0 + 1, n);
    let part = rows_of(list, places, chosen, filtering, folds, x.0 + 1);
    assert forall|m: int| h <= m <= i implies all[m] == own[m - h] by {
        assert(part == all.take(part.len() as int));
        assert(part[m] == own[m - h]);
    }
    lemma_members_len(list, places, code);
    let ranks = node_ranks(list, members);
    order::lemma_order_exists(ranks);
    let spot = order::order_of(ranks)[x.1 - 1] as int;
    let place = members[spot];
    assert(own[x.1] == node_rows(list, members)[x.1 - 1]);
    assert(spot < members.len());
    lemma_members(list, places, code);
    assert(members.contains(place));
    assert(places.contains(place));
    assert(all[i] == node_row(list[place as int]));
    assert(all[i].code == code);
    assert(all[h].header && !all[h].collapsed && all[h].code == code);
    assert forall|m: int| h < m <= i implies !(#[trigger] all[m]).header by {
        assert(all[m] == own[m - h]);
        assert(own[m - h] == node_rows(list, members)[m - h - 1]);
    }
}

/// The nodes of one country, in the order they are listed in.
proof fn lemma_node_rows_in_order(
    list: Seq<Exit>,
    places: Seq<usize>,
    code: Seq<char>,
    p: int,
    q: int,
)
    requires
        places.len() <= usize::MAX,
        0 <= p < q < members_of(list, places, code).len(),
    ensures
        ({
            let a = node_rows(list, members_of(list, places, code))[p];
            let b = node_rows(list, members_of(list, places, code))[q];
            &&& a.code == code
            &&& b.code == code
            &&& b.ready ==> a.ready
            &&& a.ready == b.ready ==> order::text_le(a.label, b.label)
            &&& a.ready == b.ready && a.label == b.label ==> order::text_le(a.moniker, b.moniker)
        }),
{
    let members = members_of(list, places, code);
    let ranks = node_ranks(list, members);
    let inner = order::order_of(ranks);
    lemma_members_len(list, places, code);
    order::lemma_order_exists(ranks);
    order::lemma_in_order(ranks, inner, p, q);
    lemma_members(list, places, code);
    assert(inner[p] < members.len() && inner[q] < members.len());
    assert(members.contains(members[inner[p] as int]));
    assert(members.contains(members[inner[q] as int]));
    assert(places.contains(members[inner[p] as int]));
    assert(places.contains(members[inner[q] as int]));
}

/// The nodes of a country come in order: what is ready first, then by city, then by
/// moniker.
pub proof fn lemma_nodes_come_in_order(
    list: Seq<Exit>,
    places: Seq<usize>,
    chosen: i64,
    filtering: bool,
    folds: Folds,
    i: int,
    j: int,
)
    requires
        places.len() <= usize::MAX,
        0 <= i < j < all_rows(list, places, chosen, filtering, folds).len(),
        forall|m: int|
            i <= m <= j ==> !(#[trigger] all_rows(list, places, chosen, filtering, folds)[m]).header,
    ensures
        ({
            let a = all_rows(list, places, chosen, filtering, folds)[i];
            let b = all_rows(list, places, chosen, filtering, folds)[j];
            &&& a.code == b.code
            &&& b.ready ==> a.ready
            &&& a.ready == b.ready ==> order::text_le(a.label, b.label)
            &&& a.ready == b.ready && a.label == b.label ==> order::text_le(a.moniker, b.moniker)
        }),
{
    let all = all_rows(list, places, chosen, filtering, folds);
    let codes = countries_of(list, places);
    let keys = country_ranks(list, places);
    let order = order::order_of(keys);
    let n = codes.len() as int;
    lemma_countries(list, places);
    order::lemma_order_exists(keys);
    let x = lemma_row_at(list, places, chosen, filtering, folds, n, i);
    let y = lemma_row_at(list, places, chosen, filtering, folds, n, j);
    if x.0 > y.0 {
        lemma_rows_before(list, places, chosen, filtering, folds, y.0 + 1, x.0);
    }
    if x.0 < y.0 {
        lemma_rows_before(list, places, chosen, filtering, folds, x.0 + 1, y.0);
        lemma_rows_before(list, places, chosen, filtering, folds, y.0 + 1, n);
        let h = j - y.1;
        let part = rows_of(list, places, chosen, filtering, folds, y.0 + 1);
        assert(all[h] == part[h]);
        assert(part[h].header);
    }
    let code = codes[order[x.0] as int];
    let members = members_of(list, places, code);
    let own = country_rows(list, places, code, chosen, filtering, folds);
    assert(all[i] == own[x.1] && all[j] == own[y.1]);
    assert(own[x.1] == node_rows(list, members)[x.1 - 1]);
    assert(own[y.1] == node_rows(list, members)[y.1 - 1]);
    lemma_node_rows_in_order(list, places, code, x.1 - 1, y.1 - 1);
}

/// The members of a country are the exits shown that belong to it.
proof fn lemma_members_filter(list: Seq<Exit>, places: Seq<usize>, code: Seq<char>)
    ensures
        members_of(list, places, code) == places.filter(
            |place: usize| key_of(list[place as int]) == code,
        ),
        ready_in(list, members_of(list, places, code)) == places.filter(
            |place: usize|
                key_of(list[place as int]) == code && list[place as int].state@ == PROVISIONED@,
        ).len(),
    decreases places.len(),
{
    reveal(Seq::filter);
    if places.len() > 0 {
        let fewer = places.drop_last();
        lemma_members_filter(list, fewer, code);
        let members = members_of(list, fewer, code);
        assert(members.push(places.last()).drop_last() =~= members);
    }
}

/// A country's row says what is under it: how many of the exits shown belong to it, how
/// many of those are ready, and whether any is.
pub proof fn lemma_a_country_row_counts(
    list: Seq<Exit>,
    places: Seq<usize>,
    chosen: i64,
    filtering: bool,
    folds: Folds,
    i: int,
)
    requires
        places.len() <= i32::MAX,
        0 <= i < all_rows(list, places, chosen, filtering, folds).len(),
        all_rows(list, places, chosen, filtering, folds)[i].header,
    ensures
        ({
            let row = all_rows(list, places, chosen, filtering, folds)[i];
            let own = places.filter(|place: usize| key_of(list[place as int]) == row.code);
            let up = places.filter(
                |place: usize|
                    key_of(list[place as int]) == row.code && list[place as int].state@
                        == PROVISIONED@,
            );
            &&& row.count == own.len()
            &&& row.ready_count == up.len()
            &&& row.ready <==> up.len() > 0
            &&& own.len() > 0
            &&& row.label == label_of(row.code, list[own[0] as int].country@)
            &&& row.id == NO_EXIT
            &&& row.has_flag <==> exists|k: int| flags::is_record(flags::key_of(row.code), k)
        }),
{
    let codes = countries_of(list, places);
    let keys = country_ranks(list, places);
    let order = order::order_of(keys);
    lemma_countries(list, places);
    order::lemma_order_exists(keys);
    let x = lemma_row_at(list, places, chosen, filtering, folds, codes.len() as int, i);
    let code = codes[order[x.0] as int];
    lemma_members_len(list, places, code);
    lemma_members_filter(list, places, code);
    lemma_ready_len(list, members_of(list, places, code));
}

proof fn lemma_ready_len(list: Seq<Exit>, members: Seq<usize>)
    ensures
        ready_in(list, members) <= members.len(),
    decreases members.len(),
{
    if members.len() > 0 {
        lemma_ready_len(list, members.drop_last());
    }
}

/// A country's row says the kind its exits share, and none when two of them differ.
pub proof fn lemma_a_country_row_kind(
    list: Seq<Exit>,
    places: Seq<usize>,
    chosen: i64,
    filtering: bool,
    folds: Folds,
    i: int,
    one: usize,
    other: usize,
)
    requires
        places.len() <= usize::MAX,
        0 <= i < all_rows(list, places, chosen, filtering, folds).len(),
        all_rows(list, places, chosen, filtering, folds)[i].header,
        places.contains(one),
        places.contains(other),
        key_of(list[one as int]) == all_rows(list, places, chosen, filtering, folds)[i].code,
        key_of(list[other as int]) == all_rows(list, places, chosen, filtering, folds)[i].code,
    ensures
        list[one as int].residential != list[other as int].residential ==> all_rows(
            list,
            places,
            chosen,
            filtering,
            folds,
        )[i].kind == KIND_UNKNOWN,
        (forall|place: usize|
            #[trigger] places.contains(place) && key_of(list[place as int]) == all_rows(
                list,
                places,
                chosen,
                filtering,
                folds,
            )[i].code ==> list[place as int].residential == list[one as int].residential)
            ==> all_rows(list, places, chosen, filtering, folds)[i].kind == crate::api::kind_of(
            list[one as int].residential,
        ),
{
    let codes = countries_of(list, places);
    let keys = country_ranks(list, places);
    let order = order::order_of(keys);
    lemma_countries(list, places);
    order::lemma_order_exists(keys);
    let x = lemma_row_at(list, places, chosen, filtering, folds, codes.len() as int, i);
    let code = codes[order[x.0] as int];
    let members = members_of(list, places, code);
    lemma_members(list, places, code);
    assert(members.contains(one) && members.contains(other));
    let a = choose|a: int| 0 <= a < members.len() && members[a] == one;
    let b = choose|b: int| 0 <= b < members.len() && members[b] == other;
    assert(members[a] == one && members[b] == other);
    if forall|place: usize|
        #[trigger] places.contains(place) && key_of(list[place as int]) == code
            ==> list[place as int].residential == list[one as int].residential {
        assert forall|m: int| 0 <= m < members.len() implies crate::api::kind_of(
            list[#[trigger] members[m] as int].residential,
        ) == crate::api::kind_of(list[one as int].residential) by {
            assert(members.contains(members[m]));
            assert(places.contains(members[m]));
        }
        assert(members[0] == members[0]);
    }
}

/// A country shows open when a filter matched in it, or the user opened it, or, with
/// nothing said of it, when the exit in service is one of those shown under it; and shut
/// otherwise. One that shows shut has no node right below it.
pub proof fn lemma_when_a_country_is_open(
    list: Seq<Exit>,
    places: Seq<usize>,
    chosen: i64,
    filtering: bool,
    folds: Folds,
    i: int,
)
    requires
        places.len() <= usize::MAX,
        0 <= i < all_rows(list, places, chosen, filtering, folds).len(),
        all_rows(list, places, chosen, filtering, folds)[i].header,
    ensures
        ({
            let all = all_rows(list, places, chosen, filtering, folds);
            let row = all[i];
            &&& filtering ==> !row.collapsed
            &&& !filtering && folds.choice(row.code) == Some(true) ==> !row.collapsed
            &&& !filtering && folds.choice(row.code) == Some(false) ==> row.collapsed
            &&& !filtering && folds.choice(row.code) is None ==> (!row.collapsed
                <==> exists|place: usize|
                #[trigger] places.contains(place) && key_of(list[place as int]) == row.code
                    && list[place as int].id == chosen)
            &&& row.collapsed && i + 1 < all.len() ==> all[i + 1].header
            &&& !row.collapsed ==> i + 1 < all.len() && !all[i + 1].header
        }),
{
    let all = all_rows(list, places, chosen, filtering, folds);
    let codes = countries_of(list, places);
    let keys = country_ranks(list, places);
    let order = order::order_of(keys);
    let n = codes.len() as int;
    lemma_countries(list, places);
    order::lemma_order_exists(keys);
    let x = lemma_row_at(list, places, chosen, filtering, folds, n, i);
    assert(x.1 == 0);
    let code = codes[order[x.0] as int];
    let members = members_of(list, places, code);
    lemma_members(list, places, code);
    if holds_exit(list, members, chosen) {
        let m = choose|m: int|
            0 <= m < members.len() && list[#[trigger] members[m] as int].id == chosen;
        assert(members.contains(members[m]));
        assert(places.contains(members[m]));
    }
    assert forall|place: usize| #[trigger] places.contains(place) && key_of(list[place as int])
        == code && list[place as int].id == chosen implies holds_exit(list, members, chosen) by {
        assert(members.contains(place));
        let m = choose|m: int| 0 <= m < members.len() && members[m] == place;
        assert(list[members[m] as int].id == chosen);
    }
    let own = country_rows(list, places, code, chosen, filtering, folds);
    lemma_rows_before(list, places, chosen, filtering, folds, x.0 + 1, n);
    let part = rows_of(list, places, chosen, filtering, folds, x.0 + 1);
    assert(part == all.take(part.len() as int));
    if all[i].collapsed {
        if i + 1 < all.len() {
            assert(own.len() == 1);
            let y = lemma_row_at(list, places, chosen, filtering, folds, n, i + 1);
            if y.0 < x.0 {
                lemma_rows_before(list, places, chosen, filtering, folds, y.0 + 1, x.0);
            }
            if y.0 > x.0 + 1 {
                lemma_rows_before(list, places, chosen, filtering, folds, x.0 + 1, y.0);
            }
        }
    } else {
        assert(own[1] == node_rows(list, members)[0]);
        assert(part[i + 1] == own[1]);
        assert(all[i + 1] == part[i + 1]);
    }
}

/// How many of some rows are countries'.
pub open spec fn countries_in(rows: Seq<Row>) -> nat
    decreases rows.len(),
{
    if rows.len() == 0 {
        0
    } else {
        countries_in(rows.drop_last()) + if rows.last().header {
            1nat
        } else {
            0nat
        }
    }
}

proof fn lemma_countries_in(rows: Seq<Row>, more: Seq<Row>)
    ensures
        countries_in(rows + more) == countries_in(rows) + countries_in(more),
    decreases more.len(),
{
    if more.len() > 0 {
        lemma_countries_in(rows, more.drop_last());
        assert((rows + more).drop_last() =~= rows + more.drop_last());
        assert((rows + more).last() == more.last());
    } else {
        assert(rows + more =~= rows);
    }
}

proof fn lemma_no_countries_in(rows: Seq<Row>)
    requires
        forall|i: int| 0 <= i < rows.len() ==> !(#[trigger] rows[i]).header,
    ensures
        countries_in(rows) == 0,
    decreases rows.len(),
{
    if rows.len() > 0 {
        let fewer = rows.drop_last();
        assert forall|i: int| 0 <= i < fewer.len() implies !(#[trigger] fewer[i]).header by {
            assert(fewer[i] == rows[i]);
        }
        lemma_no_countries_in(fewer);
        assert(!rows[rows.len() - 1].header);
    }
}

proof fn lemma_countries_in_rows(
    list: Seq<Exit>,
    places: Seq<usize>,
    chosen: i64,
    filtering: bool,
    folds: Folds,
    n: int,
)
    requires
        0 <= n,
    ensures
        countries_in(rows_of(list, places, chosen, filtering, folds, n)) == n,
    decreases n,
{
    if n > 0 {
        lemma_countries_in_rows(list, places, chosen, filtering, folds, n - 1);
        let codes = countries_of(list, places);
        let code = codes[order::order_of(country_ranks(list, places))[n - 1] as int];
        let own = country_rows(list, places, code, chosen, filtering, folds);
        lemma_countries_in(rows_of(list, places, chosen, filtering, folds, n - 1), own);
        let nodes = own.drop_first();
        assert(own =~= seq![own[0]] + nodes);
        lemma_countries_in(seq![own[0]], nodes);
        lemma_no_countries_in(nodes);
        assert(seq![own[0]].drop_last() =~= Seq::empty());
        assert(seq![own[0]].last().header);
        assert(countries_in(Seq::<Row>::empty()) == 0);
        assert(countries_in(seq![own[0]]) == 1);
    }
}

/// The number of countries that comes with the list is how many of its rows are
/// countries', whichever are open.
pub proof fn lemma_the_countries_are_counted(
    list: Seq<Exit>,
    places: Seq<usize>,
    chosen: i64,
    filtering: bool,
    folds: Folds,
)
    ensures
        countries_in(all_rows(list, places, chosen, filtering, folds)) == countries_of(
            list,
            places,
        ).len(),
{
    lemma_countries_in_rows(
        list,
        places,
        chosen,
        filtering,
        folds,
        countries_of(list, places).len() as int,
    );
}

/// An exit belongs to the country its code names, in either case and whatever its name
/// says; without a code to the one its name settles on; and two that neither settles
/// stay apart by their names.
pub proof fn lemma_the_country_of_an_exit(exit: Exit)
    ensures
        text::trimmed(exit.country_code@).len() == 2 && text::is_letter(
            text::trimmed(exit.country_code@)[0],
        ) && text::is_letter(text::trimmed(exit.country_code@)[1]) ==> key_of(exit)
            == text::ascii_lower(text::trimmed(exit.country_code@)),
        geo::resolved(exit.country_code@, exit.country@) is None ==> key_of(exit) == geo::folded(
            exit.country@,
        ),
{
    let code = text::trimmed(exit.country_code@);
    if code.len() == 2 && text::is_letter(code[0]) && text::is_letter(code[1]) {
        let lower = text::ascii_lower(code);
        assert(lower[0] == text::lower_char(code[0]));
        assert(lower[1] == text::lower_char(code[1]));
    }
}

/// The name on screen is the one on record for the code, and what was sent where there
/// is none.
pub proof fn lemma_the_name_on_screen(code: Seq<char>, sent: Seq<char>, k: int, name: Seq<char>)
    requires
        ({
            let records = text::lines_of(crate::places::COUNTRY_NAMES@);
            let own = text::ascii_lower(text::trimmed(code));
            &&& 0 <= k <= records.len()
            &&& forall|i: int|
                0 <= i < k ==> (text::cut(#[trigger] records[i], '\t') matches Some((other, _))
                    ==> other != own)
            &&& k < records.len() ==> text::cut(records[k], '\t') == Some((own, name))
        }),
    ensures
        k < text::lines_of(crate::places::COUNTRY_NAMES@).len() ==> label_of(code, sent) == name,
        k == text::lines_of(crate::places::COUNTRY_NAMES@).len() ==> label_of(code, sent) == sent,
{
    geo::lemma_the_record_of_a_code(
        text::lines_of(crate::places::COUNTRY_NAMES@),
        k,
        text::ascii_lower(text::trimmed(code)),
        name,
    );
}

/// A row shows what it holds, each field in its own place.
pub proof fn lemma_a_row_as_it_is_held(entry: ExitEntry)
    ensures
        entry@.header == entry.header,
        entry@.collapsed == entry.collapsed,
        entry@.id == entry.id,
        entry@.code == entry.code@,
        entry@.label == entry.label@,
        entry@.moniker == entry.moniker@,
        entry@.ready == entry.ready,
        entry@.kind == entry.kind,
        entry@.asn == entry.asn@,
        entry@.count == entry.count,
        entry@.ready_count == entry.ready_count,
        entry@.has_flag == entry.has_flag,
{
}

} // verus!
