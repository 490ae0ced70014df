//! The markers on the map: which exits share one, and what it says.
use crate::api::Exit;
use crate::exits;
use crate::exits::{is_ready, spot_for, Spot};
use crate::text;
use vstd::prelude::*;
use vstd::string::*;

verus! {

/// A marker on the map.
pub struct MapNode {
    pub id: i32,
    pub label: String,
    pub detail: String,
    /// The place, in the list of exits, of the one that lends the marker its
    /// position.
    pub at: usize,
    pub ready: bool,
    pub kind: i32,
    pub count: i32,
}

/// A marker, apart from how it is held.
#[verifier::ext_equal]
pub struct Marker {
    pub id: i32,
    pub label: Seq<char>,
    pub detail: Seq<char>,
    pub at: usize,
    pub ready: bool,
    pub kind: i32,
    pub count: i32,
}

impl View for MapNode {
    type V = Marker;

    open spec fn view(&self) -> Marker {
        Marker {
            id: self.id,
            label: self.label@,
            detail: self.detail@,
            at: self.at,
            ready: self.ready,
            kind: self.kind,
            count: self.count,
        }
    }
}

/// The markers behind a list.
pub open spec fn marks(v: Seq<MapNode>) -> Seq<Marker> {
    Seq::new(v.len(), |i: int| v[i]@)
}

// Who is on the map

/// The places of the exits that have a spot on the map.
pub open spec fn placed_of(list: Seq<Exit>, places: Seq<usize>) -> Seq<usize>
    decreases places.len(),
{
    if places.len() == 0 {
        Seq::empty()
    } else if exits::exit_spot(list[places.last() as int]) is Some {
        placed_of(list, places.drop_last()).push(places.last())
    } else {
        placed_of(list, places.drop_last())
    }
}

/// There are no more exits on the map than are listed.
pub proof fn lemma_placed_len(list: Seq<Exit>, places: Seq<usize>)
    ensures
        placed_of(list, places).len() <= places.len(),
    decreases places.len(),
{
    if places.len() > 0 {
        lemma_placed_len(list, places.drop_last());
    }
}

/// The exits that have a spot on the map, and how many have none. Those are left
/// off rather than dropped somewhere wrong; the list still carries them.
pub fn placed(list: &Vec<Exit>, places: &Vec<usize>) -> (r: (Vec<usize>, usize))
    requires
        exits::are_places(places@, list@.len()),
    ensures
        r.0@ == placed_of(list@, places@),
        r.1 == places@.len() - r.0@.len(),
        exits::are_places(r.0@, list@.len()),
{
    let mut on: Vec<usize> = Vec::new();
    let mut off: usize = 0;
    let mut i: usize = 0;
    assert(places@.take(0) =~= Seq::empty());
    while i < places.len()
        invariant
            i <= places@.len(),
            exits::are_places(places@, list@.len()),
            exits::are_places(on@, list@.len()),
            on@ == placed_of(list@, places@.take(i as int)),
            off == i - on@.len(),
        decreases places@.len() - i,
    {
        assert(places@.take(i as int + 1).drop_last() =~= places@.take(i as int));
        assert(places@.take(i as int + 1).last() == places@[i as int]);
        assert(places@[i as int] < list@.len());
        if spot_for(&list[places[i]]).is_some() {
            on.push(places[i]);
        } else {
            off += 1;
        }
        i += 1;
    }
    assert(places@.take(i as int) =~= places@);
    (on, off)
}

/// The map shows what the list shows: exactly those of the exits listed that have
/// a spot on it.
pub proof fn lemma_the_map_shows_what_is_listed(list: Seq<Exit>, places: Seq<usize>, place: usize)
    ensures
        placed_of(list, places).contains(place) <==> places.contains(place) && exits::exit_spot(
            list[place as int],
        ) is Some,
    decreases places.len(),
{
    if places.len() > 0 {
        let before = places.drop_last();
        lemma_the_map_shows_what_is_listed(list, before, place);
        let (on, all) = (placed_of(list, before), placed_of(list, places));
        if places.contains(place) {
            let i = choose|i: int| 0 <= i < places.len() && places[i] == place;
            if i < before.len() {
                assert(before[i] == place);
            }
        }
        if before.contains(place) {
            let i = choose|i: int| 0 <= i < before.len() && before[i] == place;
            assert(places[i] == place);
        }
        if on.contains(place) {
            let i = choose|i: int| 0 <= i < on.len() && on[i] == place;
            assert(all[i] == place);
        }
        if all.contains(place) {
            let i = choose|i: int| 0 <= i < all.len() && all[i] == place;
            if i < on.len() {
                assert(on[i] == place);
            } else {
                assert(places[places.len() - 1] == place);
            }
        }
        if places.last() == place && exits::exit_spot(list[place as int]) is Some {
            assert(all[all.len() - 1] == place);
            assert(places[places.len() - 1] == place);
        }
    }
}

// Who shares a marker

/// The table of which exits are close enough to share a marker, by row.
pub open spec fn table(near: Seq<Vec<bool>>) -> Seq<Seq<bool>> {
    Seq::new(near.len(), |i: int| near[i]@)
}

/// Whether the table has a column for every row.
pub open spec fn is_square(near: Seq<Seq<bool>>) -> bool {
    forall|i: int| 0 <= i < near.len() ==> (#[trigger] near[i]).len() == near.len()
}

/// Among the first `n` exits, those that lead a marker: each that is near none of
/// the leads before it.
pub open spec fn leads(near: Seq<Seq<bool>>, n: int) -> Seq<usize>
    decreases n,
{
    if n <= 0 {
        Seq::empty()
    } else {
        let before = leads(near, n - 1);
        if first_near(near, before, n - 1) < before.len() {
            before
        } else {
            before.push((n - 1) as usize)
        }
    }
}

/// The first of some leads an exit is near, or how many there are when it is
/// near none.
pub open spec fn first_near(near: Seq<Seq<bool>>, among: Seq<usize>, j: int) -> nat
    decreases among.len(),
{
    if among.len() == 0 {
        0
    } else if near[among[0] as int][j] {
        0
    } else {
        1 + first_near(near, among.drop_first(), j)
    }
}

/// The marker an exit is shown by.
pub open spec fn marker_for(near: Seq<Seq<bool>>, j: int) -> nat {
    first_near(near, leads(near, j), j)
}

/// Among the first `n` exits, those shown by marker `g`.
pub open spec fn shown_by(near: Seq<Seq<bool>>, g: nat, n: int) -> Seq<usize>
    decreases n,
{
    if n <= 0 {
        Seq::empty()
    } else if marker_for(near, n - 1) == g {
        shown_by(near, g, n - 1).push((n - 1) as usize)
    } else {
        shown_by(near, g, n - 1)
    }
}

proof fn lemma_first_near(near: Seq<Seq<bool>>, among: Seq<usize>, j: int)
    ensures
        first_near(near, among, j) <= among.len(),
        forall|g: int|
            0 <= g < first_near(near, among, j) ==> !near[#[trigger] among[g] as int][j],
        first_near(near, among, j) < among.len() ==> near[among[first_near(near, among, j) as int] as int][j],
    decreases among.len(),
{
    if among.len() > 0 && !near[among[0] as int][j] {
        let rest = among.drop_first();
        lemma_first_near(near, rest, j);
        assert forall|g: int| 0 <= g < first_near(near, among, j) implies !near[#[trigger] among[g] as int][j] by {
            if g > 0 {
                assert(rest[g - 1] == among[g]);
            }
        }
    }
}

proof fn lemma_first_near_is(near: Seq<Seq<bool>>, among: Seq<usize>, j: int, at: int)
    requires
        0 <= at <= among.len(),
        forall|g: int| 0 <= g < at ==> !near[#[trigger] among[g] as int][j],
        at < among.len() ==> near[among[at] as int][j],
    ensures
        first_near(near, among, j) == at,
{
    lemma_first_near(near, among, j);
    let first = first_near(near, among, j) as int;
    if first < at {
        assert(!near[among[first] as int][j]);
    }
    if at < first {
        assert(!near[among[at] as int][j]);
    }
}

/// The leads come before the exits that follow them.
proof fn lemma_leads(near: Seq<Seq<bool>>, n: int)
    requires
        0 <= n <= usize::MAX,
    ensures
        forall|g: int| 0 <= g < leads(near, n).len() ==> (#[trigger] leads(near, n)[g]) < n,
        leads(near, n).len() <= n,
    decreases n,
{
    if n > 0 {
        lemma_leads(near, n - 1);
    }
}

/// A marker past the last has no one yet.
proof fn lemma_none_shown(near: Seq<Seq<bool>>, n: int, g: nat)
    requires
        0 <= n <= usize::MAX,
        g >= leads(near, n).len(),
    ensures
        shown_by(near, g, n).len() == 0,
    decreases n,
{
    if n > 0 {
        lemma_first_near(near, leads(near, n - 1), n - 1);
        lemma_none_shown(near, n - 1, g);
    }
}

/// The first of each of some groups.
spec fn firsts(groups: Seq<Vec<usize>>) -> Seq<usize> {
    Seq::new(groups.len(), |g: int| groups[g]@[0])
}

/// The group an exit joins: the first whose first it is near.
fn joined(near: &Vec<Vec<bool>>, groups: &Vec<Vec<usize>>, j: usize) -> (r: usize)
    requires
        is_square(table(near@)),
        j < near@.len(),
        forall|g: int|
            0 <= g < groups@.len() ==> (#[trigger] groups@[g])@.len() > 0 && groups@[g]@[0]
                < near@.len(),
    ensures
        r == first_near(table(near@), firsts(groups@), j as int),
        r <= groups@.len(),
{
    let ghost t = table(near@);
    let ghost among = firsts(groups@);
    let mut g: usize = 0;
    while g < groups.len()
        invariant
            g <= groups@.len(),
            j < near@.len(),
            t == table(near@),
            is_square(t),
            among == firsts(groups@),
            forall|g: int|
                0 <= g < groups@.len() ==> (#[trigger] groups@[g])@.len() > 0 && groups@[g]@[0]
                    < near@.len(),
            forall|h: int| 0 <= h < g ==> !t[#[trigger] among[h] as int][j as int],
        decreases groups@.len() - g,
    {
        let first: usize = groups[g][0];
        assert(among[g as int] == first);
        assert(t[first as int] == near@[first as int]@);
        if near[first][j] {
            proof {
                lemma_first_near_is(t, among, j as int, g as int);
            }
            return g;
        }
        g += 1;
    }
    proof {
        lemma_first_near_is(t, among, j as int, g as int);
    }
    g
}

/// Collapses exits onto markers, from the table of which are close enough to
/// share one. An exit joins the first marker whose lead it is near, and leads
/// one of its own when it is near none.
pub fn collapse(near: &Vec<Vec<bool>>) -> (r: Vec<Vec<usize>>)
    requires
        is_square(table(near@)),
    ensures
        r@.len() == leads(table(near@), near@.len() as int).len(),
        forall|g: int|
            0 <= g < r@.len() ==> (#[trigger] r@[g])@ == shown_by(
                table(near@),
                g as nat,
                near@.len() as int,
            ) && r@[g]@.len() > 0 && r@[g]@[0] == leads(table(near@), near@.len() as int)[g],
{
    let ghost t = table(near@);
    let n: usize = near.len();
    let mut r: Vec<Vec<usize>> = Vec::new();
    let mut j: usize = 0;
    while j < n
        invariant
            j <= n == near@.len(),
            t == table(near@),
            is_square(t),
            r@.len() == leads(t, j as int).len(),
            forall|g: int|
                0 <= g < r@.len() ==> (#[trigger] r@[g])@ == shown_by(t, g as nat, j as int)
                    && r@[g]@.len() > 0 && r@[g]@[0] == leads(t, j as int)[g],
        decreases n - j,
    {
        let ghost before = leads(t, j as int);
        let ghost was = r@;
        proof {
            lemma_leads(t, j as int);
        }
        let g = joined(near, &r, j);
        assert(firsts(r@) =~= before);
        if g < r.len() {
            let mut members: Vec<usize> = Vec::new();
            std::mem::swap(&mut members, &mut r[g]);
            members.push(j);
            std::mem::swap(&mut members, &mut r[g]);
            assert(leads(t, j + 1) == before);
            assert forall|h: int| 0 <= h < r@.len() implies (#[trigger] r@[h])@ == shown_by(
                t,
                h as nat,
                j + 1,
            ) && r@[h]@.len() > 0 && r@[h]@[0] == leads(t, j + 1)[h] by {
                assert(was[h]@ == shown_by(t, h as nat, j as int));
            }
        } else {
            let mut members: Vec<usize> = Vec::new();
            members.push(j);
            r.push(members);
            proof {
                lemma_none_shown(t, j as int, before.len());
            }
            assert(leads(t, j + 1) == before.push(j));
            assert forall|h: int| 0 <= h < r@.len() implies (#[trigger] r@[h])@ == shown_by(
                t,
                h as nat,
                j + 1,
            ) && r@[h]@.len() > 0 && r@[h]@[0] == leads(t, j + 1)[h] by {
                if h < was.len() {
                    assert(was[h]@ == shown_by(t, h as nat, j as int));
                } else {
                    assert(members@ =~= shown_by(t, h as nat, j + 1));
                }
            }
        }
        j += 1;
    }
    r
}

/// Every exit on the map is shown by exactly one marker: the one it is near the
/// lead of, or its own.
pub proof fn lemma_one_marker_each(near: Seq<Seq<bool>>, j: int, n: int, g: nat)
    requires
        0 <= j < n <= usize::MAX,
    ensures
        shown_by(near, g, n).contains(j as usize) <==> g == marker_for(near, j),
        marker_for(near, j) < leads(near, n).len(),
    decreases n,
{
    lemma_first_near(near, leads(near, n - 1), n - 1);
    if j < n - 1 {
        lemma_one_marker_each(near, j, n - 1, g);
        let before = shown_by(near, g, n - 1);
        let all = shown_by(near, g, n);
        if before.contains(j as usize) {
            let i = choose|i: int| 0 <= i < before.len() && before[i] == j as usize;
            assert(all[i] == j as usize);
        }
        if all.contains(j as usize) {
            let i = choose|i: int| 0 <= i < all.len() && all[i] == j as usize;
            assert(i < before.len());
            assert(before[i] == j as usize);
        }
    } else {
        let all = shown_by(near, g, n);
        lemma_shown_below(near, g, n - 1);
        if marker_for(near, j) == g {
            assert(all[all.len() - 1] == j as usize);
        } else if all.contains(j as usize) {
            let i = choose|i: int| 0 <= i < all.len() && all[i] == j as usize;
            assert(shown_by(near, g, n - 1)[i] < n - 1);
        }
    }
}

proof fn lemma_shown_below(near: Seq<Seq<bool>>, g: nat, n: int)
    requires
        0 <= n <= usize::MAX,
    ensures
        forall|i: int| 0 <= i < shown_by(near, g, n).len() ==> (#[trigger] shown_by(near, g, n)[i]) < n,
    decreases n,
{
    if n > 0 {
        lemma_shown_below(near, g, n - 1);
        let before = shown_by(near, g, n - 1);
        let all = shown_by(near, g, n);
        assert forall|i: int| 0 <= i < all.len() implies (#[trigger] all[i]) < n by {
            if i < before.len() {
                assert(all[i] == before[i]);
            }
        }
    }
}

/// No two markers could have been one: none stands near an earlier one.
pub proof fn lemma_leads_stand_apart(near: Seq<Seq<bool>>, n: int, g: int, h: int)
    requires
        0 <= n <= usize::MAX,
        0 <= g < h < leads(near, n).len(),
    ensures
        !near[leads(near, n)[g] as int][leads(near, n)[h] as int],
    decreases n,
{
    if n > 0 {
        let before = leads(near, n - 1);
        lemma_first_near(near, before, n - 1);
        if h < before.len() {
            lemma_leads_stand_apart(near, n - 1, g, h);
            assert(leads(near, n)[g] == before[g]);
            assert(leads(near, n)[h] == before[h]);
        } else {
            assert(!near[before[g] as int][n - 1]);
        }
    }
}

/// How many of the first `n` exits the first `m` markers show between them.
spec fn shown_total(near: Seq<Seq<bool>>, m: nat, n: int) -> nat
    decreases m,
{
    if m == 0 {
        0
    } else {
        shown_total(near, (m - 1) as nat, n) + shown_by(near, (m - 1) as nat, n).len()
    }
}

/// One exit more is one more shown, if its marker is among them.
proof fn lemma_total_step(near: Seq<Seq<bool>>, m: nat, n: int)
    requires
        n > 0,
    ensures
        shown_total(near, m, n) == shown_total(near, m, n - 1) + (if marker_for(near, n - 1) < m {
            1nat
        } else {
            0nat
        }),
    decreases m,
{
    if m > 0 {
        lemma_total_step(near, (m - 1) as nat, n);
    }
}

/// The markers show every exit between them, and none twice.
proof fn lemma_total(near: Seq<Seq<bool>>, n: int)
    requires
        0 <= n <= usize::MAX,
    ensures
        shown_total(near, leads(near, n).len(), n) == n,
    decreases n,
{
    if n > 0 {
        let before = leads(near, n - 1);
        lemma_total(near, n - 1);
        lemma_first_near(near, before, n - 1);
        lemma_total_step(near, leads(near, n).len(), n);
        if marker_for(near, n - 1) == before.len() {
            lemma_none_shown(near, n - 1, before.len());
        }
    } else {
        assert(leads(near, n).len() == 0);
    }
}

proof fn lemma_shown_len(near: Seq<Seq<bool>>, g: nat, n: int)
    requires
        0 <= n,
    ensures
        shown_by(near, g, n).len() <= n,
    decreases n,
{
    if n > 0 {
        lemma_shown_len(near, g, n - 1);
    }
}

// What a marker says

/// The first of some exits that is ready, else the first of all.
pub open spec fn lead_of(list: Seq<Exit>, members: Seq<usize>) -> usize {
    if exists|i: int| is_first_ready(list, members, i) {
        members[choose|i: int| is_first_ready(list, members, i)]
    } else {
        members[0]
    }
}

/// Whether the exit at `i` is ready and none before it is.
pub open spec fn is_first_ready(list: Seq<Exit>, members: Seq<usize>, i: int) -> bool {
    &&& 0 <= i < members.len()
    &&& exits::ready(list[members[i] as int])
    &&& forall|j: int| 0 <= j < i ==> !exits::ready(list[#[trigger] members[j] as int])
}

fn lead(list: &Vec<Exit>, members: &Vec<usize>) -> (r: usize)
    requires
        exits::are_places(members@, list@.len()),
        members@.len() > 0,
    ensures
        r == lead_of(list@, members@),
        r < list@.len(),
{
    let mut i: usize = 0;
    while i < members.len()
        invariant
            i <= members@.len(),
            exits::are_places(members@, list@.len()),
            forall|j: int| 0 <= j < i ==> !exits::ready(list@[#[trigger] members@[j] as int]),
        decreases members@.len() - i,
    {
        assert(members@[i as int] < list@.len());
        if is_ready(&list[members[i]]) {
            assert(is_first_ready(list@, members@, i as int));
            let ghost other = choose|i: int| is_first_ready(list@, members@, i);
            assert(other == i) by {
                if other < i {
                    assert(!exits::ready(list@[members@[other] as int]));
                }
                if i < other {
                    assert(!exits::ready(list@[members@[i as int] as int]));
                }
            }
            return members[i];
        }
        i += 1;
    }
    assert forall|k: int| !is_first_ready(list@, members@, k) by {}
    assert(members@[0] < list@.len());
    members[0]
}

/// The marker of some exits: it stands where the first of them is, goes by the
/// first that is ready, and picks that one when it is clicked.
pub open spec fn marker_of(list: Seq<Exit>, members: Seq<usize>) -> Marker {
    let lead = list[lead_of(list, members) as int];
    Marker {
        id: lead.id as i32,
        label: text::uppercase(lead.country@) + " · "@ + lead.city@,
        detail: if members.len() > 1 {
            text::decimal(members.len()) + " sorties ici"@
        } else {
            lead.moniker@
        },
        at: members[0],
        ready: exits::ready_in(list, members) > 0,
        kind: crate::api::kind_of(lead.residential),
        count: members.len() as i32,
    }
}

/// The marker of some exits. Several in one city land on the same spot, so they
/// become one marker carrying the count.
pub fn marker(list: &Vec<Exit>, members: &Vec<usize>) -> (r: MapNode)
    requires
        exits::are_places(members@, list@.len()),
        members@.len() > 0,
    ensures
        r@ == marker_of(list@, members@),
{
    let exit = &list[lead(list, members)];
    let mut label = text::to_uppercase(exit.country.as_str());
    label.append(" · ");
    label.append(exit.city.as_str());
    let detail = if members.len() > 1 {
        let mut detail = text::number(members.len() as u64);
        detail.append(" sorties ici");
        detail
    } else {
        exit.moniker.clone()
    };
    let r = MapNode {
        id: exit.id as i32,
        label,
        detail,
        at: members[0],
        ready: exits::count_ready(list, members) > 0,
        kind: exit.kind(),
        count: members.len() as i32,
    };
    assert(r@ =~= marker_of(list@, members@));
    r
}

/// The exits behind some places of another list of places.
pub open spec fn at_places(placed: Seq<usize>, members: Seq<usize>) -> Seq<usize> {
    Seq::new(members.len(), |i: int| placed[members[i] as int])
}

/// The markers of the exits on the map, from the table of which are close enough
/// to share one.
pub fn markers(list: &Vec<Exit>, placed: &Vec<usize>, near: &Vec<Vec<bool>>) -> (r: Vec<MapNode>)
    requires
        exits::are_places(placed@, list@.len()),
        near@.len() == placed@.len(),
        is_square(table(near@)),
    ensures
        r@.len() == leads(table(near@), near@.len() as int).len(),
        forall|g: int|
            0 <= g < r@.len() ==> (#[trigger] r@[g])@ == marker_of(
                list@,
                at_places(placed@, shown_by(table(near@), g as nat, near@.len() as int)),
            ),
{
    let groups = collapse(near);
    let n: usize = near.len();
    let ghost t = table(near@);
    let mut r: Vec<MapNode> = Vec::new();
    let mut g: usize = 0;
    while g < groups.len()
        invariant
            g <= groups@.len(),
            t == table(near@),
            exits::are_places(placed@, list@.len()),
            n == near@.len() == placed@.len(),
            forall|h: int|
                0 <= h < groups@.len() ==> (#[trigger] groups@[h])@ == shown_by(
                    t,
                    h as nat,
                    near@.len() as int,
                ) && groups@[h]@.len() > 0,
            r@.len() == g,
            forall|h: int|
                0 <= h < g ==> (#[trigger] r@[h])@ == marker_of(
                    list@,
                    at_places(placed@, shown_by(t, h as nat, near@.len() as int)),
                ),
        decreases groups@.len() - g,
    {
        proof {
            lemma_shown_below(t, g as nat, near@.len() as int);
        }
        let group = &groups[g];
        let ghost all = at_places(placed@, group@);
        let mut members: Vec<usize> = Vec::new();
        let mut i: usize = 0;
        while i < group.len()
            invariant
                i <= group@.len(),
                exits::are_places(placed@, list@.len()),
                forall|k: int| 0 <= k < group@.len() ==> (#[trigger] group@[k]) < placed@.len(),
                members@.len() == i,
                forall|k: int| 0 <= k < i ==> (#[trigger] members@[k]) == placed@[group@[k] as int],
            decreases group@.len() - i,
        {
            assert(group@[i as int] < placed@.len());
            members.push(placed[group[i]]);
            i += 1;
        }
        assert(members@ =~= all);
        assert forall|k: int| 0 <= k < members@.len() implies (#[trigger] members@[k]) < list@.len() by {
            assert(placed@[group@[k] as int] < list@.len());
        }
        r.push(marker(list, &members));
        g += 1;
    }
    r
}

/// What the counts on some markers add up to.
pub open spec fn total(nodes: Seq<Marker>) -> int
    decreases nodes.len(),
{
    if nodes.len() == 0 {
        0
    } else {
        total(nodes.drop_last()) + nodes.last().count
    }
}

proof fn lemma_total_of(
    list: Seq<Exit>,
    on: Seq<usize>,
    near: Seq<Seq<bool>>,
    nodes: Seq<Marker>,
)
    requires
        near.len() <= i32::MAX,
        forall|g: int|
            0 <= g < nodes.len() ==> #[trigger] nodes[g] == marker_of(
                list,
                at_places(on, shown_by(near, g as nat, near.len() as int)),
            ),
    ensures
        total(nodes) == shown_total(near, nodes.len(), near.len() as int),
    decreases nodes.len(),
{
    if nodes.len() > 0 {
        let before = nodes.drop_last();
        assert forall|g: int| 0 <= g < before.len() implies #[trigger] before[g] == marker_of(
            list,
            at_places(on, shown_by(near, g as nat, near.len() as int)),
        ) by {
            assert(before[g] == nodes[g]);
        }
        lemma_total_of(list, on, near, before);
        assert(nodes[nodes.len() - 1] == nodes.last());
        lemma_shown_len(near, before.len(), near.len() as int);
    }
}

/// The counts on the markers add up to the exits on the map.
pub proof fn lemma_the_counts_add_up(
    list: Seq<Exit>,
    on: Seq<usize>,
    near: Seq<Seq<bool>>,
    nodes: Seq<Marker>,
)
    requires
        near.len() == on.len(),
        on.len() <= i32::MAX,
        nodes.len() == leads(near, near.len() as int).len(),
        forall|g: int|
            0 <= g < nodes.len() ==> #[trigger] nodes[g] == marker_of(
                list,
                at_places(on, shown_by(near, g as nat, near.len() as int)),
            ),
    ensures
        total(nodes) == on.len(),
{
    lemma_total_of(list, on, near, nodes);
    lemma_total(near, near.len() as int);
}

impl MapNode {
    /// Whether the two markers say the same.
    pub fn same(&self, other: &MapNode) -> (r: bool)
        ensures
            r == (self@ == other@),
    {
        self.id == other.id && self.at == other.at && self.ready == other.ready && self.kind
            == other.kind && self.count == other.count && text::same(
            self.label.as_str(),
            other.label.as_str(),
        ) && text::same(self.detail.as_str(), other.detail.as_str())
    }
}

/// Whether two lists of markers say the same.
pub fn same_nodes(a: &Vec<MapNode>, b: &Vec<MapNode>) -> (r: bool)
    ensures
        r == (marks(a@) == marks(b@)),
{
    if a.len() != b.len() {
        assert(marks(a@).len() != marks(b@).len());
        return false;
    }
    let mut i: usize = 0;
    while i < a.len()
        invariant
            i <= a@.len() == b@.len(),
            forall|j: int| 0 <= j < i ==> (#[trigger] a@[j])@ == b@[j]@,
        decreases a@.len() - i,
    {
        if !a[i].same(&b[i]) {
            assert(marks(a@)[i as int] != marks(b@)[i as int]);
            return false;
        }
        i += 1;
    }
    assert(marks(a@) =~= marks(b@));
    true
}

// The trail

/// The first exit of a list with that number.
pub open spec fn exit_numbered(list: Seq<Exit>, id: i64) -> Option<Exit>
    decreases list.len(),
{
    if list.len() == 0 {
        None
    } else if list[0].id == id {
        Some(list[0])
    } else {
        exit_numbered(list.drop_first(), id)
    }
}

/// The place of the first exit of a list with that number.
pub fn numbered(list: &Vec<Exit>, id: i64) -> (r: Option<usize>)
    ensures
        match r {
            Some(i) => i < list@.len() && exit_numbered(list@, id) == Some(list@[i as int]),
            None => exit_numbered(list@, id) is None,
        },
{
    let mut i: usize = 0;
    assert(list@.skip(0) =~= list@);
    while i < list.len()
        invariant
            i <= list@.len(),
            exit_numbered(list@, id) == exit_numbered(list@.skip(i as int), id),
        decreases list@.len() - i,
    {
        assert(list@.skip(i as int)[0] == list@[i as int]);
        assert(list@.skip(i as int).drop_first() =~= list@.skip(i as int + 1));
        if list[i].id == id {
            return Some(i);
        }
        i += 1;
    }
    None
}

/// Where the trail from the entry node ends: at the exit in service, when there
/// is an entry node on the map to start from and the exit is on it too.
pub fn trail_end(list: &Vec<Exit>, chosen: i64, has_relay: bool) -> (r: Option<Spot>)
    ensures
        r == (match exit_numbered(list@, chosen) {
            Some(exit) if has_relay => exits::exit_spot(exit),
            _ => None,
        }),
{
    if !has_relay {
        return None;
    }
    match numbered(list, chosen) {
        Some(i) => spot_for(&list[i]),
        None => None,
    }
}

// What the map says

/// On the map are the exits shown that have a spot, in the order they came.
pub proof fn lemma_who_is_on_the_map(list: Seq<Exit>, places: Seq<usize>)
    ensures
        placed_of(list, places) == places.filter(
            |place: usize| exits::exit_spot(list[place as int]) is Some,
        ),
    decreases places.len(),
{
    reveal(Seq::filter);
    if places.len() > 0 {
        lemma_who_is_on_the_map(list, places.drop_last());
    }
}

proof fn lemma_leads_kept(near: Seq<Seq<bool>>, m: int, n: int)
    requires
        0 <= m <= n,
    ensures
        leads(near, m).len() <= leads(near, n).len(),
        forall|g: int| 0 <= g < leads(near, m).len() ==> #[trigger] leads(near, n)[g] == leads(near, m)[g],
    decreases n - m,
{
    if m < n {
        lemma_leads_kept(near, m, n - 1);
        assert forall|g: int| 0 <= g < leads(near, m).len() implies #[trigger] leads(near, n)[g]
            == leads(near, m)[g] by {
            assert(leads(near, n - 1)[g] == leads(near, m)[g]);
        }
    }
}

/// An exit is shown by the marker whose lead it is near, the first of them; one that is
/// near none of the leads before it leads a marker of its own.
pub proof fn lemma_the_marker_of_an_exit(near: Seq<Seq<bool>>, j: int, n: int)
    requires
        0 <= j < n <= usize::MAX,
    ensures
        marker_for(near, j) < leads(near, n).len(),
        near[leads(near, n)[marker_for(near, j) as int] as int][j] || leads(near, n)[marker_for(
            near,
            j,
        ) as int] == j,
        forall|h: int|
            0 <= h < marker_for(near, j) ==> !near[#[trigger] leads(near, n)[h] as int][j],
{
    let before = leads(near, j);
    lemma_first_near(near, before, j);
    lemma_leads_kept(near, j + 1, n);
    lemma_leads_kept(near, j, n);
    let g = marker_for(near, j) as int;
    assert(leads(near, n)[g] == leads(near, j + 1)[g]);
    if g < before.len() {
        assert(leads(near, n)[g] == before[g]);
    }
    assert forall|h: int| 0 <= h < g implies !near[#[trigger] leads(near, n)[h] as int][j] by {
        assert(leads(near, n)[h] == before[h]);
    }
}

/// A marker carries how many exits it stands for and is ready when one of them is; it
/// stands where the first of them does, and says how many there are, or who it is when
/// there is only one.
pub proof fn lemma_what_a_marker_says(list: Seq<Exit>, members: Seq<usize>)
    requires
        0 < members.len() <= i32::MAX,
    ensures
        marker_of(list, members).count == members.len(),
        marker_of(list, members).at == members[0],
        marker_of(list, members).ready <==> exists|i: int|
            0 <= i < members.len() && list[#[trigger] members[i] as int].state@
                == exits::PROVISIONED@,
        members.len() == 1 ==> marker_of(list, members).detail == list[members[0] as int].moniker@,
        members.len() > 1 ==> marker_of(list, members).detail == text::decimal(members.len())
            + " sorties ici"@,
{
    lemma_any_ready(list, members);
    if members.len() == 1 {
        if exists|i: int| is_first_ready(list, members, i) {
            let i = choose|i: int| is_first_ready(list, members, i);
            assert(i == 0);
        }
    }
}

proof fn lemma_any_ready(list: Seq<Exit>, members: Seq<usize>)
    ensures
        exits::ready_in(list, members) > 0 <==> exists|i: int|
            0 <= i < members.len() && list[#[trigger] members[i] as int].state@
                == exits::PROVISIONED@,
    decreases members.len(),
{
    if members.len() > 0 {
        let fewer = members.drop_last();
        lemma_any_ready(list, fewer);
        if exits::ready(list[members.last() as int]) {
            assert(list[members[members.len() - 1] as int].state@ == exits::PROVISIONED@);
        }
        if exists|i: int|
            0 <= i < fewer.len() && list[#[trigger] fewer[i] as int].state@ == exits::PROVISIONED@ {
            let i = choose|i: int|
                0 <= i < fewer.len() && list[#[trigger] fewer[i] as int].state@
                    == exits::PROVISIONED@;
            assert(list[members[i] as int].state@ == exits::PROVISIONED@);
        }
        if exists|i: int|
            0 <= i < members.len() && list[#[trigger] members[i] as int].state@
                == exits::PROVISIONED@ {
            let i = choose|i: int|
                0 <= i < members.len() && list[#[trigger] members[i] as int].state@
                    == exits::PROVISIONED@;
            if i < fewer.len() {
                assert(list[fewer[i] as int].state@ == exits::PROVISIONED@);
            }
        }
    }
}

/// A click on a marker picks an exit that is ready, the first of its exits that is, and
/// the first of all when none is. The marker is named after that one.
pub proof fn lemma_who_a_marker_picks(list: Seq<Exit>, members: Seq<usize>, k: int)
    requires
        0 <= k < members.len(),
        ({
            &&& list[members[k] as int].state@ == exits::PROVISIONED@
            &&& forall|i: int|
                0 <= i < k ==> list[#[trigger] members[i] as int].state@ != exits::PROVISIONED@
        }) || ({
            &&& k == 0
            &&& forall|i: int|
                0 <= i < members.len() ==> list[#[trigger] members[i] as int].state@
                    != exits::PROVISIONED@
        }),
    ensures
        marker_of(list, members).id == list[members[k] as int].id as i32,
        marker_of(list, members).label == text::uppercase(list[members[k] as int].country@) + " · "@
            + list[members[k] as int].city@,
        marker_of(list, members).kind == crate::api::kind_of(list[members[k] as int].residential),
{
    if list[members[k] as int].state@ == exits::PROVISIONED@ {
        assert(is_first_ready(list, members, k));
        let other = choose|i: int| is_first_ready(list, members, i);
        assert(other == k) by {
            if other < k {
                assert(list[members[other] as int].state@ != exits::PROVISIONED@);
            }
            if k < other {
                assert(!exits::ready(list[members[k] as int]));
            }
        }
    } else if exists|i: int| is_first_ready(list, members, i) {
        let other = choose|i: int| is_first_ready(list, members, i);
        assert(list[members[other] as int].state@ != exits::PROVISIONED@);
    }
}

/// The exit of a number is the first in the list that has it, and there is none when
/// none has.
pub proof fn lemma_the_exit_of_a_number(list: Seq<Exit>, id: i64, k: int)
    requires
        0 <= k <= list.len(),
        forall|i: int| 0 <= i < k ==> (#[trigger] list[i]).id != id,
        k < list.len() ==> list[k].id == id,
    ensures
        k < list.len() ==> exit_numbered(list, id) == Some(list[k]),
        k == list.len() ==> exit_numbered(list, id) is None,
    decreases k,
{
    if k > 0 {
        let rest = list.drop_first();
        assert(list[0].id != id);
        assert forall|i: int| 0 <= i < k - 1 implies (#[trigger] rest[i]).id != id by {
            assert(rest[i] == list[i + 1]);
        }
        lemma_the_exit_of_a_number(rest, id, k - 1);
    }
}

/// A marker shows what it holds, each field in its own place.
pub proof fn lemma_a_marker_as_it_is_held(node: MapNode)
    ensures
        node@.id == node.id,
        node@.label == node.label@,
        node@.detail == node.detail@,
        node@.at == node.at,
        node@.ready == node.ready,
        node@.kind == node.kind,
        node@.count == node.count,
{
}

/// A marker stands for its lead before any other.
pub proof fn lemma_a_marker_starts_with_its_lead(near: Seq<Seq<bool>>, n: int, g: int)
    requires
        0 <= n <= usize::MAX,
        0 <= g < leads(near, n).len(),
    ensures
        shown_by(near, g as nat, n).len() > 0,
        shown_by(near, g as nat, n)[0] == leads(near, n)[g],
        leads(near, n)[g] < n,
    decreases n,
{
    lemma_leads(near, n);
    let before = leads(near, n - 1);
    lemma_first_near(near, before, n - 1);
    if g < before.len() {
        lemma_a_marker_starts_with_its_lead(near, n - 1, g);
    } else {
        lemma_none_shown(near, n - 1, g as nat);
    }
}

} // verus!
