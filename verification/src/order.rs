//! The order the lists are shown in.
//!
//! Text compares character by character, a prefix before what extends it. A
//! list is ordered by rank, and two rows of equal rank keep the order they came
//! in.
use crate::text;
use vstd::prelude::*;

verus! {

/// Whether `a` comes no later than `b`, character by character.
pub open spec fn text_le(a: Seq<char>, b: Seq<char>) -> bool
    decreases a.len(),
{
    if a.len() == 0 {
        true
    } else if b.len() == 0 {
        false
    } else if a[0] != b[0] {
        a[0] < b[0]
    } else {
        text_le(a.drop_first(), b.drop_first())
    }
}

/// Any two texts compare.
pub proof fn lemma_text_total(a: Seq<char>, b: Seq<char>)
    ensures
        text_le(a, b) || text_le(b, a),
    decreases a.len(),
{
    if a.len() > 0 && b.len() > 0 && a[0] == b[0] {
        lemma_text_total(a.drop_first(), b.drop_first());
    }
}

/// Two texts that come no later than each other are the same text.
pub proof fn lemma_text_antisymmetric(a: Seq<char>, b: Seq<char>)
    requires
        text_le(a, b),
        text_le(b, a),
    ensures
        a == b,
    decreases a.len(),
{
    if a.len() > 0 && b.len() > 0 {
        let x = a.drop_first();
        let y = b.drop_first();
        lemma_text_antisymmetric(x, y);
        assert(a.len() == x.len() + 1 && b.len() == y.len() + 1);
        assert forall|i: int| 0 <= i < a.len() implies a[i] == b[i] by {
            if i > 0 {
                assert(a[i] == x[i - 1]);
                assert(b[i] == y[i - 1]);
            }
        }
    }
    assert(a =~= b);
}

/// The comparison carries over.
pub proof fn lemma_text_transitive(a: Seq<char>, b: Seq<char>, c: Seq<char>)
    requires
        text_le(a, b),
        text_le(b, c),
    ensures
        text_le(a, c),
    decreases a.len(),
{
    if a.len() > 0 && a[0] == b[0] && b[0] == c[0] {
        lemma_text_transitive(a.drop_first(), b.drop_first(), c.drop_first());
    }
}

/// Where two texts part, when the first comes no later than the second: at the end of
/// the first, or at a character that is lower in it.
pub proof fn lemma_text_parts(a: Seq<char>, b: Seq<char>) -> (k: int)
    requires
        text_le(a, b),
    ensures
        0 <= k <= a.len(),
        k <= b.len(),
        a.take(k) == b.take(k),
        k == a.len() || (k < b.len() && a[k] < b[k]),
    decreases a.len(),
{
    if a.len() == 0 || b.len() == 0 || a[0] != b[0] {
        assert(a.take(0) =~= b.take(0));
        0
    } else {
        let x = a.drop_first();
        let y = b.drop_first();
        let k = lemma_text_parts(x, y);
        assert forall|i: int| 0 <= i < k + 1 implies a[i] == b[i] by {
            if i > 0 {
                assert(x.take(k)[i - 1] == a[i]);
                assert(y.take(k)[i - 1] == b[i]);
            }
        }
        assert(a.take(k + 1) =~= b.take(k + 1));
        k + 1
    }
}

/// A text that parts from another at its own end, or at a character that is lower,
/// comes no later.
pub proof fn lemma_parted_texts(a: Seq<char>, b: Seq<char>, k: int)
    requires
        0 <= k <= a.len(),
        k <= b.len(),
        a.take(k) == b.take(k),
        k == a.len() || (k < b.len() && a[k] < b[k]),
    ensures
        text_le(a, b),
    decreases a.len(),
{
    if k > 0 {
        assert(a.take(k)[0] == a[0] && b.take(k)[0] == b[0]);
        let x = a.drop_first();
        let y = b.drop_first();
        assert(x.take(k - 1) =~= a.take(k).drop_first());
        assert(y.take(k - 1) =~= b.take(k).drop_first());
        lemma_parted_texts(x, y, k - 1);
    }
}

/// The order of texts is that of a dictionary: one comes no later than another exactly
/// when, after a beginning they share, it ends or goes on with a lower character.
pub proof fn lemma_dictionary_order(a: Seq<char>, b: Seq<char>)
    ensures
        text_le(a, b) <==> exists|k: int|
            0 <= k <= a.len() && k <= b.len() && #[trigger] a.take(k) == b.take(k) && (k == a.len()
                || (k < b.len() && a[k] < b[k])),
{
    if text_le(a, b) {
        let k = lemma_text_parts(a, b);
        assert(a.take(k) == b.take(k));
    }
    if exists|k: int|
        0 <= k <= a.len() && k <= b.len() && #[trigger] a.take(k) == b.take(k) && (k == a.len()
            || (k < b.len() && a[k] < b[k])) {
        let k = choose|k: int|
            0 <= k <= a.len() && k <= b.len() && #[trigger] a.take(k) == b.take(k) && (k == a.len()
                || (k < b.len() && a[k] < b[k]));
        lemma_parted_texts(a, b, k);
    }
}

/// Whether `a` comes no later than `b`.
pub fn no_later(a: &str, b: &str) -> (r: bool)
    ensures
        r == text_le(a@, b@),
{
    let left = text::chars_of(a);
    let right = text::chars_of(b);
    let mut i: usize = 0;
    assert(a@.skip(0) =~= a@);
    assert(b@.skip(0) =~= b@);
    while i < left.len() && i < right.len() && left[i] == right[i]
        invariant
            i <= left@.len(),
            i <= right@.len(),
            left@ == a@,
            right@ == b@,
            text_le(a@, b@) == text_le(a@.skip(i as int), b@.skip(i as int)),
        decreases left@.len() - i,
    {
        assert(a@.skip(i as int).drop_first() =~= a@.skip(i as int + 1));
        assert(b@.skip(i as int).drop_first() =~= b@.skip(i as int + 1));
        i += 1;
    }
    if i == left.len() {
        true
    } else if i == right.len() {
        false
    } else {
        left[i] < right[i]
    }
}

/// What a row is ordered by: the rows that are not `late` first, then by name,
/// then by what settles a tie.
pub struct Rank {
    pub late: bool,
    pub name: String,
    pub tie: String,
}

impl View for Rank {
    type V = (bool, Seq<char>, Seq<char>);

    open spec fn view(&self) -> (bool, Seq<char>, Seq<char>) {
        (self.late, self.name@, self.tie@)
    }
}

/// Whether rank `a` comes no later than rank `b`.
pub open spec fn rank_le(a: (bool, Seq<char>, Seq<char>), b: (bool, Seq<char>, Seq<char>)) -> bool {
    if a.0 != b.0 {
        !a.0
    } else if a.1 != b.1 {
        text_le(a.1, b.1)
    } else {
        text_le(a.2, b.2)
    }
}

/// Any two ranks compare.
pub proof fn lemma_rank_total(
    a: (bool, Seq<char>, Seq<char>),
    b: (bool, Seq<char>, Seq<char>),
)
    ensures
        rank_le(a, b) || rank_le(b, a),
{
    lemma_text_total(a.1, b.1);
    lemma_text_total(a.2, b.2);
}

/// Two ranks that come no later than each other are the same rank.
pub proof fn lemma_rank_antisymmetric(
    a: (bool, Seq<char>, Seq<char>),
    b: (bool, Seq<char>, Seq<char>),
)
    requires
        rank_le(a, b),
        rank_le(b, a),
    ensures
        a == b,
{
    if a.1 != b.1 {
        lemma_text_antisymmetric(a.1, b.1);
    } else {
        lemma_text_antisymmetric(a.2, b.2);
    }
}

/// The comparison of ranks carries over.
pub proof fn lemma_rank_transitive(
    a: (bool, Seq<char>, Seq<char>),
    b: (bool, Seq<char>, Seq<char>),
    c: (bool, Seq<char>, Seq<char>),
)
    requires
        rank_le(a, b),
        rank_le(b, c),
    ensures
        rank_le(a, c),
{
    if a.0 == b.0 && b.0 == c.0 {
        if a.1 != b.1 && b.1 != c.1 {
            lemma_text_transitive(a.1, b.1, c.1);
            if a.1 == c.1 {
                lemma_text_antisymmetric(a.1, b.1);
            }
        } else if a.1 == b.1 && b.1 == c.1 {
            lemma_text_transitive(a.2, b.2, c.2);
        }
    }
}

impl Rank {
    /// Whether this rank comes no later than `other`.
    pub fn le(&self, other: &Rank) -> (r: bool)
        ensures
            r == rank_le(self@, other@),
    {
        if self.late != other.late {
            !self.late
        } else if !(self.name == other.name) {
            no_later(self.name.as_str(), other.name.as_str())
        } else {
            no_later(self.tie.as_str(), other.tie.as_str())
        }
    }
}

/// The ranks behind a list.
pub open spec fn ranks(v: Seq<Rank>) -> Seq<(bool, Seq<char>, Seq<char>)> {
    Seq::new(v.len(), |i: int| v[i]@)
}

/// Whether row `a` belongs before row `b`: a lower rank, or the same rank and
/// an earlier place.
pub open spec fn ahead(
    keys: Seq<(bool, Seq<char>, Seq<char>)>,
    a: int,
    b: int,
) -> bool {
    if keys[a] == keys[b] {
        a < b
    } else {
        rank_le(keys[a], keys[b])
    }
}

/// Whether `order` names every row once, each ahead of all that follow it.
pub open spec fn is_order(
    keys: Seq<(bool, Seq<char>, Seq<char>)>,
    order: Seq<usize>,
) -> bool {
    &&& order.len() == keys.len()
    &&& forall|i: int| 0 <= i < order.len() ==> #[trigger] order[i] < keys.len()
    &&& forall|i: int, j: int|
        0 <= i < j < order.len() ==> ahead(keys, #[trigger] order[i] as int, #[trigger] order[j] as int)
}

/// The order of a list.
pub open spec fn order_of(keys: Seq<(bool, Seq<char>, Seq<char>)>) -> Seq<usize> {
    choose|order: Seq<usize>| is_order(keys, order)
}

/// Nothing is ahead of itself, and of two different rows exactly one is ahead.
proof fn lemma_ahead(
    keys: Seq<(bool, Seq<char>, Seq<char>)>,
    a: int,
    b: int,
)
    ensures
        !(ahead(keys, a, b) && ahead(keys, b, a)),
        a != b ==> ahead(keys, a, b) || ahead(keys, b, a),
{
    lemma_rank_total(keys[a], keys[b]);
    if keys[a] != keys[b] && rank_le(keys[a], keys[b]) && rank_le(keys[b], keys[a]) {
        lemma_rank_antisymmetric(keys[a], keys[b]);
    }
}

/// Being ahead carries over.
proof fn lemma_ahead_transitive(
    keys: Seq<(bool, Seq<char>, Seq<char>)>,
    a: int,
    b: int,
    c: int,
)
    requires
        ahead(keys, a, b),
        ahead(keys, b, c),
    ensures
        ahead(keys, a, c),
{
    if keys[a] != keys[b] && keys[b] != keys[c] {
        lemma_rank_transitive(keys[a], keys[b], keys[c]);
        if keys[a] == keys[c] {
            lemma_rank_antisymmetric(keys[a], keys[b]);
        }
    }
}

/// The order of the rows by rank, as the places they come from.
pub fn sorted(keys: &Vec<Rank>) -> (order: Vec<usize>)
    ensures
        is_order(ranks(keys@), order@),
        order@ == order_of(ranks(keys@)),
{
    let n: usize = keys.len();
    let ghost all = ranks(keys@);
    let mut order: Vec<usize> = Vec::new();
    let mut next: usize = 0;
    while next < n
        invariant
            next <= n == keys@.len(),
            all == ranks(keys@),
            order@.len() == next,
            forall|i: int| 0 <= i < next ==> #[trigger] order@[i] < next,
            forall|i: int, j: int|
                0 <= i < j < next ==> ahead(
                    all,
                    #[trigger] order@[i] as int,
                    #[trigger] order@[j] as int,
                ),
        decreases n - next,
    {
        let mut at: usize = next;
        while at > 0 && !keys[order[at - 1]].le(&keys[next])
            invariant
                at <= next < n == keys@.len(),
                all == ranks(keys@),
                order@.len() == next,
                forall|i: int| 0 <= i < next ==> #[trigger] order@[i] < next,
                forall|i: int|
                    at <= i < next ==> ahead(all, next as int, #[trigger] order@[i] as int),
            decreases at,
        {
            proof {
                lemma_rank_total(all[order@[at - 1] as int], all[next as int]);
            }
            at -= 1;
        }
        let ghost was = order@;
        order.insert(at, next);
        proof {
            assert forall|i: int| 0 <= i < at implies ahead(
                all,
                #[trigger] was[i] as int,
                next as int,
            ) by {
                assert(ahead(all, was[at - 1] as int, next as int));
                if i < at - 1 {
                    lemma_ahead_transitive(all, was[i] as int, was[at - 1] as int, next as int);
                }
            }
            assert forall|i: int, j: int| 0 <= i < j < next + 1 implies ahead(
                all,
                #[trigger] order@[i] as int,
                #[trigger] order@[j] as int,
            ) by {
                if j < at {
                    assert(order@[i] == was[i] && order@[j] == was[j]);
                } else if j == at {
                    assert(order@[i] == was[i]);
                } else if i < at {
                    assert(order@[i] == was[i] && order@[j] == was[j - 1]);
                } else if i == at {
                    assert(order@[j] == was[j - 1]);
                } else {
                    assert(order@[i] == was[i - 1] && order@[j] == was[j - 1]);
                }
            }
        }
        next += 1;
    }
    proof {
        assert(is_order(all, order@));
        lemma_order_is_settled(all, order@, order_of(all));
    }
    order
}

/// A list has one order only: what `sorted` returns is settled by the ranks.
pub proof fn lemma_order_is_settled(
    keys: Seq<(bool, Seq<char>, Seq<char>)>,
    one: Seq<usize>,
    other: Seq<usize>,
)
    requires
        is_order(keys, one),
        is_order(keys, other),
    ensures
        one == other,
{
    lemma_order_names_all(keys, one);
    lemma_order_names_all(keys, other);
    assert forall|i: int| 0 <= i < one.len() implies one[i] == other[i] by {
        lemma_orders_agree(keys, one, other, i);
    }
    assert(one =~= other);
}

/// Every row is somewhere in an order.
pub proof fn lemma_order_names_all(
    keys: Seq<(bool, Seq<char>, Seq<char>)>,
    order: Seq<usize>,
)
    requires
        is_order(keys, order),
    ensures
        order.no_duplicates(),
        forall|row: usize| row < keys.len() ==> order.contains(row),
{
    assert forall|i: int, j: int| 0 <= i < j < order.len() implies order[i] != order[j] by {
        lemma_ahead(keys, order[i] as int, order[j] as int);
    }
    let n = keys.len() as int;
    let places = vstd::set_lib::set_int_range(0, n);
    vstd::set_lib::lemma_int_range(0, n);
    let named = order.map_values(|r: usize| r as int);
    assert(named.no_duplicates());
    named.unique_seq_to_set();
    assert(named.to_set().subset_of(places)) by {
        assert forall|x: int| named.to_set().contains(x) implies places.contains(x) by {
            let i = choose|i: int| 0 <= i < named.len() && named[i] == x;
            assert(order[i] < keys.len());
        }
    }
    vstd::set_lib::lemma_subset_equality(named.to_set(), places);
    assert forall|row: usize| row < keys.len() implies order.contains(row) by {
        assert(places.contains(row as int));
        let i = choose|i: int| 0 <= i < named.len() && named[i] == row as int;
        assert(order[i] == row);
    }
}

/// Two orders of one list agree at every place.
proof fn lemma_orders_agree(
    keys: Seq<(bool, Seq<char>, Seq<char>)>,
    one: Seq<usize>,
    other: Seq<usize>,
    at: int,
)
    requires
        is_order(keys, one),
        is_order(keys, other),
        0 <= at < one.len(),
    ensures
        one[at] == other[at],
    decreases at,
{
    lemma_order_names_all(keys, one);
    lemma_order_names_all(keys, other);
    assert forall|i: int| 0 <= i < at implies one[i] == other[i] by {
        lemma_orders_agree(keys, one, other, i);
    }
    if one[at] != other[at] {
        let p = choose|p: int| 0 <= p < other.len() && other[p] == one[at];
        let q = choose|q: int| 0 <= q < one.len() && one[q] == other[at];
        assert(other.contains(one[at]));
        assert(one.contains(other[at]));
        if p < at {
            assert(one[p] == one[at]);
        }
        if q < at {
            assert(other[q] == other[at]);
        }
        assert(ahead(keys, other[at] as int, other[p] as int));
        assert(ahead(keys, one[at] as int, one[q] as int));
        lemma_ahead(keys, one[at] as int, other[at] as int);
    }
}

/// Every list has an order.
pub proof fn lemma_order_exists(keys: Seq<(bool, Seq<char>, Seq<char>)>)
    requires
        keys.len() <= usize::MAX,
    ensures
        is_order(keys, order_of(keys)),
{
    let order = lemma_order(keys);
    assert(is_order(keys, order));
}

proof fn lemma_order(keys: Seq<(bool, Seq<char>, Seq<char>)>) -> (order: Seq<usize>)
    requires
        keys.len() <= usize::MAX,
    ensures
        is_order(keys, order),
    decreases keys.len(),
{
    if keys.len() == 0 {
        Seq::empty()
    } else {
        let before = keys.drop_last();
        let order = lemma_order(before);
        let next = before.len() as usize;
        assert forall|i: int, j: int| 0 <= i < j < order.len() implies ahead(
            keys,
            #[trigger] order[i] as int,
            #[trigger] order[j] as int,
        ) by {
            assert(ahead(before, order[i] as int, order[j] as int));
        }
        lemma_insert(keys, order, next, next as int)
    }
}

/// One row more has a place in an order of the others.
proof fn lemma_insert(
    keys: Seq<(bool, Seq<char>, Seq<char>)>,
    order: Seq<usize>,
    next: usize,
    at: int,
) -> (r: Seq<usize>)
    requires
        keys.len() == next + 1,
        order.len() == next,
        0 <= at <= next,
        forall|i: int| 0 <= i < next ==> #[trigger] order[i] < next,
        forall|i: int, j: int|
            0 <= i < j < next ==> ahead(
                keys,
                #[trigger] order[i] as int,
                #[trigger] order[j] as int,
            ),
        forall|i: int| at <= i < next ==> ahead(keys, next as int, #[trigger] order[i] as int),
    ensures
        is_order(keys, r),
    decreases at,
{
    if at == 0 || ahead(keys, order[at - 1] as int, next as int) {
        let r = order.insert(at, next);
        assert forall|i: int| 0 <= i < at implies ahead(
            keys,
            #[trigger] order[i] as int,
            next as int,
        ) by {
            if i < at - 1 {
                lemma_ahead_transitive(keys, order[i] as int, order[at - 1] as int, next as int);
            }
        }
        assert forall|i: int, j: int| 0 <= i < j < r.len() implies ahead(
            keys,
            #[trigger] r[i] as int,
            #[trigger] r[j] as int,
        ) by {
            let oi = if i < at { i } else { i - 1 };
            let oj = if j < at { j } else { j - 1 };
            if i != at {
                assert(r[i] == order[oi]);
            }
            if j != at {
                assert(r[j] == order[oj]);
            }
        }
        r
    } else {
        lemma_ahead(keys, order[at - 1] as int, next as int);
        lemma_insert(keys, order, next, at - 1)
    }
}

/// What comes out in order is in order: of two rows the first is not late unless the
/// second is too; when neither or both are, its name comes no later; when the names are
/// the same, neither does what settles the tie; and when that is the same as well, the
/// one that came first stays first.
pub proof fn lemma_in_order(
    keys: Seq<(bool, Seq<char>, Seq<char>)>,
    order: Seq<usize>,
    i: int,
    j: int,
)
    requires
        is_order(keys, order),
        0 <= i < j < order.len(),
    ensures
        keys[order[i] as int].0 ==> keys[order[j] as int].0,
        keys[order[i] as int].0 == keys[order[j] as int].0 ==> text_le(
            keys[order[i] as int].1,
            keys[order[j] as int].1,
        ),
        keys[order[i] as int].0 == keys[order[j] as int].0 && keys[order[i] as int].1
            == keys[order[j] as int].1 ==> text_le(
            keys[order[i] as int].2,
            keys[order[j] as int].2,
        ),
        keys[order[i] as int] == keys[order[j] as int] ==> order[i] < order[j],
{
    let a = keys[order[i] as int];
    let b = keys[order[j] as int];
    assert(ahead(keys, order[i] as int, order[j] as int));
    lemma_text_total(a.1, a.1);
    lemma_text_total(a.2, a.2);
}

} // verus!
