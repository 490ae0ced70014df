//! The coastline the map is drawn from.
//!
//! Little endian: a ring count, then per ring a point count and that many pairs
//! of a longitude and a latitude, each a float. The floats are kept as the bits
//! they are stored in.
use vstd::prelude::*;

verus! {

/// The coastline.
pub struct Rings {
    /// Every ring's points, laid end to end.
    pub points: Vec<(u32, u32)>,
    /// Where each ring starts and ends inside `points`.
    pub spans: Vec<(usize, usize)>,
}

/// The two bytes at `at`, little endian.
pub open spec fn short_at(bytes: Seq<u8>, at: int) -> int {
    bytes[at] + bytes[at + 1] * 0x100
}

/// The four bytes at `at`, little endian.
pub open spec fn word_at(bytes: Seq<u8>, at: int) -> int {
    bytes[at] + bytes[at + 1] * 0x100 + bytes[at + 2] * 0x1_0000 + bytes[at + 3] * 0x100_0000
}

/// Where the ring that starts at `at` ends.
pub open spec fn ring_end(bytes: Seq<u8>, at: int) -> int {
    at + 2 + 8 * short_at(bytes, at)
}

/// The points of the ring that starts at `at`.
pub open spec fn ring_at(bytes: Seq<u8>, at: int) -> Seq<(u32, u32)> {
    Seq::new(
        short_at(bytes, at) as nat,
        |i: int|
            (
                word_at(bytes, at + 2 + 8 * i) as u32,
                word_at(bytes, at + 2 + 8 * i + 4) as u32,
            ),
    )
}

/// Whether `count` whole rings start at `at`.
pub open spec fn holds_rings(bytes: Seq<u8>, at: int, count: int) -> bool
    decreases count,
{
    count <= 0 || (at + 2 <= bytes.len() && ring_end(bytes, at) <= bytes.len() && holds_rings(
        bytes,
        ring_end(bytes, at),
        count - 1,
    ))
}

/// Where the ring after the first `n` starts.
pub open spec fn ring_start(bytes: Seq<u8>, n: int) -> int
    decreases n,
{
    if n <= 0 {
        4
    } else {
        ring_end(bytes, ring_start(bytes, n - 1))
    }
}

/// Whether the bytes hold as many rings as they say.
pub open spec fn is_coast(bytes: Seq<u8>) -> bool {
    bytes.len() >= 4 && holds_rings(bytes, 4, word_at(bytes, 0))
}

/// Whether span `i` holds ring `i`: it starts where the one before it ends, and
/// what it spans is the ring.
pub open spec fn is_ring(rings: Rings, bytes: Seq<u8>, i: int) -> bool {
    let (start, end) = rings.spans@[i];
    &&& start <= end <= rings.points@.len()
    &&& start == end_before(rings, i)
    &&& rings.points@.subrange(start as int, end as int) == ring_at(bytes, ring_start(bytes, i))
}

/// Where the rings before the one at `i` end.
pub open spec fn end_before(rings: Rings, i: int) -> int {
    if i <= 0 {
        0
    } else {
        rings.spans@[i - 1].1 as int
    }
}

/// Whether these are the first `n` rings of the coastline.
pub open spec fn are_rings(rings: Rings, bytes: Seq<u8>, n: int) -> bool {
    &&& rings.spans@.len() == n
    &&& forall|i: int| 0 <= i < n ==> #[trigger] is_ring(rings, bytes, i)
    &&& rings.points@.len() == end_before(rings, n)
}

fn short(bytes: &[u8], at: usize) -> (r: usize)
    requires
        at + 2 <= bytes@.len(),
    ensures
        r == short_at(bytes@, at as int),
{
    bytes[at] as usize + bytes[at + 1] as usize * 0x100
}

fn word(bytes: &[u8], at: usize) -> (r: u32)
    requires
        at + 4 <= bytes@.len(),
    ensures
        r == word_at(bytes@, at as int),
{
    bytes[at] as u32 + bytes[at + 1] as u32 * 0x100 + bytes[at + 2] as u32 * 0x1_0000
        + bytes[at + 3] as u32 * 0x100_0000
}

fn read_ring(bytes: &[u8], at: usize, points: usize, out: &mut Vec<(u32, u32)>)
    requires
        at + 2 + 8 * points <= bytes@.len(),
        points == short_at(bytes@, at as int),
    ensures
        final(out)@ == old(out)@ + ring_at(bytes@, at as int),
{
    let ghost ring = ring_at(bytes@, at as int);
    let ghost before = out@;
    let length: usize = bytes.len();
    let mut i: usize = 0;
    assert(before + ring.take(0) =~= before);
    while i < points
        invariant
            length == bytes@.len(),
            at + 2 + 8 * points <= length,
            i <= points == short_at(bytes@, at as int),
            ring == ring_at(bytes@, at as int),
            out@ == before + ring.take(i as int),
        decreases points - i,
    {
        let from: usize = at + 2 + 8 * i;
        out.push((word(bytes, from), word(bytes, from + 4)));
        assert(ring.take(i as int + 1) =~= ring.take(i as int).push(ring[i as int]));
        i += 1;
        assert(out@ =~= before + ring.take(i as int));
    }
    assert(ring.take(i as int) =~= ring);
}

/// One ring more.
proof fn lemma_one_more(before: Rings, after: Rings, bytes: Seq<u8>, n: int)
    requires
        are_rings(before, bytes, n),
        n >= 0,
        after.points@ == before.points@ + ring_at(bytes, ring_start(bytes, n)),
        after.spans@ == before.spans@.push(
            (before.points@.len() as usize, after.points@.len() as usize),
        ),
        after.points@.len() <= usize::MAX,
    ensures
        are_rings(after, bytes, n + 1),
{
    assert forall|i: int| 0 <= i < n + 1 implies #[trigger] is_ring(after, bytes, i) by {
        if i < n {
            assert(is_ring(before, bytes, i));
            let (start, end) = before.spans@[i];
            assert(after.points@.subrange(start as int, end as int)
                =~= before.points@.subrange(start as int, end as int));
        } else {
            let (start, end) = after.spans@[n];
            assert(after.points@.subrange(start as int, end as int) =~= ring_at(
                bytes,
                ring_start(bytes, n),
            ));
        }
    }
}

/// Reads the coastline. `None` when the bytes end before it does.
pub fn rings(bytes: &[u8]) -> (r: Option<Rings>)
    ensures
        r is Some <==> is_coast(bytes@),
        r matches Some(rings) ==> are_rings(rings, bytes@, word_at(bytes@, 0)),
{
    let length: usize = bytes.len();
    if length < 4 {
        return None;
    }
    let count = word(bytes, 0);
    let mut rings = Rings { points: Vec::new(), spans: Vec::new() };
    let mut at: usize = 4;
    let mut n: u32 = 0;
    while n < count
        invariant
            length == bytes@.len(),
            4 <= at <= length,
            n <= count == word_at(bytes@, 0),
            at == ring_start(bytes@, n as int),
            holds_rings(bytes@, 4, count as int) == holds_rings(bytes@, at as int, count - n),
            are_rings(rings, bytes@, n as int),
        decreases count - n,
    {
        if length - at < 2 {
            return None;
        }
        let points = short(bytes, at);
        if (length - at - 2) / 8 < points {
            return None;
        }
        let ghost before = rings;
        let start: usize = rings.points.len();
        read_ring(bytes, at, points, &mut rings.points);
        let end: usize = rings.points.len();
        rings.spans.push((start, end));
        proof {
            lemma_one_more(before, rings, bytes@, n as int);
        }
        at = at + 2 + 8 * points;
        n += 1;
    }
    Some(rings)
}

// The picture of it

/// The picture of the land in hand, against the window that is to be shown.
#[derive(Clone, Copy, PartialEq, Eq, Structural, Debug)]
pub struct Texture {
    /// Whether it covers the whole window.
    pub covers: bool,
    /// Whether it carries enough of the detail the window asks for.
    pub detailed: bool,
    /// False while it is the quick version drawn in the middle of a gesture.
    pub clean: bool,
}

/// Whether the land is drawn again: only when the picture in hand cannot serve.
/// `finishing` marks the view that has stopped moving: a quick picture is never
/// good enough to end on, however well it covers the window.
pub fn redraws(texture: Option<Texture>, finishing: bool) -> (r: bool)
    ensures
        r == !(texture matches Some(t) && t.covers && t.detailed && (t.clean || !finishing)),
{
    match texture {
        Some(t) => !(t.covers && t.detailed && (t.clean || !finishing)),
        None => true,
    }
}

// What is read is what was written

/// A number in four bytes, the lowest first.
pub open spec fn four(n: u32) -> Seq<u8> {
    seq![
        (n % 0x100) as u8,
        (n / 0x100 % 0x100) as u8,
        (n / 0x1_0000 % 0x100) as u8,
        (n / 0x100_0000) as u8,
    ]
}

/// A number in two bytes, the lowest first.
pub open spec fn two(n: u16) -> Seq<u8> {
    seq![(n % 0x100) as u8, (n / 0x100) as u8]
}

/// Some points, each a longitude and a latitude.
pub open spec fn written_points(points: Seq<(u32, u32)>) -> Seq<u8>
    decreases points.len(),
{
    if points.len() == 0 {
        Seq::empty()
    } else {
        written_points(points.drop_last()) + (four(points.last().0) + four(points.last().1))
    }
}

/// A ring: how many points it has, and those.
pub open spec fn written_ring(points: Seq<(u32, u32)>) -> Seq<u8> {
    two(points.len() as u16) + written_points(points)
}

/// Some rings.
pub open spec fn written_rings(rings: Seq<Seq<(u32, u32)>>) -> Seq<u8>
    decreases rings.len(),
{
    if rings.len() == 0 {
        Seq::empty()
    } else {
        written_rings(rings.drop_last()) + written_ring(rings.last())
    }
}

/// A coastline: how many rings it has, and those.
pub open spec fn written(rings: Seq<Seq<(u32, u32)>>) -> Seq<u8> {
    four(rings.len() as u32) + written_rings(rings)
}

/// A number that was written in four bytes, or in two, reads back wherever it stands.
pub proof fn lemma_numbers_read_back(before: Seq<u8>, n: u32, m: u16, after: Seq<u8>)
    ensures
        word_at(before + four(n) + after, before.len() as int) == n,
        short_at(before + two(m) + after, before.len() as int) == m,
{
    let at = before.len() as int;
    let s = before + four(n) + after;
    assert(s[at] == four(n)[0] && s[at + 1] == four(n)[1] && s[at + 2] == four(n)[2] && s[at + 3]
        == four(n)[3]);
    let t = before + two(m) + after;
    assert(t[at] == two(m)[0] && t[at + 1] == two(m)[1]);
}

proof fn lemma_points_length(points: Seq<(u32, u32)>)
    ensures
        written_points(points).len() == 8 * points.len(),
    decreases points.len(),
{
    if points.len() > 0 {
        lemma_points_length(points.drop_last());
    }
}

proof fn lemma_point_reads_back(before: Seq<u8>, points: Seq<(u32, u32)>, after: Seq<u8>, i: int)
    requires
        0 <= i < points.len(),
    ensures
        word_at(before + written_points(points) + after, before.len() + 8 * i) == points[i].0,
        word_at(before + written_points(points) + after, before.len() + 8 * i + 4) == points[i].1,
    decreases points.len(),
{
    let fewer = points.drop_last();
    let (x, y) = points[points.len() - 1];
    let all = before + written_points(points) + after;
    lemma_points_length(fewer);
    if i < fewer.len() {
        let rest = four(x) + four(y) + after;
        assert(all =~= before + written_points(fewer) + rest);
        lemma_point_reads_back(before, fewer, rest, i);
    } else {
        let head = before + written_points(fewer);
        assert(all =~= head + four(x) + (four(y) + after));
        lemma_numbers_read_back(head, x, 0, four(y) + after);
        assert(all =~= (head + four(x)) + four(y) + after);
        lemma_numbers_read_back(head + four(x), y, 0, after);
    }
}

/// A ring that was written reads back: its points in order, each with its longitude
/// first, and it ends where the next one starts.
pub proof fn lemma_a_ring_reads_back(before: Seq<u8>, points: Seq<(u32, u32)>, after: Seq<u8>)
    requires
        points.len() < 0x1_0000,
    ensures
        ring_at(before + written_ring(points) + after, before.len() as int) == points,
        ring_end(before + written_ring(points) + after, before.len() as int) == before.len()
            + written_ring(points).len(),
{
    let at = before.len() as int;
    let all = before + written_ring(points) + after;
    let n = points.len() as u16;
    lemma_points_length(points);
    assert(all =~= before + two(n) + (written_points(points) + after));
    lemma_numbers_read_back(before, 0, n, written_points(points) + after);
    let head = before + two(n);
    assert(all =~= head + written_points(points) + after);
    assert forall|i: int| 0 <= i < points.len() implies ring_at(all, at)[i] == points[i] by {
        lemma_point_reads_back(head, points, after, i);
    }
    assert(ring_at(all, at) =~= points);
}

proof fn lemma_rings_start(head: Seq<u8>, rings: Seq<Seq<(u32, u32)>>, after: Seq<u8>, n: int)
    requires
        head.len() == 4,
        0 <= n <= rings.len(),
        forall|i: int| 0 <= i < rings.len() ==> (#[trigger] rings[i]).len() < 0x1_0000,
    ensures
        ring_start(head + written_rings(rings) + after, n) == 4 + written_rings(rings.take(n)).len(),
        n < rings.len() ==> ring_at(
            head + written_rings(rings) + after,
            ring_start(head + written_rings(rings) + after, n),
        ) == rings[n],
        n < rings.len() ==> ring_end(
            head + written_rings(rings) + after,
            ring_start(head + written_rings(rings) + after, n),
        ) == 4 + written_rings(rings.take(n + 1)).len(),
    decreases n,
{
    let all = head + written_rings(rings) + after;
    if n > 0 {
        lemma_rings_start(head, rings, after, n - 1);
    } else {
        assert(rings.take(0) =~= Seq::empty());
    }
    if n < rings.len() {
        lemma_rings_split(rings, n);
        let tail = written_rings(rings.skip(n + 1));
        let front = head + written_rings(rings.take(n));
        assert(all =~= front + written_ring(rings[n]) + (tail + after));
        lemma_a_ring_reads_back(front, rings[n], tail + after);
        assert(rings.take(n + 1).drop_last() =~= rings.take(n));
        assert(rings.take(n + 1).last() == rings[n]);
    }
}

proof fn lemma_rings_split(rings: Seq<Seq<(u32, u32)>>, n: int)
    requires
        0 <= n < rings.len(),
    ensures
        written_rings(rings) == written_rings(rings.take(n)) + written_ring(rings[n])
            + written_rings(rings.skip(n + 1)),
    decreases rings.len(),
{
    let fewer = rings.drop_last();
    let last = rings[rings.len() - 1];
    if n < fewer.len() {
        lemma_rings_split(fewer, n);
        assert(fewer.take(n) =~= rings.take(n));
        assert(rings.skip(n + 1).drop_last() =~= fewer.skip(n + 1));
        assert(rings.skip(n + 1).last() == last);
        assert(written_rings(rings) =~= written_rings(rings.take(n)) + written_ring(rings[n])
            + written_rings(rings.skip(n + 1)));
    } else {
        assert(fewer =~= rings.take(n));
        assert(rings.skip(n + 1).len() == 0);
        assert(written_rings(rings) =~= written_rings(rings.take(n)) + written_ring(rings[n])
            + written_rings(rings.skip(n + 1)));
    }
}

proof fn lemma_rings_held(head: Seq<u8>, rings: Seq<Seq<(u32, u32)>>, after: Seq<u8>, n: int)
    requires
        head.len() == 4,
        0 <= n <= rings.len(),
        forall|i: int| 0 <= i < rings.len() ==> (#[trigger] rings[i]).len() < 0x1_0000,
    ensures
        holds_rings(
            head + written_rings(rings) + after,
            ring_start(head + written_rings(rings) + after, n),
            rings.len() - n,
        ),
    decreases rings.len() - n,
{
    if n < rings.len() {
        lemma_rings_start(head, rings, after, n);
        lemma_rings_start(head, rings, after, n + 1);
        lemma_rings_held(head, rings, after, n + 1);
        lemma_rings_split(rings, n);
        assert(rings.take(n + 1).drop_last() =~= rings.take(n));
        assert(rings.take(n + 1).last() == rings[n]);
    }
}

/// A coastline that was written reads back, whatever follows it: there are as many rings
/// as it says, and each is the one that was written there.
pub proof fn lemma_a_coast_reads_back(rings: Seq<Seq<(u32, u32)>>, after: Seq<u8>)
    requires
        rings.len() <= u32::MAX,
        forall|i: int| 0 <= i < rings.len() ==> (#[trigger] rings[i]).len() < 0x1_0000,
    ensures
        is_coast(written(rings) + after),
        word_at(written(rings) + after, 0) == rings.len(),
        forall|i: int|
            0 <= i < rings.len() ==> ring_at(
                written(rings) + after,
                ring_start(written(rings) + after, i),
            ) == #[trigger] rings[i],
{
    let head = four(rings.len() as u32);
    let all = written(rings) + after;
    assert(all =~= head + written_rings(rings) + after);
    assert(all =~= Seq::<u8>::empty() + head + (written_rings(rings) + after));
    lemma_numbers_read_back(
        Seq::empty(),
        rings.len() as u32,
        0,
        written_rings(rings) + after,
    );
    lemma_rings_held(head, rings, after, 0);
    assert forall|i: int| 0 <= i < rings.len() implies ring_at(all, ring_start(all, i))
        == #[trigger] rings[i] by {
        lemma_rings_start(head, rings, after, i);
    }
}

} // verus!
