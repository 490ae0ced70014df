//! Where the time goes, when a packet takes far longer than it should.
//!
//! What is measured is the one thing that separates a fault in the pump from a
//! fault below it. Each ICMP echo request leaving the interface is noted by its
//! identifier and sequence; when the matching reply comes back out of the
//! tunnel, the round trip as the pump saw it is recorded. Compare that with what
//! `ping` reports:
//!
//!   * both large: the delay is on the wire or in the relay;
//!   * pump small, `ping` large: the delay is between the operating system and
//!     the tunnel interface, on either side of us;
//!   * time spent inside our own code large: the fault is here.
//!
//! Times are in nanoseconds since some moment before the tunnel came up.
use std::collections::HashMap;
use vstd::prelude::*;

verus! {

broadcast use vstd::std_specs::hash::group_hash_axioms;

/// The way out of the interface.
pub const OUTBOUND: usize = 0;

/// The way back to it.
pub const INBOUND: usize = 1;

/// How many requests may be waiting for a reply before they are all let go, so a
/// long run with no replies cannot grow without limit.
pub const OUTSTANDING: usize = 4096;

/// What one stage of the pump has cost.
#[derive(Clone, Copy, PartialEq, Eq, Structural, Debug)]
pub struct Tally {
    pub packets: u64,
    pub inside: u128,
    pub worst_inside: u64,
}

/// What has been measured.
pub struct Trace {
    on: bool,
    stages: [Tally; 2],
    outstanding: HashMap<u32, u64>,
    trips: Vec<u64>,
    lost: u64,
}

/// What has been measured, apart from how it is held.
#[verifier::ext_equal]
pub struct Measured {
    /// Whether anything is measured at all.
    pub on: bool,
    pub stages: Seq<Tally>,
    /// When each request that waits for a reply left, by identifier and
    /// sequence.
    pub outstanding: Map<u32, u64>,
    pub trips: Seq<u64>,
    /// Replies to no request on record.
    pub lost: u64,
}

/// What a report is made from.
pub struct Report {
    pub outbound: Tally,
    pub inbound: Tally,
    pub trips: Vec<u64>,
    pub unanswered: usize,
}

/// The ICMP type of an echo request.
pub const REQUEST: u8 = 8;

/// The ICMP type of an echo reply.
pub const REPLY: u8 = 0;

/// `(type, identifier, sequence)` for an IPv4 ICMP echo, or nothing. The options of
/// the IP header are skipped.
pub open spec fn echo_in(packet: Seq<u8>) -> Option<(u8, u16, u16)> {
    let header = packet[0] % 16 * 4;
    if packet.len() < 20 || packet[0] / 16 != 4 || packet[9] != 1 || packet.len() < header + 8 {
        None
    } else if packet[header] != REQUEST && packet[header] != REPLY {
        None
    } else {
        Some(
            (
                packet[header],
                (packet[header + 4] * 256 + packet[header + 5]) as u16,
                (packet[header + 6] * 256 + packet[header + 7]) as u16,
            ),
        )
    }
}

/// `(type, identifier, sequence)` for an IPv4 ICMP echo, or nothing.
pub fn echo(packet: &[u8]) -> (r: Option<(u8, u16, u16)>)
    ensures
        r == echo_in(packet@),
{
    // Protocol 1 is ICMP.
    if packet.len() < 20 || packet[0] / 16 != 4 || packet[9] != 1 {
        return None;
    }
    let header: usize = (packet[0] % 16) as usize * 4;
    if packet.len() < header + 8 {
        return None;
    }
    let kind = packet[header];
    if kind != REQUEST && kind != REPLY {
        return None;
    }
    let id: u16 = packet[header + 4] as u16 * 256 + packet[header + 5] as u16;
    let sequence: u16 = packet[header + 6] as u16 * 256 + packet[header + 7] as u16;
    Some((kind, id, sequence))
}

/// The number a request is kept under.
pub open spec fn key_of(id: u16, sequence: u16) -> u32 {
    (id * 65536 + sequence) as u32
}

fn key(id: u16, sequence: u16) -> (r: u32)
    ensures
        r == key_of(id, sequence),
{
    id as u32 * 65536 + sequence as u32
}

/// How long it is from one time to a later one.
pub open spec fn span(since: u64, now: u64) -> u64 {
    if now >= since {
        (now - since) as u64
    } else {
        0
    }
}

fn elapsed(since: u64, now: u64) -> (r: u64)
    ensures
        r == span(since, now),
{
    if now >= since {
        now - since
    } else {
        0
    }
}

/// Start of a stage, or `None` when tracing is off.
pub fn mark(on: bool, now: u64) -> (r: Option<u64>)
    ensures
        r == (if on {
            Some(now)
        } else {
            None
        }),
{
    if on {
        Some(now)
    } else {
        None
    }
}

/// A stage that has taken one packet more, and so long.
pub open spec fn tallied(tally: Tally, taken: u64) -> Tally {
    Tally {
        packets: (tally.packets + 1) as u64,
        inside: (tally.inside + taken) as u128,
        worst_inside: if taken > tally.worst_inside {
            taken
        } else {
            tally.worst_inside
        },
    }
}

/// What is on record once a stage has ended.
pub open spec fn spent_at(m: Measured, stage: int, since: Option<u64>, now: u64) -> Measured {
    match since {
        Some(since) => Measured {
            stages: m.stages.update(stage, tallied(m.stages[stage], span(since, now))),
            ..m
        },
        None => m,
    }
}

/// What is on record once a packet has left the interface: an echo request is
/// noted.
pub open spec fn left(m: Measured, packet: Seq<u8>, now: u64) -> Measured {
    match echo_in(packet) {
        Some((kind, id, sequence)) if m.on && kind == REQUEST => {
            let waiting = if m.outstanding.len() > OUTSTANDING {
                Map::empty()
            } else {
                m.outstanding
            };
            Measured { outstanding: waiting.insert(key_of(id, sequence), now), ..m }
        },
        _ => m,
    }
}

/// What is on record once a packet has come back: an echo reply ends the round
/// trip of its request.
pub open spec fn returned(m: Measured, packet: Seq<u8>, now: u64) -> Measured {
    match echo_in(packet) {
        Some((kind, id, sequence)) if m.on && kind == REPLY => if m.outstanding.contains_key(key_of(id, sequence)) {
            let sent = m.outstanding[key_of(id, sequence)];
            Measured {
                outstanding: m.outstanding.remove(key_of(id, sequence)),
                trips: m.trips.push(span(sent, now)),
                ..m
            }
        } else {
            Measured { lost: (m.lost + 1) as u64, ..m }
        },
        _ => m,
    }
}

impl View for Trace {
    type V = Measured;

    closed spec fn view(&self) -> Measured {
        Measured {
            on: self.on,
            stages: self.stages@,
            outstanding: self.outstanding@,
            trips: self.trips@,
            lost: self.lost,
        }
    }
}

/// Nothing grows past its bound: the requests on record are never many more than
/// allowed, and a stage cannot have spent more than each of its packets at its
/// longest.
pub open spec fn is_sound(m: Measured) -> bool {
    &&& m.stages.len() == 2
    &&& forall|i: int| 0 <= i < 2 ==> (#[trigger] m.stages[i]).inside <= m.stages[i].packets * u64::MAX
    &&& m.outstanding.dom().finite()
    &&& m.outstanding.len() <= OUTSTANDING + 1
}

/// Nothing measured yet.
pub open spec fn nothing(on: bool) -> Measured {
    let none = Tally { packets: 0, inside: 0, worst_inside: 0 };
    Measured {
        on,
        stages: seq![none, none],
        outstanding: Map::empty(),
        trips: Seq::empty(),
        lost: 0,
    }
}

impl Trace {
    /// Nothing measured yet. When `on` is false nothing ever will be.
    pub fn new(on: bool) -> (r: Trace)
        ensures
            r@ == nothing(on),
            is_sound(r@),
    {
        let none = Tally { packets: 0, inside: 0, worst_inside: 0 };
        let r = Trace {
            on,
            stages: [none, none],
            outstanding: HashMap::new(),
            trips: Vec::new(),
            lost: 0,
        };
        assert(r@ =~= nothing(on));
        r
    }

    /// Whether anything is measured.
    pub fn on(&self) -> (r: bool)
        ensures
            r == self@.on,
    {
        self.on
    }

    /// How many packets a stage has taken.
    pub fn packets(&self, stage: usize) -> (r: u64)
        requires
            stage < 2,
        ensures
            r == self@.stages[stage as int].packets,
    {
        self.stages[stage].packets
    }

    /// How many replies there were to no request on record.
    pub fn lost(&self) -> (r: u64)
        ensures
            r == self@.lost,
    {
        self.lost
    }

    /// End of a stage that began at `since`, if it was marked.
    pub fn spent(&mut self, stage: usize, since: Option<u64>, now: u64)
        requires
            is_sound(old(self)@),
            stage < 2,
            old(self)@.stages[stage as int].packets < u64::MAX,
        ensures
            is_sound(final(self)@),
            final(self)@ == spent_at(old(self)@, stage as int, since, now),
    {
        if let Some(since) = since {
            let taken = elapsed(since, now);
            let tally = self.stages[stage];
            assert(tally.inside + taken <= (tally.packets + 1) * u64::MAX) by (nonlinear_arith)
                requires
                    tally.inside <= tally.packets * u64::MAX,
                    taken <= u64::MAX,
            ;
            assert((tally.packets + 1) * u64::MAX <= u128::MAX) by (nonlinear_arith)
                requires
                    tally.packets < u64::MAX,
            ;
            let worst_inside: u64 = if taken > tally.worst_inside {
                taken
            } else {
                tally.worst_inside
            };
            self.stages[stage] = Tally {
                packets: tally.packets + 1,
                inside: tally.inside + taken as u128,
                worst_inside,
            };
        }
        assert(self@ =~= spent_at(old(self)@, stage as int, since, now));
    }

    /// An IP packet on its way out of the interface.
    pub fn leaving(&mut self, packet: &[u8], now: u64)
        requires
            is_sound(old(self)@),
        ensures
            is_sound(final(self)@),
            final(self)@ == left(old(self)@, packet@, now),
    {
        if !self.on {
            return;
        }
        if let Some((kind, id, sequence)) = echo(packet) {
            if kind == REQUEST {
                if self.outstanding.len() > OUTSTANDING {
                    self.outstanding.clear();
                }
                self.outstanding.insert(key(id, sequence), now);
            }
        }
    }

    /// An IP packet coming back out of the tunnel, on its way to the interface.
    pub fn returning(&mut self, packet: &[u8], now: u64)
        requires
            is_sound(old(self)@),
            old(self)@.lost < u64::MAX,
        ensures
            is_sound(final(self)@),
            final(self)@ == returned(old(self)@, packet@, now),
    {
        if !self.on {
            return;
        }
        if let Some((kind, id, sequence)) = echo(packet) {
            if kind == REPLY {
                match self.outstanding.remove(&key(id, sequence)) {
                    Some(sent) => {
                        self.trips.push(elapsed(sent, now));
                    },
                    None => {
                        self.lost = self.lost + 1;
                    },
                }
            }
        }
    }

    /// What a report is made from. The round trips it lists are not listed again.
    pub fn report(&mut self) -> (r: Report)
        requires
            is_sound(old(self)@),
        ensures
            is_sound(final(self)@),
            final(self)@ == (Measured { trips: Seq::empty(), ..old(self)@ }),
            r.outbound == old(self)@.stages[OUTBOUND as int],
            r.inbound == old(self)@.stages[INBOUND as int],
            r.trips@ == old(self)@.trips,
            r.unanswered == old(self)@.outstanding.len(),
    {
        let mut trips: Vec<u64> = Vec::new();
        std::mem::swap(&mut trips, &mut self.trips);
        let unanswered: usize = self.outstanding.len();
        assert(self@ =~= (Measured { trips: Seq::empty(), ..old(self)@ }));
        Report {
            outbound: self.stages[OUTBOUND],
            inbound: self.stages[INBOUND],
            trips,
            unanswered,
        }
    }
}

/// A reply ends the round trip of the request it answers, and of no other: the
/// trip recorded is the time between the two, and every other request stays on
/// record as it was.
pub proof fn lemma_a_reply_ends_its_own_trip(
    m: Measured,
    request: Seq<u8>,
    reply: Seq<u8>,
    id: u16,
    sequence: u16,
    sent: u64,
    now: u64,
)
    requires
        is_sound(m),
        m.on,
        m.outstanding.len() <= OUTSTANDING,
        echo_in(request) == Some((REQUEST, id, sequence)),
        echo_in(reply) == Some((REPLY, id, sequence)),
    ensures
        returned(left(m, request, sent), reply, now) == (Measured {
            trips: m.trips.push(span(sent, now)),
            outstanding: m.outstanding.remove(key_of(id, sequence)),
            ..m
        }),
{
    assert(returned(left(m, request, sent), reply, now).outstanding =~= m.outstanding.remove(
        key_of(id, sequence),
    ));
}

/// A reply counts once: the first that comes for a request that waits records its
/// round trip and takes it off the record, and the same reply again finds no request
/// and only counts as lost. Every other request stays on record either time.
pub proof fn lemma_a_reply_counts_once(
    m: Measured,
    reply: Seq<u8>,
    id: u16,
    sequence: u16,
    first: u64,
    second: u64,
)
    requires
        is_sound(m),
        m.on,
        m.lost < u64::MAX,
        m.outstanding.contains_key(key_of(id, sequence)),
        echo_in(reply) == Some((REPLY, id, sequence)),
    ensures
        returned(m, reply, first) == (Measured {
            trips: m.trips.push(span(m.outstanding[key_of(id, sequence)], first)),
            outstanding: m.outstanding.remove(key_of(id, sequence)),
            ..m
        }),
        returned(returned(m, reply, first), reply, second) == (Measured {
            lost: (m.lost + 1) as u64,
            ..returned(m, reply, first)
        }),
{
}

/// A packet that is no echo reply changes nothing on its way back, and one that is no
/// echo request changes nothing on its way out.
pub proof fn lemma_other_packets_pass_unnoticed(m: Measured, packet: Seq<u8>, now: u64)
    ensures
        !(echo_in(packet) matches Some((kind, _, _)) && kind == REPLY) ==> returned(m, packet, now)
            == m,
        !(echo_in(packet) matches Some((kind, _, _)) && kind == REQUEST) ==> left(m, packet, now)
            == m,
{
}

/// Two requests are kept under one number only when they have the same
/// identifier and the same sequence.
pub proof fn lemma_requests_are_told_apart(a: (u16, u16), b: (u16, u16))
    ensures
        key_of(a.0, a.1) == key_of(b.0, b.1) ==> a == b,
{
}

/// An echo is read wherever its header ends: for an IPv4 packet of any header length
/// that carries ICMP, its kind, its identifier and its sequence are those that were
/// written after the header, the higher byte of each first. Any other kind is no echo.
pub proof fn lemma_an_echo_reads_back(
    header: Seq<u8>,
    kind: u8,
    filler: Seq<u8>,
    id: u16,
    sequence: u16,
    data: Seq<u8>,
)
    requires
        20 <= header.len() <= 60,
        header.len() % 4 == 0,
        header[0] == 0x40 + header.len() / 4,
        header[9] == 1,
        filler.len() == 3,
    ensures
        echo_in(
            header + seq![kind] + filler + seq![
                (id / 256) as u8,
                (id % 256) as u8,
                (sequence / 256) as u8,
                (sequence % 256) as u8,
            ] + data,
        ) == (if kind == 8 || kind == 0 {
            Some((kind, id, sequence))
        } else {
            None
        }),
{
    let packet = header + seq![kind] + filler + seq![
        (id / 256) as u8,
        (id % 256) as u8,
        (sequence / 256) as u8,
        (sequence % 256) as u8,
    ] + data;
    let n = header.len() as int;
    assert(packet[0] == header[0]);
    assert(packet[9] == header[9]);
    assert(packet[0] % 16 * 4 == n);
    assert(packet[n] == kind);
    assert(packet[n + 4] == (id / 256) as u8);
    assert(packet[n + 5] == (id % 256) as u8);
    assert(packet[n + 6] == (sequence / 256) as u8);
    assert(packet[n + 7] == (sequence % 256) as u8);
}

/// A packet of another family, of another protocol or that is cut short is no echo.
pub proof fn lemma_what_is_no_echo(packet: Seq<u8>)
    ensures
        packet.len() < 20 ==> echo_in(packet) is None,
        packet.len() >= 20 && packet[0] / 16 != 4 ==> echo_in(packet) is None,
        packet.len() >= 20 && packet[9] != 1 ==> echo_in(packet) is None,
        packet.len() >= 20 && packet.len() < packet[0] % 16 * 4 + 8 ==> echo_in(packet) is None,
{
}

/// A stage that ends counts one packet more and the time it took, keeps the longest of
/// them, and leaves the other stage alone; one that was not marked counts nothing.
pub proof fn lemma_what_a_stage_counts(m: Measured, stage: int, other: int, since: u64, now: u64)
    requires
        is_sound(m),
        0 <= stage < 2,
        0 <= other < 2,
        other != stage,
        m.stages[stage].packets < u64::MAX,
        since <= now,
    ensures
        ({
            let before = m.stages[stage];
            let after = spent_at(m, stage, Some(since), now).stages[stage];
            &&& after.packets == before.packets + 1
            &&& after.inside == before.inside + (now - since)
            &&& after.worst_inside >= before.worst_inside
            &&& after.worst_inside >= now - since
            &&& after.worst_inside == before.worst_inside || after.worst_inside == now - since
        }),
        spent_at(m, stage, Some(since), now).stages[other] == m.stages[other],
        spent_at(m, stage, Some(since), now).trips == m.trips,
        spent_at(m, stage, Some(since), now).outstanding == m.outstanding,
        spent_at(m, stage, None, now) == m,
{
    let tally = m.stages[stage];
    assert(tally.inside + (now - since) <= u128::MAX) by (nonlinear_arith)
        requires
            tally.inside <= tally.packets * u64::MAX,
            tally.packets < u64::MAX,
            now - since <= u64::MAX,
    ;
}

/// The time between two is their difference, and nothing when the clock went back.
pub proof fn lemma_the_time_between(since: u64, now: u64)
    ensures
        since <= now ==> since + span(since, now) == now,
        now < since ==> span(since, now) == 0,
{
}

} // verus!
