//! The pump's side of the protocol: packets off the interface are sealed for the
//! relay, datagrams off the socket are opened for the interface.
use crate::tunnel::embedded::{BUFFER, KEEPALIVE};
use crate::tunnel::Stats;
use boringtun::noise::{Tunn, TunnResult};
use vstd::prelude::*;

verus! {

/// `boringtun`'s end of one tunnel.
#[verifier::external_type_specification]
#[verifier::external_body]
pub struct ExTunn(boringtun::noise::Tunn);

/// The packets a tunnel holds until it has a session to send them in, oldest
/// first.
pub uninterp spec fn queued(tunn: Tunn) -> Seq<Seq<u8>>;

/// The private key a tunnel was made with.
pub uninterp spec fn secret_of(tunn: Tunn) -> Seq<u8>;

/// The peer's public key a tunnel was made with.
pub uninterp spec fn peer_of(tunn: Tunn) -> Seq<u8>;

/// The keepalive a tunnel was made with, in seconds.
pub uninterp spec fn keepalive_of(tunn: Tunn) -> int;

/// The bytes a tunnel counts as sent: those of the packets it has sealed.
pub uninterp spec fn sent_of(tunn: Tunn) -> int;

/// The bytes a tunnel counts as received: those of the packets it has opened.
pub uninterp spec fn received_of(tunn: Tunn) -> int;

/// Whether a tunnel has a session to send packets in.
pub uninterp spec fn has_session(tunn: Tunn) -> bool;

/// Whether a tunnel has a handshake in progress.
pub uninterp spec fn in_handshake(tunn: Tunn) -> bool;

/// The datagram a tunnel seals a packet into, in the session it has.
pub uninterp spec fn sealed_by(tunn: Tunn, packet: Seq<u8>) -> Seq<u8>;

/// The packet a tunnel opens a datagram that carries one to. Nothing when it is of
/// no session at hand, was there before, does not open, or carries no IP packet.
pub uninterp spec fn plain_in(tunn: Tunn, datagram: Seq<u8>) -> Option<Seq<u8>>;

/// Whether a tunnel takes up the handshake a datagram opens.
pub uninterp spec fn takes_up(tunn: Tunn, datagram: Seq<u8>) -> bool;

/// The empty packet a tunnel confirms a handshake with, when a datagram is the answer
/// it waits for.
pub uninterp spec fn confirmation(tunn: Tunn, datagram: Seq<u8>) -> Option<Seq<u8>>;

/// What the protocol makes of a call. A length is that of what it left at the
/// start of the buffer it was given.
#[derive(Clone, Copy, PartialEq, Eq, Structural, Debug)]
pub enum Turn {
    Done,
    Refused,
    ToNetwork(usize),
    ToTunnelV4(usize),
    ToTunnelV6(usize),
}

/// How many packets a tunnel holds at most.
pub open spec fn queue_depth() -> nat {
    256
}

/// What a tunnel holds once it has been asked to keep one more packet.
pub open spec fn kept(queue: Seq<Seq<u8>>, packet: Seq<u8>) -> Seq<Seq<u8>> {
    if queue.len() < queue_depth() {
        queue.push(packet)
    } else {
        queue
    }
}

/// What framing adds to a packet.
pub open spec fn overhead() -> nat {
    32
}

/// The length of a datagram that opens a handshake.
pub open spec fn initiation() -> nat {
    148
}

/// The length of a datagram that answers one.
pub open spec fn response() -> nat {
    92
}

/// The length of a datagram that hands over a cookie.
pub open spec fn cookie() -> nat {
    64
}

/// Whether `out` opens with the number of a kind of datagram: 1 opens a
/// handshake, 2 answers one, 3 hands over a cookie, 4 carries a packet.
pub open spec fn is_kind(out: Seq<u8>, kind: u8) -> bool {
    out.len() >= 4 && out[0] == kind && out[1] == 0 && out[2] == 0 && out[3] == 0
}

/// Whether a tunnel is still between the same two ends.
pub open spec fn same_ends(a: Tunn, b: Tunn) -> bool {
    &&& secret_of(a) == secret_of(b)
    &&& peer_of(a) == peer_of(b)
    &&& keepalive_of(a) == keepalive_of(b)
}

/// Whether a counter has gone up by `n`, unless it has run out of room.
pub open spec fn counts(before: int, after: int, n: nat) -> bool {
    before + n <= usize::MAX ==> after == before + n
}

/// What a datagram is, by the number it opens with and its length.
pub enum Shape {
    /// It opens a handshake.
    Initiation,
    /// It answers one.
    Response,
    /// It hands over a cookie.
    Cookie,
    /// It carries a packet.
    Data,
    /// None of these.
    Other,
}

/// What a datagram is.
pub open spec fn shape_of(datagram: Seq<u8>) -> Shape {
    if is_kind(datagram, 1) && datagram.len() == initiation() {
        Shape::Initiation
    } else if is_kind(datagram, 2) && datagram.len() == response() {
        Shape::Response
    } else if is_kind(datagram, 3) && datagram.len() == cookie() {
        Shape::Cookie
    } else if is_kind(datagram, 4) && datagram.len() >= overhead() {
        Shape::Data
    } else {
        Shape::Other
    }
}

/// Whether `out` opens with exactly these bytes, `n` of them.
pub open spec fn stands(out: Seq<u8>, n: usize, bytes: Seq<u8>) -> bool {
    &&& n == bytes.len()
    &&& n <= out.len()
    &&& out.take(n as int) == bytes
}

/// Whether a packet was dealt with, `rest` being all that was held besides it. With
/// a session it is sealed into `sealed`, and goes into nothing else. Without one it is
/// held, and a handshake is opened unless one is in progress.
pub open spec fn is_dealt_with(
    before: Tunn,
    after: Tunn,
    rest: Seq<Seq<u8>>,
    packet: Seq<u8>,
    sealed: Seq<u8>,
    out: Seq<u8>,
    turn: Turn,
) -> bool {
    &&& received_of(after) == received_of(before)
    &&& has_session(after) == has_session(before)
    &&& if has_session(before) {
        let n = (packet.len() + overhead()) as usize;
        &&& turn == Turn::ToNetwork(n)
        &&& stands(out, n, sealed)
        &&& is_kind(out, 4)
        &&& queued(after) == rest
        &&& counts(sent_of(before), sent_of(after), packet.len())
        &&& in_handshake(after) == in_handshake(before)
    } else {
        &&& if in_handshake(before) {
            turn == Turn::Done
        } else {
            turn == Turn::ToNetwork(initiation() as usize) && is_kind(out, 1)
        }
        &&& queued(after) == kept(rest, packet)
        &&& sent_of(after) == sent_of(before)
        &&& in_handshake(after)
    }
}

/// `Tunn::new`, with no preshared key, index zero and a rate limiter of its own:
/// a tunnel between the two ends, with nothing held, nothing counted, no session and
/// no handshake in progress.
#[verifier::external_body]
fn tunn(secret: [u8; 32], peer: [u8; 32], keepalive: u16) -> (r: Tunn)
    ensures
        secret_of(r) == secret@,
        peer_of(r) == peer@,
        keepalive_of(r) == keepalive,
        queued(r) == Seq::<Seq<u8>>::empty(),
        sent_of(r) == 0,
        received_of(r) == 0,
        !has_session(r),
        !in_handshake(r),
{
    let secret = boringtun::x25519::StaticSecret::from(secret);
    let peer = boringtun::x25519::PublicKey::from(peer);
    Tunn::new(secret, peer, None, Some(keepalive), 0, None)
}

/// `Tunn::encapsulate`: the packet sealed at the start of `out` when there is a
/// session, else held, and a handshake opened when none is in progress. It panics
/// when `out` has no room for the packet and its framing or for a handshake. What
/// the datagram that opens a handshake holds is not said: it hangs on a key drawn at
/// random.
#[verifier::external_body]
fn encapsulate(tunn: &mut Tunn, packet: &[u8], out: &mut [u8]) -> (r: Turn)
    requires
        old(out)@.len() >= packet@.len() + overhead(),
        old(out)@.len() >= initiation(),
    ensures
        final(out)@.len() == old(out)@.len(),
        same_ends(*final(tunn), *old(tunn)),
        is_dealt_with(
            *old(tunn),
            *final(tunn),
            queued(*old(tunn)),
            packet@,
            sealed_by(*old(tunn), packet@),
            final(out)@,
            r,
        ),
{
    match tunn.encapsulate(packet, out) {
        TunnResult::Done => Turn::Done,
        TunnResult::Err(_) => Turn::Refused,
        TunnResult::WriteToNetwork(out) => Turn::ToNetwork(out.len()),
        TunnResult::WriteToTunnelV4(out, _) => Turn::ToTunnelV4(out.len()),
        TunnResult::WriteToTunnelV6(out, _) => Turn::ToTunnelV6(out.len()),
    }
}

/// Whether `out` opens with an IP packet of `n` bytes, of that version.
pub open spec fn is_packet(out: Seq<u8>, version: u8, n: usize) -> bool {
    &&& n <= out.len()
    &&& out.len() >= 40
    &&& out[0] / 16 == version
    &&& version == 4 ==> n == out[2] * 256 + out[3]
    &&& version == 6 ==> n == out[4] * 256 + out[5] + 40
}

/// Whether `n` bytes at the start of `out` are a packet that was opened out of a
/// datagram, and counted.
pub open spec fn is_opened(
    before: Tunn,
    after: Tunn,
    datagram: Seq<u8>,
    out: Seq<u8>,
    version: u8,
    n: usize,
) -> bool {
    &&& is_packet(out, version, n)
    &&& n + overhead() <= datagram.len()
    &&& counts(received_of(before), received_of(after), n as nat)
}

/// Whether opening a datagram came to this. One that opens a handshake is answered
/// when it is taken up, an answer is confirmed with `confirms` when it is the one
/// waited for, and a packet that is carried is opened to `plain` when it opens. Of a
/// cookie nothing comes, and anything else is refused and leaves the tunnel as it was.
pub open spec fn is_taken(
    before: Tunn,
    after: Tunn,
    datagram: Seq<u8>,
    takes: bool,
    confirms: Option<Seq<u8>>,
    plain: Option<Seq<u8>>,
    out: Seq<u8>,
    turn: Turn,
) -> bool {
    &&& queued(after) == queued(before)
    &&& sent_of(after) == sent_of(before)
    &&& has_session(before) ==> has_session(after)
    &&& match shape_of(datagram) {
        Shape::Initiation => {
            &&& received_of(after) == received_of(before)
            &&& if takes {
                turn == Turn::ToNetwork(response() as usize) && is_kind(out, 2)
            } else {
                turn == Turn::Refused
            }
        },
        Shape::Response => {
            &&& received_of(after) == received_of(before)
            &&& match confirms {
                Some(bytes) => {
                    &&& turn == Turn::ToNetwork(overhead() as usize)
                    &&& stands(out, overhead() as usize, bytes)
                    &&& is_kind(out, 4)
                    &&& has_session(after)
                },
                None => turn == Turn::Refused,
            }
        },
        Shape::Cookie => {
            &&& received_of(after) == received_of(before)
            &&& turn == Turn::Done || turn == Turn::Refused
        },
        Shape::Data => match plain {
            Some(packet) => {
                let n = packet.len() as usize;
                &&& turn == Turn::ToTunnelV4(n) && is_opened(before, after, datagram, out, 4, n)
                    || turn == Turn::ToTunnelV6(n) && is_opened(
                    before,
                    after,
                    datagram,
                    out,
                    6,
                    n,
                )
                &&& stands(out, n, packet)
                &&& has_session(after)
                &&& in_handshake(after) == in_handshake(before)
            },
            None => {
                &&& turn == Turn::Done || turn == Turn::Refused
                &&& received_of(after) == received_of(before)
                &&& in_handshake(after) == in_handshake(before)
            },
        },
        Shape::Other => turn == Turn::Refused && after == before,
    }
}

/// Whether asking for the packets held came to this: with none there is nothing
/// to do; else the oldest was taken out and dealt with.
pub open spec fn is_drained(
    before: Tunn,
    after: Tunn,
    sealed: Seq<u8>,
    out: Seq<u8>,
    turn: Turn,
) -> bool {
    let queue = queued(before);
    if queue.len() == 0 {
        turn == Turn::Done && after == before
    } else {
        is_dealt_with(before, after, queue.drop_first(), queue.first(), sealed, out, turn)
    }
}

/// `Tunn::decapsulate` of a datagram whose sender is not told. No datagram at all
/// is how it is asked for the packets it holds, one at a time. It panics when
/// `out` is shorter than what it has to hold. What a datagram comes to hangs on the
/// tunnel and on the datagram alone; what an answer to a handshake holds is not
/// said, for it hangs on a key drawn at random. Nor is anything said of a session
/// whose counter of datagrams has run full.
#[verifier::external_body]
fn decapsulate(tunn: &mut Tunn, datagram: &[u8], out: &mut [u8]) -> (r: Turn)
    requires
        old(out)@.len() >= datagram@.len(),
        old(out)@.len() >= initiation(),
        datagram@.len() == 0 && queued(*old(tunn)).len() > 0 ==> old(out)@.len() >= queued(
            *old(tunn),
        ).first().len() + overhead(),
    ensures
        final(out)@.len() == old(out)@.len(),
        same_ends(*final(tunn), *old(tunn)),
        datagram@.len() == 0 ==> is_drained(
            *old(tunn),
            *final(tunn),
            sealed_by(*old(tunn), queued(*old(tunn)).first()),
            final(out)@,
            r,
        ),
        datagram@.len() > 0 ==> is_taken(
            *old(tunn),
            *final(tunn),
            datagram@,
            takes_up(*old(tunn), datagram@),
            confirmation(*old(tunn), datagram@),
            plain_in(*old(tunn), datagram@),
            final(out)@,
            r,
        ),
{
    match tunn.decapsulate(None, datagram, out) {
        TunnResult::Done => Turn::Done,
        TunnResult::Err(_) => Turn::Refused,
        TunnResult::WriteToNetwork(out) => Turn::ToNetwork(out.len()),
        TunnResult::WriteToTunnelV4(out, _) => Turn::ToTunnelV4(out.len()),
        TunnResult::WriteToTunnelV6(out, _) => Turn::ToTunnelV6(out.len()),
    }
}

/// Whether asking what the clock calls for came to this, `sealed` being what an empty
/// packet is sealed into.
pub open spec fn is_ticked(
    before: Tunn,
    after: Tunn,
    sealed: Seq<u8>,
    out: Seq<u8>,
    turn: Turn,
) -> bool {
    let held = queued(after) == queued(before) || (queued(after) == kept(
        queued(before),
        Seq::empty(),
    ) && !has_session(after));
    &&& sent_of(after) == sent_of(before)
    &&& received_of(after) == received_of(before)
    &&& has_session(after) ==> has_session(before)
    &&& match turn {
        Turn::Done => held && in_handshake(after) == in_handshake(before),
        Turn::Refused => {
            &&& queued(after) == queued(before) || queued(after).len() == 0
            &&& !in_handshake(after)
        },
        Turn::ToNetwork(n) => {
            ||| n == initiation() && is_kind(out, 1) && held && in_handshake(after)
            ||| {
                &&& n == overhead() && is_kind(out, 4)
                &&& has_session(after)
                &&& stands(out, n, sealed)
                &&& queued(after) == queued(before)
                &&& in_handshake(after) == in_handshake(before)
            }
        },
        _ => false,
    }
}

/// `Tunn::update_timers`: what the clock calls for, a handshake or an empty
/// packet, or nothing. A tunnel that has given up lets go of what it held; one
/// with no session to send an empty packet in holds that too. Which of these it
/// is hangs on the time.
#[verifier::external_body]
fn update_timers(tunn: &mut Tunn, out: &mut [u8]) -> (r: Turn)
    requires
        old(out)@.len() >= initiation(),
    ensures
        final(out)@.len() == old(out)@.len(),
        same_ends(*final(tunn), *old(tunn)),
        is_ticked(
            *old(tunn),
            *final(tunn),
            sealed_by(*old(tunn), Seq::empty()),
            final(out)@,
            r,
        ),
{
    match tunn.update_timers(out) {
        TunnResult::Done => Turn::Done,
        TunnResult::Err(_) => Turn::Refused,
        TunnResult::WriteToNetwork(out) => Turn::ToNetwork(out.len()),
        TunnResult::WriteToTunnelV4(out, _) => Turn::ToTunnelV4(out.len()),
        TunnResult::WriteToTunnelV6(out, _) => Turn::ToTunnelV6(out.len()),
    }
}

/// `Tunn::stats`: the seconds since the last handshake, the bytes sent and the
/// bytes received. The first is there when there is a session; how many seconds it is
/// is not said, for that is a matter of time.
#[verifier::external_body]
fn counters(tunn: &Tunn) -> (r: (Option<u64>, usize, usize))
    ensures
        r.0 is Some == has_session(*tunn),
        r.1 == sent_of(*tunn),
        r.2 == received_of(*tunn),
{
    let (age, sent, received, _loss, _trip) = tunn.stats();
    (age.map(|age| age.as_secs()), sent, received)
}

// The pump

/// Whether a buffer has room to seal each of these packets.
pub open spec fn fits(queue: Seq<Seq<u8>>) -> bool {
    forall|i: int| 0 <= i < queue.len() ==> (#[trigger] queue[i]).len() <= LONGEST
}

proof fn lemma_kept_fits(queue: Seq<Seq<u8>>, packet: Seq<u8>)
    requires
        fits(queue),
        packet.len() <= LONGEST,
    ensures
        fits(kept(queue, packet)),
{
    let all = kept(queue, packet);
    assert forall|i: int| 0 <= i < all.len() implies (#[trigger] all[i]).len() <= LONGEST by {
        if i < queue.len() {
            assert(all[i] == queue[i]);
        }
    }
}

/// One tunnel, as the pump holds it.
pub struct Session {
    tunn: Tunn,
}

/// The longest packet a buffer has room to seal.
pub const LONGEST: usize = BUFFER - 32;

/// What to do with a datagram that came off the socket. A length is that of what
/// stands at the start of the buffer.
#[derive(Clone, Copy, PartialEq, Eq, Structural, Debug)]
pub enum Arrival {
    /// Send this back, and then whatever `next` hands over.
    Reply(usize),
    /// Write this to the interface.
    Deliver(usize),
    /// Nothing.
    Nothing,
}

/// What there is to send, by what the protocol made of a packet or of the clock.
pub open spec fn to_send(turn: Turn) -> Option<usize> {
    match turn {
        Turn::ToNetwork(n) => Some(n),
        _ => None,
    }
}

/// What is to be sent once the protocol has been handed a packet or asked what the
/// clock calls for: what it left for the network, so many bytes of it, and nothing
/// otherwise.
pub fn due(turn: Turn) -> (r: Option<usize>)
    ensures
        r == to_send(turn),
{
    match turn {
        Turn::ToNetwork(n) => Some(n),
        _ => None,
    }
}

/// What to do with a datagram, by what the protocol made of it.
pub open spec fn arrived(turn: Turn) -> Arrival {
    match turn {
        Turn::ToNetwork(n) => Arrival::Reply(n),
        Turn::ToTunnelV4(n) => Arrival::Deliver(n),
        Turn::ToTunnelV6(n) => Arrival::Deliver(n),
        Turn::Done => Arrival::Nothing,
        Turn::Refused => Arrival::Nothing,
    }
}

/// What to do with a datagram once the protocol has been handed it: what it left for
/// the network goes back, a packet of either version goes to the interface.
pub fn arrival_of(turn: Turn) -> (r: Arrival)
    ensures
        r == arrived(turn),
{
    match turn {
        Turn::ToNetwork(n) => Arrival::Reply(n),
        Turn::ToTunnelV4(n) => Arrival::Deliver(n),
        Turn::ToTunnelV6(n) => Arrival::Deliver(n),
        Turn::Done => Arrival::Nothing,
        Turn::Refused => Arrival::Nothing,
    }
}

/// The counters of a tunnel, from what the protocol answers when asked for them.
pub fn stats_of(handshake_age: Option<u64>, sent: usize, received: usize) -> (r: Stats)
    ensures
        r == (Stats { received: received as u64, sent: sent as u64, handshake_age }),
{
    Stats { received: received as u64, sent: sent as u64, handshake_age }
}

impl Session {
    /// The packets held until there is a session to send them in.
    pub closed spec fn waiting(self) -> Seq<Seq<u8>> {
        queued(self.tunn)
    }

    /// The private key of this end.
    pub closed spec fn secret(self) -> Seq<u8> {
        secret_of(self.tunn)
    }

    /// The public key of the relay.
    pub closed spec fn peer(self) -> Seq<u8> {
        peer_of(self.tunn)
    }

    /// The seconds between keepalives.
    pub closed spec fn keepalive(self) -> int {
        keepalive_of(self.tunn)
    }

    /// The bytes counted as sent.
    pub closed spec fn sent(self) -> int {
        sent_of(self.tunn)
    }

    /// The bytes counted as received.
    pub closed spec fn received(self) -> int {
        received_of(self.tunn)
    }

    /// Whether there is a session to send packets in.
    pub closed spec fn established(self) -> bool {
        has_session(self.tunn)
    }

    /// Whether a handshake is in progress.
    pub closed spec fn opening(self) -> bool {
        in_handshake(self.tunn)
    }

    /// The datagram a packet is sealed into, in the session there is.
    pub closed spec fn sealing(self, packet: Seq<u8>) -> Seq<u8> {
        sealed_by(self.tunn, packet)
    }

    /// The packet a datagram that carries one opens to, if it does.
    pub closed spec fn plain(self, datagram: Seq<u8>) -> Option<Seq<u8>> {
        plain_in(self.tunn, datagram)
    }

    /// Whether the handshake a datagram opens is taken up.
    pub closed spec fn answers(self, datagram: Seq<u8>) -> bool {
        takes_up(self.tunn, datagram)
    }

    /// The empty packet that confirms a handshake, when a datagram is the answer that
    /// is waited for.
    pub closed spec fn confirming(self, datagram: Seq<u8>) -> Option<Seq<u8>> {
        confirmation(self.tunn, datagram)
    }

    /// Nothing is held that a buffer has no room to seal, so no buffer is ever
    /// too short for what it is handed.
    pub open spec fn wf(self) -> bool {
        fits(self.waiting())
    }

    /// Whether both ends are those of `other`.
    pub open spec fn is_between(self, other: Session) -> bool {
        &&& self.secret() == other.secret()
        &&& self.peer() == other.peer()
        &&& self.keepalive() == other.keepalive()
    }

    /// Whether a packet was dealt with, `rest` being all that was held besides it.
    /// With a session it is sealed at the start of `out` and counted. Without one it is
    /// held, and a handshake is opened at the start of `out` unless one is in progress.
    pub open spec fn dealt_with(
        self,
        before: Session,
        rest: Seq<Seq<u8>>,
        packet: Seq<u8>,
        out: Seq<u8>,
        r: Option<usize>,
    ) -> bool {
        &&& self.received() == before.received()
        &&& self.established() == before.established()
        &&& if before.established() {
            let n = (packet.len() + overhead()) as usize;
            &&& r == Some(n)
            &&& stands(out, n, before.sealing(packet))
            &&& is_kind(out, 4)
            &&& self.waiting() == rest
            &&& counts(before.sent(), self.sent(), packet.len())
            &&& self.opening() == before.opening()
        } else {
            &&& if before.opening() {
                r is None
            } else {
                r == Some(initiation() as usize) && is_kind(out, 1)
            }
            &&& self.waiting() == kept(rest, packet)
            &&& self.sent() == before.sent()
            &&& self.opening()
        }
    }

    /// Whether the oldest packet held was dealt with, if there was one.
    pub open spec fn handed_over(self, before: Session, out: Seq<u8>, r: Option<usize>) -> bool {
        let queue = before.waiting();
        if queue.len() == 0 {
            r is None && self == before
        } else {
            self.dealt_with(before, queue.drop_first(), queue.first(), out, r)
        }
    }

    /// What a datagram off the socket comes to. An empty one asks for what is held. One
    /// that opens a handshake is answered when it is taken up, an answer is confirmed
    /// when it is the one waited for, a packet that is carried is opened and counted.
    /// Nothing comes of anything else.
    pub open spec fn opened(
        self,
        before: Session,
        datagram: Seq<u8>,
        out: Seq<u8>,
        r: Arrival,
    ) -> bool {
        if datagram.len() == 0 {
            match r {
                Arrival::Reply(n) => self.handed_over(before, out, Some(n)),
                Arrival::Deliver(_) => false,
                Arrival::Nothing => self.handed_over(before, out, None),
            }
        } else {
            &&& self.waiting() == before.waiting()
            &&& self.sent() == before.sent()
            &&& before.established() ==> self.established()
            &&& match shape_of(datagram) {
                Shape::Initiation => {
                    &&& self.received() == before.received()
                    &&& if before.answers(datagram) {
                        r == Arrival::Reply(response() as usize) && is_kind(out, 2)
                    } else {
                        r == Arrival::Nothing
                    }
                },
                Shape::Response => {
                    &&& self.received() == before.received()
                    &&& match before.confirming(datagram) {
                        Some(bytes) => {
                            &&& r == Arrival::Reply(overhead() as usize)
                            &&& stands(out, overhead() as usize, bytes)
                            &&& is_kind(out, 4)
                            &&& self.established()
                        },
                        None => r == Arrival::Nothing,
                    }
                },
                Shape::Cookie => self.received() == before.received() && r == Arrival::Nothing,
                Shape::Data => match before.plain(datagram) {
                    Some(packet) => {
                        let n = packet.len() as usize;
                        &&& r == Arrival::Deliver(n)
                        &&& stands(out, n, packet)
                        &&& is_packet(out, 4, n) || is_packet(out, 6, n)
                        &&& n + overhead() <= datagram.len()
                        &&& counts(before.received(), self.received(), n as nat)
                        &&& self.established()
                        &&& self.opening() == before.opening()
                    },
                    None => {
                        &&& r == Arrival::Nothing
                        &&& self.received() == before.received()
                        &&& self.opening() == before.opening()
                    },
                },
                Shape::Other => r == Arrival::Nothing && self == before,
            }
        }
    }

    /// What the clock comes to: a handshake opened at the start of `out`, an empty
    /// packet sealed there, or nothing. An empty packet with no session to go out
    /// in is held, and a tunnel that has given up lets go of all it held.
    pub open spec fn ticked(self, before: Session, out: Seq<u8>, turn: Turn) -> bool {
        let held = self.waiting() == before.waiting() || (self.waiting() == kept(
            before.waiting(),
            Seq::empty(),
        ) && !self.established());
        &&& self.sent() == before.sent()
        &&& self.received() == before.received()
        &&& self.established() ==> before.established()
        &&& match turn {
            Turn::Done => held && self.opening() == before.opening(),
            Turn::Refused => {
                &&& self.waiting() == before.waiting() || self.waiting().len() == 0
                &&& !self.opening()
            },
            Turn::ToNetwork(n) => {
                ||| n == initiation() && is_kind(out, 1) && held && self.opening()
                ||| {
                    &&& n == overhead() && is_kind(out, 4)
                    &&& self.established()
                    &&& stands(out, n, before.sealing(Seq::empty()))
                    &&& self.waiting() == before.waiting()
                    &&& self.opening() == before.opening()
                }
            },
            _ => false,
        }
    }

    /// A tunnel from this end to the relay, with nothing sent yet.
    pub fn new(private: [u8; 32], peer: [u8; 32]) -> (r: Session)
        ensures
            r.wf(),
            r.secret() == private@,
            r.peer() == peer@,
            r.keepalive() == KEEPALIVE,
            r.waiting().len() == 0,
            r.sent() == 0,
            r.received() == 0,
            !r.established(),
            !r.opening(),
    {
        Session { tunn: tunn(private, peer, KEEPALIVE) }
    }

    /// Seals one packet from the interface. What is to be sent stands at the
    /// start of `sealed`, so many bytes of it: the packet itself when there is a
    /// session, else the handshake that opens one, and the packet is held.
    /// `None` when there is nothing to send yet.
    pub fn forward(&mut self, packet: &[u8], sealed: &mut [u8]) -> (r: Option<usize>)
        requires
            old(self).wf(),
            packet@.len() <= LONGEST,
            old(sealed)@.len() == BUFFER,
        ensures
            final(self).wf(),
            final(self).is_between(*old(self)),
            final(sealed)@.len() == BUFFER,
            r matches Some(n) ==> n <= BUFFER,
            final(self).dealt_with(*old(self), old(self).waiting(), packet@, final(sealed)@, r),
    {
        let ghost before = self.waiting();
        let turn = encapsulate(&mut self.tunn, packet, sealed);
        proof {
            lemma_kept_fits(before, packet@);
        }
        due(turn)
    }

    /// Opens one datagram from the relay into `plain`.
    pub fn arrive(&mut self, datagram: &[u8], plain: &mut [u8]) -> (r: Arrival)
        requires
            old(self).wf(),
            datagram@.len() <= BUFFER,
            old(plain)@.len() == BUFFER,
        ensures
            final(self).wf(),
            final(self).is_between(*old(self)),
            final(plain)@.len() == BUFFER,
            r matches Arrival::Reply(n) ==> n <= BUFFER,
            r matches Arrival::Deliver(n) ==> n <= BUFFER,
            final(self).opened(*old(self), datagram@, final(plain)@, r),
    {
        if datagram.len() == 0 {
            return match self.next(plain) {
                Some(n) => Arrival::Reply(n),
                None => Arrival::Nothing,
            };
        }
        let turn = decapsulate(&mut self.tunn, datagram, plain);
        arrival_of(turn)
    }

    /// The next thing to send once a handshake has been answered: the oldest of
    /// the packets held, sealed at the start of `out`. `None` when there is
    /// nothing more.
    pub fn next(&mut self, out: &mut [u8]) -> (r: Option<usize>)
        requires
            old(self).wf(),
            old(out)@.len() == BUFFER,
        ensures
            final(self).wf(),
            final(self).is_between(*old(self)),
            final(out)@.len() == BUFFER,
            r matches Some(n) ==> n <= BUFFER,
            final(self).handed_over(*old(self), final(out)@, r),
    {
        let ghost before = self.waiting();
        assert(before.len() > 0 ==> before.first() == before[0]);
        let nothing: [u8; 0] = [];
        let turn = decapsulate(&mut self.tunn, nothing.as_slice(), out);
        proof {
            if before.len() > 0 {
                let rest = before.drop_first();
                assert forall|i: int| 0 <= i < rest.len() implies (#[trigger] rest[i]).len()
                    <= LONGEST by {
                    assert(rest[i] == before[i + 1]);
                }
                lemma_kept_fits(rest, before.first());
            }
        }
        due(turn)
    }

    /// What the clock calls for: a handshake retried, a key renewed, a keepalive.
    /// Which of these it is, if any, hangs on the time; `due` says what
    /// becomes of each.
    pub fn tick(&mut self, out: &mut [u8]) -> (r: Option<usize>)
        requires
            old(self).wf(),
            old(out)@.len() == BUFFER,
        ensures
            final(self).wf(),
            final(self).is_between(*old(self)),
            final(out)@.len() == BUFFER,
            exists|turn: Turn| #[trigger]
                final(self).ticked(*old(self), final(out)@, turn) && r == to_send(turn),
    {
        let ghost before = self.waiting();
        let turn = update_timers(&mut self.tunn, out);
        proof {
            lemma_kept_fits(before, Seq::empty());
        }
        assert(self.ticked(*old(self), out@, turn));
        due(turn)
    }

    /// The counters. The last handshake has an age when there is a session; how old it
    /// is is a matter of time.
    pub fn stats(&self) -> (r: Stats)
        ensures
            r.handshake_age is Some == self.established(),
            r.sent == self.sent(),
            r.received == self.received(),
    {
        let (handshake_age, sent, received) = counters(&self.tunn);
        stats_of(handshake_age, sent, received)
    }
}

/// The counters of the embedded tunnel, or nothing when it is not running.
pub fn stats(running: Option<&Session>) -> (r: Stats)
    ensures
        match running {
            Some(session) => {
                &&& r.handshake_age is Some == session.established()
                &&& r.sent == session.sent()
                &&& r.received == session.received()
            },
            None => r == crate::tunnel::no_stats(),
        },
{
    match running {
        Some(session) => session.stats(),
        None => Stats::default(),
    }
}

// What becomes of a packet

/// What the protocol leaves for the network is sent, so many bytes of it, and nothing
/// else is; of a datagram that came in, what it leaves for the network goes back, and a
/// packet of either version goes to the interface, so many bytes of it.
pub proof fn lemma_where_a_turn_leads(n: usize)
    ensures
        to_send(Turn::ToNetwork(n)) == Some(n),
        to_send(Turn::ToTunnelV4(n)) is None,
        to_send(Turn::ToTunnelV6(n)) is None,
        to_send(Turn::Done) is None,
        to_send(Turn::Refused) is None,
        arrived(Turn::ToNetwork(n)) == Arrival::Reply(n),
        arrived(Turn::ToTunnelV4(n)) == Arrival::Deliver(n),
        arrived(Turn::ToTunnelV6(n)) == Arrival::Deliver(n),
        arrived(Turn::Done) == Arrival::Nothing,
        arrived(Turn::Refused) == Arrival::Nothing,
{
}

/// With a session a packet goes out at once: sealed, as long as it was and the framing
/// more, counted as sent and not held. Without one nothing of it goes out or is counted,
/// and it is held behind what was held before, as long as there is room.
pub proof fn lemma_a_packet_goes_out_or_waits(
    after: Session,
    before: Session,
    rest: Seq<Seq<u8>>,
    packet: Seq<u8>,
    out: Seq<u8>,
    r: Option<usize>,
)
    requires
        after.dealt_with(before, rest, packet, out, r),
        packet.len() <= LONGEST,
    ensures
        before.established() ==> {
            &&& r matches Some(n) && n == packet.len() + 32
            &&& out.take((packet.len() + 32) as int) == before.sealing(packet)
            &&& after.waiting() == rest
        },
        !before.established() ==> {
            &&& r matches Some(n) ==> n == 148 && !before.opening()
            &&& r is None ==> before.opening()
            &&& after.sent() == before.sent()
            &&& after.opening()
            &&& rest.len() < 256 ==> after.waiting() == rest.push(packet)
            &&& rest.len() >= 256 ==> after.waiting() == rest
        },
        after.received() == before.received(),
{
}

/// Packets leave in the order they came: asked for what is held, a session sends the
/// oldest and keeps the others as they were, and a tunnel that holds none sends nothing.
pub proof fn lemma_the_oldest_goes_first(
    after: Session,
    before: Session,
    out: Seq<u8>,
    r: Option<usize>,
)
    requires
        after.handed_over(before, out, r),
        before.wf(),
        before.established(),
    ensures
        before.waiting().len() == 0 ==> r is None && after == before,
        before.waiting().len() > 0 ==> {
            let oldest = before.waiting()[0];
            &&& r matches Some(n) && n == oldest.len() + 32
            &&& out.take((oldest.len() + 32) as int) == before.sealing(oldest)
            &&& after.waiting() == before.waiting().drop_first()
        },
{
    if before.waiting().len() > 0 {
        assert(before.waiting()[0].len() <= LONGEST);
        lemma_a_packet_goes_out_or_waits(
            after,
            before,
            before.waiting().drop_first(),
            before.waiting().first(),
            out,
            r,
        );
    }
}

/// A packet that was carried is delivered as it was sealed, and nothing else of what
/// comes in is ever delivered.
pub proof fn lemma_only_what_was_carried_is_delivered(
    after: Session,
    before: Session,
    datagram: Seq<u8>,
    out: Seq<u8>,
    r: Arrival,
)
    requires
        after.opened(before, datagram, out, r),
        datagram.len() > 0,
    ensures
        r matches Arrival::Deliver(n) ==> before.plain(datagram) matches Some(packet) && n
            == packet.len() as usize && out.take(n as int) == packet && shape_of(datagram) == Shape::Data,
        shape_of(datagram) == Shape::Data && before.plain(datagram) is Some ==> r is Deliver,
        after.waiting() == before.waiting(),
        after.sent() == before.sent(),
{
}

} // verus!
