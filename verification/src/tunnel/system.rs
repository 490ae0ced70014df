//! The backend that drives a WireGuard already installed on the machine.
//!
//! Nothing here runs a program. Each function takes what one answered and says
//! what it means, or says what to run next.
use crate::text;
use crate::tunnel::address::parse_v4;
use crate::tunnel::command::{last_line, Command};
use crate::tunnel::{Profile, Stats, INTERFACE};
use vstd::prelude::*;
use vstd::string::*;

verus! {

// What the tools answer

/// Whether the list of interfaces a tool printed names ours.
pub open spec fn lists_interface(listing: Seq<char>) -> bool {
    text::words_of(listing).contains(INTERFACE@)
}

/// Whether the tunnel is up, from what `wg show interfaces` printed. `None`
/// when it could not be run, which is taken for no.
pub fn active(listing: Option<Vec<u8>>) -> (r: bool)
    ensures
        r == (listing matches Some(bytes) && lists_interface(text::lossy(bytes@))),
{
    let bytes = match listing {
        Some(bytes) => bytes,
        None => {
            return false;
        },
    };
    let words = text::split_whitespace(text::from_utf8_lossy(bytes.as_slice()).as_str());
    let ghost all = text::words_of(text::lossy(bytes@));
    let mut i: usize = 0;
    while i < words.len()
        invariant
            i <= words@.len(),
            listing == Some(bytes),
            text::texts(words@) == all,
            all == text::words_of(text::lossy(bytes@)),
            forall|j: int| 0 <= j < i ==> all[j] != INTERFACE@,
        decreases words@.len() - i,
    {
        assert(all[i as int] == words@[i as int]@);
        if text::same(words[i].as_str(), INTERFACE) {
            return true;
        }
        i += 1;
    }
    false
}

/// Whether a service in that state is one that is up or coming up. `None`
/// stands for a service that is not installed or cannot be asked.
pub fn service_active(state: Option<u32>) -> (r: bool)
    ensures
        r <==> state == Some(SERVICE_RUNNING) || state == Some(SERVICE_START_PENDING),
{
    match state {
        Some(state) => state == SERVICE_RUNNING || state == SERVICE_START_PENDING,
        None => false,
    }
}

/// The service manager's number for a service that is starting.
pub const SERVICE_START_PENDING: u32 = 2;

/// The service manager's number for a service that is running.
pub const SERVICE_RUNNING: u32 = 4;

/// The number a column holds, or nothing when it holds none.
pub open spec fn column_number(column: Seq<char>) -> u64 {
    match text::parsed(column, u64::MAX as nat) {
        Some(n) => n as u64,
        None => 0,
    }
}

fn read_column(column: &str) -> (r: u64)
    ensures
        r == column_number(column@),
{
    match text::parse(column, u64::MAX) {
        Some(n) => n,
        None => 0,
    }
}

/// The counters in what `wg show valira dump` prints: the first line describes
/// the interface, the second the relay. `now` is in seconds since the epoch, as
/// the time of the last handshake is; zero there means there was none.
pub open spec fn dump_stats(dump: Seq<char>, now: u64) -> Stats {
    let lines = text::lines_of(dump);
    let columns = text::split_of(lines[1], '\t');
    if lines.len() < 2 || columns.len() < 7 {
        crate::tunnel::no_stats()
    } else {
        let handshake = column_number(columns[4]);
        Stats {
            received: column_number(columns[5]),
            sent: column_number(columns[6]),
            handshake_age: if handshake > 0 {
                Some(
                    if now >= handshake {
                        (now - handshake) as u64
                    } else {
                        0
                    },
                )
            } else {
                None
            },
        }
    }
}

/// The counters of the tunnel, from what `wg` printed. `None` when it could not
/// be run: nothing is reported rather than pretending the tunnel is idle.
pub fn stats(dump: Option<Vec<u8>>, now: u64) -> (r: Stats)
    ensures
        dump is None ==> r == crate::tunnel::no_stats(),
        dump matches Some(bytes) ==> r == dump_stats(text::lossy(bytes@), now),
        dump matches Some(bytes) ==> {
            let lines = text::lines_of(text::lossy(bytes@));
            let columns = text::split_of(lines[1], '\t');
            if lines.len() < 2 || columns.len() < 7 {
                r.received == 0 && r.sent == 0 && r.handshake_age is None
            } else {
                &&& r.handshake_age is None <==> !(text::parsed(columns[4], u64::MAX as nat) matches Some(n)
                    && n > 0)
                &&& text::parsed(columns[4], u64::MAX as nat) matches Some(n) ==> n > 0
                    ==> r.handshake_age == Some((if now >= n { now - n } else { 0 }) as u64)
                &&& text::parsed(columns[5], u64::MAX as nat) matches Some(n) ==> r.received == n
                &&& text::parsed(columns[6], u64::MAX as nat) matches Some(n) ==> r.sent == n
            }
        },
{
    let bytes = match dump {
        Some(bytes) => bytes,
        None => {
            return Stats::default();
        },
    };
    let dump = text::from_utf8_lossy(bytes.as_slice());
    let lines = text::lines(dump.as_str());
    assert(text::texts(lines@).len() == lines@.len());
    if lines.len() < 2 {
        return Stats::default();
    }
    assert(text::texts(lines@)[1] == lines@[1]@);
    let columns = text::split(lines[1].as_str(), '\t');
    assert(text::texts(columns@).len() == columns@.len());
    if columns.len() < 7 {
        return Stats::default();
    }
    assert(text::texts(columns@)[4] == columns@[4]@);
    assert(text::texts(columns@)[5] == columns@[5]@);
    assert(text::texts(columns@)[6] == columns@[6]@);
    let handshake = read_column(columns[4].as_str());
    Stats {
        received: read_column(columns[5].as_str()),
        sent: read_column(columns[6].as_str()),
        handshake_age: if handshake > 0 {
            Some(now.saturating_sub(handshake))
        } else {
            None
        },
    }
}

/// What a command that had to succeed comes to.
pub fn outcome(succeeded: bool, stderr: &[u8], fallback: &str) -> (r: Result<(), String>)
    ensures
        succeeded ==> r is Ok,
        !succeeded ==> r is Err && r->Err_0@ == crate::tunnel::command::last_said(
            text::lossy(stderr@),
            fallback@,
        ),
{
    if succeeded {
        Ok(())
    } else {
        Err(last_line(stderr, fallback))
    }
}

// The relay's own route

/// The IPv4 address in `host:port`, or in a bare host.
pub open spec fn address_of(endpoint: Seq<char>) -> Option<Seq<char>> {
    let host = text::trimmed(endpoint);
    if host.len() > 0 && host[0] == '[' {
        None
    } else if crate::tunnel::address::v4_of(text::before_last(host, ':')) is Some {
        Some(text::before_last(host, ':'))
    } else {
        None
    }
}

/// The relay's address out of `host:port`. IPv6 endpoints are bracketed, and
/// are left alone: the route is added for IPv4 here, and the v6 default is not
/// what carries this tunnel.
///
/// An IPv4 address has one spelling only, so the text that was read is the text
/// that is returned.
pub fn endpoint_address(endpoint: &str) -> (r: Option<String>)
    ensures
        text::maybe(r) == address_of(endpoint@),
{
    let host = text::trim(endpoint);
    if !host.as_str().is_empty() && host.as_str().get_char(0) == '[' {
        return None;
    }
    let host = text::up_to_last(host.as_str(), ':');
    match parse_v4(host.as_str()) {
        Some(_) => Some(host),
        None => None,
    }
}

/// The endpoint a configuration names.
pub open spec fn endpoint_in(config: Seq<char>) -> Option<Seq<char>> {
    match text::first_after(text::lines_of(config), "Endpoint"@) {
        Some(rest) => match text::cut(rest, '=') {
            Some((_, value)) => Some(text::trimmed(value)),
            None => None,
        },
        None => None,
    }
}

/// The address whose route a configuration calls for.
pub open spec fn address_in(config: Seq<char>) -> Option<Seq<char>> {
    match endpoint_in(config) {
        Some(endpoint) => address_of(endpoint),
        None => None,
    }
}

/// The relay's address, read back from the profile on disk rather than kept in
/// memory, so a client that was restarted still knows what to clean up.
pub fn configured_address(config: &str) -> (r: Option<String>)
    ensures
        text::maybe(r) == address_in(config@),
{
    match text::line_after(config, "Endpoint") {
        Some(rest) => match text::split_once(rest.as_str(), '=') {
            Some((_, value)) => endpoint_address(text::trim(value.as_str()).as_str()),
            None => None,
        },
        None => None,
    }
}

/// The command that drops the route to `address`.
pub open spec fn drops_route(address: Seq<char>) -> crate::tunnel::command::Line {
    crate::tunnel::command::Line { program: "route"@, args: seq!["delete"@, address] }
}

/// The command that routes `address` through `gateway`.
pub open spec fn adds_route(address: Seq<char>, gateway: Seq<char>) -> crate::tunnel::command::Line {
    crate::tunnel::command::Line {
        program: "route"@,
        args: seq![
            "add"@,
            address,
            "mask"@,
            "255.255.255.255"@,
            gateway,
            "metric"@,
            "1"@,
        ],
    }
}

fn drop_route(address: &str) -> (r: Command)
    ensures
        r@ == drops_route(address@),
{
    let r = Command::new("route", &["delete", address]);
    assert(r@.args =~= drops_route(address@).args);
    r
}

/// The command that routes `address` through `gateway`.
pub fn add_route(address: &str, gateway: &str) -> (r: Command)
    ensures
        r@ == adds_route(address@, gateway@),
{
    let r = Command::new(
        "route",
        &["add", address, "mask", "255.255.255.255", gateway, "metric", "1"],
    );
    assert(r@.args =~= adds_route(address@, gateway@).args);
    r
}

/// Routes the relay through the physical gateway, so the tunnel's own encrypted
/// packets can never be routed into the tunnel that carries them.
///
/// WireGuard normally prevents that by binding its socket to the interface the
/// relay is reachable on. Turning on IP forwarding defeats it, and Windows turns
/// forwarding on the moment Internet Connection Sharing or the mobile hotspot
/// starts. The encrypted packets are then routed like any others, match the
/// tunnel's own default route, and loop.
pub fn pin_endpoint(endpoint: &str, gateway: Option<String>) -> (r: Vec<Command>)
    ensures
        crate::tunnel::command::lines(r@) == (match (address_of(endpoint@), gateway) {
            // Idempotent: a stale route from a previous run would make the add
            // fail.
            (Some(address), Some(gateway)) => seq![
                drops_route(address),
                adds_route(address, gateway@),
            ],
            _ => Seq::empty(),
        }),
{
    let mut r: Vec<Command> = Vec::new();
    if let Some(address) = endpoint_address(endpoint) {
        if let Some(gateway) = gateway {
            r.push(drop_route(address.as_str()));
            r.push(add_route(address.as_str(), gateway.as_str()));
        }
    }
    assert(crate::tunnel::command::lines(r@) =~= (match (address_of(endpoint@), gateway) {
        (Some(address), Some(gateway)) => seq![drops_route(address), adds_route(address, gateway@)],
        _ => Seq::empty(),
    }));
    r
}

/// Drops the relay's own route again.
pub fn unpin_endpoint(config: &str) -> (r: Option<Command>)
    ensures
        r is Some <==> address_in(config@) is Some,
        r matches Some(command) ==> command@ == drops_route(address_in(config@)->0),
{
    match configured_address(config) {
        Some(address) => Some(drop_route(address.as_str())),
        None => None,
    }
}

/// The gateway in what was printed for the next hop of the default route.
pub open spec fn gateway_in(printed: Seq<char>) -> Option<Seq<char>> {
    let hop = text::trimmed(printed);
    if hop.len() > 0 && hop != "0.0.0.0"@ {
        Some(hop)
    } else {
        None
    }
}

/// The gateway the machine uses, from what was printed for the next hop of the
/// default route. A route with no next hop is no way out.
pub fn default_gateway(printed: &[u8]) -> (r: Option<String>)
    ensures
        text::maybe(r) == gateway_in(text::lossy(printed@)),
{
    let hop = text::trim(text::from_utf8_lossy(printed).as_str());
    if !hop.as_str().is_empty() && !text::same(hop.as_str(), "0.0.0.0") {
        Some(hop)
    } else {
        None
    }
}

// Where things are

/// The service manager of WireGuard for Windows, unless a setting says it is
/// somewhere else.
pub fn wireguard_exe(setting: Option<String>) -> (r: String)
    ensures
        r@ == (match setting {
            Some(path) => path@,
            None => "C:\\Program Files\\WireGuard\\wireguard.exe"@,
        }),
{
    match setting {
        Some(path) => path,
        None => "C:\\Program Files\\WireGuard\\wireguard.exe".to_owned(),
    }
}

/// The file the configuration goes in.
pub fn config_name() -> (r: String)
    ensures
        r@ == INTERFACE@ + ".conf"@,
{
    let mut r = INTERFACE.to_owned();
    r.append(".conf");
    r
}

/// The name of the tunnel's service.
pub fn service_name() -> (r: String)
    ensures
        r@ == "WireGuardTunnel$"@ + INTERFACE@,
{
    let mut r = "WireGuardTunnel$".to_owned();
    r.append(INTERFACE);
    r
}

// Taking the tunnel down

/// What became of `wg-quick`.
pub enum Quick {
    /// It ran, and left or did not leave the tunnel down.
    Ran { succeeded: bool, stderr: Vec<u8> },
    /// It could not be started.
    Missing(String),
}

/// Whether `wg-quick` did the whole job: it succeeded and the tunnel is gone.
/// Otherwise the link is removed next: it refuses when its own state file is
/// gone, and removing the link still takes the tunnel down.
pub fn quick_sufficed(quick: &Quick, active: bool) -> (r: bool)
    ensures
        r <==> !active && (quick matches Quick::Ran { succeeded, .. } && *succeeded),
{
    match quick {
        Quick::Ran { succeeded, .. } => *succeeded && !active,
        Quick::Missing(_) => false,
    }
}

/// What taking the tunnel down came to, once the link has been removed: whether
/// it is still there is all that counts.
pub fn down_outcome(quick: Quick, active: bool) -> (r: Result<(), String>)
    ensures
        !active ==> r is Ok,
        active ==> r is Err && r->Err_0@ == (match quick {
            Quick::Ran { stderr, .. } => crate::tunnel::command::last_said(
                text::lossy(stderr@),
                "le tunnel est toujours actif"@,
            ),
            Quick::Missing(reason) => "wg-quick not found: "@ + reason@,
        }),
{
    if !active {
        return Ok(());
    }
    match quick {
        Quick::Ran { stderr, .. } => Err(
            last_line(stderr.as_slice(), "le tunnel est toujours actif"),
        ),
        Quick::Missing(reason) => {
            let mut r = "wg-quick not found: ".to_owned();
            r.append(reason.as_str());
            Err(r)
        },
    }
}

/// How many times the service is looked at before giving up on its removal.
pub const REMOVAL_POLLS: u32 = 500;

/// The removal of the tunnel's service, which is only asked for: it finishes
/// some time after the asking returns, and whatever comes next must not race the
/// route cleanup that goes with it.
pub struct Removal {
    left: u32,
    stderr: Vec<u8>,
}

/// What to do next about a removal.
pub enum Next {
    /// Look again in a moment.
    Wait,
    /// The tunnel is gone: drop the relay's route, and that is all.
    Unpin,
    /// It is still there after the last look, and so the relay's route stays.
    Fail(String),
}

impl Removal {
    /// How many looks are left.
    pub closed spec fn left(self) -> u32 {
        self.left
    }

    /// What the service manager wrote.
    pub closed spec fn stderr(self) -> Seq<u8> {
        self.stderr@
    }

    /// A removal that was just asked for.
    pub fn new(stderr: Vec<u8>) -> (r: Removal)
        ensures
            r.left() == REMOVAL_POLLS,
            r.stderr() == stderr@,
    {
        Removal { left: REMOVAL_POLLS, stderr }
    }

    /// Takes one look into account. The last one settles it, and any after that
    /// counts for nothing.
    pub fn look(&mut self, active: bool) -> (r: Next)
        ensures
            final(self).stderr() == old(self).stderr(),
            // Only once the tunnel is really gone: dropping the route while it
            // still stands would send the relay's own packets back into it.
            r is Unpin <==> !active && old(self).left() > 0,
            r is Wait <==> active && old(self).left() > 1,
            final(self).left() == (if old(self).left() > 0 {
                (old(self).left() - 1) as u32
            } else {
                0
            }),
            r matches Next::Fail(reason) ==> reason@ == crate::tunnel::command::last_said(
                text::lossy(old(self).stderr()),
                "the tunnel is still up"@,
            ),
    {
        let last: bool = self.left <= 1;
        if self.left > 0 {
            self.left = self.left - 1;
            if !active {
                return Next::Unpin;
            }
        }
        if !last {
            Next::Wait
        } else {
            Next::Fail(last_line(self.stderr.as_slice(), "the tunnel is still up"))
        }
    }
}

// What the configuration gives back

/// Whether a text holds to one line.
pub open spec fn one_line(s: Seq<char>) -> bool {
    !s.contains('\n')
}

/// Whether nothing in a profile runs over its line.
pub open spec fn is_plain(p: Profile) -> bool {
    &&& one_line(p.private_key@)
    &&& forall|i: int| 0 <= i < p.addresses@.len() ==> one_line(#[trigger] p.addresses@[i]@)
    &&& forall|i: int| 0 <= i < p.dns@.len() ==> one_line(#[trigger] p.dns@[i]@)
    &&& one_line(p.peer_public_key@)
    &&& one_line(p.endpoint@)
}

/// Text on one line, next to text on one line, is on one line.
proof fn lemma_one_line(a: Seq<char>, b: Seq<char>)
    requires
        one_line(a),
        one_line(b),
    ensures
        one_line(a + b),
{
    assert forall|i: int| 0 <= i < (a + b).len() implies (a + b)[i] != '\n' by {
        if i < a.len() {
            assert(a[i] != '\n');
        } else {
            assert(b[i - a.len()] != '\n');
        }
    }
}

/// Joining texts that are each on one line keeps to it.
proof fn lemma_joined_one_line(parts: Seq<Seq<char>>, sep: Seq<char>)
    requires
        forall|i: int| 0 <= i < parts.len() ==> one_line(#[trigger] parts[i]),
        one_line(sep),
    ensures
        one_line(text::joined(parts, sep)),
    decreases parts.len(),
{
    if parts.len() > 1 {
        lemma_joined_one_line(parts.drop_last(), sep);
        lemma_one_line(text::joined(parts.drop_last(), sep), sep);
        lemma_one_line(text::joined(parts.drop_last(), sep) + sep, parts.last());
    }
}

/// A line that opens on something else is passed over.
proof fn lemma_passed_over(line: Seq<char>, rest: Seq<char>)
    requires
        one_line(line),
        line.len() > 0 ==> !text::is_space(line[0]) && line[0] != 'E',
    ensures
        text::first_after(text::lines_of(line + seq!['\n'] + rest), "Endpoint"@)
            == text::first_after(text::lines_of(rest), "Endpoint"@),
{
    reveal_strlit("Endpoint");
    text::lemma_lines_step(line, rest);
    let all = text::lines_of(line + seq!['\n'] + rest);
    let kept = text::strip_cr(line);
    assert(all[0] == kept);
    assert(all.drop_first() =~= text::lines_of(rest));
    if line.len() > 0 {
        assert(kept.len() > 0 && kept[0] == line[0]);
        let head = seq![kept[0]];
        text::lemma_trim_end_concat(head, kept.skip(1));
        assert(head + kept.skip(1) =~= kept);
        assert(text::trimmed(kept)[0] == line[0]);
        assert(text::opens(text::trimmed(kept), "Endpoint"@) ==> text::trimmed(kept).take(8)[0]
            == 'E');
    } else {
        assert(kept.len() == 0);
    }
}

/// The endpoint is read back from the line that was written for it.
proof fn lemma_endpoint_line(endpoint: Seq<char>, rest: Seq<char>)
    requires
        one_line(endpoint),
    ensures
        endpoint_in("Endpoint = "@ + endpoint + seq!['\n'] + rest) == Some(
            text::trimmed(endpoint),
        ),
{
    reveal_strlit("Endpoint");
    reveal_strlit("Endpoint = ");
    let line = "Endpoint = "@ + endpoint;
    assert("Endpoint = "@.len() == 11);
    assert(one_line("Endpoint = "@));
    lemma_one_line("Endpoint = "@, endpoint);
    text::lemma_lines_step(line, rest);
    let all = text::lines_of(line + seq!['\n'] + rest);
    let kept = text::strip_cr(line);
    assert(all[0] == kept);
    // The carriage return, if there was one, is white space like any other.
    let t = text::trimmed(kept);
    assert(text::trim_start(kept) == kept);
    assert(text::trim_end(line) == text::trim_end(kept)) by {
        if kept != line {
            assert(line.drop_last() == kept);
        }
    }
    let head = line.take(10);
    let tail = line.skip(10);
    assert(line =~= head + tail);
    assert(head.last() == '=');
    text::lemma_trim_end_concat(head, tail);
    assert(t == head + text::trim_end(tail));
    assert(text::opens(t, "Endpoint"@)) by {
        assert(t.take(8) =~= "Endpoint"@);
    }
    let found = t.skip(8);
    assert(found[0] == ' ' && found[1] == '=');
    text::lemma_until_at(found, '=', 1);
    assert(found.skip(2) =~= text::trim_end(tail));
    assert(tail =~= seq![' '] + endpoint);
    assert(tail.drop_first() =~= endpoint);
    text::lemma_trim_commutes(tail);
    text::lemma_trim_end(text::trim_start(tail));
    assert(text::trim_start(tail) == text::trim_start(endpoint));
    assert(text::trimmed(text::trim_end(tail)) == text::trimmed(endpoint));
}

/// What is pinned is what is unpinned. The address read back from a profile's
/// configuration is the one its endpoint names, so the route that kept the relay
/// off the tunnel is the route that is dropped.
pub proof fn lemma_unpins_what_was_pinned(p: Profile)
    requires
        is_plain(p),
    ensures
        address_in(crate::tunnel::rendered(p)) == address_of(p.endpoint@),
        endpoint_in(crate::tunnel::rendered(p)) == Some(text::trimmed(p.endpoint@)),
{
    reveal_strlit("[Interface]\n");
    reveal_strlit("PrivateKey = ");
    reveal_strlit("Address = ");
    reveal_strlit("DNS = ");
    reveal_strlit("\n[Peer]\n");
    reveal_strlit("PublicKey = ");
    reveal_strlit(", ");
    reveal_strlit("\n");
    let nl = seq!['\n'];
    assert("\n"@ =~= nl);
    let addresses = text::joined(text::texts(p.addresses@), ", "@);
    let dns = text::joined(text::texts(p.dns@), ", "@);
    assert(one_line(", "@));
    lemma_joined_one_line(text::texts(p.addresses@), ", "@);
    lemma_joined_one_line(text::texts(p.dns@), ", "@);

    let opening = "[Interface]\n"@.drop_last();
    let key_line = "PrivateKey = "@ + p.private_key@;
    let address_line = "Address = "@ + addresses;
    let dns_line = "DNS = "@ + dns;
    let peer = "\n[Peer]\n"@.subrange(1, 7);
    let peer_line = "PublicKey = "@ + p.peer_public_key@;
    assert(one_line(opening));
    assert(one_line(peer));
    assert(one_line("PrivateKey = "@));
    assert(one_line("Address = "@));
    assert(one_line("DNS = "@));
    assert(one_line("PublicKey = "@));
    lemma_one_line("PrivateKey = "@, p.private_key@);
    lemma_one_line("Address = "@, addresses);
    lemma_one_line("DNS = "@, dns);
    lemma_one_line("PublicKey = "@, p.peer_public_key@);

    let after_endpoint = "AllowedIPs = 0.0.0.0/0, ::/0\n"@ + "PersistentKeepalive = 25\n"@;
    let from_endpoint = "Endpoint = "@ + p.endpoint@ + nl + after_endpoint;
    let from_key = peer_line + nl + from_endpoint;
    let from_peer = peer + nl + from_key;
    let from_blank = Seq::empty() + nl + from_peer;
    assert(crate::tunnel::peer_section(p) =~= from_blank);
    let from_dns = if p.dns@.len() == 0 {
        from_blank
    } else {
        dns_line + nl + from_blank
    };
    let from_address = address_line + nl + from_dns;
    let from_private = key_line + nl + from_address;
    let whole = opening + nl + from_private;
    assert(crate::tunnel::rendered(p) =~= whole);

    lemma_endpoint_line(p.endpoint@, after_endpoint);
    lemma_passed_over(peer_line, from_endpoint);
    lemma_passed_over(peer, from_key);
    lemma_passed_over(Seq::empty(), from_peer);
    if p.dns@.len() > 0 {
        lemma_passed_over(dns_line, from_blank);
    }
    lemma_passed_over(address_line, from_dns);
    lemma_passed_over(key_line, from_address);
    lemma_passed_over(opening, from_private);
    text::lemma_trimmed_twice(p.endpoint@);
}

// What the counters say

/// For a dump whose second line has at least seven columns, the last handshake has an
/// age exactly when the fifth column spells a number above zero: it is now less that
/// number, or zero when that number is later than now. What was received is the sixth
/// column and what was sent the seventh, and a column that spells no number counts for
/// nothing.
pub proof fn lemma_what_a_dump_says(dump: Seq<char>, now: u64)
    requires
        text::lines_of(dump).len() >= 2,
        text::split_of(text::lines_of(dump)[1], '\t').len() >= 7,
    ensures
        ({
            let columns = text::split_of(text::lines_of(dump)[1], '\t');
            let r = dump_stats(dump, now);
            let at = text::parsed(columns[4], u64::MAX as nat);
            let received = text::parsed(columns[5], u64::MAX as nat);
            let sent = text::parsed(columns[6], u64::MAX as nat);
            &&& r.handshake_age is None <==> at is None || at == Some(0nat)
            &&& at is Some && 0 < at->0 <= now ==> r.handshake_age is Some && r.handshake_age->0
                + at->0 == now
            &&& at is Some && now < at->0 ==> r.handshake_age == Some(0u64)
            &&& received is Some ==> r.received == received->0
            &&& received is None ==> r.received == 0
            &&& sent is Some ==> r.sent == sent->0
            &&& sent is None ==> r.sent == 0
        }),
{
}

/// A dump without a second line, or with fewer than seven columns in it, says nothing.
pub proof fn lemma_a_short_dump_says_nothing(dump: Seq<char>, now: u64)
    requires
        text::lines_of(dump).len() < 2 || text::split_of(text::lines_of(dump)[1], '\t').len() < 7,
    ensures
        dump_stats(dump, now).received == 0,
        dump_stats(dump, now).sent == 0,
        dump_stats(dump, now).handshake_age is None,
{
}

/// The counters are read out of the text that was printed: whatever the first line says
/// and whatever follows the second, the numbers written in its fifth, sixth and seventh
/// columns are the time of the handshake, what was received and what was sent.
pub proof fn lemma_a_dump_reads_back(
    head: Seq<char>,
    columns: Seq<Seq<char>>,
    rest: Seq<char>,
    handshake: u64,
    received: u64,
    sent: u64,
    now: u64,
)
    requires
        one_line(head),
        columns.len() >= 7,
        forall|i: int|
            0 <= i < columns.len() ==> !(#[trigger] columns[i]).contains('\t') && one_line(
                columns[i],
            ) && !columns[i].contains('\r'),
        columns[4] == text::decimal(handshake as nat),
        columns[5] == text::decimal(received as nat),
        columns[6] == text::decimal(sent as nat),
    ensures
        dump_stats(
            head + seq!['\n'] + (text::joined(columns, seq!['\t']) + seq!['\n'] + rest),
            now,
        ) == (Stats {
            received,
            sent,
            handshake_age: if handshake == 0 {
                None
            } else if handshake <= now {
                Some((now - handshake) as u64)
            } else {
                Some(0)
            },
        }),
{
    let line = text::joined(columns, seq!['\t']);
    let tail = line + seq!['\n'] + rest;
    assert(one_line(seq!['\t']));
    lemma_joined_one_line(columns, seq!['\t']);
    lemma_joined_without(columns, '\t', '\r');
    text::lemma_lines_step(head, tail);
    text::lemma_lines_step(line, rest);
    assert(text::strip_cr(line) == line) by {
        if line.len() > 0 && line.last() == '\r' {
            assert(line.contains(line[line.len() - 1]));
        }
    }
    let lines = text::lines_of(head + seq!['\n'] + tail);
    assert(lines.drop_first() =~= text::lines_of(tail));
    assert(lines[1] == text::lines_of(tail)[0]);
    assert(lines[1] == line);
    text::lemma_split_of_joined(columns, '\t');
    text::lemma_number_reads_back(handshake as nat, u64::MAX as nat);
    text::lemma_number_reads_back(received as nat, u64::MAX as nat);
    text::lemma_number_reads_back(sent as nat, u64::MAX as nat);
}

/// Joining adds no character but the one it joins with.
proof fn lemma_joined_without(parts: Seq<Seq<char>>, sep: char, c: char)
    requires
        sep != c,
        forall|i: int| 0 <= i < parts.len() ==> !(#[trigger] parts[i]).contains(c),
    ensures
        !text::joined(parts, seq![sep]).contains(c),
    decreases parts.len(),
{
    if parts.len() > 1 {
        let fewer = parts.drop_last();
        assert forall|i: int| 0 <= i < fewer.len() implies !(#[trigger] fewer[i]).contains(c) by {
            assert(fewer[i] == parts[i]);
        }
        lemma_joined_without(fewer, sep, c);
        let head = text::joined(fewer, seq![sep]);
        let last = parts[parts.len() - 1];
        let all = text::joined(parts, seq![sep]);
        assert(all =~= head + seq![sep] + last);
        if all.contains(c) {
            let i = choose|i: int| 0 <= i < all.len() && all[i] == c;
            if i < head.len() {
                assert(head[i] == c);
            } else if i > head.len() {
                assert(last[i - head.len() - 1] == c);
            }
        }
    } else if parts.len() == 1 {
        assert(!parts[0].contains(c));
    }
}

/// Our interface is listed exactly when its name is one of the words printed: it is not
/// enough that a longer name holds it.
pub proof fn lemma_the_interface_is_a_word(name: Seq<char>, space: char, rest: Seq<char>)
    requires
        name.len() > 0,
        forall|i: int| 0 <= i < name.len() ==> !text::is_space(#[trigger] name[i]),
        text::is_space(space),
    ensures
        lists_interface(name + seq![space] + rest) <==> name == INTERFACE@ || lists_interface(rest),
        lists_interface(name) <==> name == INTERFACE@,
        lists_interface(seq![space] + rest) <==> lists_interface(rest),
        !lists_interface(Seq::empty()),
{
    text::lemma_words(name, space, rest);
    let all = text::words_of(name + seq![space] + rest);
    let more = text::words_of(rest);
    assert(all[0] == name);
    if lists_interface(rest) {
        let i = choose|i: int| 0 <= i < more.len() && more[i] == INTERFACE@;
        assert(all[i + 1] == INTERFACE@);
    }
    if all.contains(INTERFACE@) && name != INTERFACE@ {
        let i = choose|i: int| 0 <= i < all.len() && all[i] == INTERFACE@;
        assert(more[i - 1] == INTERFACE@);
    }
    assert(text::words_of(name)[0] == name);
}

/// The address of a relay is the host of its endpoint, when that is an IPv4 one,
/// whatever its port; an endpoint in brackets has none.
pub proof fn lemma_the_host_is_the_address(host: Seq<char>, port: Seq<char>, rest: Seq<char>)
    requires
        crate::tunnel::address::v4_of(host) is Some,
        text::all_digits(port),
    ensures
        address_of(host + seq![':'] + port) == Some(host),
        address_of(host) == Some(host),
        address_of(seq!['['] + rest) is None,
{
    crate::tunnel::address::lemma_v4_characters(host);
    let endpoint = host + seq![':'] + port;
    assert(endpoint[0] == host[0]);
    assert(endpoint.last() == port[port.len() - 1]);
    assert(text::is_digit(port[port.len() - 1]));
    text::lemma_nothing_to_trim(endpoint);
    text::lemma_nothing_to_trim(host);
    assert(!port.contains(':')) by {
        if port.contains(':') {
            let i = choose|i: int| 0 <= i < port.len() && port[i] == ':';
            assert(text::is_digit(port[i]));
        }
    }
    assert(!host.contains(':')) by {
        if host.contains(':') {
            let i = choose|i: int| 0 <= i < host.len() && host[i] == ':';
            assert(text::is_digit(host[i]) || host[i] == '.');
        }
    }
    text::lemma_before_last(host, ':', port);
    text::lemma_before_last(host, ':', host);
    let bracketed = seq!['['] + rest;
    text::lemma_trim_end_concat(seq!['['], rest);
    assert(text::trim_start(bracketed) == bracketed);
    assert(text::trimmed(bracketed)[0] == '[');
}

/// The gateway is what was printed, without the white space around it, and a route with
/// no next hop has none.
pub proof fn lemma_the_gateway(a: Seq<char>, hop: Seq<char>, b: Seq<char>)
    requires
        text::is_blank(a),
        text::is_blank(b),
        hop.len() > 0 ==> !text::is_space(hop[0]) && !text::is_space(hop.last()),
    ensures
        hop.len() > 0 && hop != "0.0.0.0"@ ==> gateway_in(a + hop + b) == Some(hop),
        hop.len() == 0 || hop == "0.0.0.0"@ ==> gateway_in(a + hop + b) is None,
{
    text::lemma_trimming(a, hop, b);
}

/// The relay's route goes from its address to the gateway, for that address alone, and
/// the route that is dropped is that address's.
pub proof fn lemma_the_relay_route(address: Seq<char>, gateway: Seq<char>)
    ensures
        adds_route(address, gateway).program == drops_route(address).program,
        adds_route(address, gateway).args[0] == "add"@,
        adds_route(address, gateway).args[1] == address,
        adds_route(address, gateway).args[3] == "255.255.255.255"@,
        adds_route(address, gateway).args[4] == gateway,
        drops_route(address).args == seq!["delete"@, address],
{
}

} // verus!
