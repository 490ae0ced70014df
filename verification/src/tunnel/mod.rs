//! Brings the WireGuard tunnel up and down.
//!
//! There are two backends behind this interface.
//!
//! The **system** one hands the profile to a WireGuard already installed on the
//! machine. That puts the data path in the kernel, which is the faster of the
//! two, and on Windows it also means the tunnel outlives this process.
//!
//! The **embedded** one carries the protocol itself, in this process, over a TUN
//! device it creates. Nothing has to be installed for it to work.
//!
//! `up` prefers the system backend and falls back to the embedded one, so a
//! machine with nothing installed still gets a tunnel and a machine that has
//! WireGuard keeps its speed.
use crate::text;
use vstd::prelude::*;
use vstd::string::*;

pub mod address;
pub mod command;
pub mod embedded;
pub mod system;

verus! {

/// The name of the tunnel's interface.
pub const INTERFACE: &'static str = "valira";

/// Which of the two backends is carrying the traffic.
#[derive(Clone, Copy, PartialEq, Eq, Structural, Debug)]
pub enum Mode {
    /// A WireGuard installed on the machine. Kernel data path.
    System,
    /// This process. Survives nothing, needs nothing.
    Embedded,
}

/// What the tunnel needs in order to come up.
pub struct Profile {
    pub private_key: String,
    pub addresses: Vec<String>,
    pub dns: Vec<String>,
    pub peer_public_key: String,
    pub endpoint: String,
}

/// What a profile holds, apart from how it is held.
#[verifier::ext_equal]
pub struct Wanted {
    pub private_key: Seq<char>,
    pub addresses: Seq<Seq<char>>,
    pub dns: Seq<Seq<char>>,
    pub peer_public_key: Seq<char>,
    pub endpoint: Seq<char>,
}

impl View for Profile {
    type V = Wanted;

    open spec fn view(&self) -> Wanted {
        Wanted {
            private_key: self.private_key@,
            addresses: text::texts(self.addresses@),
            dns: text::texts(self.dns@),
            peer_public_key: self.peer_public_key@,
            endpoint: self.endpoint@,
        }
    }
}

/// Bytes moved through the tunnel, and how long ago the peer last answered.
#[derive(Clone, Copy, PartialEq, Eq, Structural, Debug)]
pub struct Stats {
    pub received: u64,
    pub sent: u64,
    pub handshake_age: Option<u64>,
}

/// What is reported when nothing is known to have moved.
pub open spec fn no_stats() -> Stats {
    Stats { received: 0, sent: 0, handshake_age: None }
}

impl Default for Stats {
    fn default() -> (r: Stats)
        ensures
            r == no_stats(),
    {
        Stats { received: 0, sent: 0, handshake_age: None }
    }
}

/// The section of the configuration that describes this end.
pub open spec fn interface_section(p: Profile) -> Seq<char> {
    "[Interface]\n"@ + ("PrivateKey = "@ + p.private_key@ + "\n"@) + ("Address = "@ + text::joined(
        text::texts(p.addresses@),
        ", "@,
    ) + "\n"@) + dns_line(p)
}

/// The line that names the resolvers, when there are any.
pub open spec fn dns_line(p: Profile) -> Seq<char> {
    if p.dns@.len() == 0 {
        Seq::empty()
    } else {
        "DNS = "@ + text::joined(text::texts(p.dns@), ", "@) + "\n"@
    }
}

/// The section of the configuration that describes the relay.
pub open spec fn peer_section(p: Profile) -> Seq<char> {
    "\n[Peer]\n"@ + ("PublicKey = "@ + p.peer_public_key@ + "\n"@) + ("Endpoint = "@ + p.endpoint@
        + "\n"@) + "AllowedIPs = 0.0.0.0/0, ::/0\n"@ + "PersistentKeepalive = 25\n"@
}

/// The configuration of a profile, as every WireGuard tool reads it.
pub open spec fn rendered(p: Profile) -> Seq<char> {
    interface_section(p) + peer_section(p)
}

/// Appends `name`, `value` and the end of the line.
fn put(body: &mut String, name: &str, value: &str)
    ensures
        final(body)@ == old(body)@ + (name@ + value@ + "\n"@),
{
    body.append(name);
    body.append(value);
    body.append("\n");
    assert(body@ =~= old(body)@ + (name@ + value@ + "\n"@));
}

impl Profile {
    /// Renders the configuration in the format every WireGuard tool reads.
    pub fn render(&self) -> (r: String)
        ensures
            r@ == rendered(*self),
    {
        let mut body = "[Interface]\n".to_owned();
        put(&mut body, "PrivateKey = ", self.private_key.as_str());
        put(&mut body, "Address = ", text::join(&self.addresses, ", ").as_str());
        if self.dns.len() > 0 {
            put(&mut body, "DNS = ", text::join(&self.dns, ", ").as_str());
        }
        assert(body@ =~= interface_section(*self));
        let mut peer = "\n[Peer]\n".to_owned();
        put(&mut peer, "PublicKey = ", self.peer_public_key.as_str());
        put(&mut peer, "Endpoint = ", self.endpoint.as_str());
        peer.append("AllowedIPs = 0.0.0.0/0, ::/0\n");
        peer.append("PersistentKeepalive = 25\n");
        assert(peer@ =~= peer_section(*self));
        body.append(peer.as_str());
        body
    }
}

/// The backend a setting pins, if any.
pub open spec fn pinned(setting: Option<Seq<char>>) -> Option<Mode> {
    match setting {
        Some(value) => if text::trimmed(value) == "embedded"@ {
            Some(Mode::Embedded)
        } else if text::trimmed(value) == "system"@ {
            Some(Mode::System)
        } else {
            None
        },
        None => None,
    }
}

/// `VALIRA_TUNNEL=embedded` or `=system` pins one backend. Without it the choice
/// is automatic, which also means the embedded path is never exercised on a
/// machine that has WireGuard installed.
pub fn forced(setting: Option<String>) -> (r: Option<Mode>)
    ensures
        r == pinned(text::maybe(setting)),
{
    match setting {
        Some(value) => {
            let value = text::trim(value.as_str());
            proof {
                reveal_strlit("embedded");
                reveal_strlit("system");
                assert("embedded"@.len() != "system"@.len());
            }
            if text::same(value.as_str(), "embedded") {
                Some(Mode::Embedded)
            } else if text::same(value.as_str(), "system") {
                Some(Mode::System)
            } else {
                None
            }
        },
        None => None,
    }
}

/// What bringing the tunnel up comes to: the backend to take down first, and
/// the one to bring up.
#[derive(Clone, Copy, PartialEq, Eq, Structural, Debug)]
pub struct Plan {
    pub takes_down: Option<Mode>,
    pub brings_up: Mode,
}

/// The backend that carries the tunnel: the pinned one, else the system one
/// where there is one.
pub open spec fn carrier(forced: Option<Mode>, available: bool) -> Mode {
    match forced {
        Some(mode) => mode,
        None => if available {
            Mode::System
        } else {
            Mode::Embedded
        },
    }
}

/// How to bring the tunnel up, given the pinned backend and whether the system
/// one is there.
///
/// Only ever the OTHER backend is torn down. Tearing down the one about to come
/// up raced its own service manager: the removal returns before it finishes, so
/// the teardown's route cleanup could land after the new tunnel had installed
/// its own, leaving an adapter that is up, holds the default route, and carries
/// nothing. Each backend already replaces its own tunnel.
///
/// And there is no quiet substitution when the system backend is there and
/// fails. Falling through to the embedded tunnel would report a tunnel that is
/// up while the machine reaches nothing, and hide the reason.
pub fn up(forced: Option<Mode>, available: bool) -> (r: Plan)
    ensures
        r.brings_up == carrier(forced, available),
        r.takes_down == (match r.brings_up {
            Mode::System => Some(Mode::Embedded),
            Mode::Embedded => if forced is Some && available {
                Some(Mode::System)
            } else {
                None
            },
        }),
        r.takes_down != Some(r.brings_up),
{
    match forced {
        Some(Mode::Embedded) => {
            let takes_down = if available {
                Some(Mode::System)
            } else {
                None
            };
            Plan { takes_down, brings_up: Mode::Embedded }
        },
        Some(Mode::System) => Plan { takes_down: Some(Mode::Embedded), brings_up: Mode::System },
        None => if !available {
            Plan { takes_down: None, brings_up: Mode::Embedded }
        } else {
            Plan { takes_down: Some(Mode::Embedded), brings_up: Mode::System }
        },
    }
}

/// What taking both backends down comes to. The system one, when it is there,
/// is taken down whatever became of the embedded one; the first failure is the
/// one reported. `None` stands for a system backend that is not there.
pub fn down(embedded: Result<(), String>, system: Option<Result<(), String>>) -> (r: Result<
    (),
    String,
>)
    ensures
        r == (match embedded {
            Err(reason) => Err(reason),
            Ok(()) => match system {
                Some(result) => result,
                None => Ok(()),
            },
        }),
{
    match embedded {
        Err(reason) => Err(reason),
        Ok(()) => match system {
            Some(result) => result,
            None => Ok(()),
        },
    }
}

/// Which backend is carrying traffic, if any. Answering this is also how the
/// caller learns the tunnel is up, so it never has to ask twice.
///
/// `system` says whether the system backend is there and running.
pub fn mode(embedded: bool, forced: Option<Mode>, system: bool) -> (r: Option<Mode>)
    ensures
        r == Some(Mode::Embedded) <==> embedded,
        r == Some(Mode::System) <==> !embedded && forced != Some(Mode::Embedded) && system,
{
    if embedded {
        Some(Mode::Embedded)
    } else if forced != Some(Mode::Embedded) && system {
        Some(Mode::System)
    } else {
        None
    }
}

/// The counters of whichever backend is running: the embedded one's when it is
/// active, the system one's when that is there, nothing otherwise.
pub fn stats(embedded: Option<Stats>, system: Option<Stats>) -> (r: Stats)
    ensures
        r == (match embedded {
            Some(stats) => stats,
            None => match system {
                Some(stats) => stats,
                None => no_stats(),
            },
        }),
{
    match embedded {
        Some(stats) => stats,
        None => match system {
            Some(stats) => stats,
            None => Stats::default(),
        },
    }
}

/// The configuration is written line by line, each setting on its own: this end's key,
/// its addresses and its resolvers, when there are any, in the first section; the
/// relay's key and endpoint, everything that is routed and the keepalive in the second.
pub proof fn lemma_the_configuration_in_lines(p: Profile)
    ensures
        p.dns@.len() > 0 ==> rendered(p) == text::stacked(
            seq![
                "[Interface]"@,
                "PrivateKey = "@ + p.private_key@,
                "Address = "@ + text::joined(text::texts(p.addresses@), ", "@),
                "DNS = "@ + text::joined(text::texts(p.dns@), ", "@),
                ""@,
                "[Peer]"@,
                "PublicKey = "@ + p.peer_public_key@,
                "Endpoint = "@ + p.endpoint@,
                "AllowedIPs = 0.0.0.0/0, ::/0"@,
                "PersistentKeepalive = 25"@,
            ],
        ),
        p.dns@.len() == 0 ==> rendered(p) == text::stacked(
            seq![
                "[Interface]"@,
                "PrivateKey = "@ + p.private_key@,
                "Address = "@ + text::joined(text::texts(p.addresses@), ", "@),
                ""@,
                "[Peer]"@,
                "PublicKey = "@ + p.peer_public_key@,
                "Endpoint = "@ + p.endpoint@,
                "AllowedIPs = 0.0.0.0/0, ::/0"@,
                "PersistentKeepalive = 25"@,
            ],
        ),
{
    reveal_strlit("\n");
    reveal_strlit("[Interface]\n");
    reveal_strlit("[Interface]");
    reveal_strlit("");
    reveal_strlit("\n[Peer]\n");
    reveal_strlit("[Peer]");
    reveal_strlit("AllowedIPs = 0.0.0.0/0, ::/0\n");
    reveal_strlit("AllowedIPs = 0.0.0.0/0, ::/0");
    reveal_strlit("PersistentKeepalive = 25\n");
    reveal_strlit("PersistentKeepalive = 25");
    let nl = seq!['\n'];
    let private = "PrivateKey = "@ + p.private_key@;
    let address = "Address = "@ + text::joined(text::texts(p.addresses@), ", "@);
    let dns = "DNS = "@ + text::joined(text::texts(p.dns@), ", "@);
    let public = "PublicKey = "@ + p.peer_public_key@;
    let endpoint = "Endpoint = "@ + p.endpoint@;
    assert("\n"@ =~= nl);
    assert("[Interface]\n"@ =~= "[Interface]"@ + nl);
    assert("\n[Peer]\n"@ =~= ""@ + nl + ("[Peer]"@ + nl));
    assert("AllowedIPs = 0.0.0.0/0, ::/0\n"@ =~= "AllowedIPs = 0.0.0.0/0, ::/0"@ + nl);
    assert("PersistentKeepalive = 25\n"@ =~= "PersistentKeepalive = 25"@ + nl);
    let none = Seq::<Seq<char>>::empty();
    text::lemma_stacked_front("PersistentKeepalive = 25"@, none);
    let e1 = seq!["PersistentKeepalive = 25"@] + none;
    text::lemma_stacked_front("AllowedIPs = 0.0.0.0/0, ::/0"@, e1);
    let e2 = seq!["AllowedIPs = 0.0.0.0/0, ::/0"@] + e1;
    text::lemma_stacked_front(endpoint, e2);
    let e3 = seq![endpoint] + e2;
    text::lemma_stacked_front(public, e3);
    let e4 = seq![public] + e3;
    text::lemma_stacked_front("[Peer]"@, e4);
    let e5 = seq!["[Peer]"@] + e4;
    text::lemma_stacked_front(""@, e5);
    let e6 = seq![""@] + e5;
    assert(peer_section(p) =~= text::stacked(e6));
    if p.dns@.len() > 0 {
        text::lemma_stacked_front(dns, e6);
        let e7 = seq![dns] + e6;
        text::lemma_stacked_front(address, e7);
        let e8 = seq![address] + e7;
        text::lemma_stacked_front(private, e8);
        let e9 = seq![private] + e8;
        text::lemma_stacked_front("[Interface]"@, e9);
        let e10 = seq!["[Interface]"@] + e9;
        assert(rendered(p) =~= text::stacked(e10));
        assert(e10 =~= seq![
            "[Interface]"@,
            private,
            address,
            dns,
            ""@,
            "[Peer]"@,
            public,
            endpoint,
            "AllowedIPs = 0.0.0.0/0, ::/0"@,
            "PersistentKeepalive = 25"@,
        ]);
    } else {
        text::lemma_stacked_front(address, e6);
        let e8 = seq![address] + e6;
        text::lemma_stacked_front(private, e8);
        let e9 = seq![private] + e8;
        text::lemma_stacked_front("[Interface]"@, e9);
        let e10 = seq!["[Interface]"@] + e9;
        assert(rendered(p) =~= text::stacked(e10));
        assert(e10 =~= seq![
            "[Interface]"@,
            private,
            address,
            ""@,
            "[Peer]"@,
            public,
            endpoint,
            "AllowedIPs = 0.0.0.0/0, ::/0"@,
            "PersistentKeepalive = 25"@,
        ]);
    }
}

/// A setting pins the backend it names, whatever white space stands around it, and any
/// other pins none.
pub proof fn lemma_what_a_setting_pins(a: Seq<char>, name: Seq<char>, b: Seq<char>)
    requires
        text::is_blank(a),
        text::is_blank(b),
        name.len() > 0 ==> !text::is_space(name[0]) && !text::is_space(name.last()),
    ensures
        pinned(Some(a + name + b)) == Some(Mode::Embedded) <==> name == "embedded"@,
        pinned(Some(a + name + b)) == Some(Mode::System) <==> name == "system"@,
        pinned(None) is None,
{
    reveal_strlit("embedded");
    reveal_strlit("system");
    assert("embedded"@.len() != "system"@.len());
    text::lemma_trimming(a, name, b);
}

/// The pinned backend carries the tunnel whether or not the system one is there; without
/// one pinned it is the system one exactly when it is.
pub proof fn lemma_which_backend_carries(mode: Mode, available: bool)
    ensures
        carrier(Some(mode), available) == mode,
        carrier(None, available) == Mode::System <==> available,
{
}

/// A profile is what it holds, each part in its own place and each list in order.
pub proof fn lemma_a_profile_as_it_is_held(p: Profile)
    ensures
        p@.private_key == p.private_key@,
        p@.peer_public_key == p.peer_public_key@,
        p@.endpoint == p.endpoint@,
        p@.addresses.len() == p.addresses@.len(),
        p@.dns.len() == p.dns@.len(),
        forall|i: int| 0 <= i < p.addresses@.len() ==> p@.addresses[i] == #[trigger] p.addresses@[i]@,
        forall|i: int| 0 <= i < p.dns@.len() ==> p@.dns[i] == #[trigger] p.dns@[i]@,
{
}

} // verus!
