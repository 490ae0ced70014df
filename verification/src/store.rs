//! What the client remembers between runs, and what signing in, renewing and
//! picking an exit do to it.
use crate::api::{Device, Error, Granted, Relay};
use crate::keys::Pair;
use crate::text;
use crate::tunnel::Profile;
use vstd::prelude::*;
use vstd::string::*;

verus! {

/// Who made the client, and what it is called, where its files are kept.
pub const ORGANISATION: &'static str = "ValiraVPN";

pub const APPLICATION: &'static str = "valira";

/// The file the session is kept in.
pub const SESSION_FILE: &'static str = "session.json";

/// Who may do what with a path of the client's: its owner alone, so that the
/// private key stays out of reach of other users on the machine.
pub fn mode_for(is_directory: bool) -> (r: u32)
    ensures
        r == (if is_directory {
            0o700u32
        } else {
            0o600u32
        }),
{
    if is_directory {
        0o700
    } else {
        0o600
    }
}

/// Everything the client has to remember between runs. The account number is
/// kept because it is the only way to refresh an expired token.
pub struct Session {
    pub account_number: String,
    pub token: String,
    pub private_key: String,
    pub public_key: String,
    pub device_id: i64,
    pub device_name: String,
    pub tunnel_ip: String,
    pub tunnel_ip6: String,
    pub exit_id: Option<i64>,
}

/// A session, apart from how it is held.
#[verifier::ext_equal]
pub struct Kept {
    pub account_number: Seq<char>,
    pub token: Seq<char>,
    pub private_key: Seq<char>,
    pub public_key: Seq<char>,
    pub device_id: i64,
    pub device_name: Seq<char>,
    pub tunnel_ip: Seq<char>,
    pub tunnel_ip6: Seq<char>,
    pub exit_id: Option<i64>,
}

impl View for Session {
    type V = Kept;

    open spec fn view(&self) -> Kept {
        Kept {
            account_number: self.account_number@,
            token: self.token@,
            private_key: self.private_key@,
            public_key: self.public_key@,
            device_id: self.device_id,
            device_name: self.device_name@,
            tunnel_ip: self.tunnel_ip@,
            tunnel_ip6: self.tunnel_ip6@,
            exit_id: self.exit_id,
        }
    }
}

/// `kept` with a fresh token, on the device that came with it.
pub open spec fn on_device(kept: Kept, token: Seq<char>, device: Device) -> Kept {
    Kept {
        token,
        device_id: device.id,
        device_name: device.name@,
        tunnel_ip: device.tunnel_ip@,
        tunnel_ip6: device.tunnel_ip6@,
        ..kept
    }
}

/// The session a first sign-in opens: the account, a fresh pair, and no exit
/// yet.
pub open spec fn opened(
    number: Seq<char>,
    private: Seq<char>,
    public: Seq<char>,
    granted: Granted,
) -> Kept {
    on_device(
        Kept {
            account_number: number,
            token: Seq::empty(),
            private_key: private,
            public_key: public,
            device_id: 0,
            device_name: Seq::empty(),
            tunnel_ip: Seq::empty(),
            tunnel_ip6: Seq::empty(),
            exit_id: None,
        },
        granted.token@,
        granted.device,
    )
}

/// What is said when a sign-in comes back with another key's device.
pub const OTHER_KEY: &'static str = "This device already exists under a different key. Revoke it and try again.";

/// The session that signing in with `pair` opens.
///
/// Signing in with a key the account already carries returns that device
/// untouched, and a fresh private key would not match it.
pub fn open_session(number: &str, pair: Pair, granted: Granted) -> (r: Result<Session, String>)
    ensures
        match r {
            Ok(session) => granted.device.public_key@ == pair.public@ && session@ == opened(
                number@,
                pair.private@,
                pair.public@,
                granted,
            ),
            Err(reason) => granted.device.public_key@ != pair.public@ && reason@ == OTHER_KEY@,
        },
        r matches Ok(session) ==> {
            &&& session.account_number@ == number@
            &&& session.token@ == granted.token@
            &&& session.private_key@ == pair.private@
            &&& session.public_key@ == pair.public@
            &&& session.device_id == granted.device.id
            &&& session.device_name@ == granted.device.name@
            &&& session.tunnel_ip@ == granted.device.tunnel_ip@
            &&& session.tunnel_ip6@ == granted.device.tunnel_ip6@
            &&& session.exit_id is None
        },
{
    if !text::same(granted.device.public_key.as_str(), pair.public.as_str()) {
        return Err(OTHER_KEY.to_owned());
    }
    let session = Session {
        account_number: number.to_owned(),
        token: granted.token,
        private_key: pair.private,
        public_key: pair.public,
        device_id: granted.device.id,
        device_name: granted.device.name,
        tunnel_ip: granted.device.tunnel_ip,
        tunnel_ip6: granted.device.tunnel_ip6,
        exit_id: None,
    };
    assert(session@ =~= opened(number@, pair.private@, pair.public@, granted));
    Ok(session)
}

/// What is said when a renewal comes back with another device.
pub const OTHER_DEVICE: &'static str = "The service returned a different device on renewal.";

/// The session that signing in again gives, in place of one whose token has
/// lapsed, or why there is none.
///
/// Tokens last a day and there is no dedicated refresh route: signing in again
/// with the key already registered returns the same device, a fresh token, and
/// consumes no device slot. Generating a new key here would register a device on
/// every renewal instead, and fill the account's slots.
///
/// The tunnel encrypts with the private key on disk. A renewal that came back as
/// a different device would leave the client using a key the relay has never
/// seen: a tunnel that connects, counts bytes, and carries nothing.
pub fn renewed(session: Session, answer: Result<Granted, Error>) -> (r: Result<Session, Error>)
    ensures
        match answer {
            Ok(granted) => if granted.device.public_key@ == session.public_key@ {
                r matches Ok(fresh) && fresh@ == on_device(
                    session@,
                    granted.token@,
                    granted.device,
                )
            } else {
                r matches Err(Error::Refused(reason)) && reason@ == OTHER_DEVICE@
            },
            Err(error) => r == Err::<Session, Error>(error),
        },
        r matches Ok(fresh) ==> answer matches Ok(granted) && {
            &&& fresh.account_number@ == session.account_number@
            &&& fresh.token@ == granted.token@
            &&& fresh.private_key@ == session.private_key@
            &&& fresh.public_key@ == session.public_key@
            &&& fresh.device_id == granted.device.id
            &&& fresh.device_name@ == granted.device.name@
            &&& fresh.tunnel_ip@ == granted.device.tunnel_ip@
            &&& fresh.tunnel_ip6@ == granted.device.tunnel_ip6@
            &&& fresh.exit_id == session.exit_id
        },
{
    let granted = match answer {
        Ok(granted) => granted,
        Err(error) => {
            return Err(error);
        },
    };
    if !text::same(granted.device.public_key.as_str(), session.public_key.as_str()) {
        return Err(Error::Refused(OTHER_DEVICE.to_owned()));
    }
    Ok(
        Session {
            token: granted.token,
            device_id: granted.device.id,
            device_name: granted.device.name,
            tunnel_ip: granted.device.tunnel_ip,
            tunnel_ip6: granted.device.tunnel_ip6,
            ..session
        },
    )
}

/// A renewal changes the token and what the service says of the device, and
/// nothing else: the key pair, the account and the exit stay those that were
/// stored.
pub proof fn lemma_renewal_keeps_the_key(before: Kept, granted: Granted)
    ensures
        on_device(before, granted.token@, granted.device).private_key == before.private_key,
        on_device(before, granted.token@, granted.device).public_key == before.public_key,
        on_device(before, granted.token@, granted.device).account_number == before.account_number,
        on_device(before, granted.token@, granted.device).exit_id == before.exit_id,
{
}

/// What is said when the service has no entry node.
pub const NO_ENTRY: &'static str = "No entry node available.";

/// The entry node to use: the first the service lists.
pub fn first_relay(answer: Result<Vec<Relay>, Error>) -> (r: Result<Relay, String>)
    ensures
        match answer {
            Ok(relays) => if relays@.len() > 0 {
                r == Ok::<Relay, String>(relays@[0])
            } else {
                r matches Err(reason) && reason@ == NO_ENTRY@
            },
            Err(error) => r matches Err(reason) && reason@ == crate::api::message_of(error),
        },
{
    match answer {
        Ok(mut relays) => {
            if relays.len() == 0 {
                Err(NO_ENTRY.to_owned())
            } else {
                Ok(relays.swap_remove(0))
            }
        },
        Err(error) => Err(error.message()),
    }
}

/// The tunnel's own resolvers.
pub const RESOLVER: &'static str = "10.64.0.1";

pub const RESOLVER6: &'static str = "fda8:75e8:355::1";

/// The profile of the tunnel a session opens to an entry node.
pub open spec fn opens_to(session: Kept, relay: Relay) -> crate::tunnel::Wanted {
    crate::tunnel::Wanted {
        private_key: session.private_key,
        addresses: seq![session.tunnel_ip, session.tunnel_ip6],
        dns: seq![RESOLVER@, RESOLVER6@],
        peer_public_key: relay.public_key@,
        endpoint: relay.endpoint@ + ":"@ + text::decimal(relay.port as nat),
    }
}

/// The profile of the tunnel a session opens to an entry node.
pub fn profile_for(session: &Session, relay: &Relay) -> (r: Profile)
    ensures
        r@ == opens_to(session@, *relay),
        r.private_key@ == session.private_key@,
        r.addresses@.len() == 2,
        r.addresses@[0]@ == session.tunnel_ip@,
        r.addresses@[1]@ == session.tunnel_ip6@,
        r.dns@.len() == 2,
        r.dns@[0]@ == RESOLVER@,
        r.dns@[1]@ == RESOLVER6@,
        r.peer_public_key@ == relay.public_key@,
        r.endpoint@ == relay.endpoint@ + ":"@ + text::decimal(relay.port as nat),
{
    let mut endpoint = relay.endpoint.clone();
    endpoint.append(":");
    endpoint.append(text::number(relay.port as u64).as_str());
    let mut addresses: Vec<String> = Vec::new();
    addresses.push(session.tunnel_ip.clone());
    addresses.push(session.tunnel_ip6.clone());
    let mut dns: Vec<String> = Vec::new();
    dns.push(RESOLVER.to_owned());
    dns.push(RESOLVER6.to_owned());
    let r = Profile {
        private_key: session.private_key.clone(),
        addresses,
        dns,
        peer_public_key: relay.public_key.clone(),
        endpoint,
    };
    assert(r@.addresses =~= seq![session@.tunnel_ip, session@.tunnel_ip6]);
    assert(r@.dns =~= seq![RESOLVER@, RESOLVER6@]);
    r
}

/// What is said when there is no session to pick an exit in.
pub const NO_SESSION: &'static str = "No session. Sign in again.";

/// The session to bring the tunnel up in, once the service has accepted the
/// exit. It is read again after the call: a lapsed session was renewed in place,
/// and the tunnel addresses came back with it.
pub fn reloaded(stored: Option<Session>) -> (r: Result<Session, String>)
    ensures
        match stored {
            Some(session) => r == Ok::<Session, String>(session),
            None => r matches Err(reason) && reason@ == NO_SESSION@,
        },
{
    match stored {
        Some(session) => Ok(session),
        None => Err(NO_SESSION.to_owned()),
    }
}

/// The session once its tunnel is up: it remembers the exit.
pub fn leaving_by(session: Session, id: i64) -> (r: Session)
    ensures
        r@ == (Kept { exit_id: Some(id), ..session@ }),
        r.account_number@ == session.account_number@,
        r.token@ == session.token@,
        r.private_key@ == session.private_key@,
        r.public_key@ == session.public_key@,
        r.device_id == session.device_id,
        r.device_name@ == session.device_name@,
        r.tunnel_ip@ == session.tunnel_ip@,
        r.tunnel_ip6@ == session.tunnel_ip6@,
        r.exit_id == Some(id),
{
    Session { exit_id: Some(id), ..session }
}

/// For every device the service grants, the session that signing in gives holds that
/// device's own fields beside the account and the pair, and leaves by no exit yet.
pub proof fn lemma_a_sign_in_holds_the_device(
    session: Session,
    number: Seq<char>,
    private: Seq<char>,
    public: Seq<char>,
    granted: Granted,
)
    requires
        session@ == opened(number, private, public, granted),
    ensures
        session.token@ == granted.token@,
        session.device_id == granted.device.id,
        session.device_name@ == granted.device.name@,
        session.tunnel_ip@ == granted.device.tunnel_ip@,
        session.tunnel_ip6@ == granted.device.tunnel_ip6@,
        session.account_number@ == number,
        session.private_key@ == private,
        session.public_key@ == public,
        session.exit_id is None,
{
}

/// For every device the service grants, the session that a renewal gives holds that
/// device's own fields, whatever the stored one said of it.
pub proof fn lemma_a_renewal_holds_the_device(fresh: Session, before: Session, granted: Granted)
    requires
        fresh@ == on_device(before@, granted.token@, granted.device),
    ensures
        fresh.token@ == granted.token@,
        fresh.device_id == granted.device.id,
        fresh.device_name@ == granted.device.name@,
        fresh.tunnel_ip@ == granted.device.tunnel_ip@,
        fresh.tunnel_ip6@ == granted.device.tunnel_ip6@,
        fresh.account_number@ == before.account_number@,
        fresh.private_key@ == before.private_key@,
        fresh.public_key@ == before.public_key@,
        fresh.exit_id == before.exit_id,
{
}

/// The tunnel raised after a sign-in or a renewal has exactly the two addresses that
/// the service gave the device, and asks the tunnel's own two resolvers; it is raised
/// with the session's key, towards the entry node's.
pub proof fn lemma_the_tunnel_has_the_device_addresses(
    number: Seq<char>,
    private: Seq<char>,
    public: Seq<char>,
    before: Kept,
    granted: Granted,
    relay: Relay,
)
    ensures
        opens_to(opened(number, private, public, granted), relay).addresses == seq![
            granted.device.tunnel_ip@,
            granted.device.tunnel_ip6@,
        ],
        opens_to(on_device(before, granted.token@, granted.device), relay).addresses == seq![
            granted.device.tunnel_ip@,
            granted.device.tunnel_ip6@,
        ],
        opens_to(opened(number, private, public, granted), relay).private_key == private,
        opens_to(on_device(before, granted.token@, granted.device), relay).private_key
            == before.private_key,
        opens_to(before, relay).dns == seq![RESOLVER@, RESOLVER6@],
        opens_to(before, relay).peer_public_key == relay.public_key@,
{
}

/// The endpoint of the tunnel is the entry node's host and port, which read back out
/// of it: the host is what stands before its last colon, the port what stands after.
pub proof fn lemma_the_endpoint_reads_back(session: Kept, relay: Relay)
    ensures
        text::before_last(opens_to(session, relay).endpoint, ':') == relay.endpoint@,
        opens_to(session, relay).endpoint.len() > relay.endpoint@.len(),
        text::parsed(
            opens_to(session, relay).endpoint.skip(relay.endpoint@.len() as int + 1),
            u16::MAX as nat,
        ) == Some(relay.port as nat),
{
    reveal_strlit(":");
    let port = text::decimal(relay.port as nat);
    let endpoint = opens_to(session, relay).endpoint;
    text::lemma_decimal(relay.port as nat);
    text::lemma_number_reads_back(relay.port as nat, u16::MAX as nat);
    assert(endpoint =~= relay.endpoint@ + seq![':'] + port);
    assert(!port.contains(':')) by {
        if port.contains(':') {
            let i = choose|i: int| 0 <= i < port.len() && port[i] == ':';
            assert(text::is_digit(port[i]));
        }
    }
    text::lemma_before_last(relay.endpoint@, ':', port);
    assert(endpoint.skip(relay.endpoint@.len() as int + 1) =~= port);
}

/// A session is kept as it is held, each field in its own place.
pub proof fn lemma_a_session_as_it_is_held(session: Session)
    ensures
        session@.account_number == session.account_number@,
        session@.token == session.token@,
        session@.private_key == session.private_key@,
        session@.public_key == session.public_key@,
        session@.device_id == session.device_id,
        session@.device_name == session.device_name@,
        session@.tunnel_ip == session.tunnel_ip@,
        session@.tunnel_ip6 == session.tunnel_ip6@,
        session@.exit_id == session.exit_id,
{
}

} // verus!
