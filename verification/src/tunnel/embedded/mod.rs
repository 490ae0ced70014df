//! A WireGuard tunnel carried by this process.
//!
//! `boringtun` owns the protocol: handshake, session keys, timers. What is here
//! is what stands around it: what the profile has to hold before a tunnel can
//! come up, and the pump that carries packets between the interface and the
//! relay.
//!
//! Nothing here needs WireGuard to be installed. The tunnel lives and dies with
//! the process.
use crate::keys;
use crate::text;
use crate::tunnel::address::{parse_ip, Ip};
use crate::tunnel::Profile;
use vstd::prelude::*;
use vstd::string::*;

pub mod net;
pub mod session;
pub mod trace;

verus! {

/// WireGuard's own default: 1420 leaves room for its 60 bytes of framing inside
/// a 1500-byte path.
pub const MTU: u16 = 1420;

/// One MTU plus framing, rounded up.
pub const BUFFER: usize = 1600;

/// How often the protocol timers run, and how long a socket read waits before
/// letting its thread notice a shutdown, in milliseconds.
pub const TICK_MS: u64 = 250;

/// WireGuard's usual keepalive, in seconds, which also keeps NAT bindings open.
pub const KEEPALIVE: u16 = 25;

// Keys

/// Whether `result` is what reading a key comes to, given what decoding it gave.
pub open spec fn is_key_from(
    raw: Result<Seq<u8>, Seq<char>>,
    what: Seq<char>,
    result: Result<Seq<u8>, Seq<char>>,
) -> bool {
    result == (match raw {
        Ok(bytes) => if bytes.len() == 32 {
            Ok(bytes)
        } else {
            Err(what + " key: expected 32 bytes"@)
        },
        Err(complaint) => Err("unreadable "@ + what + " key: "@ + complaint),
    })
}

/// The bytes and the text behind the result of a decoding.
pub open spec fn raw_view(raw: Result<Vec<u8>, String>) -> Result<Seq<u8>, Seq<char>> {
    match raw {
        Ok(bytes) => Ok(bytes@),
        Err(complaint) => Err(complaint@),
    }
}

/// The bytes and the text behind a key or the reason there is none.
pub open spec fn key_view(key: Result<[u8; 32], String>) -> Result<Seq<u8>, Seq<char>> {
    match key {
        Ok(bytes) => Ok(bytes@),
        Err(reason) => Err(reason@),
    }
}

/// The key in what decoding a text gave. `what` says which key, in the reason
/// there is none.
pub fn key_from(raw: Result<Vec<u8>, String>, what: &str) -> (r: Result<[u8; 32], String>)
    ensures
        is_key_from(raw_view(raw), what@, key_view(r)),
{
    match raw {
        Ok(bytes) => {
            if bytes.len() != 32 {
                let mut reason = what.to_owned();
                reason.append(" key: expected 32 bytes");
                return Err(reason);
            }
            let mut key: [u8; 32] = [0u8; 32];
            let mut i: usize = 0;
            while i < 32
                invariant
                    i <= 32,
                    bytes@.len() == 32,
                    forall|j: int| 0 <= j < i ==> key@[j] == bytes@[j],
                decreases 32 - i,
            {
                key[i] = bytes[i];
                i += 1;
            }
            assert(key@ =~= bytes@);
            Ok(key)
        },
        Err(complaint) => {
            let mut reason = "unreadable ".to_owned();
            reason.append(what);
            reason.append(" key: ");
            reason.append(complaint.as_str());
            Err(reason)
        },
    }
}

/// The bytes behind a base64 text, and what is said of one that is not base64.
pub open spec fn is_decoding(s: Seq<char>, raw: Result<Seq<u8>, Seq<char>>) -> bool {
    match raw {
        Ok(bytes) => s == keys::encoded(bytes),
        Err(complaint) => complaint == keys::decode_complaint(s) && forall|bytes: Seq<u8>|
            s != #[trigger] keys::encoded(bytes),
    }
}

/// The key a base64 text holds, with white space around it ignored. `what` says
/// which key, in the reason there is none.
pub fn decode_key(encoded: &str, what: &str) -> (r: Result<[u8; 32], String>)
    ensures
        exists|raw: Result<Seq<u8>, Seq<char>>| #[trigger]
            is_decoding(text::trimmed(encoded@), raw) && is_key_from(raw, what@, key_view(r)),
        forall|key: Seq<u8>|
            key.len() == 32 && text::trimmed(encoded@) == #[trigger] keys::encoded(key) ==> key_view(r)
                == Ok::<Seq<u8>, Seq<char>>(key),
{
    let trimmed = text::trim(encoded);
    let raw = keys::decode(trimmed.as_str());
    let ghost decoding = raw_view(raw);
    let r = key_from(raw, what);
    proof {
        assert(is_decoding(trimmed@, decoding));
        assert forall|key: Seq<u8>|
            key.len() == 32 && trimmed@ == #[trigger] keys::encoded(key) implies key_view(r) == Ok::<
            Seq<u8>,
            Seq<char>,
        >(key) by {
            keys::lemma_encoded_is_one_to_one(key, decoding->Ok_0);
        }
    }
    r
}

/// An encoded key reads back as the key.
proof fn lemma_a_key_reads_back(
    key: Seq<u8>,
    what: Seq<char>,
    raw: Result<Seq<u8>, Seq<char>>,
    result: Result<Seq<u8>, Seq<char>>,
)
    requires
        key.len() == 32,
        is_decoding(text::trimmed(keys::encoded(key)), raw),
        is_key_from(raw, what, result),
    ensures
        result == Ok::<Seq<u8>, Seq<char>>(key),
{
    keys::lemma_encoded_is_solid(key);
    keys::lemma_encoded_length(key);
    let s = keys::encoded(key);
    assert(s.last() == s[s.len() - 1]);
    text::lemma_nothing_to_trim(s);
    keys::lemma_encoded_is_one_to_one(key, raw->Ok_0);
}

/// Both halves of a generated pair read back: whatever `decode_key` answers for the
/// private one is the secret the pair was made from, and for the public one the public
/// half that goes with it.
pub proof fn lemma_a_pair_reads_back(
    pair: keys::Pair,
    secret: Seq<u8>,
    what: Seq<char>,
    raw: Result<Seq<u8>, Seq<char>>,
    result: Result<Seq<u8>, Seq<char>>,
)
    requires
        secret.len() == 32,
        keys::is_pair_of(pair, secret),
        is_key_from(raw, what, result),
    ensures
        is_decoding(text::trimmed(pair.private@), raw) ==> result == Ok::<Seq<u8>, Seq<char>>(
            secret,
        ),
        is_decoding(text::trimmed(pair.public@), raw) ==> result == Ok::<Seq<u8>, Seq<char>>(
            keys::public_of(secret),
        ),
{
    if is_decoding(text::trimmed(pair.private@), raw) {
        lemma_a_key_reads_back(secret, what, raw, result);
    }
    if is_decoding(text::trimmed(pair.public@), raw) {
        lemma_a_key_reads_back(keys::public_of(secret), what, raw, result);
    }
}

/// The two keys of a profile: this end's private one and the relay's public one.
/// The private one is read first, and the first that cannot be read is the one
/// reported.
pub fn keys_of(profile: &Profile) -> (r: Result<([u8; 32], [u8; 32]), String>)
    ensures
        exists|private: Result<[u8; 32], String>, peer: Result<[u8; 32], String>|
            {
                &&& #[trigger] is_key_in(profile.private_key@, "private"@, private)
                &&& #[trigger] is_key_in(profile.peer_public_key@, "relay public"@, peer)
                &&& r == (match (private, peer) {
                    (Ok(private), Ok(peer)) => Ok::<([u8; 32], [u8; 32]), String>((private, peer)),
                    (Err(reason), _) => Err(reason),
                    (_, Err(reason)) => Err(reason),
                })
            },
{
    let private = decode_key(profile.private_key.as_str(), "private");
    let peer = decode_key(profile.peer_public_key.as_str(), "relay public");
    assert(is_key_in(profile.private_key@, "private"@, private));
    assert(is_key_in(profile.peer_public_key@, "relay public"@, peer));
    match private {
        Ok(private) => match peer {
            Ok(peer) => Ok((private, peer)),
            Err(reason) => Err(reason),
        },
        Err(reason) => Err(reason),
    }
}

/// Whether `key` is what reading the key in `s` comes to.
pub open spec fn is_key_in(s: Seq<char>, what: Seq<char>, key: Result<[u8; 32], String>) -> bool {
    exists|raw: Result<Seq<u8>, Seq<char>>| #[trigger]
        is_decoding(text::trimmed(s), raw) && is_key_from(raw, what, key_view(key))
}

// Addresses

/// The prefix an address carries after its slash. One with no slash is the
/// single host it names.
pub open spec fn prefix_of(address: Seq<char>) -> Option<u8> {
    match text::cut(address, '/') {
        Some((_, prefix)) => match text::parsed(prefix, 255) {
            Some(n) => Some(n as u8),
            None => None,
        },
        None => Some(
            if address.contains(':') {
                128
            } else {
                32
            },
        ),
    }
}

/// The host of an address, as it is written.
pub open spec fn host_of(address: Seq<char>) -> Seq<char> {
    text::trimmed(
        match text::cut(address, '/') {
            Some((host, _)) => host,
            None => address,
        },
    )
}

/// Whether `ip` is the address `s` spells.
pub open spec fn spells(s: Seq<char>, ip: Ip) -> bool {
    match ip {
        Ip::V4(a) => crate::tunnel::address::v4_of(s) == Some(a@),
        Ip::V6(a) => crate::tunnel::address::v4_of(s) is None && crate::tunnel::address::v6_of(s)
            == Some(a@),
    }
}

/// Whether an address can be read at all.
pub open spec fn is_readable(address: Seq<char>) -> bool {
    &&& prefix_of(address) is Some
    &&& crate::tunnel::address::v4_of(host_of(address)) is Some || crate::tunnel::address::v6_of(
        host_of(address),
    ) is Some
}

/// Whether `result` is what reading an address comes to: the host and the
/// prefix, or what cannot be read of it, the prefix first.
pub open spec fn is_cidr(address: Seq<char>, result: Result<(Ip, u8), String>) -> bool {
    match result {
        Ok((ip, prefix)) => prefix_of(address) == Some(prefix) && spells(host_of(address), ip),
        Err(reason) => if prefix_of(address) is None {
            reason@ == "unreadable prefix in "@ + text::quoted(address)
        } else {
            &&& reason@ == "unreadable address: "@ + text::quoted(address)
            &&& !is_readable(address)
        },
    }
}

/// The host and the prefix of an interface address.
pub fn parse_cidr(address: &str) -> (r: Result<(Ip, u8), String>)
    ensures
        is_cidr(address@, r),
{
    let (host, prefix): (String, u8) = match text::split_once(address, '/') {
        Some((host, prefix)) => match text::parse(prefix.as_str(), 255) {
            Some(n) => (host, n as u8),
            None => {
                let mut reason = "unreadable prefix in ".to_owned();
                reason.append(text::quote(address).as_str());
                return Err(reason);
            },
        },
        None => (
            address.to_owned(),
            if text::has(address, ':') {
                128
            } else {
                32
            },
        ),
    };
    let host = text::trim(host.as_str());
    match parse_ip(host.as_str()) {
        Some(ip) => Ok((ip, prefix)),
        None => {
            let mut reason = "unreadable address: ".to_owned();
            reason.append(text::quote(address).as_str());
            Err(reason)
        },
    }
}

/// The addresses the interface of a profile gets, in the order they are listed,
/// or the reason the first of them that cannot be read cannot.
pub fn addresses_of(profile: &Profile) -> (r: Result<Vec<(Ip, u8)>, String>)
    ensures
        match r {
            Ok(read) => read@.len() == profile.addresses@.len() && forall|i: int|
                0 <= i < read@.len() ==> is_cidr(
                    profile.addresses@[i]@,
                    Ok::<(Ip, u8), String>(#[trigger] read@[i]),
                ),
            Err(reason) => exists|i: int|
                #![trigger profile.addresses@[i]]
                {
                    &&& 0 <= i < profile.addresses@.len()
                    &&& is_cidr(profile.addresses@[i]@, Err::<(Ip, u8), String>(reason))
                    &&& forall|j: int| 0 <= j < i ==> is_readable(#[trigger] profile.addresses@[j]@)
                },
        },
{
    let mut read: Vec<(Ip, u8)> = Vec::new();
    let mut i: usize = 0;
    while i < profile.addresses.len()
        invariant
            i <= profile.addresses@.len(),
            read@.len() == i,
            forall|j: int|
                0 <= j < i ==> is_cidr(
                    profile.addresses@[j]@,
                    Ok::<(Ip, u8), String>(#[trigger] read@[j]),
                ),
            forall|j: int| 0 <= j < i ==> is_readable(#[trigger] profile.addresses@[j]@),
        decreases profile.addresses@.len() - i,
    {
        match parse_cidr(profile.addresses[i].as_str()) {
            Ok(pair) => {
                read.push(pair);
                assert(is_cidr(profile.addresses@[i as int]@, Ok::<(Ip, u8), String>(pair)));
                assert(is_readable(profile.addresses@[i as int]@));
            },
            Err(reason) => {
                return Err(reason);
            },
        }
        i += 1;
    }
    Ok(read)
}

/// The local address the tunnel's socket is bound to: any, of the relay's
/// family.
pub fn local_for(relay_is_v4: bool) -> (r: &'static str)
    ensures
        r@ == (if relay_is_v4 {
            "0.0.0.0:0"@
        } else {
            "[::]:0"@
        }),
{
    if relay_is_v4 {
        "0.0.0.0:0"
    } else {
        "[::]:0"
    }
}

/// An address that was written with its prefix reads back as the host and the prefix;
/// one without is a single host, of 128 bits when it has a colon and 32 otherwise.
pub proof fn lemma_a_prefix_reads_back(host: Seq<char>, prefix: u8)
    requires
        !host.contains('/'),
    ensures
        prefix_of(host + seq!['/'] + text::decimal(prefix as nat)) == Some(prefix),
        host_of(host + seq!['/'] + text::decimal(prefix as nat)) == text::trimmed(host),
        prefix_of(host) == Some(
            if host.contains(':') {
                128u8
            } else {
                32u8
            },
        ),
        host_of(host) == text::trimmed(host),
{
    text::lemma_cutting(host, '/', text::decimal(prefix as nat));
    text::lemma_number_reads_back(prefix as nat, 255);
}

/// The tunnel addresses the service hands out are read as they were written: four octets
/// and a prefix, with nothing lost.
pub proof fn lemma_an_address_reads_back(a: [u8; 4], prefix: u8, result: Result<(Ip, u8), String>)
    requires
        is_cidr(
            text::joined(crate::tunnel::address::dotted(a@), seq!['.']) + seq!['/']
                + text::decimal(prefix as nat),
            result,
        ),
    ensures
        result matches Ok((Ip::V4(read), bits)) && read@ == a@ && bits == prefix,
{
    let host = text::joined(crate::tunnel::address::dotted(a@), seq!['.']);
    crate::tunnel::address::lemma_v4_reads_back(a@);
    crate::tunnel::address::lemma_v4_characters(host);
    assert(host.last() == host[host.len() - 1]);
    text::lemma_nothing_to_trim(host);
    if host.contains('/') {
        let i = choose|i: int| 0 <= i < host.len() && host[i] == '/';
        assert(text::is_digit(host[i]) || host[i] == '.');
    }
    lemma_a_prefix_reads_back(host, prefix);
}

/// A text holds a key exactly when it decodes to 32 bytes, and the key is those bytes;
/// what is said otherwise names the key.
pub proof fn lemma_what_a_key_is(
    raw: Result<Seq<u8>, Seq<char>>,
    what: Seq<char>,
    result: Result<Seq<u8>, Seq<char>>,
)
    requires
        is_key_from(raw, what, result),
    ensures
        result is Ok <==> (raw matches Ok(bytes) && bytes.len() == 32),
        result matches Ok(key) ==> raw == Ok::<Seq<u8>, Seq<char>>(key),
        raw matches Ok(bytes) ==> bytes.len() != 32 ==> result == Err::<Seq<u8>, Seq<char>>(
            what + " key: expected 32 bytes"@,
        ),
        raw matches Err(complaint) ==> result == Err::<Seq<u8>, Seq<char>>(
            "unreadable "@ + what + " key: "@ + complaint,
        ),
{
}

/// An address is read exactly when its prefix is a number that fits a byte and its host
/// is an address of either family; an IPv4 host is never taken for an IPv6 one; and of
/// an address that is not read the prefix is complained of first.
pub proof fn lemma_what_an_address_comes_to(address: Seq<char>, result: Result<(Ip, u8), String>)
    requires
        is_cidr(address, result),
    ensures
        result is Ok <==> prefix_of(address) is Some && (crate::tunnel::address::v4_of(
            host_of(address),
        ) is Some || crate::tunnel::address::v6_of(host_of(address)) is Some),
        result matches Ok((ip, prefix)) ==> prefix_of(address) == Some(prefix) && match ip {
            Ip::V4(a) => crate::tunnel::address::v4_of(host_of(address)) == Some(a@),
            Ip::V6(a) => crate::tunnel::address::v6_of(host_of(address)) == Some(a@)
                && crate::tunnel::address::v4_of(host_of(address)) is None,
        },
        result matches Err(reason) ==> (prefix_of(address) is None ==> reason@
            == "unreadable prefix in "@ + text::quoted(address)) && (prefix_of(address) is Some
            ==> reason@ == "unreadable address: "@ + text::quoted(address)),
{
}

} // verus!
