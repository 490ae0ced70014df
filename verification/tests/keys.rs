//! Key pairs, and reading keys back.
use base64::Engine;
use valira_desktop::keys::{generate, pair_drawn, pair_from};
use valira_desktop::tunnel::embedded::{decode_key, key_from, keys_of};
use valira_desktop::tunnel::Profile;

#[test]
fn decodes_a_wireguard_key_and_refuses_a_short_one() {
    let key = base64::engine::general_purpose::STANDARD.encode([7u8; 32]);
    assert_eq!(decode_key(&key, "test").unwrap(), [7u8; 32]);

    let short = base64::engine::general_purpose::STANDARD.encode([7u8; 16]);
    assert!(decode_key(&short, "test").is_err());
    assert!(decode_key("not base64!!", "test").is_err());
}

#[test]
fn a_key_is_read_past_the_white_space_around_it() {
    let key = base64::engine::general_purpose::STANDARD.encode([9u8; 32]);
    assert_eq!(decode_key(&format!("  {key}\n"), "test").unwrap(), [9u8; 32]);
}

#[test]
fn a_refused_key_says_why() {
    let short = base64::engine::general_purpose::STANDARD.encode([7u8; 16]);
    assert_eq!(decode_key(&short, "private").unwrap_err(), "private key: expected 32 bytes");
    assert_eq!(
        decode_key("not base64!!", "relay public").unwrap_err(),
        "unreadable relay public key: Invalid symbol 32, offset 3."
    );
    // Unpadded, and with bits that carry nothing set.
    assert!(decode_key(&"A".repeat(43), "x").is_err());
    assert!(decode_key(&format!("{}B=", "A".repeat(42)), "x").is_err());
    assert_eq!(key_from(Err("so".to_string()), "x").unwrap_err(), "unreadable x key: so");
}

#[test]
fn a_pair_is_the_secret_and_the_point_it_gives() {
    // The first test vector of RFC 7748, section 6.1.
    let secret = [
        0x77, 0x07, 0x6d, 0x0a, 0x73, 0x18, 0xa5, 0x7d, 0x3c, 0x16, 0xc1, 0x72, 0x51, 0xb2, 0x66,
        0x45, 0xdf, 0x4c, 0x2f, 0x87, 0xeb, 0xc0, 0x99, 0x2a, 0xb1, 0x77, 0xfb, 0xa5, 0x1d, 0xb9,
        0x2c, 0x2a,
    ];
    let public = [
        0x85, 0x20, 0xf0, 0x09, 0x89, 0x30, 0xa7, 0x54, 0x74, 0x8b, 0x7d, 0xdc, 0xb4, 0x3e, 0xf7,
        0x5a, 0x0d, 0xbf, 0x3a, 0x0d, 0x26, 0x38, 0x1a, 0xf4, 0xeb, 0xa4, 0xa9, 0x8e, 0xaa, 0x9b,
        0x4e, 0x6a,
    ];
    let pair = pair_from(secret);
    assert_eq!(pair.private, "dwdtCnMYpX08FsFyUbJmRd9ML4frwJkqsXf7pR25LCo=");
    assert_eq!(pair.public, "hSDwCYkwp1R0i33ctD73Wg2/Og0mOBr066SpjqqbTmo=");
    assert_eq!(decode_key(&pair.public, "test").unwrap(), public);
}

#[test]
fn a_generated_pair_reads_back() {
    let pair = generate().unwrap();
    let secret = decode_key(&pair.private, "private").unwrap();
    let again = pair_from(secret);
    assert_eq!(again.private, pair.private);
    assert_eq!(again.public, pair.public);
    assert_eq!((pair.private.len(), pair.public.len()), (44, 44));
    let point = x25519_dalek::PublicKey::from(&x25519_dalek::StaticSecret::from(secret));
    assert_eq!(decode_key(&pair.public, "public").unwrap(), point.to_bytes());
    assert_ne!(generate().unwrap().private, pair.private);
}

#[test]
fn no_randomness_is_said() {
    let said = pair_drawn(Err("nothing".to_string())).err();
    assert_eq!(said.as_deref(), Some("no randomness available: nothing"));
}

fn profile(private: &str, peer: &str) -> Profile {
    Profile {
        private_key: private.to_string(),
        addresses: Vec::new(),
        dns: Vec::new(),
        peer_public_key: peer.to_string(),
        endpoint: String::new(),
    }
}

#[test]
fn the_private_key_is_read_first() {
    let good = base64::engine::general_purpose::STANDARD.encode([1u8; 32]);
    let other = base64::engine::general_purpose::STANDARD.encode([2u8; 32]);
    assert_eq!(keys_of(&profile(&good, &other)), Ok(([1u8; 32], [2u8; 32])));
    let both = keys_of(&profile("?", "?")).unwrap_err();
    assert!(both.starts_with("unreadable private key: "));
    let peer = keys_of(&profile(&good, "")).unwrap_err();
    assert_eq!(peer, "relay public key: expected 32 bytes");
}
