//! WireGuard key pairs, and the text keys travel as.
use crate::text;
use base64::Engine;
use vstd::prelude::*;
use vstd::string::*;

verus! {

/// A WireGuard key pair, base64 encoded the way the wire protocol expects.
pub struct Pair {
    pub private: String,
    pub public: String,
}

// Base64

/// The symbol that stands for six bits in the standard alphabet.
pub open spec fn symbol(bits: int) -> char {
    if bits < 26 {
        (65 + bits) as char
    } else if bits < 52 {
        (97 + bits - 26) as char
    } else if bits < 62 {
        (48 + bits - 52) as char
    } else if bits == 62 {
        '+'
    } else {
        '/'
    }
}

/// `bytes` in base64: four symbols of six bits for every three bytes, the last
/// group filled up with `=`.
pub open spec fn encoded(bytes: Seq<u8>) -> Seq<char>
    decreases bytes.len(),
{
    if bytes.len() == 0 {
        Seq::empty()
    } else {
        let a = bytes[0] as int;
        let b = if bytes.len() > 1 {
            bytes[1] as int
        } else {
            0
        };
        let c = if bytes.len() > 2 {
            bytes[2] as int
        } else {
            0
        };
        let group = seq![
            symbol(a / 4),
            symbol(a % 4 * 16 + b / 16),
            if bytes.len() > 1 {
                symbol(b % 16 * 4 + c / 64)
            } else {
                '='
            },
            if bytes.len() > 2 {
                symbol(c % 64)
            } else {
                '='
            },
        ];
        if bytes.len() > 3 {
            group + encoded(bytes.skip(3))
        } else {
            group
        }
    }
}

/// What is said of a text that is not base64.
pub uninterp spec fn decode_complaint(s: Seq<char>) -> Seq<char>;

/// `base64`'s standard engine, encoding: the bytes in base64, padded.
#[verifier::external_body]
fn encode(bytes: &[u8; 32]) -> (r: String)
    ensures
        r@ == encoded(bytes@),
{
    base64::engine::general_purpose::STANDARD.encode(bytes)
}

/// `base64`'s standard engine, decoding. It takes nothing but what it would
/// write: no other alphabet, no white space, the padding in full and the bits
/// that carry nothing at zero. So a text decodes when it is the encoding of some
/// bytes, and to those bytes; of any other the error's wording depends on
/// nothing but the text.
#[verifier::external_body]
pub(crate) fn decode(s: &str) -> (r: Result<Vec<u8>, String>)
    ensures
        match r {
            Ok(bytes) => s@ == encoded(bytes@),
            Err(complaint) => complaint@ == decode_complaint(s@) && (forall|bytes: Seq<u8>|
                s@ != #[trigger] encoded(bytes)),
        },
{
    base64::engine::general_purpose::STANDARD.decode(s).map_err(|error| error.to_string())
}

proof fn lemma_symbol(m: int, n: int)
    requires
        0 <= m < 64,
        0 <= n < 64,
    ensures
        symbol(m) == symbol(n) ==> m == n,
        symbol(m) != '=',
        !text::is_space(symbol(m)),
{
}

/// No two runs of bytes have the same encoding.
pub proof fn lemma_encoded_is_one_to_one(a: Seq<u8>, b: Seq<u8>)
    requires
        encoded(a) == encoded(b),
    ensures
        a == b,
    decreases a.len(),
{
    let s = encoded(a);
    if a.len() > 0 && b.len() > 0 {
        let (a0, b0) = (a[0] as int, b[0] as int);
        let a1 = if a.len() > 1 { a[1] as int } else { 0 };
        let b1 = if b.len() > 1 { b[1] as int } else { 0 };
        let a2 = if a.len() > 2 { a[2] as int } else { 0 };
        let b2 = if b.len() > 2 { b[2] as int } else { 0 };
        lemma_symbol(a0 / 4, b0 / 4);
        lemma_symbol(a0 % 4 * 16 + a1 / 16, b0 % 4 * 16 + b1 / 16);
        lemma_symbol(a1 % 16 * 4 + a2 / 64, b1 % 16 * 4 + b2 / 64);
        lemma_symbol(a2 % 64, b2 % 64);
        assert(s[0] == symbol(a0 / 4) && s[0] == symbol(b0 / 4));
        assert(s[1] == symbol(a0 % 4 * 16 + a1 / 16) && s[1] == symbol(b0 % 4 * 16 + b1 / 16));
        assert(s[2] == encoded(b)[2]);
        assert(s[3] == encoded(b)[3]);
        if a.len() > 3 && b.len() > 3 {
            assert(s.skip(4) =~= encoded(a.skip(3)));
            assert(s.skip(4) =~= encoded(b.skip(3)));
            lemma_encoded_is_one_to_one(a.skip(3), b.skip(3));
            assert forall|i: int| 0 <= i < a.len() implies a[i] == b[i] by {
                if i >= 3 {
                    assert(a[i] == a.skip(3)[i - 3]);
                    assert(b[i] == b.skip(3)[i - 3]);
                }
            }
        } else {
            lemma_encoded_length(a);
            lemma_encoded_length(b);
        }
    } else {
        lemma_encoded_length(a);
        lemma_encoded_length(b);
    }
    assert(a =~= b);
}

/// Four symbols for every three bytes begun.
pub proof fn lemma_encoded_length(bytes: Seq<u8>)
    ensures
        encoded(bytes).len() == (bytes.len() + 2) / 3 * 4,
    decreases bytes.len(),
{
    if bytes.len() > 3 {
        lemma_encoded_length(bytes.skip(3));
    }
}

/// White space occurs nowhere in an encoding.
pub proof fn lemma_encoded_is_solid(bytes: Seq<u8>)
    ensures
        forall|i: int| 0 <= i < encoded(bytes).len() ==> !text::is_space(
            #[trigger] encoded(bytes)[i],
        ),
    decreases bytes.len(),
{
    if bytes.len() > 0 {
        let a = bytes[0] as int;
        let b = if bytes.len() > 1 { bytes[1] as int } else { 0 };
        let c = if bytes.len() > 2 { bytes[2] as int } else { 0 };
        lemma_symbol(a / 4, a / 4);
        lemma_symbol(a % 4 * 16 + b / 16, 0);
        lemma_symbol(b % 16 * 4 + c / 64, 0);
        lemma_symbol(c % 64, 0);
        if bytes.len() > 3 {
            lemma_encoded_is_solid(bytes.skip(3));
            let rest = encoded(bytes.skip(3));
            assert forall|i: int| 0 <= i < encoded(bytes).len() implies !text::is_space(
                #[trigger] encoded(bytes)[i],
            ) by {
                if i >= 4 {
                    assert(encoded(bytes)[i] == rest[i - 4]);
                }
            }
        }
    }
}

// Generation

/// The public half that goes with a private one.
pub uninterp spec fn public_of(secret: Seq<u8>) -> Seq<u8>;

/// `x25519_dalek`'s `PublicKey` of a `StaticSecret`: the point the secret's
/// clamped bytes give. Depends on nothing but those bytes.
#[verifier::external_body]
fn public_half(secret: &[u8; 32]) -> (r: [u8; 32])
    ensures
        r@ == public_of(secret@),
{
    let secret = x25519_dalek::StaticSecret::from(*secret);
    x25519_dalek::PublicKey::from(&secret).to_bytes()
}

/// `getrandom::fill`: bytes from the system's source of randomness, or what it
/// says when there is none to be had. Nothing is claimed of what they are.
#[verifier::external_body]
fn random() -> (r: Result<[u8; 32], String>) {
    let mut seed = [0u8; 32];
    getrandom::fill(&mut seed).map(|()| seed).map_err(|error| error.to_string())
}

/// Whether `pair` is the pair a secret gives: the secret as it is, and the
/// public half that goes with it, which is as long as any secret.
pub open spec fn is_pair_of(pair: Pair, secret: Seq<u8>) -> bool {
    &&& pair.private@ == encoded(secret)
    &&& pair.public@ == encoded(public_of(secret))
    &&& public_of(secret).len() == 32
}

/// Both halves of a pair are 44 characters long.
pub proof fn lemma_pair_length(pair: Pair, secret: Seq<u8>)
    requires
        secret.len() == 32,
        is_pair_of(pair, secret),
    ensures
        pair.private@.len() == 44,
        pair.public@.len() == 44,
{
    lemma_encoded_length(secret);
    lemma_encoded_length(public_of(secret));
}

/// The pair that goes with a secret.
pub fn pair_from(secret: [u8; 32]) -> (r: Pair)
    ensures
        is_pair_of(r, secret@),
{
    let public = public_half(&secret);
    Pair { private: encode(&secret), public: encode(&public) }
}

/// The pair a draw of randomness gives, or the reason there was none.
pub fn pair_drawn(draw: Result<[u8; 32], String>) -> (r: Result<Pair, String>)
    ensures
        match (draw, r) {
            (Ok(seed), Ok(pair)) => is_pair_of(pair, seed@),
            (Err(reason), Err(said)) => said@ == "no randomness available: "@ + reason@,
            _ => false,
        },
{
    match draw {
        Ok(seed) => Ok(pair_from(seed)),
        Err(reason) => {
            let mut said = "no randomness available: ".to_owned();
            said.append(reason.as_str());
            Err(said)
        },
    }
}

/// Whether this is a pair that some secret gives, or says that there was no
/// randomness to draw one from.
pub open spec fn is_draw(draw: Result<Pair, String>) -> bool {
    match draw {
        Ok(pair) => exists|seed: [u8; 32]| #[trigger] is_pair_of(pair, seed@),
        Err(said) => text::opens(said@, "no randomness available: "@),
    }
}

/// Generates a key pair locally. The private half is never sent anywhere.
pub fn generate() -> (r: Result<Pair, String>)
    ensures
        is_draw(r),
{
    let draw = random();
    let ghost drawn = draw;
    let r = pair_drawn(draw);
    proof {
        let head = "no randomness available: "@;
        if r is Ok {
            assert(is_pair_of(r->Ok_0, drawn->Ok_0@));
        } else {
            assert(r->Err_0@.take(head.len() as int) =~= head);
        }
    }
    r
}

} // verus!
