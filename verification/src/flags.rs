//! Country flags, sliced out of an atlas.
//!
//! Windows will not draw flag emoji: Segoe UI Emoji carries no glyphs for the
//! regional indicator pairs and renders the two letters instead, deliberately.
//! So the flags are images: the atlas is one strip of raw RGBA, 32x24 per
//! country, and a row of it goes straight to the screen with no decoding.
use crate::text;
use vstd::prelude::*;

verus! {

/// The width of a flag, in pixels.
pub const WIDTH: u32 = 32;

/// The height of a flag, in pixels.
pub const HEIGHT: u32 = 24;

/// How many bytes of the atlas one flag takes.
pub const STRIDE: usize = 3072;

/// How many countries the index names.
pub const COUNTRIES: usize = 249;

/// The same countries as the atlas, two ASCII bytes each, in the same order and
/// sorted, which is what makes the lookup a binary search over fixed records.
pub const INDEX: &'static str = "\
adaeafagaialamaoaqarasatauawaxazbabbbdbebfbgbhbibjblbmbnbobq\
brbsbtbvbwbybzcacccdcfcgchcickclcmcncocrcucvcwcxcyczdedjdkdm\
dodzeceeegeheresetfifjfkfmfofrgagbgdgegfggghgiglgmgngpgqgrgs\
gtgugwgyhkhmhnhrhthuidieiliminioiqirisitjejmjojpkekgkhkikmkn\
kpkrkwkykzlalblclilklrlsltlulvlymamcmdmemfmgmhmkmlmmmnmompmq\
mrmsmtmumvmwmxmymznancnenfngninlnonpnrnunzompapepfpgphpkplpm\
pnprpsptpwpyqarerorsrurwsasbscsdsesgshsisjskslsmsnsosrssstsv\
sxsysztctdtftgthtjtktltmtntotrtttvtwtzuaugumusuyuzvavcvevgvi\
vnvuwfwsyeytzazmzw";

/// One pixel of an image.
#[derive(Clone, Copy, PartialEq, Eq, Structural, Debug)]
pub struct Pixel {
    pub r: u8,
    pub g: u8,
    pub b: u8,
    pub a: u8,
}

/// An image, row by row. One with no pixels draws nothing.
pub struct Image {
    pub width: u32,
    pub height: u32,
    pub pixels: Vec<Pixel>,
}

/// How many countries have a flag.
pub fn count() -> (r: usize)
    ensures
        r == COUNTRIES,
        2 * r == INDEX@.len(),
{
    proof {
        lemma_index_length();
    }
    COUNTRIES
}

/// The index holds two letters for each country.
pub proof fn lemma_index_length()
    ensures
        INDEX@.len() == 2 * COUNTRIES,
{
    reveal_strlit("\
adaeafagaialamaoaqarasatauawaxazbabbbdbebfbgbhbibjblbmbnbobq\
brbsbtbvbwbybzcacccdcfcgchcickclcmcncocrcucvcwcxcyczdedjdkdm\
dodzeceeegeheresetfifjfkfmfofrgagbgdgegfggghgiglgmgngpgqgrgs\
gtgugwgyhkhmhnhrhthuidieiliminioiqirisitjejmjojpkekgkhkikmkn\
kpkrkwkykzlalblclilklrlsltlulvlymamcmdmemfmgmhmkmlmmmnmompmq\
mrmsmtmumvmwmxmymznancnenfngninlnonpnrnunzompapepfpgphpkplpm\
pnprpsptpwpyqarerorsrurwsasbscsdsesgshsisjskslsmsnsosrssstsv\
sxsysztctdtftgthtjtktltmtntotrtttvtwtzuaugumusuyuzvavcvevgvi\
vnvuwfwsyeytzazmzw");
}

/// Whether `key` is the code of record `i`.
pub open spec fn is_record(key: Seq<char>, i: int) -> bool {
    &&& 0 <= i < COUNTRIES
    &&& key.len() == 2
    &&& key[0] == INDEX@[2 * i]
    &&& key[1] == INDEX@[2 * i + 1]
}

/// The code a lookup searches for.
pub open spec fn key_of(code: Seq<char>) -> Seq<char> {
    text::ascii_lower(text::trimmed(code))
}

/// Where record `i` stands among all pairs of characters.
spec fn rank(i: int) -> int {
    INDEX@[2 * i] as u32 * 0x1_0000_0000 + INDEX@[2 * i + 1] as u32
}

/// Pairs of characters compare the way their ranks do.
proof fn lemma_pair(a: char, b: char, c: char, d: char)
    ensures
        a as u32 * 0x1_0000_0000 + b as u32 == c as u32 * 0x1_0000_0000 + d as u32 ==> a == c && b
            == d,
        a as u32 * 0x1_0000_0000 + (b as u32) < c as u32 * 0x1_0000_0000 + d as u32 ==> a < c || (a
            == c && b < d),
{
}

/// Whether the first `n` steps of the index all go up.
spec fn rises(n: nat) -> bool
    decreases n,
{
    n == 0 || (rises((n - 1) as nat) && rank(n - 1) < rank(n as int))
}

proof fn lemma_rises_below(n: nat, i: int)
    requires
        rises(n),
        0 <= i < n,
    ensures
        rank(i) < rank(i + 1),
    decreases n,
{
    if i < n - 1 {
        lemma_rises_below((n - 1) as nat, i);
    }
}

proof fn lemma_index_rises()
    ensures
        rises(248),
{
    reveal_strlit("\
adaeafagaialamaoaqarasatauawaxazbabbbdbebfbgbhbibjblbmbnbobq\
brbsbtbvbwbybzcacccdcfcgchcickclcmcncocrcucvcwcxcyczdedjdkdm\
dodzeceeegeheresetfifjfkfmfofrgagbgdgegfggghgiglgmgngpgqgrgs\
gtgugwgyhkhmhnhrhthuidieiliminioiqirisitjejmjojpkekgkhkikmkn\
kpkrkwkykzlalblclilklrlsltlulvlymamcmdmemfmgmhmkmlmmmnmompmq\
mrmsmtmumvmwmxmymznancnenfngninlnonpnrnunzompapepfpgphpkplpm\
pnprpsptpwpyqarerorsrurwsasbscsdsesgshsisjskslsmsnsosrssstsv\
sxsysztctdtftgthtjtktltmtntotrtttvtwtzuaugumusuyuzvavcvevgvi\
vnvuwfwsyeytzazmzw");
    assert(rises(40)) by {
        reveal_with_fuel(rises, 41);
    }
    assert(rises(80)) by {
        reveal_with_fuel(rises, 41);
    }
    assert(rises(120)) by {
        reveal_with_fuel(rises, 41);
    }
    assert(rises(160)) by {
        reveal_with_fuel(rises, 41);
    }
    assert(rises(200)) by {
        reveal_with_fuel(rises, 41);
    }
    assert(rises(248)) by {
        reveal_with_fuel(rises, 49);
    }
}

proof fn lemma_rank_grows(i: int, j: int)
    requires
        rises(248),
        0 <= i < j < COUNTRIES,
    ensures
        rank(i) < rank(j),
    decreases j - i,
{
    if i + 1 < j {
        lemma_rank_grows(i, j - 1);
    }
    lemma_rises_below(248, j - 1);
}

/// The index names each country once, in ascending order of its code.
pub proof fn lemma_index_is_sorted(i: int, j: int)
    requires
        0 <= i < j < COUNTRIES,
    ensures
        INDEX@[2 * i] < INDEX@[2 * j] || (INDEX@[2 * i] == INDEX@[2 * j] && INDEX@[2 * i + 1]
            < INDEX@[2 * j + 1]),
{
    lemma_index_rises();
    lemma_rank_grows(i, j);
    lemma_pair(INDEX@[2 * i], INDEX@[2 * i + 1], INDEX@[2 * j], INDEX@[2 * j + 1]);
}

/// A code is that of one record at most.
pub proof fn lemma_one_record(key: Seq<char>, i: int, j: int)
    requires
        is_record(key, i),
        is_record(key, j),
    ensures
        i == j,
{
    if i < j {
        lemma_index_is_sorted(i, j);
    } else if j < i {
        lemma_index_is_sorted(j, i);
    }
}

/// Where the code is in the index: no country it names is missed, and nothing else is
/// found.
pub fn position(code: &str) -> (r: Option<usize>)
    ensures
        forall|i: int| #[trigger]
            is_record(key_of(code@), i) <==> (r matches Some(at) && at == i),
{
    let key = text::to_ascii_lowercase(text::trim(code).as_str());
    let letters = text::chars_of(key.as_str());
    if letters.len() != 2 {
        return None;
    }
    let wanted: u64 = letters[0] as u32 as u64 * 0x1_0000_0000 + letters[1] as u32 as u64;
    let mut low: usize = 0;
    let mut high: usize = count();
    let index = text::chars_of(INDEX);
    proof {
        lemma_index_rises();
    }
    while low < high
        invariant
            rises(248),
            low <= high <= COUNTRIES,
            index@ == INDEX@,
            index@.len() == 2 * COUNTRIES,
            letters@.len() == 2,
            letters@ == key_of(code@),
            wanted == letters@[0] as u32 * 0x1_0000_0000 + letters@[1] as u32,
            forall|i: int| 0 <= i < low ==> #[trigger] rank(i) < wanted,
            forall|i: int| high <= i < COUNTRIES ==> #[trigger] rank(i) > wanted,
        decreases high - low,
    {
        let middle: usize = (low + high) / 2;
        let first = index[2 * middle];
        let second = index[2 * middle + 1];
        let here: u64 = first as u32 as u64 * 0x1_0000_0000 + second as u32 as u64;
        assert(here == rank(middle as int));
        if here < wanted {
            assert forall|i: int| 0 <= i < middle + 1 implies #[trigger] rank(i) < wanted by {
                if i < middle {
                    lemma_rank_grows(i, middle as int);
                }
            }
            low = middle + 1;
        } else if here > wanted {
            assert forall|i: int| middle <= i < COUNTRIES implies #[trigger] rank(i) > wanted by {
                if middle < i {
                    lemma_rank_grows(middle as int, i);
                }
            }
            high = middle;
        } else {
            proof {
                lemma_pair(letters@[0], letters@[1], first, second);
                assert forall|i: int| is_record(key_of(code@), i) implies i == middle by {
                    lemma_one_record(key_of(code@), i, middle as int);
                }
            }
            return Some(middle);
        }
    }
    assert forall|i: int| !is_record(key_of(code@), i) by {
        if is_record(key_of(code@), i) {
            assert(rank(i) == wanted);
        }
    }
    None
}

/// Whether there is a flag for the code. Case and padding do not matter.
pub fn known(code: &str) -> (r: bool)
    ensures
        r <==> exists|i: int| is_record(key_of(code@), i),
{
    match position(code) {
        Some(at) => {
            assert(is_record(key_of(code@), at as int));
            true
        },
        None => false,
    }
}

/// The atlas: a flag for each country of the index, in the same order.
pub struct Atlas {
    bytes: Vec<u8>,
}

impl Atlas {
    #[verifier::type_invariant]
    spec fn whole(self) -> bool {
        self.bytes@.len() == COUNTRIES * STRIDE
    }

    /// The bytes of the atlas.
    pub closed spec fn bytes(self) -> Seq<u8> {
        self.bytes@
    }

    /// Takes the bytes for an atlas, if they are as many as the index calls for.
    pub fn new(bytes: Vec<u8>) -> (r: Option<Atlas>)
        ensures
            r is Some <==> bytes@.len() == COUNTRIES * STRIDE,
            r matches Some(atlas) ==> atlas.bytes() == bytes@,
    {
        if bytes.len() == count() * STRIDE {
            Some(Atlas { bytes })
        } else {
            None
        }
    }
}

/// Pixel `k` of the flag of record `at`.
pub open spec fn pixel_of(bytes: Seq<u8>, at: int, k: int) -> Pixel {
    let byte = at * STRIDE + k * 4;
    Pixel { r: bytes[byte], g: bytes[byte + 1], b: bytes[byte + 2], a: bytes[byte + 3] }
}

/// Whether `image` is the flag of record `at`.
pub open spec fn is_flag(bytes: Seq<u8>, at: int, image: Image) -> bool {
    &&& image.width == WIDTH
    &&& image.height == HEIGHT
    &&& image.pixels@ == Seq::new((WIDTH * HEIGHT) as nat, |k: int| pixel_of(bytes, at, k))
}

/// Whether `image` holds nothing.
pub open spec fn is_blank(image: Image) -> bool {
    image.width == 0 && image.height == 0 && image.pixels@.len() == 0
}

/// The flag for an ISO 3166-1 alpha-2 code. An unknown code gives an empty
/// image, which draws nothing and leaves the country name to carry the row.
pub fn flag(atlas: &Atlas, code: &str) -> (r: Image)
    ensures
        forall|at: int| #[trigger]
            is_record(key_of(code@), at) ==> is_flag(atlas.bytes(), at, r),
        (forall|at: int| !is_record(key_of(code@), at)) ==> is_blank(r),
{
    match position(code) {
        Some(at) => {
            assert(is_record(key_of(code@), at as int));
            slice(atlas, at)
        },
        None => Image { width: 0, height: 0, pixels: Vec::new() },
    }
}

/// The flag of record `at`.
fn slice(atlas: &Atlas, at: usize) -> (r: Image)
    requires
        at < COUNTRIES,
    ensures
        is_flag(atlas.bytes(), at as int, r),
{
    proof {
        use_type_invariant(atlas);
    }
    let start: usize = at * STRIDE;
    let mut pixels: Vec<Pixel> = Vec::new();
    let mut k: usize = 0;
    while k < 768
        invariant
            at < COUNTRIES,
            start == at * STRIDE,
            k <= 768,
            atlas.bytes@.len() == COUNTRIES * STRIDE,
            pixels@ == Seq::new(k as nat, |k: int| pixel_of(atlas.bytes@, at as int, k)),
        decreases 768 - k,
    {
        let byte: usize = start + k * 4;
        pixels.push(
            Pixel {
                r: atlas.bytes[byte],
                g: atlas.bytes[byte + 1],
                b: atlas.bytes[byte + 2],
                a: atlas.bytes[byte + 3],
            },
        );
        k += 1;
    }
    Image { width: WIDTH, height: HEIGHT, pixels }
}

/// Every code of the index is found at its own place, in either case and with white
/// space around it.
pub proof fn lemma_every_country_is_found(i: int, a: Seq<char>, code: Seq<char>, b: Seq<char>)
    requires
        0 <= i < COUNTRIES,
        text::is_blank(a),
        text::is_blank(b),
        code.len() == 2,
        text::is_letter(code[0]),
        text::is_letter(code[1]),
        text::lower_char(code[0]) == INDEX@[2 * i],
        text::lower_char(code[1]) == INDEX@[2 * i + 1],
    ensures
        is_record(key_of(a + code + b), i),
{
    text::lemma_trimming(a, code, b);
    assert(key_of(a + code + b) == text::ascii_lower(code));
}

/// A flag is its own stretch of the atlas: whatever stands before and after it, its
/// pixels are the four bytes of each in turn, red, green, blue and alpha, row by row.
pub proof fn lemma_a_flag_is_its_own_stretch(
    before: Seq<u8>,
    own: Seq<u8>,
    after: Seq<u8>,
    at: int,
    image: Image,
)
    requires
        at >= 0,
        before.len() == at * 3072,
        own.len() == 3072,
        is_flag(before + own + after, at, image),
    ensures
        image.width == 32,
        image.height == 24,
        image.pixels@.len() == 32 * 24,
        forall|k: int|
            0 <= k < 32 * 24 ==> {
                &&& (#[trigger] image.pixels@[k]).r == own[4 * k]
                &&& image.pixels@[k].g == own[4 * k + 1]
                &&& image.pixels@[k].b == own[4 * k + 2]
                &&& image.pixels@[k].a == own[4 * k + 3]
            },
{
    let all = before + own + after;
    assert forall|k: int| 0 <= k < 768 implies {
        &&& (#[trigger] image.pixels@[k]).r == own[4 * k]
        &&& image.pixels@[k].g == own[4 * k + 1]
        &&& image.pixels@[k].b == own[4 * k + 2]
        &&& image.pixels@[k].a == own[4 * k + 3]
    } by {
        let byte = at * 3072 + k * 4;
        assert(image.pixels@[k] == pixel_of(all, at, k));
        assert(all[byte] == own[4 * k]);
        assert(all[byte + 1] == own[4 * k + 1]);
        assert(all[byte + 2] == own[4 * k + 2]);
        assert(all[byte + 3] == own[4 * k + 3]);
    }
}

} // verus!
