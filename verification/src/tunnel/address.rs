//! Internet addresses in their textual form.
use crate::text;
use vstd::prelude::*;
use vstd::string::*;

verus! {

/// An address of either family.
#[derive(Clone, Copy, PartialEq, Eq, Debug)]
pub enum Ip {
    V4([u8; 4]),
    V6([u16; 8]),
}

/// Whether `s` is a decimal octet: up to 255, with no zero before another digit.
pub open spec fn is_octet(s: Seq<char>) -> bool {
    &&& text::all_digits(s)
    &&& s.len() <= 3
    &&& s.len() > 1 ==> s[0] != '0'
    &&& text::value(s) <= 255
}

/// The four octets of an IPv4 address, when `s` is one.
pub open spec fn v4_of(s: Seq<char>) -> Option<Seq<u8>> {
    let parts = text::split_of(s, '.');
    if parts.len() == 4 && (forall|i: int| 0 <= i < 4 ==> is_octet(#[trigger] parts[i])) {
        Some(Seq::new(4, |i: int| text::value(parts[i]) as u8))
    } else {
        None
    }
}

/// The octet `s` spells, when it is one.
fn octet(s: &str) -> (r: Option<u8>)
    ensures
        r is Some <==> is_octet(s@),
        r matches Some(n) ==> n == text::value(s@),
{
    let chars = text::chars_of(s);
    let n: usize = chars.len();
    if n == 0 || n > 3 || (n > 1 && chars[0] == '0') || chars[0] == '+' {
        assert(n > 0 && chars@[0] == '+' ==> !text::is_digit(s@[0]));
        return None;
    }
    match text::parse(s, 255) {
        Some(value) => Some(value as u8),
        None => None,
    }
}

/// The four octets of an IPv4 address, when `s` is one.
pub fn parse_v4(s: &str) -> (r: Option<[u8; 4]>)
    ensures
        r is Some <==> v4_of(s@) is Some,
        r matches Some(a) ==> v4_of(s@) == Some(a@),
{
    let parts = text::split(s, '.');
    let ghost rows = text::split_of(s@, '.');
    assert(text::texts(parts@) == rows);
    if parts.len() != 4 {
        return None;
    }
    assert(rows[0] == parts@[0]@ && rows[1] == parts@[1]@ && rows[2] == parts@[2]@ && rows[3]
        == parts@[3]@);
    let a = octet(parts[0].as_str());
    let b = octet(parts[1].as_str());
    let c = octet(parts[2].as_str());
    let d = octet(parts[3].as_str());
    match (a, b, c, d) {
        (Some(a), Some(b), Some(c), Some(d)) => {
            let r = [a, b, c, d];
            assert(r@ =~= Seq::new(4, |i: int| text::value(rows[i]) as u8));
            Some(r)
        },
        _ => None,
    }
}

/// Whether `c` is a hexadecimal digit.
pub open spec fn is_hex(c: char) -> bool {
    '0' <= c <= '9' || 'a' <= c <= 'f' || 'A' <= c <= 'F'
}

/// The number a hexadecimal digit stands for.
pub open spec fn hex_digit(c: char) -> nat {
    if '0' <= c <= '9' {
        (c as u32 - 48) as nat
    } else if 'a' <= c <= 'f' {
        (c as u32 - 87) as nat
    } else {
        (c as u32 - 55) as nat
    }
}

/// The number a run of hexadecimal digits spells.
pub open spec fn hex_value(s: Seq<char>) -> nat
    decreases s.len(),
{
    if s.len() == 0 {
        0
    } else {
        hex_value(s.drop_last()) * 16 + hex_digit(s.last())
    }
}

/// Whether `s` is one group of an IPv6 address: one to four hexadecimal digits.
pub open spec fn is_group(s: Seq<char>) -> bool {
    1 <= s.len() <= 4 && forall|i: int| 0 <= i < s.len() ==> is_hex(#[trigger] s[i])
}

/// The groups `parts` spell, when each of them is one.
pub open spec fn groups_of(parts: Seq<Seq<char>>) -> Option<Seq<u16>> {
    if forall|i: int| 0 <= i < parts.len() ==> is_group(#[trigger] parts[i]) {
        Some(Seq::new(parts.len(), |i: int| hex_value(parts[i]) as u16))
    } else {
        None
    }
}

/// The two groups four octets make.
pub open spec fn octet_groups(a: Seq<u8>) -> Seq<u16> {
    seq![(a[0] * 256 + a[1]) as u16, (a[2] * 256 + a[3]) as u16]
}

/// The groups `parts` spell when the last of them may be an IPv4 address,
/// which stands for two.
pub open spec fn tail_groups_of(parts: Seq<Seq<char>>) -> Option<Seq<u16>> {
    if parts.len() > 0 && v4_of(parts.last()) is Some {
        match groups_of(parts.drop_last()) {
            Some(groups) => Some(groups + octet_groups(v4_of(parts.last())->0)),
            None => None,
        }
    } else {
        groups_of(parts)
    }
}

/// Where the first `::` is, from `from` on; the length when there is none.
pub open spec fn double_from(s: Seq<char>, from: int) -> int
    decreases s.len() - from,
{
    if from < 0 || from + 1 >= s.len() {
        s.len() as int
    } else if s[from] == ':' && s[from + 1] == ':' {
        from
    } else {
        double_from(s, from + 1)
    }
}

/// The groups left of a `::`.
pub open spec fn left_groups(s: Seq<char>) -> Option<Seq<u16>> {
    if s.len() == 0 {
        Some(Seq::empty())
    } else {
        groups_of(text::split_of(s, ':'))
    }
}

/// The groups right of a `::`.
pub open spec fn right_groups(s: Seq<char>) -> Option<Seq<u16>> {
    if s.len() == 0 {
        Some(Seq::empty())
    } else {
        tail_groups_of(text::split_of(s, ':'))
    }
}

/// The eight groups of an IPv6 address, when `s` is one: either all eight
/// written out, or a `::` standing for the zeros that make them up to eight.
pub open spec fn v6_of(s: Seq<char>) -> Option<Seq<u16>> {
    let at = double_from(s, 0);
    if at < s.len() {
        match (left_groups(s.take(at)), right_groups(s.skip(at + 2))) {
            (Some(left), Some(right)) => if left.len() + right.len() <= 7 {
                Some(left + Seq::new((8 - left.len() - right.len()) as nat, |i: int| 0u16) + right)
            } else {
                None
            },
            _ => None,
        }
    } else {
        match tail_groups_of(text::split_of(s, ':')) {
            Some(groups) => if groups.len() == 8 {
                Some(groups)
            } else {
                None
            },
            None => None,
        }
    }
}

/// The group `s` spells, when it is one.
fn group(s: &str) -> (r: Option<u16>)
    ensures
        r is Some <==> is_group(s@),
        r matches Some(n) ==> n == hex_value(s@),
{
    let chars = text::chars_of(s);
    let n: usize = chars.len();
    if n == 0 || n > 4 {
        return None;
    }
    let mut total: u32 = 0;
    let mut i: usize = 0;
    while i < n
        invariant
            i <= n == chars@.len(),
            n <= 4,
            chars@ == s@,
            total == hex_value(s@.take(i as int)),
            i == 0 ==> total == 0,
            i == 1 ==> total < 0x10,
            i == 2 ==> total < 0x100,
            i == 3 ==> total < 0x1000,
            i == 4 ==> total < 0x10000,
            forall|j: int| 0 <= j < i ==> is_hex(#[trigger] s@[j]),
        decreases n - i,
    {
        let c = chars[i];
        let d: u32 = if '0' <= c && c <= '9' {
            c as u32 - 48
        } else if 'a' <= c && c <= 'f' {
            c as u32 - 87
        } else if 'A' <= c && c <= 'F' {
            c as u32 - 55
        } else {
            assert(!is_hex(s@[i as int]));
            return None;
        };
        assert(s@.take(i as int + 1).drop_last() =~= s@.take(i as int));
        total = total * 16 + d;
        i += 1;
    }
    assert(s@.take(n as int) =~= s@);
    Some(total as u16)
}

/// The groups the first `n` of `parts` spell, when each of them is one.
fn groups(parts: &Vec<String>, n: usize) -> (r: Option<Vec<u16>>)
    requires
        n <= parts@.len(),
    ensures
        r is Some <==> groups_of(text::texts(parts@).take(n as int)) is Some,
        r matches Some(v) ==> groups_of(text::texts(parts@).take(n as int)) == Some(v@),
{
    let ghost rows = text::texts(parts@).take(n as int);
    let mut v: Vec<u16> = Vec::new();
    let mut i: usize = 0;
    while i < n
        invariant
            i <= n <= parts@.len(),
            rows == text::texts(parts@).take(n as int),
            v@.len() == i,
            forall|j: int| 0 <= j < i ==> is_group(#[trigger] rows[j]) && v@[j] == hex_value(
                rows[j],
            ),
        decreases n - i,
    {
        assert(rows[i as int] == parts@[i as int]@);
        match group(parts[i].as_str()) {
            Some(g) => {
                v.push(g);
            },
            None => {
                return None;
            },
        }
        i += 1;
    }
    assert(v@ =~= Seq::new(n as nat, |j: int| hex_value(rows[j]) as u16));
    Some(v)
}

/// The groups `parts` spell when the last may be an IPv4 address.
fn tail_groups(parts: &Vec<String>) -> (r: Option<Vec<u16>>)
    requires
        parts@.len() > 0,
    ensures
        r is Some <==> tail_groups_of(text::texts(parts@)) is Some,
        r matches Some(v) ==> tail_groups_of(text::texts(parts@)) == Some(v@),
{
    let n: usize = parts.len();
    let ghost rows = text::texts(parts@);
    assert(rows.last() == parts@[n - 1]@);
    assert(rows.take(n - 1) =~= rows.drop_last());
    assert(rows.take(n as int) =~= rows);
    match parse_v4(parts[n - 1].as_str()) {
        Some(a) => match groups(parts, n - 1) {
            Some(mut v) => {
                let ghost head = v@;
                v.push(a[0] as u16 * 256 + a[1] as u16);
                v.push(a[2] as u16 * 256 + a[3] as u16);
                assert(v@ =~= head + octet_groups(a@));
                Some(v)
            },
            None => None,
        },
        None => groups(parts, n),
    }
}

/// Where the first `::` is; the length when there is none.
fn double(chars: &Vec<char>) -> (r: usize)
    ensures
        r == double_from(chars@, 0),
        r < chars@.len() ==> r + 2 <= chars@.len(),
        r <= chars@.len(),
{
    let n: usize = chars.len();
    let mut i: usize = 0;
    while i < n && i + 1 < n
        invariant
            i <= n == chars@.len(),
            double_from(chars@, 0) == double_from(chars@, i as int),
        decreases n - i,
    {
        if chars[i] == ':' && chars[i + 1] == ':' {
            return i;
        }
        i += 1;
    }
    n
}

/// Eight groups as an address.
fn eight(v: &Vec<u16>) -> (r: [u16; 8])
    requires
        v@.len() == 8,
    ensures
        r@ == v@,
{
    let r = [v[0], v[1], v[2], v[3], v[4], v[5], v[6], v[7]];
    assert(r@ =~= v@);
    r
}

/// The eight groups of an IPv6 address, when `s` is one.
pub fn parse_v6(s: &str) -> (r: Option<[u16; 8]>)
    ensures
        r is Some <==> v6_of(s@) is Some,
        r matches Some(a) ==> v6_of(s@) == Some(a@),
{
    let chars = text::chars_of(s);
    let n: usize = chars.len();
    let at = double(&chars);
    if at == n {
        proof {
            text::lemma_split_of(s@, ':');
        }
        let parts = text::split(s, ':');
        assert(parts@.len() == text::texts(parts@).len());
        return match tail_groups(&parts) {
            Some(v) => if v.len() == 8 {
                Some(eight(&v))
            } else {
                None
            },
            None => None,
        };
    }
    let left = text::string_of(&chars, 0, at);
    let right = text::string_of(&chars, at + 2, n);
    assert(left@ =~= s@.take(at as int));
    assert(right@ =~= s@.skip(at as int + 2));
    let head = if at == 0 {
        Some(Vec::new())
    } else {
        let parts = text::split(left.as_str(), ':');
        assert(text::texts(parts@).take(parts@.len() as int) =~= text::texts(parts@));
        groups(&parts, parts.len())
    };
    let tail = if at + 2 == n {
        Some(Vec::new())
    } else {
        proof {
            text::lemma_split_of(right@, ':');
        }
        let parts = text::split(right.as_str(), ':');
        assert(parts@.len() == text::texts(parts@).len());
        tail_groups(&parts)
    };
    assert(head matches Some(v) ==> left_groups(left@) == Some(v@));
    assert(tail matches Some(v) ==> right_groups(right@) == Some(v@));
    match (head, tail) {
        (Some(mut all), Some(tail)) => {
            let l: usize = all.len();
            let m: usize = tail.len();
            let ghost first = all@;
            if l > 7 || m > 7 - l {
                return None;
            }
            while all.len() < 8 - m
                invariant
                    l + m <= 7,
                    first.len() == l,
                    l <= all@.len() <= 8 - m,
                    all@ == first + Seq::new((all@.len() - l) as nat, |i: int| 0u16),
                decreases 8 - all@.len(),
            {
                let ghost was = all@;
                all.push(0u16);
                assert(all@ =~= first + Seq::new((was.len() + 1 - l) as nat, |i: int| 0u16));
            }
            let ghost padded = all@;
            let mut i: usize = 0;
            while i < m
                invariant
                    i <= m == tail@.len(),
                    all@ == padded + tail@.take(i as int),
                decreases m - i,
            {
                all.push(tail[i]);
                assert(all@ =~= padded + tail@.take(i as int + 1));
                i += 1;
            }
            assert(all@ =~= first + Seq::new((8 - l - m) as nat, |i: int| 0u16) + tail@);
            Some(eight(&all))
        },
        _ => None,
    }
}

/// The address `s` spells, of either family.
pub fn parse_ip(s: &str) -> (r: Option<Ip>)
    ensures
        match r {
            Some(Ip::V4(a)) => v4_of(s@) == Some(a@),
            Some(Ip::V6(a)) => v4_of(s@) is None && v6_of(s@) == Some(a@),
            None => v4_of(s@) is None && v6_of(s@) is None,
        },
{
    match parse_v4(s) {
        Some(a) => Some(Ip::V4(a)),
        None => match parse_v6(s) {
            Some(a) => Some(Ip::V6(a)),
            None => None,
        },
    }
}

// What is read is what was written

/// Four octets, the way an address is written.
pub open spec fn dotted(a: Seq<u8>) -> Seq<Seq<char>> {
    Seq::new(a.len(), |i: int| text::decimal(a[i] as nat))
}

proof fn lemma_octet(n: u8)
    ensures
        is_octet(text::decimal(n as nat)),
        !text::decimal(n as nat).contains('.'),
{
    let s = text::decimal(n as nat);
    text::lemma_decimal(n as nat);
    assert(s.len() <= 3) by {
        reveal_with_fuel(text::decimal, 4);
    }
    assert(n < 10 ==> s.len() == 1) by {
        reveal_with_fuel(text::decimal, 2);
    }
    if s.contains('.') {
        let i = choose|i: int| 0 <= i < s.len() && s[i] == '.';
        assert(text::is_digit(s[i]));
    }
}

/// An IPv4 address that was written, its octets in decimal with dots between, reads back
/// as those octets in that order.
pub proof fn lemma_v4_reads_back(a: Seq<u8>)
    requires
        a.len() == 4,
    ensures
        v4_of(text::joined(dotted(a), seq!['.'])) == Some(a),
{
    let parts = dotted(a);
    assert forall|i: int| 0 <= i < parts.len() implies !(#[trigger] parts[i]).contains('.')
        && is_octet(parts[i]) by {
        lemma_octet(a[i]);
    }
    text::lemma_split_of_joined(parts, '.');
    assert forall|i: int| 0 <= i < 4 implies text::value(#[trigger] parts[i]) == a[i] by {
        text::lemma_decimal(a[i] as nat);
    }
    assert(Seq::new(4, |i: int| text::value(parts[i]) as u8) =~= a);
}

/// An IPv4 address has one spelling: whatever is read as one is how its octets are
/// written.
pub proof fn lemma_v4_has_one_spelling(s: Seq<char>)
    ensures
        v4_of(s) matches Some(a) ==> a.len() == 4 && s == text::joined(dotted(a), seq!['.']),
{
    if v4_of(s) is Some {
        let a = v4_of(s)->0;
        let parts = text::split_of(s, '.');
        text::lemma_joined_of_split(s, '.');
        assert forall|i: int| 0 <= i < 4 implies #[trigger] parts[i] == dotted(a)[i] by {
            assert(is_octet(parts[i]));
            text::lemma_spelling(parts[i]);
        }
        assert(parts =~= dotted(a));
    }
}

/// An IPv4 address is digits and dots, with a digit at each end.
pub proof fn lemma_v4_characters(s: Seq<char>)
    requires
        v4_of(s) is Some,
    ensures
        s.len() > 0,
        text::is_digit(s[0]),
        text::is_digit(s[s.len() - 1]),
        forall|i: int| 0 <= i < s.len() ==> text::is_digit(#[trigger] s[i]) || s[i] == '.',
{
    let parts = text::split_of(s, '.');
    text::lemma_joined_of_split(s, '.');
    let dot = seq!['.'];
    assert(is_octet(parts[0]) && is_octet(parts[1]) && is_octet(parts[2]) && is_octet(parts[3]));
    assert(text::joined(parts, dot) =~= parts[0] + dot + parts[1] + dot + parts[2] + dot + parts[3])
        by {
        let three = parts.drop_last();
        let two = three.drop_last();
        let one = two.drop_last();
        assert(text::joined(one, dot) == parts[0]);
        assert(text::joined(two, dot) == parts[0] + dot + parts[1]);
        assert(text::joined(three, dot) == parts[0] + dot + parts[1] + dot + parts[2]);
    }
    let a = parts[0];
    let ab = a + dot + parts[1];
    let abc = ab + dot + parts[2];
    assert(s =~= abc + dot + parts[3]);
    assert(text::is_digit(a[0]));
    assert(s[0] == a[0]);
    assert(text::is_digit(parts[3][parts[3].len() - 1]));
    assert(s[s.len() - 1] == parts[3][parts[3].len() - 1]);
    assert forall|i: int| 0 <= i < ab.len() implies text::is_digit(#[trigger] ab[i]) || ab[i]
        == '.' by {
        if i < a.len() {
            assert(ab[i] == a[i]);
        } else if i > a.len() {
            assert(ab[i] == parts[1][i - a.len() - 1]);
        }
    }
    assert forall|i: int| 0 <= i < abc.len() implies text::is_digit(#[trigger] abc[i]) || abc[i]
        == '.' by {
        if i < ab.len() {
            assert(abc[i] == ab[i]);
        } else if i > ab.len() {
            assert(abc[i] == parts[2][i - ab.len() - 1]);
        }
    }
    assert forall|i: int| 0 <= i < s.len() implies text::is_digit(#[trigger] s[i]) || s[i]
        == '.' by {
        if i < abc.len() {
            assert(s[i] == abc[i]);
        } else if i > abc.len() {
            assert(s[i] == parts[3][i - abc.len() - 1]);
        }
    }
}

/// A group is spelled in sixteens, its digits from 0 to 9 and from a to f in either case.
pub proof fn lemma_sixteens(s: Seq<char>, c: char)
    ensures
        hex_value(s.push(c)) == 16 * hex_value(s) + hex_digit(c),
        hex_value(Seq::empty()) == 0,
        '0' <= c <= '9' ==> hex_digit(c) == c as u32 - '0' as u32,
        'a' <= c <= 'f' ==> hex_digit(c) == 10 + (c as u32 - 'a' as u32),
        'A' <= c <= 'F' ==> hex_digit(c) == 10 + (c as u32 - 'A' as u32),
        is_hex(c) <==> '0' <= c <= '9' || 'a' <= c <= 'f' || 'A' <= c <= 'F',
        is_group(seq![c]) <==> is_hex(c),
        is_group(s) && s.len() < 4 && is_hex(c) ==> is_group(s.push(c)),
        is_group(s) ==> 1 <= s.len() <= 4 && forall|i: int| 0 <= i < s.len() ==> is_hex(#[trigger] s[i]),
{
    assert(s.push(c).drop_last() =~= s);
    assert(seq![c][0] == c);
}

/// Whether two colons stand side by side.
spec fn has_double(s: Seq<char>) -> bool {
    exists|i: int| 0 <= i && i + 1 < s.len() && #[trigger] s[i] == ':' && s[i + 1] == ':'
}

proof fn lemma_group_characters(s: Seq<char>)
    requires
        is_group(s),
    ensures
        !s.contains(':'),
        !s.contains('.'),
        v4_of(s) is None,
{
    if s.contains(':') {
        let i = choose|i: int| 0 <= i < s.len() && s[i] == ':';
        assert(is_hex(s[i]));
    }
    if s.contains('.') {
        let i = choose|i: int| 0 <= i < s.len() && s[i] == '.';
        assert(is_hex(s[i]));
    }
    text::lemma_until(s, '.');
    assert(text::split_of(s, '.').len() == 1);
}

/// Groups with colons between have no two colons side by side, and none at either end.
proof fn lemma_no_double(parts: Seq<Seq<char>>)
    requires
        parts.len() > 0,
        forall|i: int| 0 <= i < parts.len() ==> is_group(#[trigger] parts[i]),
    ensures
        !has_double(text::joined(parts, seq![':'])),
        text::joined(parts, seq![':']).len() > 0,
        text::joined(parts, seq![':'])[0] != ':',
        text::joined(parts, seq![':']).last() != ':',
    decreases parts.len(),
{
    let all = text::joined(parts, seq![':']);
    let last = parts[parts.len() - 1];
    assert(is_group(last));
    lemma_group_characters(last);
    assert(last.contains(last[0]) && last.contains(last[last.len() - 1]));
    if parts.len() > 1 {
        let fewer = parts.drop_last();
        assert forall|i: int| 0 <= i < fewer.len() implies is_group(#[trigger] fewer[i]) by {
            assert(fewer[i] == parts[i]);
        }
        lemma_no_double(fewer);
        let head = text::joined(fewer, seq![':']);
        assert(all =~= head + seq![':'] + last);
        if has_double(all) {
            let i = choose|i: int|
                0 <= i && i + 1 < all.len() && #[trigger] all[i] == ':' && all[i + 1] == ':';
            if i + 1 < head.len() {
                assert(head[i] == ':' && head[i + 1] == ':');
            } else if i + 1 == head.len() {
                assert(head[head.len() - 1] == ':');
            } else {
                assert(last.contains(last[i - head.len()]));
            }
        }
    } else {
        assert(all == last);
        if has_double(all) {
            let i = choose|i: int|
                0 <= i && i + 1 < all.len() && #[trigger] all[i] == ':' && all[i + 1] == ':';
            assert(last.contains(last[i]));
        }
    }
}

proof fn lemma_double_at(s: Seq<char>, from: int, at: int)
    requires
        0 <= from <= at,
        at + 1 < s.len(),
        s[at] == ':',
        s[at + 1] == ':',
        forall|i: int| from <= i < at ==> !(#[trigger] s[i] == ':' && s[i + 1] == ':'),
    ensures
        double_from(s, from) == at,
    decreases at - from,
{
    if from < at {
        assert(!(s[from] == ':' && s[from + 1] == ':'));
        lemma_double_at(s, from + 1, at);
    }
}

proof fn lemma_double_nowhere(s: Seq<char>, from: int)
    requires
        0 <= from,
        !has_double(s),
    ensures
        double_from(s, from) == s.len(),
    decreases s.len() - from,
{
    if from + 1 < s.len() {
        assert(!(s[from] == ':' && s[from + 1] == ':'));
        lemma_double_nowhere(s, from + 1);
    }
}

/// An IPv6 address with all eight groups written out reads back as those groups in that
/// order.
pub proof fn lemma_v6_written_out(parts: Seq<Seq<char>>)
    requires
        parts.len() == 8,
        forall|i: int| 0 <= i < parts.len() ==> is_group(#[trigger] parts[i]),
    ensures
        v6_of(text::joined(parts, seq![':'])) == Some(
            Seq::new(8, |i: int| hex_value(parts[i]) as u16),
        ),
{
    let s = text::joined(parts, seq![':']);
    lemma_no_double(parts);
    lemma_double_nowhere(s, 0);
    assert forall|i: int| 0 <= i < parts.len() implies !(#[trigger] parts[i]).contains(':') by {
        lemma_group_characters(parts[i]);
    }
    text::lemma_split_of_joined(parts, ':');
    lemma_group_characters(parts[7]);
    assert(parts.last() == parts[7]);
}

/// A `::` stands for the zeros that are left out: what is left of it comes first, what is
/// right of it last, and zeros between make them up to eight.
pub proof fn lemma_v6_shortened(left: Seq<Seq<char>>, right: Seq<Seq<char>>)
    requires
        left.len() + right.len() <= 7,
        forall|i: int| 0 <= i < left.len() ==> is_group(#[trigger] left[i]),
        forall|i: int| 0 <= i < right.len() ==> is_group(#[trigger] right[i]),
    ensures
        v6_of(
            text::joined(left, seq![':']) + seq![':', ':'] + text::joined(right, seq![':']),
        ) == Some(
            Seq::new(
                8,
                |i: int|
                    if i < left.len() {
                        hex_value(left[i]) as u16
                    } else if i < 8 - right.len() {
                        0u16
                    } else {
                        hex_value(right[i - (8 - right.len())]) as u16
                    },
            ),
        ),
{
    let l = text::joined(left, seq![':']);
    let r = text::joined(right, seq![':']);
    let s = l + seq![':', ':'] + r;
    let at = l.len() as int;
    assert forall|i: int| 0 <= i < at implies !(#[trigger] s[i] == ':' && s[i + 1] == ':') by {
        lemma_no_double(left);
        assert(s[i] == l[i]);
        if i + 1 < at {
            assert(s[i + 1] == l[i + 1]);
        } else {
            assert(l[i] == l.last());
        }
    }
    assert(s[at] == ':' && s[at + 1] == ':');
    lemma_double_at(s, 0, at);
    assert(s.take(at) =~= l);
    assert(s.skip(at + 2) =~= r);
    if left.len() > 0 {
        lemma_no_double(left);
        assert forall|i: int| 0 <= i < left.len() implies !(#[trigger] left[i]).contains(':') by {
            lemma_group_characters(left[i]);
        }
        text::lemma_split_of_joined(left, ':');
    }
    if right.len() > 0 {
        lemma_no_double(right);
        assert forall|i: int| 0 <= i < right.len() implies !(#[trigger] right[i]).contains(':') by {
            lemma_group_characters(right[i]);
        }
        text::lemma_split_of_joined(right, ':');
        lemma_group_characters(right[right.len() - 1]);
    }
    let a = left_groups(l)->0;
    let b = right_groups(r)->0;
    assert(a =~= Seq::new(left.len(), |i: int| hex_value(left[i]) as u16));
    assert(b =~= Seq::new(right.len(), |i: int| hex_value(right[i]) as u16));
    assert(v6_of(s)->0 =~= Seq::new(
        8,
        |i: int|
            if i < left.len() {
                hex_value(left[i]) as u16
            } else if i < 8 - right.len() {
                0u16
            } else {
                hex_value(right[i - (8 - right.len())]) as u16
            },
    ));
}

} // verus!
