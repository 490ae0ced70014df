//! Text as sequences of characters: the cuts, joins and comparisons the rest
//! of the client reads and writes its formats with.
//!
//! Every function here is stated over the characters of its argument, so a
//! contract elsewhere can speak of "the second line" or "what follows the
//! equals sign" and mean exactly that.
use vstd::prelude::*;
use vstd::string::*;

verus! {

/// `String::push`: the character goes at the end and nothing else moves.
pub assume_specification[ String::push ](s: &mut String, c: char)
    ensures
        final(s)@ == old(s)@.push(c),
;

/// The characters Unicode gives the `White_Space` property.
pub open spec fn is_space(c: char) -> bool {
    let n = c as u32;
    ||| 0x9 <= n <= 0xD
    ||| n == 0x20
    ||| n == 0x85
    ||| n == 0xA0
    ||| n == 0x1680
    ||| 0x2000 <= n <= 0x200A
    ||| n == 0x2028
    ||| n == 0x2029
    ||| n == 0x202F
    ||| n == 0x205F
    ||| n == 0x3000
}

/// Whether `c` is white space.
pub fn space(c: char) -> (r: bool)
    ensures
        r == is_space(c),
{
    let n: u32 = c as u32;
    (0x9 <= n && n <= 0xD) || n == 0x20 || n == 0x85 || n == 0xA0 || n == 0x1680 || (0x2000 <= n
        && n <= 0x200A) || n == 0x2028 || n == 0x2029 || n == 0x202F || n == 0x205F || n == 0x3000
}

/// The characters of `s`, one to a slot.
pub fn chars_of(s: &str) -> (r: Vec<char>)
    ensures
        r@ == s@,
{
    broadcast use vstd::string::group_string_axioms;

    let mut r: Vec<char> = Vec::new();
    for c in it: s.chars()
        invariant
            r@ == s@.take(it.index() as int),
            it.seq() == s@,
    {
        r.push(c);
        assert(s@.take(it.index() as int).push(c) =~= s@.take(it.index() as int + 1));
    }
    assert(s@.take(s@.len() as int) =~= s@);
    r
}

/// The characters from `from` up to `to`, as text.
pub fn string_of(chars: &Vec<char>, from: usize, to: usize) -> (r: String)
    requires
        from <= to <= chars@.len(),
    ensures
        r@ == chars@.subrange(from as int, to as int),
{
    let mut r = String::new();
    let mut i: usize = from;
    while i < to
        invariant
            from <= i <= to <= chars@.len(),
            r@ == chars@.subrange(from as int, i as int),
        decreases to - i,
    {
        r.push(chars[i]);
        i += 1;
        assert(chars@.subrange(from as int, i as int) =~= chars@.subrange(
            from as int,
            i as int - 1,
        ).push(chars@[i as int - 1]));
    }
    r
}

/// Whether two texts hold the same characters.
pub fn same(a: &str, b: &str) -> (r: bool)
    ensures
        r == (a@ == b@),
{
    a.to_owned() == b.to_owned()
}

/// `s` without the white space it opens with.
pub open spec fn trim_start(s: Seq<char>) -> Seq<char>
    decreases s.len(),
{
    if s.len() > 0 && is_space(s[0]) {
        trim_start(s.drop_first())
    } else {
        s
    }
}

/// `s` without the white space it closes with.
pub open spec fn trim_end(s: Seq<char>) -> Seq<char>
    decreases s.len(),
{
    if s.len() > 0 && is_space(s.last()) {
        trim_end(s.drop_last())
    } else {
        s
    }
}

/// `s` without the white space at either end.
pub open spec fn trimmed(s: Seq<char>) -> Seq<char> {
    trim_end(trim_start(s))
}

/// `s` without the white space at either end.
pub fn trim(s: &str) -> (r: String)
    ensures
        r@ == trimmed(s@),
{
    let chars = chars_of(s);
    let n: usize = chars.len();
    let mut from: usize = 0;
    assert(s@.skip(0) =~= s@);
    while from < n && space(chars[from])
        invariant
            from <= n == chars@.len(),
            chars@ == s@,
            trim_start(s@) == trim_start(s@.skip(from as int)),
        decreases n - from,
    {
        assert(s@.skip(from as int).drop_first() =~= s@.skip(from as int + 1));
        from += 1;
    }
    let ghost left = s@.skip(from as int);
    assert(trim_start(s@) == left);
    let mut to: usize = n;
    assert(s@.subrange(from as int, n as int) =~= left);
    while from < to && space(chars[to - 1])
        invariant
            from <= to <= n == chars@.len(),
            chars@ == s@,
            trim_end(left) == trim_end(s@.subrange(from as int, to as int)),
        decreases to,
    {
        assert(s@.subrange(from as int, to as int).drop_last() =~= s@.subrange(
            from as int,
            to as int - 1,
        ));
        to -= 1;
    }
    string_of(&chars, from, to)
}

/// `s` without the run of `c` it closes with.
pub open spec fn trim_end_of(s: Seq<char>, c: char) -> Seq<char>
    decreases s.len(),
{
    if s.len() > 0 && s.last() == c {
        trim_end_of(s.drop_last(), c)
    } else {
        s
    }
}

/// `s` without the run of `c` it closes with.
pub fn trim_end_matches(s: &str, c: char) -> (r: String)
    ensures
        r@ == trim_end_of(s@, c),
{
    let chars = chars_of(s);
    let mut to: usize = chars.len();
    assert(s@.take(to as int) =~= s@);
    while 0 < to && chars[to - 1] == c
        invariant
            to <= chars@.len(),
            chars@ == s@,
            trim_end_of(s@, c) == trim_end_of(s@.take(to as int), c),
        decreases to,
    {
        assert(s@.take(to as int).drop_last() =~= s@.take(to as int - 1));
        to -= 1;
    }
    string_of(&chars, 0, to)
}

/// How many characters stand before the first `c`; all of them when there is
/// none.
pub open spec fn until(s: Seq<char>, c: char) -> nat
    decreases s.len(),
{
    if s.len() == 0 || s[0] == c {
        0
    } else {
        1 + until(s.drop_first(), c)
    }
}

/// `until` is what its description says it is.
pub proof fn lemma_until(s: Seq<char>, c: char)
    ensures
        until(s, c) <= s.len(),
        forall|i: int| 0 <= i < until(s, c) ==> s[i] != c,
        until(s, c) < s.len() ==> s[until(s, c) as int] == c,
        until(s, c) < s.len() <==> s.contains(c),
    decreases s.len(),
{
    if s.len() > 0 && s[0] != c {
        let rest = s.drop_first();
        lemma_until(rest, c);
        assert forall|i: int| 0 <= i < until(s, c) implies s[i] != c by {
            if i > 0 {
                assert(rest[i - 1] != c);
            }
        }
        if rest.contains(c) {
            let i = choose|i: int| 0 <= i < rest.len() && rest[i] == c;
            assert(s[i + 1] == c);
        }
        if s.contains(c) {
            let i = choose|i: int| 0 <= i < s.len() && s[i] == c;
            assert(rest[i - 1] == c);
        }
    } else if s.len() > 0 {
        assert(s[0] == c);
    }
}

/// The index of the first `c` at or after `from`, or the end.
pub fn find(chars: &Vec<char>, from: usize, c: char) -> (r: usize)
    requires
        from <= chars@.len(),
    ensures
        r == from + until(chars@.skip(from as int), c),
        from <= r <= chars@.len(),
        r < chars@.len() ==> chars@[r as int] == c,
{
    let n: usize = chars.len();
    let mut i: usize = from;
    while i < n && chars[i] != c
        invariant
            from <= i <= n == chars@.len(),
            from + until(chars@.skip(from as int), c) == i + until(chars@.skip(i as int), c),
        decreases n - i,
    {
        assert(chars@.skip(i as int).drop_first() =~= chars@.skip(i as int + 1));
        i += 1;
    }
    i
}

/// Whether a character occurs in `s`.
pub fn has(s: &str, c: char) -> (r: bool)
    ensures
        r == s@.contains(c),
{
    let chars = chars_of(s);
    let mut i: usize = 0;
    while i < chars.len()
        invariant
            i <= chars@.len(),
            chars@ == s@,
            forall|j: int| 0 <= j < i ==> s@[j] != c,
        decreases chars@.len() - i,
    {
        if chars[i] == c {
            assert(s@[i as int] == c);
            return true;
        }
        i += 1;
    }
    false
}

/// The texts behind a list of strings.
pub open spec fn texts(v: Seq<String>) -> Seq<Seq<char>> {
    Seq::new(v.len(), |i: int| v[i]@)
}

/// `texts` takes a list apart the way it was put together.
pub broadcast proof fn lemma_texts_push(v: Seq<String>, x: String)
    ensures
        #[trigger] texts(v.push(x)) == texts(v).push(x@),
{
    assert(texts(v.push(x)) =~= texts(v).push(x@));
}

/// `s` without one carriage return at its end.
pub open spec fn strip_cr(s: Seq<char>) -> Seq<char> {
    if s.len() > 0 && s.last() == '\r' {
        s.drop_last()
    } else {
        s
    }
}

/// The lines of `s`. A line ends at a line feed, with or without a carriage
/// return before it; the last one may go without.
pub open spec fn lines_of(s: Seq<char>) -> Seq<Seq<char>>
    decreases s.len(),
{
    if s.len() == 0 {
        Seq::empty()
    } else if until(s, '\n') >= s.len() {
        seq![s]
    } else {
        seq![strip_cr(s.take(until(s, '\n') as int))] + lines_of(
            s.skip(until(s, '\n') as int + 1),
        )
    }
}

/// The lines of `s`, without their endings.
pub fn lines(s: &str) -> (r: Vec<String>)
    ensures
        texts(r@) == lines_of(s@),
{
    broadcast use lemma_texts_push;

    let chars = chars_of(s);
    let n: usize = chars.len();
    let mut r: Vec<String> = Vec::new();
    let mut from: usize = 0;
    assert(s@.skip(0) =~= s@);
    assert(texts(r@) + lines_of(s@) =~= lines_of(s@));
    while from < n
        invariant
            from <= n == chars@.len(),
            chars@ == s@,
            lines_of(s@) == texts(r@) + lines_of(s@.skip(from as int)),
        decreases n - from,
    {
        let ghost rest = s@.skip(from as int);
        let ghost before = texts(r@);
        let at = find(&chars, from, '\n');
        if at == n {
            r.push(string_of(&chars, from, n));
            assert(s@.subrange(from as int, n as int) =~= rest);
            assert(lines_of(rest) =~= seq![rest]);
            assert(s@.skip(n as int).len() == 0);
            assert(lines_of(s@) =~= texts(r@) + lines_of(s@.skip(n as int)));
            from = n;
        } else {
            let end: usize = if at > from && chars[at - 1] == '\r' {
                at - 1
            } else {
                at
            };
            r.push(string_of(&chars, from, end));
            assert(rest.take(at - from) =~= s@.subrange(from as int, at as int));
            assert(strip_cr(rest.take(at - from)) =~= s@.subrange(from as int, end as int));
            assert(rest.skip(at - from + 1) =~= s@.skip(at as int + 1));
            assert(lines_of(s@) =~= texts(r@) + lines_of(s@.skip(at as int + 1)));
            from = at + 1;
        }
    }
    assert(s@.skip(n as int).len() == 0);
    assert(texts(r@) + lines_of(s@.skip(n as int)) =~= texts(r@));
    r
}

/// The parts of `s` between one `c` and the next: always one more than there
/// are of `c`.
pub open spec fn split_of(s: Seq<char>, c: char) -> Seq<Seq<char>>
    decreases s.len(),
{
    if until(s, c) >= s.len() {
        seq![s]
    } else {
        seq![s.take(until(s, c) as int)] + split_of(s.skip(until(s, c) as int + 1), c)
    }
}

/// The parts of `s` between one `c` and the next.
pub fn split(s: &str, c: char) -> (r: Vec<String>)
    ensures
        texts(r@) == split_of(s@, c),
{
    broadcast use lemma_texts_push;

    let chars = chars_of(s);
    let n: usize = chars.len();
    let mut r: Vec<String> = Vec::new();
    let mut from: usize = 0;
    assert(s@.skip(0) =~= s@);
    assert(texts(r@) + split_of(s@, c) =~= split_of(s@, c));
    let mut at = find(&chars, 0, c);
    while at < n
        invariant
            from <= at <= n == chars@.len(),
            chars@ == s@,
            at == from + until(s@.skip(from as int), c),
            split_of(s@, c) == texts(r@) + split_of(s@.skip(from as int), c),
        decreases n - at,
    {
        let ghost rest = s@.skip(from as int);
        r.push(string_of(&chars, from, at));
        assert(rest.take(at - from) =~= s@.subrange(from as int, at as int));
        assert(rest.skip(at - from + 1) =~= s@.skip(at as int + 1));
        assert(split_of(s@, c) =~= texts(r@) + split_of(s@.skip(at as int + 1), c));
        from = at + 1;
        at = find(&chars, from, c);
    }
    let ghost rest = s@.skip(from as int);
    r.push(string_of(&chars, from, n));
    assert(s@.subrange(from as int, n as int) =~= rest);
    assert(split_of(s@, c) =~= texts(r@));
    r
}

/// A text always has a first part.
pub proof fn lemma_split_of(s: Seq<char>, c: char)
    ensures
        split_of(s, c).len() > 0,
{
}

/// What stands either side of the first `c`.
pub open spec fn cut(s: Seq<char>, c: char) -> Option<(Seq<char>, Seq<char>)> {
    if until(s, c) < s.len() {
        Some((s.take(until(s, c) as int), s.skip(until(s, c) as int + 1)))
    } else {
        None
    }
}

/// The pair of texts behind a pair of strings.
pub open spec fn pair_texts(p: Option<(String, String)>) -> Option<(Seq<char>, Seq<char>)> {
    match p {
        Some((a, b)) => Some((a@, b@)),
        None => None,
    }
}

/// What stands either side of the first `c`, when there is one.
pub fn split_once(s: &str, c: char) -> (r: Option<(String, String)>)
    ensures
        pair_texts(r) == cut(s@, c),
{
    let chars = chars_of(s);
    let n: usize = chars.len();
    assert(s@.skip(0) =~= s@);
    let at = find(&chars, 0, c);
    if at < n {
        let left = string_of(&chars, 0, at);
        let right = string_of(&chars, at + 1, n);
        assert(s@.take(at as int) =~= s@.subrange(0, at as int));
        assert(s@.skip(at as int + 1) =~= s@.subrange(at as int + 1, n as int));
        Some((left, right))
    } else {
        None
    }
}

/// The index of the last `c`, or -1.
pub open spec fn last_at(s: Seq<char>, c: char) -> int
    decreases s.len(),
{
    if s.len() == 0 {
        -1
    } else if s.last() == c {
        s.len() - 1
    } else {
        last_at(s.drop_last(), c)
    }
}

/// What stands before the last `c`; all of it when there is none.
pub open spec fn before_last(s: Seq<char>, c: char) -> Seq<char> {
    if 0 <= last_at(s, c) < s.len() {
        s.take(last_at(s, c))
    } else {
        s
    }
}

/// What stands before the last `c`; all of it when there is none.
pub fn up_to_last(s: &str, c: char) -> (r: String)
    ensures
        r@ == before_last(s@, c),
{
    let chars = chars_of(s);
    let n: usize = chars.len();
    let mut i: usize = n;
    assert(s@.take(n as int) =~= s@);
    while i > 0 && chars[i - 1] != c
        invariant
            i <= n == chars@.len(),
            chars@ == s@,
            last_at(s@, c) == last_at(s@.take(i as int), c),
        decreases i,
    {
        assert(s@.take(i as int).drop_last() =~= s@.take(i as int - 1));
        i -= 1;
    }
    if i > 0 {
        string_of(&chars, 0, i - 1)
    } else {
        string_of(&chars, 0, n)
    }
}

/// How many characters stand before the first white space.
pub open spec fn word(s: Seq<char>) -> nat
    decreases s.len(),
{
    if s.len() == 0 || is_space(s[0]) {
        0
    } else {
        1 + word(s.drop_first())
    }
}

/// The runs of `s` that white space separates.
pub open spec fn words_of(s: Seq<char>) -> Seq<Seq<char>>
    decreases s.len(),
{
    if s.len() == 0 {
        Seq::empty()
    } else if is_space(s[0]) {
        words_of(s.drop_first())
    } else if word(s) >= s.len() {
        seq![s]
    } else {
        seq![s.take(word(s) as int)] + words_of(s.skip(word(s) as int))
    }
}

/// The runs of `s` that white space separates.
pub fn split_whitespace(s: &str) -> (r: Vec<String>)
    ensures
        texts(r@) == words_of(s@),
{
    broadcast use lemma_texts_push;

    let chars = chars_of(s);
    let n: usize = chars.len();
    let mut r: Vec<String> = Vec::new();
    let mut i: usize = 0;
    assert(s@.skip(0) =~= s@);
    assert(texts(r@) + words_of(s@) =~= words_of(s@));
    while i < n
        invariant
            i <= n == chars@.len(),
            chars@ == s@,
            words_of(s@) == texts(r@) + words_of(s@.skip(i as int)),
        decreases n - i,
    {
        let ghost rest = s@.skip(i as int);
        if space(chars[i]) {
            assert(rest.drop_first() =~= s@.skip(i as int + 1));
            i += 1;
        } else {
            let from: usize = i;
            while i < n && !space(chars[i])
                invariant
                    from <= i <= n == chars@.len(),
                    chars@ == s@,
                    from + word(s@.skip(from as int)) == i + word(s@.skip(i as int)),
                decreases n - i,
            {
                assert(s@.skip(i as int).drop_first() =~= s@.skip(i as int + 1));
                i += 1;
            }
            assert(word(s@.skip(i as int)) == 0);
            assert(word(rest) == i - from);
            assert(word(rest) >= 1);
            r.push(string_of(&chars, from, i));
            assert(rest.take(i - from) =~= s@.subrange(from as int, i as int));
            assert(rest.skip(i - from) =~= s@.skip(i as int));
            if i == n {
                assert(rest.take(i - from) =~= rest);
                assert(s@.skip(n as int).len() == 0);
            }
            assert(words_of(s@) =~= texts(r@) + words_of(s@.skip(i as int)));
        }
    }
    assert(s@.skip(n as int).len() == 0);
    assert(texts(r@) + words_of(s@.skip(n as int)) =~= texts(r@));
    r
}

/// Whether `s` opens with `prefix`.
pub open spec fn opens(s: Seq<char>, prefix: Seq<char>) -> bool {
    prefix.len() <= s.len() && s.take(prefix.len() as int) == prefix
}

/// What follows `prefix`, when `s` opens with it.
pub fn strip_prefix(s: &str, prefix: &str) -> (r: Option<String>)
    ensures
        r is Some <==> opens(s@, prefix@),
        r matches Some(rest) ==> rest@ == s@.skip(prefix@.len() as int),
{
    let chars = chars_of(s);
    let head = chars_of(prefix);
    let n: usize = head.len();
    if n > chars.len() {
        return None;
    }
    let mut i: usize = 0;
    while i < n
        invariant
            i <= n == head@.len() <= chars@.len(),
            chars@ == s@,
            head@ == prefix@,
            forall|j: int| 0 <= j < i ==> s@[j] == prefix@[j],
        decreases n - i,
    {
        if chars[i] != head[i] {
            assert(s@.take(n as int)[i as int] != prefix@[i as int]);
            return None;
        }
        i += 1;
    }
    assert(s@.take(n as int) =~= prefix@);
    Some(string_of(&chars, n, chars.len()))
}

/// Whether `needle` occurs somewhere in `s`.
pub open spec fn holds(s: Seq<char>, needle: Seq<char>) -> bool {
    exists|i: int| #[trigger] occurs_at(s, needle, i)
}

/// Whether `needle` occurs in `s` at `i`.
pub open spec fn occurs_at(s: Seq<char>, needle: Seq<char>, i: int) -> bool {
    0 <= i && i + needle.len() <= s.len() && s.subrange(i, i + needle.len()) == needle
}

/// Whether `needle` occurs somewhere in `s`.
pub fn contains(s: &str, needle: &str) -> (r: bool)
    ensures
        r == holds(s@, needle@),
{
    let chars = chars_of(s);
    let key = chars_of(needle);
    let m: usize = key.len();
    if m > chars.len() {
        return false;
    }
    let n: usize = chars.len();
    let end: usize = n - m;
    let mut i: usize = 0;
    while i <= end
        invariant
            i <= end + 1,
            end + m == n == chars@.len(),
            m == key@.len(),
            chars@ == s@,
            key@ == needle@,
            forall|k: int| 0 <= k < i ==> !occurs_at(s@, needle@, k),
        decreases end + 1 - i,
    {
        let mut j: usize = 0;
        while j < m && chars[i + j] == key[j]
            invariant
                j <= m == key@.len(),
                i + m <= n == chars@.len(),
                chars@ == s@,
                key@ == needle@,
                forall|k: int| 0 <= k < j ==> s@[i + k] == needle@[k],
            decreases m - j,
        {
            j += 1;
        }
        if j == m {
            assert(s@.subrange(i as int, i + m) =~= needle@);
            assert(occurs_at(s@, needle@, i as int));
            return true;
        }
        assert(s@.subrange(i as int, i + m)[j as int] != needle@[j as int]);
        if i == end {
            assert forall|k: int| !occurs_at(s@, needle@, k) by {
                if occurs_at(s@, needle@, k) {
                    assert(k < i || k == i);
                }
            }
            return false;
        }
        i += 1;
    }
    false
}

/// The parts one after the other, `sep` between each and the next.
pub open spec fn joined(parts: Seq<Seq<char>>, sep: Seq<char>) -> Seq<char>
    decreases parts.len(),
{
    if parts.len() == 0 {
        Seq::empty()
    } else if parts.len() == 1 {
        parts[0]
    } else {
        joined(parts.drop_last(), sep) + sep + parts.last()
    }
}

/// The parts one after the other, `sep` between each and the next.
pub fn join(parts: &Vec<String>, sep: &str) -> (r: String)
    ensures
        r@ == joined(texts(parts@), sep@),
{
    let mut r = String::new();
    let mut i: usize = 0;
    while i < parts.len()
        invariant
            i <= parts@.len(),
            r@ == joined(texts(parts@).take(i as int), sep@),
        decreases parts@.len() - i,
    {
        if i > 0 {
            r.append(sep);
        }
        r.append(parts[i].as_str());
        assert(texts(parts@).take(i as int + 1).drop_last() =~= texts(parts@).take(i as int));
        if i == 0 {
            assert(Seq::<char>::empty() + parts@[0]@ =~= parts@[0]@);
        }
        i += 1;
    }
    assert(texts(parts@).take(i as int) =~= texts(parts@));
    r
}

/// The character for one decimal digit.
pub open spec fn digit(d: nat) -> char {
    (48 + d) as char
}

/// `n` written in decimal.
pub open spec fn decimal(n: nat) -> Seq<char>
    decreases n,
{
    if n < 10 {
        seq![digit(n)]
    } else {
        decimal(n / 10).push(digit(n % 10))
    }
}

/// `n` written in decimal.
pub fn number(n: u64) -> (r: String)
    ensures
        r@ == decimal(n as nat),
    decreases n,
{
    if n < 10 {
        let mut r = String::new();
        r.push((48 + n as u8) as char);
        assert(r@ =~= seq![digit(n as nat)]);
        r
    } else {
        let mut r = number(n / 10);
        r.push((48 + (n % 10) as u8) as char);
        r
    }
}

/// `n` written in decimal, with its sign when it is negative.
pub open spec fn decimal_signed(n: int) -> Seq<char> {
    if n < 0 {
        seq!['-'] + decimal((-n) as nat)
    } else {
        decimal(n as nat)
    }
}

/// `n` written in decimal, with its sign when it is negative.
pub fn number_signed(n: i64) -> (r: String)
    ensures
        r@ == decimal_signed(n as int),
{
    if n < 0 {
        let size: u64 = if n == i64::MIN {
            0x8000_0000_0000_0000
        } else {
            (-n) as u64
        };
        let mut r = String::new();
        r.push('-');
        r.append(number(size).as_str());
        assert(r@ =~= seq!['-'] + decimal(size as nat));
        r
    } else {
        number(n as u64)
    }
}

/// Whether `c` is one of the ten digits.
pub open spec fn is_digit(c: char) -> bool {
    '0' <= c <= '9'
}

/// The number a run of digits spells.
pub open spec fn value(s: Seq<char>) -> nat
    decreases s.len(),
{
    if s.len() == 0 {
        0
    } else {
        value(s.drop_last()) * 10 + (s.last() as u32 - 48) as nat
    }
}

/// Whether `s` is digits and nothing else, and at least one of them.
pub open spec fn all_digits(s: Seq<char>) -> bool {
    &&& s.len() > 0
    &&& forall|i: int| 0 <= i < s.len() ==> is_digit(#[trigger] s[i])
}

/// What a decimal number up to `most` reads as: digits, with one plus sign
/// allowed before them.
pub open spec fn parsed(s: Seq<char>, most: nat) -> Option<nat> {
    let digits = if s.len() > 0 && s[0] == '+' {
        s.drop_first()
    } else {
        s
    };
    if all_digits(digits) && value(digits) <= most {
        Some(value(digits))
    } else {
        None
    }
}

/// The number `s` spells, when it is one and no larger than `most`.
pub fn parse(s: &str, most: u64) -> (r: Option<u64>)
    ensures
        r is Some <==> parsed(s@, most as nat) is Some,
        r matches Some(n) ==> parsed(s@, most as nat) == Some(n as nat),
{
    let chars = chars_of(s);
    let n: usize = chars.len();
    let from: usize = if n > 0 && chars[0] == '+' {
        1
    } else {
        0
    };
    let ghost digits = s@.skip(from as int);
    assert(from == 0 ==> digits =~= s@);
    assert(from == 1 ==> digits =~= s@.drop_first());
    if from == n {
        return None;
    }
    let mut i: usize = from;
    let mut total: u64 = 0;
    let mut fits: bool = true;
    while i < n
        invariant
            from <= i <= n == chars@.len(),
            chars@ == s@,
            digits == s@.skip(from as int),
            forall|j: int| 0 <= j < i - from ==> is_digit(#[trigger] digits[j]),
            fits ==> total == value(digits.take(i - from)) && total <= most,
            !fits ==> value(digits.take(i - from)) > most,
            digits == (if s@.len() > 0 && s@[0] == '+' {
                s@.drop_first()
            } else {
                s@
            }),
        decreases n - i,
    {
        let c = chars[i];
        if !('0' <= c && c <= '9') {
            assert(digits[i - from] == c);
            return None;
        }
        let d: u64 = (c as u32 - 48) as u64;
        let ghost k = i - from;
        assert(digits.take(k + 1).drop_last() =~= digits.take(k));
        assert(value(digits.take(k + 1)) == value(digits.take(k)) * 10 + d);
        if fits {
            if total > most / 10 || d > most - total * 10 {
                fits = false;
            } else {
                total = total * 10 + d;
            }
        }
        i += 1;
    }
    assert(digits.take(n - from) =~= digits);
    if fits {
        Some(total)
    } else {
        None
    }
}

/// `c` in lower case, when it is one of the 26 ASCII letters.
pub open spec fn lower_char(c: char) -> char {
    if 'A' <= c <= 'Z' {
        (c as u32 + 32) as char
    } else {
        c
    }
}

/// `s` with its ASCII letters in lower case.
pub open spec fn ascii_lower(s: Seq<char>) -> Seq<char> {
    s.map_values(|c: char| lower_char(c))
}

/// `s` with its ASCII letters in lower case and the rest as it was.
pub fn to_ascii_lowercase(s: &str) -> (r: String)
    ensures
        r@ == ascii_lower(s@),
{
    let chars = chars_of(s);
    let mut r = String::new();
    let mut i: usize = 0;
    while i < chars.len()
        invariant
            i <= chars@.len(),
            chars@ == s@,
            r@ == ascii_lower(s@.take(i as int)),
        decreases chars@.len() - i,
    {
        let c = chars[i];
        if 'A' <= c && c <= 'Z' {
            r.push((c as u8 + 32) as char);
        } else {
            r.push(c);
        }
        assert(ascii_lower(s@.take(i as int + 1)) =~= ascii_lower(s@.take(i as int)).push(
            lower_char(c),
        ));
        i += 1;
    }
    assert(s@.take(i as int) =~= s@);
    r
}

/// Whether `c` is one of the 26 ASCII letters, in either case.
pub open spec fn is_letter(c: char) -> bool {
    'a' <= c <= 'z' || 'A' <= c <= 'Z'
}

/// Whether `c` is one of the 26 ASCII capitals.
pub open spec fn is_capital(c: char) -> bool {
    'A' <= c <= 'Z'
}

/// What Unicode's lower case of `s` is. For text that is ASCII throughout it
/// is the ASCII lower case; beyond that one character may become several.
pub uninterp spec fn lowercase(s: Seq<char>) -> Seq<char>;

/// What Unicode's upper case of `s` is.
pub uninterp spec fn uppercase(s: Seq<char>) -> Seq<char>;

/// `str::to_lowercase`: the Unicode lower case of `s`, which depends on
/// nothing but `s`, leaves ASCII text where the ASCII mapping puts it, and holds no
/// ASCII capital.
#[verifier::external_body]
pub(crate) fn to_lowercase(s: &str) -> (r: String)
    ensures
        r@ == lowercase(s@),
        is_ascii_text(s@) ==> r@ == ascii_lower(s@),
        forall|i: int| 0 <= i < r@.len() ==> !is_capital(#[trigger] r@[i]),
{
    s.to_lowercase()
}

/// `str::to_uppercase`: the Unicode upper case of `s`, which depends on
/// nothing but `s` and leaves ASCII text where the ASCII mapping puts it.
#[verifier::external_body]
pub(crate) fn to_uppercase(s: &str) -> (r: String)
    ensures
        r@ == uppercase(s@),
        is_ascii_text(s@) ==> r@ == ascii_upper(s@),
{
    s.to_uppercase()
}

/// Whether every character of `s` is ASCII.
pub open spec fn is_ascii_text(s: Seq<char>) -> bool {
    forall|i: int| 0 <= i < s.len() ==> (#[trigger] s[i] as u32) < 128
}

/// `c` in upper case, when it is one of the 26 ASCII letters.
pub open spec fn upper_char(c: char) -> char {
    if 'a' <= c <= 'z' {
        (c as u32 - 32) as char
    } else {
        c
    }
}

/// `s` with its ASCII letters in upper case.
pub open spec fn ascii_upper(s: Seq<char>) -> Seq<char> {
    s.map_values(|c: char| upper_char(c))
}

/// What follows `prefix` on the first line that opens with it, once trimmed.
pub open spec fn first_after(lines: Seq<Seq<char>>, prefix: Seq<char>) -> Option<Seq<char>>
    decreases lines.len(),
{
    if lines.len() == 0 {
        None
    } else if opens(trimmed(lines[0]), prefix) {
        Some(trimmed(lines[0]).skip(prefix.len() as int))
    } else {
        first_after(lines.drop_first(), prefix)
    }
}

/// The text behind an optional string.
pub open spec fn maybe(s: Option<String>) -> Option<Seq<char>> {
    match s {
        Some(s) => Some(s@),
        None => None,
    }
}

/// What follows `prefix` on the first line of `s` that opens with it, once
/// trimmed.
pub fn line_after(s: &str, prefix: &str) -> (r: Option<String>)
    ensures
        maybe(r) == first_after(lines_of(s@), prefix@),
{
    let all = lines(s);
    let ghost rows = lines_of(s@);
    let mut i: usize = 0;
    assert(rows.skip(0) =~= rows);
    while i < all.len()
        invariant
            i <= all@.len(),
            rows == lines_of(s@),
            texts(all@) == rows,
            first_after(rows, prefix@) == first_after(rows.skip(i as int), prefix@),
        decreases all@.len() - i,
    {
        let line = trim(all[i].as_str());
        assert(rows[i as int] == all@[i as int]@);
        assert(rows.skip(i as int).drop_first() =~= rows.skip(i as int + 1));
        if let Some(rest) = strip_prefix(line.as_str(), prefix) {
            return Some(rest);
        }
        i += 1;
    }
    assert(rows.skip(i as int).len() == 0);
    None
}

/// A line with no line feed in it, then a line feed, then the rest: the line
/// comes first and the rest is read on its own.
pub proof fn lemma_lines_step(line: Seq<char>, rest: Seq<char>)
    requires
        !line.contains('\n'),
    ensures
        lines_of(line + seq!['\n'] + rest) == seq![strip_cr(line)] + lines_of(rest),
{
    let s = line + seq!['\n'] + rest;
    lemma_until_at(s, '\n', line.len() as int);
    assert(s.take(line.len() as int) =~= line);
    assert(s.skip(line.len() as int + 1) =~= rest);
}

/// `until` counts up to the first `c`, wherever that is.
pub proof fn lemma_until_at(s: Seq<char>, c: char, at: int)
    requires
        0 <= at < s.len(),
        s[at] == c,
        forall|i: int| 0 <= i < at ==> s[i] != c,
    ensures
        until(s, c) == at,
{
    lemma_until(s, c);
    assert(s.contains(c));
    let found = until(s, c) as int;
    if found < at {
        assert(s[found] != c);
    }
    if at < found {
        assert(s[at] != c);
    }
}

/// Trimming the start leaves nothing to trim there.
pub proof fn lemma_trim_start(s: Seq<char>)
    ensures
        trim_start(s).len() <= s.len(),
        trim_start(s).len() > 0 ==> !is_space(trim_start(s)[0]),
        trim_start(s) == s.skip(s.len() - trim_start(s).len()),
        trim_start(trim_start(s)) == trim_start(s),
    decreases s.len(),
{
    if s.len() > 0 && is_space(s[0]) {
        lemma_trim_start(s.drop_first());
        assert(s.drop_first().skip(s.drop_first().len() - trim_start(s).len()) =~= s.skip(
            s.len() - trim_start(s).len(),
        ));
    } else {
        assert(s.skip(0) =~= s);
    }
}

/// Trimming the end leaves nothing to trim there, and the start as it was.
pub proof fn lemma_trim_end(s: Seq<char>)
    ensures
        trim_end(s).len() <= s.len(),
        trim_end(s).len() > 0 ==> !is_space(trim_end(s).last()),
        trim_end(s) == s.take(trim_end(s).len() as int),
        trim_end(trim_end(s)) == trim_end(s),
    decreases s.len(),
{
    if s.len() > 0 && is_space(s.last()) {
        lemma_trim_end(s.drop_last());
        assert(s.drop_last().take(trim_end(s).len() as int) =~= s.take(trim_end(s).len() as int));
    } else {
        assert(s.take(s.len() as int) =~= s);
    }
}

/// Trimming twice is trimming once.
pub proof fn lemma_trimmed_twice(s: Seq<char>)
    ensures
        trimmed(trimmed(s)) == trimmed(s),
        trimmed(s).len() > 0 ==> !is_space(trimmed(s)[0]) && !is_space(trimmed(s).last()),
{
    let t = trim_start(s);
    lemma_trim_start(s);
    lemma_trim_end(t);
    let u = trim_end(t);
    if u.len() > 0 {
        assert(u[0] == t[0]);
    }
}

/// Trimming adds nothing: what is left of ASCII text is ASCII text.
pub proof fn lemma_trimmed_ascii(s: Seq<char>)
    ensures
        is_ascii_text(s) ==> is_ascii_text(trimmed(s)),
{
    let t = trim_start(s);
    lemma_trim_start(s);
    lemma_trim_end(t);
    if is_ascii_text(s) {
        assert forall|i: int| 0 <= i < trimmed(s).len() implies (#[trigger] trimmed(s)[i] as u32)
            < 128 by {
            assert(trimmed(s)[i] == t[i]);
            assert(t[i] == s[i + s.len() - t.len()]);
        }
    }
}

/// Text that opens and closes on something other than white space is already
/// trimmed.
pub proof fn lemma_nothing_to_trim(s: Seq<char>)
    requires
        s.len() > 0 ==> !is_space(s[0]) && !is_space(s.last()),
    ensures
        trimmed(s) == s,
{
}

/// Trimming the end of `c` and then `y`: the end of `y` first, and `c` only when
/// nothing is left after it.
pub proof fn lemma_trim_end_step(c: char, y: Seq<char>)
    ensures
        trim_end(seq![c] + y) == (if trim_end(y).len() == 0 && is_space(c) {
            Seq::empty()
        } else {
            seq![c] + trim_end(y)
        }),
    decreases y.len(),
{
    let x = seq![c] + y;
    if y.len() == 0 {
        reveal_with_fuel(trim_end, 2);
        assert(x =~= seq![c]);
        assert(x.drop_last() =~= Seq::empty());
        assert(seq![c] + trim_end(y) =~= seq![c]);
    } else {
        assert(x.last() == y.last());
        if is_space(y.last()) {
            lemma_trim_end_step(c, y.drop_last());
            assert(x.drop_last() =~= seq![c] + y.drop_last());
        }
    }
}

/// The two ends may be trimmed in either order.
pub proof fn lemma_trim_commutes(s: Seq<char>)
    ensures
        trim_start(trim_end(s)) == trim_end(trim_start(s)),
    decreases s.len(),
{
    if s.len() > 0 {
        let rest = s.drop_first();
        assert(s =~= seq![s[0]] + rest);
        lemma_trim_end_step(s[0], rest);
        lemma_trim_commutes(rest);
        if trim_end(s).len() > 0 {
            assert(trim_end(s).drop_first() =~= trim_end(rest));
        }
    }
}

/// Trimming the end stops at the last character that is not white space.
pub proof fn lemma_trim_end_concat(a: Seq<char>, b: Seq<char>)
    requires
        a.len() > 0,
        !is_space(a.last()),
    ensures
        trim_end(a + b) == a + trim_end(b),
    decreases b.len(),
{
    if b.len() == 0 {
        assert(a + b =~= a);
        assert(a + trim_end(b) =~= a);
    } else {
        assert((a + b).last() == b.last());
        if is_space(b.last()) {
            lemma_trim_end_concat(a, b.drop_last());
            assert((a + b).drop_last() =~= a + b.drop_last());
        }
    }
}

/// What `s` looks like written as a literal: quoted, with its control
/// characters and quotes escaped.
pub uninterp spec fn quoted(s: Seq<char>) -> Seq<char>;

/// `str`'s `Debug`: `s` between quotes, escaped as a literal would be. Depends
/// on nothing but `s`.
#[verifier::external_body]
pub(crate) fn quote(s: &str) -> (r: String)
    ensures
        r@ == quoted(s@),
{
    format!("{s:?}")
}

/// The text a run of bytes holds, with a replacement character wherever they
/// are not UTF-8.
pub uninterp spec fn lossy(bytes: Seq<u8>) -> Seq<char>;

/// `String::from_utf8_lossy`: the text in `bytes`. Depends on nothing but
/// `bytes`, and bytes that are UTF-8 come back as the text they encode.
#[verifier::external_body]
pub(crate) fn from_utf8_lossy(bytes: &[u8]) -> (r: String)
    ensures
        r@ == lossy(bytes@),
        vstd::utf8::valid_utf8(bytes@) ==> r@ == vstd::utf8::decode_utf8(bytes@),
{
    String::from_utf8_lossy(bytes).into_owned()
}

// What the words above come to

/// Whether a text is white space throughout.
pub open spec fn is_blank(s: Seq<char>) -> bool {
    forall|i: int| 0 <= i < s.len() ==> is_space(#[trigger] s[i])
}

/// White space is the space and what stands from the tab to the carriage return; beyond
/// ASCII the next line, the no-break spaces, the spaces of typography, the ends of lines
/// and paragraphs, and the ideographic space; and nothing else.
pub proof fn lemma_what_is_space(c: char)
    ensures
        is_space(c) <==> {
            let n = c as u32;
            ||| n == 0x20
            ||| 0x9 <= n <= 0xD
            ||| n == 0x85
            ||| n == 0xA0
            ||| n == 0x1680
            ||| 0x2000 <= n <= 0x200A
            ||| n == 0x2028
            ||| n == 0x2029
            ||| n == 0x202F
            ||| n == 0x205F
            ||| n == 0x3000
        },
{
}

/// A digit is one of the ten, and a letter one of the 26 in either case.
pub proof fn lemma_digits_and_letters(c: char)
    ensures
        is_digit(c) <==> 48 <= c as u32 <= 57,
        is_letter(c) <==> 65 <= c as u32 <= 90 || 97 <= c as u32 <= 122,
        is_capital(c) <==> 65 <= c as u32 <= 90,
{
}

proof fn lemma_trim_blank_start(a: Seq<char>, s: Seq<char>)
    requires
        is_blank(a),
    ensures
        trim_start(a + s) == trim_start(s),
    decreases a.len(),
{
    if a.len() > 0 {
        let rest = a.drop_first();
        assert forall|i: int| 0 <= i < rest.len() implies is_space(#[trigger] rest[i]) by {
            assert(rest[i] == a[i + 1]);
        }
        lemma_trim_blank_start(rest, s);
        assert((a + s)[0] == a[0]);
        assert((a + s).drop_first() =~= rest + s);
    } else {
        assert(a + s =~= s);
    }
}

proof fn lemma_trim_blank_end(s: Seq<char>, b: Seq<char>)
    requires
        is_blank(b),
    ensures
        trim_end(s + b) == trim_end(s),
    decreases b.len(),
{
    if b.len() > 0 {
        let rest = b.drop_last();
        assert forall|i: int| 0 <= i < rest.len() implies is_space(#[trigger] rest[i]) by {
            assert(rest[i] == b[i]);
        }
        lemma_trim_blank_end(s, rest);
        assert(is_space(b[b.len() - 1]));
        assert((s + b).last() == b[b.len() - 1]);
        assert((s + b).drop_last() =~= s + rest);
    } else {
        assert(s + b =~= s);
    }
}

/// Trimming takes off the white space at both ends, all of it, and nothing else:
/// whatever stands between is what is left.
pub proof fn lemma_trimming(a: Seq<char>, m: Seq<char>, b: Seq<char>)
    requires
        is_blank(a),
        is_blank(b),
        m.len() > 0 ==> !is_space(m[0]) && !is_space(m.last()),
    ensures
        trimmed(a + m + b) == m,
{
    assert(a + m + b =~= a + (m + b));
    lemma_trim_blank_start(a, m + b);
    if m.len() > 0 {
        assert((m + b)[0] == m[0]);
        lemma_trim_blank_end(m, b);
    } else {
        assert(m + b =~= b + m);
        lemma_trim_blank_start(b, m);
        assert(trim_start(m) =~= m);
    }
}

/// What stands between two of `c`: a text splits into the parts it was joined from.
pub proof fn lemma_split_of_joined(parts: Seq<Seq<char>>, c: char)
    requires
        parts.len() > 0,
        forall|i: int| 0 <= i < parts.len() ==> !(#[trigger] parts[i]).contains(c),
    ensures
        split_of(joined(parts, seq![c]), c) == parts,
    decreases parts.len(),
{
    let s = joined(parts, seq![c]);
    if parts.len() == 1 {
        lemma_until(s, c);
        assert(!parts[0].contains(c));
        assert(split_of(s, c) =~= parts);
    } else {
        let rest = parts.drop_first();
        assert forall|i: int| 0 <= i < rest.len() implies !(#[trigger] rest[i]).contains(c) by {
            assert(rest[i] == parts[i + 1]);
        }
        lemma_split_of_joined(rest, c);
        lemma_joined_front(parts, seq![c]);
        let head = parts[0];
        let tail = joined(rest, seq![c]);
        assert(s =~= head + seq![c] + tail);
        assert(!head.contains(c));
        assert forall|i: int| 0 <= i < head.len() implies s[i] != c by {
            assert(s[i] == head[i]);
        }
        lemma_until_at(s, c, head.len() as int);
        assert(s.take(head.len() as int) =~= head);
        assert(s.skip(head.len() as int + 1) =~= tail);
        assert(seq![head] + rest =~= parts);
    }
}

/// Joining can be started from the front too.
pub proof fn lemma_joined_front(parts: Seq<Seq<char>>, sep: Seq<char>)
    requires
        parts.len() > 1,
    ensures
        joined(parts, sep) == parts[0] + sep + joined(parts.drop_first(), sep),
    decreases parts.len(),
{
    let less = parts.drop_last();
    let rest = parts.drop_first();
    if parts.len() == 2 {
        assert(joined(less, sep) == parts[0]);
        assert(joined(rest, sep) == parts[1]);
        assert(joined(parts, sep) =~= parts[0] + sep + parts[1]);
    } else {
        lemma_joined_front(less, sep);
        assert(less.drop_first() =~= rest.drop_last());
        assert(rest.last() == parts.last());
        assert(joined(parts, sep) =~= parts[0] + sep + joined(rest, sep));
    }
}

/// Splitting loses nothing: the parts joined again are the text, and none of them
/// holds what it was split at.
pub proof fn lemma_joined_of_split(s: Seq<char>, c: char)
    ensures
        joined(split_of(s, c), seq![c]) == s,
        forall|i: int| 0 <= i < split_of(s, c).len() ==> !(#[trigger] split_of(s, c)[i]).contains(c),
    decreases s.len(),
{
    lemma_until(s, c);
    let n = until(s, c) as int;
    let parts = split_of(s, c);
    if n < s.len() {
        let rest = s.skip(n + 1);
        lemma_joined_of_split(rest, c);
        lemma_split_of(rest, c);
        lemma_joined_front(parts, seq![c]);
        assert(parts.drop_first() =~= split_of(rest, c));
        assert(parts[0] == s.take(n));
        assert(joined(parts, seq![c]) =~= s);
        assert forall|i: int| 0 <= i < parts.len() implies !(#[trigger] parts[i]).contains(c) by {
            if i > 0 {
                assert(parts[i] == split_of(rest, c)[i - 1]);
            } else if parts[0].contains(c) {
                let j = choose|j: int| 0 <= j < parts[0].len() && parts[0][j] == c;
                assert(s[j] == c);
            }
        }
    }
}

/// A cut is made at the first `c` and takes it out; where there is none, there is none.
pub proof fn lemma_cutting(a: Seq<char>, c: char, b: Seq<char>)
    requires
        !a.contains(c),
    ensures
        cut(a + seq![c] + b, c) == Some((a, b)),
        cut(a, c) is None,
{
    let s = a + seq![c] + b;
    assert forall|i: int| 0 <= i < a.len() implies s[i] != c by {
        assert(s[i] == a[i]);
    }
    lemma_until_at(s, c, a.len() as int);
    assert(s.take(a.len() as int) =~= a);
    assert(s.skip(a.len() as int + 1) =~= b);
    lemma_until(a, c);
}

proof fn lemma_last_at(a: Seq<char>, c: char, b: Seq<char>)
    requires
        !b.contains(c),
    ensures
        last_at(a + seq![c] + b, c) == a.len(),
    decreases b.len(),
{
    let s = a + seq![c] + b;
    if b.len() > 0 {
        let less = b.drop_last();
        assert(b.contains(b[b.len() - 1]));
        assert(s.last() == b.last());
        assert(s.drop_last() =~= a + seq![c] + less);
        if less.contains(c) {
            let i = choose|i: int| 0 <= i < less.len() && less[i] == c;
            assert(b[i] == c);
        }
        lemma_last_at(a, c, less);
    } else {
        assert(s.last() == c);
    }
}

proof fn lemma_nowhere(s: Seq<char>, c: char)
    requires
        !s.contains(c),
    ensures
        last_at(s, c) == -1,
    decreases s.len(),
{
    if s.len() > 0 {
        let less = s.drop_last();
        assert(s.contains(s[s.len() - 1]));
        if less.contains(c) {
            let i = choose|i: int| 0 <= i < less.len() && less[i] == c;
            assert(s[i] == c);
        }
        lemma_nowhere(less, c);
    }
}

/// What stands before the last `c` is all that does; a text without one is left whole.
pub proof fn lemma_before_last(a: Seq<char>, c: char, b: Seq<char>)
    requires
        !b.contains(c),
    ensures
        before_last(a + seq![c] + b, c) == a,
        before_last(b, c) == b,
{
    lemma_last_at(a, c, b);
    lemma_nowhere(b, c);
    assert((a + seq![c] + b).take(a.len() as int) =~= a);
}

/// Some lines, each with its end.
pub open spec fn stacked(lines: Seq<Seq<char>>) -> Seq<char>
    decreases lines.len(),
{
    if lines.len() == 0 {
        Seq::empty()
    } else {
        lines[0] + seq!['\n'] + stacked(lines.drop_first())
    }
}

/// A text has the lines it was written in, with a last one that has no end of its own
/// where there is one.
pub proof fn lemma_lines_of_stacked(lines: Seq<Seq<char>>, last: Seq<char>)
    requires
        forall|i: int|
            0 <= i < lines.len() ==> !(#[trigger] lines[i]).contains('\n') && strip_cr(lines[i])
                == lines[i],
        !last.contains('\n'),
    ensures
        lines_of(stacked(lines) + last) == (if last.len() > 0 {
            lines.push(last)
        } else {
            lines
        }),
    decreases lines.len(),
{
    if lines.len() == 0 {
        assert(stacked(lines) + last =~= last);
        lemma_until(last, '\n');
        if last.len() > 0 {
            assert(lines_of(last) =~= lines.push(last));
        } else {
            assert(lines_of(last) =~= lines);
        }
    } else {
        let rest = lines.drop_first();
        assert forall|i: int| 0 <= i < rest.len() implies !(#[trigger] rest[i]).contains('\n')
            && strip_cr(rest[i]) == rest[i] by {
            assert(rest[i] == lines[i + 1]);
        }
        lemma_lines_of_stacked(rest, last);
        assert(stacked(lines) + last =~= lines[0] + seq!['\n'] + (stacked(rest) + last));
        lemma_lines_step(lines[0], stacked(rest) + last);
        assert(lines[0] == strip_cr(lines[0]));
        if last.len() > 0 {
            assert(seq![lines[0]] + rest.push(last) =~= lines.push(last));
        } else {
            assert(seq![lines[0]] + rest =~= lines);
        }
    }
}

proof fn lemma_word_at(w: Seq<char>, rest: Seq<char>)
    requires
        forall|i: int| 0 <= i < w.len() ==> !is_space(#[trigger] w[i]),
        rest.len() > 0 ==> is_space(rest[0]),
    ensures
        word(w + rest) == w.len(),
    decreases w.len(),
{
    if w.len() > 0 {
        let less = w.drop_first();
        assert forall|i: int| 0 <= i < less.len() implies !is_space(#[trigger] less[i]) by {
            assert(less[i] == w[i + 1]);
        }
        lemma_word_at(less, rest);
        assert((w + rest)[0] == w[0]);
        assert((w + rest).drop_first() =~= less + rest);
    } else {
        assert(w + rest =~= rest);
    }
}

/// Words are what white space separates: a run without any is one, however much of it
/// comes before, and whatever comes after is read on its own.
pub proof fn lemma_words(w: Seq<char>, space: char, rest: Seq<char>)
    requires
        is_space(space),
        w.len() > 0,
        forall|i: int| 0 <= i < w.len() ==> !is_space(#[trigger] w[i]),
    ensures
        words_of(w + seq![space] + rest) == seq![w] + words_of(rest),
        words_of(w) == seq![w],
        words_of(seq![space] + rest) == words_of(rest),
        words_of(Seq::empty()).len() == 0,
{
    let gap = seq![space] + rest;
    let s = w + gap;
    assert(w + seq![space] + rest =~= s);
    assert(gap.drop_first() =~= rest);
    lemma_word_at(w, gap);
    lemma_word_at(w, Seq::empty());
    assert(w + Seq::empty() =~= w);
    assert(s[0] == w[0]);
    assert(s.take(w.len() as int) =~= w);
    assert(s.skip(w.len() as int) =~= gap);
    assert(words_of(gap) == words_of(rest));
    assert(words_of(s) == seq![w] + words_of(gap));
}

/// A number spelled out spells that number: digits throughout, with no zero before
/// them, and the value they have is the number.
pub proof fn lemma_decimal(n: nat)
    ensures
        value(decimal(n)) == n,
        all_digits(decimal(n)),
        n > 0 ==> decimal(n)[0] != '0',
        decimal(0) == seq!['0'],
    decreases n,
{
    if n >= 10 {
        lemma_decimal(n / 10);
        let head = decimal(n / 10);
        let s = decimal(n);
        assert(s.drop_last() =~= head);
        assert(s.last() == digit(n % 10));
        assert forall|i: int| 0 <= i < s.len() implies is_digit(#[trigger] s[i]) by {
            if i < head.len() {
                assert(s[i] == head[i]);
            }
        }
        assert(s[0] == head[0]);
    } else {
        let s = decimal(n);
        assert(s.drop_last() =~= Seq::empty());
        assert(value(s) == value(s.drop_last()) * 10 + (s.last() as u32 - 48) as nat);
    }
}

/// A number is spelled in tens: one more digit at the end makes it ten times what it
/// was, and that digit more. Read back it is the same.
pub proof fn lemma_tens(n: nat, d: nat, s: Seq<char>, c: char)
    requires
        n > 0,
        d < 10,
    ensures
        decimal(10 * n + d) == decimal(n).push(('0' as u32 + d) as char),
        decimal(d) == seq![('0' as u32 + d) as char],
        is_digit(c) ==> value(s.push(c)) == 10 * value(s) + (c as u32 - '0' as u32),
        value(Seq::empty()) == 0,
{
    assert((10 * n + d) / 10 == n && (10 * n + d) % 10 == d);
    assert(s.push(c).drop_last() =~= s);
}

/// A text reads as a number when it is digits, with or without a plus sign before
/// them, and the number is not too large; and it reads as no other.
pub proof fn lemma_reading(digits: Seq<char>, most: nat, s: Seq<char>)
    ensures
        all_digits(digits) && value(digits) <= most ==> parsed(digits, most) == Some(value(digits))
            && parsed(seq!['+'] + digits, most) == Some(value(digits)),
        parsed(s, most) matches Some(n) ==> n <= most && exists|d: Seq<char>| #[trigger]
            all_digits(d) && value(d) == n && (s == d || s == seq!['+'] + d),
{
    if all_digits(digits) {
        assert(digits[0] != '+');
        assert((seq!['+'] + digits).drop_first() =~= digits);
        assert((seq!['+'] + digits)[0] == '+');
    }
    if parsed(s, most) is Some {
        if s.len() > 0 && s[0] == '+' {
            assert(s =~= seq!['+'] + s.drop_first());
            assert(all_digits(s.drop_first()));
        } else {
            assert(all_digits(s));
        }
    }
}

/// A number that was written is read back, unless it is too large.
pub proof fn lemma_number_reads_back(n: nat, most: nat)
    ensures
        parsed(decimal(n), most) == (if n <= most {
            Some(n)
        } else {
            None
        }),
{
    lemma_decimal(n);
    assert(decimal(n)[0] != '+');
}

/// Lower case changes the 26 capitals, each into the letter 32 places on, and leaves
/// every other character and the number of them alone.
pub proof fn lemma_lower(s: Seq<char>, i: int)
    requires
        0 <= i < s.len(),
    ensures
        ascii_lower(s).len() == s.len(),
        'A' <= s[i] <= 'Z' ==> ascii_lower(s)[i] as u32 == s[i] as u32 + 32,
        !('A' <= s[i] <= 'Z') ==> ascii_lower(s)[i] == s[i],
{
}

/// A text holds every run of its characters, and no other text.
pub proof fn lemma_holding(a: Seq<char>, n: Seq<char>, b: Seq<char>, s: Seq<char>)
    ensures
        holds(a + n + b, n),
        holds(s, n) ==> exists|before: Seq<char>, after: Seq<char>| s == #[trigger] (before + n
            + after),
{
    assert((a + n + b).subrange(a.len() as int, (a.len() + n.len()) as int) =~= n);
    assert(occurs_at(a + n + b, n, a.len() as int));
    if holds(s, n) {
        let i = choose|i: int| occurs_at(s, n, i);
        let before = s.take(i);
        let after = s.skip((i + n.len()) as int);
        assert(s =~= before + n + after);
    }
}

/// Taking a run of `c` off the end leaves what stood before it.
pub proof fn lemma_trim_end_of(a: Seq<char>, c: char, n: nat)
    requires
        a.len() > 0 ==> a.last() != c,
    ensures
        trim_end_of(a + Seq::new(n, |i: int| c), c) == a,
    decreases n,
{
    let s = a + Seq::new(n, |i: int| c);
    if n > 0 {
        lemma_trim_end_of(a, c, (n - 1) as nat);
        assert(s.last() == c);
        assert(s.drop_last() =~= a + Seq::new((n - 1) as nat, |i: int| c));
    } else {
        assert(s =~= a);
    }
}

/// What follows a prefix is taken from the first line that opens with it, and there is
/// nothing when none does.
pub proof fn lemma_first_after(lines: Seq<Seq<char>>, prefix: Seq<char>, at: int)
    requires
        0 <= at <= lines.len(),
        forall|i: int| 0 <= i < at ==> !opens(trimmed(#[trigger] lines[i]), prefix),
        at < lines.len() ==> opens(trimmed(lines[at]), prefix),
    ensures
        first_after(lines, prefix) == (if at < lines.len() {
            Some(trimmed(lines[at]).skip(prefix.len() as int))
        } else {
            None
        }),
    decreases at,
{
    if at > 0 {
        let rest = lines.drop_first();
        assert forall|i: int| 0 <= i < at - 1 implies !opens(trimmed(#[trigger] rest[i]), prefix) by {
            assert(rest[i] == lines[i + 1]);
        }
        assert(!opens(trimmed(lines[0]), prefix));
        lemma_first_after(rest, prefix, at - 1);
    }
}

/// A line that was ended the way some systems do is the line without that ending, and
/// any other is left as it is.
pub proof fn lemma_strip_cr(s: Seq<char>, c: char)
    ensures
        strip_cr(s.push('\r')) == s,
        c != '\r' ==> strip_cr(s.push(c)) == s.push(c),
        strip_cr(Seq::empty()).len() == 0,
{
    assert(s.push('\r').drop_last() =~= s);
}

/// A text opens with every beginning of it, and with nothing else.
pub proof fn lemma_opening(a: Seq<char>, b: Seq<char>, s: Seq<char>)
    ensures
        opens(a + b, a),
        opens(s, a) ==> s == a + s.skip(a.len() as int),
{
    assert((a + b).take(a.len() as int) =~= a);
    if opens(s, a) {
        assert(s =~= a + s.skip(a.len() as int));
    }
}

/// Digits with no zero before them are how their own number is spelled.
pub proof fn lemma_spelling(s: Seq<char>)
    requires
        all_digits(s),
        s.len() > 1 ==> s[0] != '0',
    ensures
        decimal(value(s)) == s,
        s[0] != '0' ==> value(s) > 0,
    decreases s.len(),
{
    let head = s.drop_last();
    let c = s[s.len() - 1];
    assert(is_digit(c));
    assert(s =~= head.push(c));
    let d = (c as u32 - '0' as u32) as nat;
    if head.len() > 0 {
        assert forall|i: int| 0 <= i < head.len() implies is_digit(#[trigger] head[i]) by {
            assert(head[i] == s[i]);
        }
        assert(head[0] == s[0]);
        lemma_spelling(head);
        lemma_tens(value(head), d, head, c);
        assert(value(s) == 10 * value(head) + d);
        assert(decimal(value(s)) =~= s);
    } else {
        assert(value(head) == 0);
        assert(value(s) == d);
        assert(s =~= seq![c]);
        assert(decimal(d) =~= seq![c]);
    }
}

/// One line more in front.
pub proof fn lemma_stacked_front(line: Seq<char>, rest: Seq<Seq<char>>)
    ensures
        stacked(seq![line] + rest) == line + seq!['\n'] + stacked(rest),
{
    assert((seq![line] + rest).drop_first() =~= rest);
}

} // verus!
