//! Text: the string operations that the rest of the crate is built from.
//!
//! A string is modelled by its characters (`s@`); where bytes matter, by their UTF-8 encoding.

use vstd::prelude::*;
use vstd::utf8::{encode_utf8, encode_utf8_decode_utf8};

verus! {

/// `String::push` appends the given character to the end of the string.
pub assume_specification[ std::string::String::push ](string: &mut std::string::String, ch: char)
    ensures
        final(string)@ == old(string)@.push(ch),
;

/// `String::push_str` appends the given string slice to the end of the string.
pub assume_specification[ std::string::String::push_str ](string: &mut std::string::String, text: &str)
    ensures
        final(string)@ == old(string)@ + text@,
;

/// The characters of a string, one by one.
pub fn chars_of(s: &str) -> (r: Vec<char>)
    ensures
        r@ == s@,
{
    let mut out: Vec<char> = Vec::new();
    for c in iter: s.chars()
        invariant
            out@ == iter.seq().take(iter.index() as int),
            iter.seq() == s@,
    {
        out.push(c);
    }
    assert(out@ == s@);
    out
}

/// The string made of the characters of `chars` from `from` up to `to`.
pub fn string_of(chars: &Vec<char>, from: usize, to: usize) -> (r: String)
    requires
        from <= to <= chars@.len(),
    ensures
        r@ == chars@.subrange(from as int, to as int),
{
    let mut out = String::new();
    let mut i: usize = from;
    while i < to
        invariant
            from <= i <= to <= chars@.len(),
            out@ == chars@.subrange(from as int, i as int),
        decreases to - i,
    {
        out.push(chars[i]);
        i += 1;
    }
    out
}

// ---------------------------------------------------------------------------------------------
// Equality and order
// ---------------------------------------------------------------------------------------------

/// `a` comes before `b`, and position `n` is what decides it: the two agree up to `n`, and there
/// `a` has ended or holds the smaller byte.
pub open spec fn decides(a: Seq<u8>, b: Seq<u8>, n: int) -> bool {
    &&& 0 <= n <= a.len()
    &&& n < b.len()
    &&& forall|k: int| 0 <= k < n ==> a[k] == b[k]
    &&& n == a.len() || a[n] < b[n]
}

/// The lexicographic order on byte sequences.
pub open spec fn bytes_before(a: Seq<u8>, b: Seq<u8>) -> bool {
    exists|n: int| #[trigger] decides(a, b, n)
}

/// The order of strings: that of their bytes.
pub open spec fn before(a: Seq<char>, b: Seq<char>) -> bool {
    bytes_before(encode_utf8(a), encode_utf8(b))
}

/// Two strings with the same bytes are the same string.
pub proof fn lemma_same_bytes(a: Seq<char>, b: Seq<char>)
    ensures
        encode_utf8(a) == encode_utf8(b) <==> a == b,
{
    encode_utf8_decode_utf8(a);
    encode_utf8_decode_utf8(b);
}

/// No string comes before itself, and of two strings at most one comes before the other.
pub proof fn lemma_before_asymmetric(a: Seq<char>, b: Seq<char>)
    ensures
        !before(a, a),
        before(a, b) ==> !before(b, a) && a != b,
{
    let x = encode_utf8(a);
    let y = encode_utf8(b);
    assert(!bytes_before(x, x));
    if before(a, b) && before(b, a) {
        let m = choose|n: int| #[trigger] decides(x, y, n);
        let n = choose|n: int| #[trigger] decides(y, x, n);
        assert(decides(x, y, m) && decides(y, x, n));
        if m < n {
            assert(y[m] == x[m]);
        } else if n < m {
            assert(x[n] == y[n]);
        }
    }
}

/// The order of strings is transitive.
pub proof fn lemma_before_transitive(a: Seq<char>, b: Seq<char>, c: Seq<char>)
    requires
        before(a, b),
        before(b, c),
    ensures
        before(a, c),
{
    let x = encode_utf8(a);
    let y = encode_utf8(b);
    let z = encode_utf8(c);
    let m = choose|n: int| #[trigger] decides(x, y, n);
    let n = choose|n: int| #[trigger] decides(y, z, n);
    let k = if m < n { m } else { n };
    assert(decides(x, z, k));
}

/// Of two different strings one comes before the other.
pub proof fn lemma_before_total(a: Seq<char>, b: Seq<char>)
    ensures
        a == b || before(a, b) || before(b, a),
{
    lemma_same_bytes(a, b);
    if a != b {
        lemma_bytes_before_total(encode_utf8(a), encode_utf8(b), 0);
    }
}

proof fn lemma_bytes_before_total(x: Seq<u8>, y: Seq<u8>, n: int)
    requires
        x != y,
        0 <= n <= x.len(),
        n <= y.len(),
        forall|k: int| 0 <= k < n ==> x[k] == y[k],
    ensures
        bytes_before(x, y) || bytes_before(y, x),
    decreases x.len() - n,
{
    if n < x.len() && n < y.len() && x[n] == y[n] {
        lemma_bytes_before_total(x, y, n + 1);
    } else if n == x.len() && n == y.len() {
        assert(x =~= y);
    } else if n == x.len() || (n < y.len() && x[n] < y[n]) {
        assert(decides(x, y, n));
    } else {
        assert(decides(y, x, n));
    }
}

/// Where a string stands relative to another one.
#[derive(Clone, Copy, Debug, PartialEq, Eq, Structural)]
pub enum Place {
    Before,
    Same,
    After,
}

/// Finds out where `a` stands relative to `b`.
pub fn place_of(a: &str, b: &str) -> (r: Place)
    ensures
        r == Place::Before <==> before(a@, b@),
        r == Place::Same <==> a@ == b@,
        r == Place::After <==> before(b@, a@),
{
    let x = a.as_bytes();
    let y = b.as_bytes();
    let mut i: usize = 0;
    proof {
        lemma_before_asymmetric(a@, b@);
        lemma_before_asymmetric(b@, a@);
        lemma_same_bytes(a@, b@);
    }
    while i < x.len() && i < y.len() && x[i] == y[i]
        invariant
            i <= x@.len(),
            i <= y@.len(),
            forall|k: int| 0 <= k < i ==> x@[k] == y@[k],
        decreases x@.len() - i,
    {
        i += 1;
    }
    if i == x.len() {
        if i == y.len() {
            assert(x@ =~= y@);
            Place::Same
        } else {
            assert(decides(x@, y@, i as int));
            Place::Before
        }
    } else if i == y.len() {
        assert(decides(y@, x@, i as int));
        Place::After
    } else if x[i] < y[i] {
        assert(decides(x@, y@, i as int));
        Place::Before
    } else {
        assert(decides(y@, x@, i as int));
        Place::After
    }
}

/// Whether two strings are equal.
pub fn same(a: &str, b: &str) -> (r: bool)
    ensures
        r == (a@ == b@),
{
    place_of(a, b) == Place::Same
}

/// The number of bytes of a string.
pub fn byte_len(s: &str) -> (r: usize)
    ensures
        r == encode_utf8(s@).len(),
{
    s.as_bytes().len()
}

// ---------------------------------------------------------------------------------------------
// Decimal numbers
// ---------------------------------------------------------------------------------------------

/// The character for a digit.
pub open spec fn digit(d: int) -> char {
    (48 + d) as u8 as char
}

/// A natural number in decimal, without leading zeros.
pub open spec fn decimal(n: nat) -> Seq<char>
    decreases n,
{
    if n < 10 {
        seq![digit(n as int)]
    } else {
        decimal(n / 10).push(digit((n % 10) as int))
    }
}

/// Appends `value` in decimal.
pub fn push_decimal(out: &mut String, value: u64)
    ensures
        final(out)@ == old(out)@ + decimal(value as nat),
    decreases value,
{
    if value >= 10 {
        push_decimal(out, value / 10);
    }
    let d: u8 = 48 + (value % 10) as u8;
    out.push(d as char);
    assert(out@ == old(out)@ + decimal(value as nat));
}

/// The character for a hexadecimal digit.
pub open spec fn hex_digit(d: int) -> char {
    if d < 10 {
        digit(d)
    } else {
        (87 + d) as u8 as char
    }
}

// ---------------------------------------------------------------------------------------------
// White space and case
// ---------------------------------------------------------------------------------------------

/// The characters with the Unicode property `White_Space`.
pub open spec fn is_white_space(c: char) -> bool {
    ||| '\u{9}' <= c <= '\u{d}'
    ||| c == ' '
    ||| c == '\u{85}'
    ||| c == '\u{a0}'
    ||| c == '\u{1680}'
    ||| '\u{2000}' <= c <= '\u{200a}'
    ||| c == '\u{2028}'
    ||| c == '\u{2029}'
    ||| c == '\u{202f}'
    ||| c == '\u{205f}'
    ||| c == '\u{3000}'
}

/// Whether a character is white space.
pub fn white_space(c: char) -> (r: bool)
    ensures
        r == is_white_space(c),
{
    ('\u{9}' <= c && c <= '\u{d}') || c == ' ' || c == '\u{85}' || c == '\u{a0}' || c == '\u{1680}'
        || ('\u{2000}' <= c && c <= '\u{200a}') || c == '\u{2028}' || c == '\u{2029}'
        || c == '\u{202f}' || c == '\u{205f}' || c == '\u{3000}'
}

/// `s` without its leading white space.
pub open spec fn trim_start(s: Seq<char>) -> Seq<char>
    decreases s.len(),
{
    if s.len() > 0 && is_white_space(s[0]) {
        trim_start(s.drop_first())
    } else {
        s
    }
}

/// `s` without its trailing white space.
pub open spec fn trim_end(s: Seq<char>) -> Seq<char>
    decreases s.len(),
{
    if s.len() > 0 && is_white_space(s.last()) {
        trim_end(s.drop_last())
    } else {
        s
    }
}

/// `s` without the white space around it.
pub open spec fn trim(s: Seq<char>) -> Seq<char> {
    trim_end(trim_start(s))
}

/// Trims the characters from `start` up to `end`.
pub fn trimmed_range(chars: &Vec<char>, start: usize, end: usize) -> (r: String)
    requires
        start <= end <= chars@.len(),
    ensures
        r@ == trim(chars@.subrange(start as int, end as int)),
{
    let mut from: usize = start;
    let mut to: usize = end;
    while from < to && white_space(chars[from])
        invariant
            start <= from <= to,
            to == end,
            end <= chars@.len(),
            trim_start(chars@.subrange(start as int, end as int)) == trim_start(
                chars@.subrange(from as int, end as int),
            ),
        decreases to - from,
    {
        assert(chars@.subrange(from as int, end as int).drop_first() =~= chars@.subrange(
            from + 1,
            end as int,
        ));
        from += 1;
    }
    assert(trim_start(chars@.subrange(start as int, end as int)) == chars@.subrange(
        from as int,
        end as int,
    ));
    while from < to && white_space(chars[to - 1])
        invariant
            from <= to <= end,
            end <= chars@.len(),
            trim_end(chars@.subrange(from as int, end as int)) == trim_end(
                chars@.subrange(from as int, to as int),
            ),
        decreases to - from,
    {
        assert(chars@.subrange(from as int, to as int).drop_last() =~= chars@.subrange(
            from as int,
            to - 1,
        ));
        to -= 1;
    }
    string_of(chars, from, to)
}

/// `s` without the white space around it.
pub fn trimmed(s: &str) -> (r: String)
    ensures
        r@ == trim(s@),
{
    let chars = chars_of(s);
    assert(chars@.subrange(0, chars@.len() as int) =~= s@);
    trimmed_range(&chars, 0, chars.len())
}

/// An ASCII capital as its small letter, any other character unchanged.
pub open spec fn ascii_lower(c: char) -> char {
    if 'A' <= c <= 'Z' {
        (c as u8 + 32) as u8 as char
    } else {
        c
    }
}

/// `s` with its ASCII capitals as small letters.
pub open spec fn lower(s: Seq<char>) -> Seq<char> {
    s.map_values(|c: char| ascii_lower(c))
}

/// `s` with its ASCII capitals as small letters.
pub fn lowered(s: &str) -> (r: String)
    ensures
        r@ == lower(s@),
{
    let chars = chars_of(s);
    let mut out = String::new();
    let mut i: usize = 0;
    while i < chars.len()
        invariant
            chars@ == s@,
            i <= chars@.len(),
            out@ == lower(s@.take(i as int)),
        decreases chars@.len() - i,
    {
        let c = chars[i];
        if 'A' <= c && c <= 'Z' {
            let b: u8 = c as u8 + 32;
            out.push(b as char);
        } else {
            out.push(c);
        }
        i += 1;
        assert(out@ =~= lower(s@.take(i as int)));
    }
    assert(s@.take(chars@.len() as int) =~= s@);
    out
}

// ---------------------------------------------------------------------------------------------
// Taking apart and putting together
// ---------------------------------------------------------------------------------------------

/// The texts of a list of strings.
pub open spec fn texts(strings: Seq<String>) -> Seq<Seq<char>> {
    strings.map_values(|s: String| s@)
}

/// The part of `s` before the first `mark`; all of `s` where there is none.
pub open spec fn until(s: Seq<char>, mark: char) -> Seq<char>
    decreases s.len(),
{
    if s.len() == 0 || s[0] == mark {
        Seq::empty()
    } else {
        seq![s[0]] + until(s.drop_first(), mark)
    }
}

/// The number of characters before the first `mark`.
pub fn position_of(chars: &Vec<char>, mark: char) -> (r: usize)
    ensures
        r <= chars@.len(),
        until(chars@, mark) == chars@.take(r as int),
{
    let mut i: usize = 0;
    assert(chars@.skip(0) =~= chars@);
    assert(chars@.take(0) + until(chars@.skip(0), mark) =~= until(chars@, mark));
    while i < chars.len() && chars[i] != mark
        invariant
            i <= chars@.len(),
            until(chars@, mark) == chars@.take(i as int) + until(chars@.skip(i as int), mark),
        decreases chars@.len() - i,
    {
        let ghost rest = chars@.skip(i as int);
        assert(rest.drop_first() =~= chars@.skip(i + 1));
        assert(chars@.take(i as int) + seq![chars@[i as int]] =~= chars@.take(i + 1));
        assert(chars@.take(i as int) + (seq![rest[0]] + until(rest.drop_first(), mark))
            =~= chars@.take(i + 1) + until(chars@.skip(i + 1), mark));
        i += 1;
    }
    assert(until(chars@.skip(i as int), mark) =~= Seq::<char>::empty());
    assert(chars@.take(i as int) + Seq::<char>::empty() =~= chars@.take(i as int));
    i
}

/// The pieces of `s` between the characters `mark`: one more than there are marks.
pub open spec fn split(s: Seq<char>, mark: char) -> Seq<Seq<char>>
    decreases s.len(),
{
    if s.len() == 0 {
        seq![Seq::empty()]
    } else {
        let front = split(s.drop_last(), mark);
        if s.last() == mark {
            front.push(Seq::empty())
        } else {
            front.drop_last().push(front.last().push(s.last()))
        }
    }
}

/// There is always a last piece.
pub proof fn lemma_split_not_empty(s: Seq<char>, mark: char)
    ensures
        split(s, mark).len() > 0,
    decreases s.len(),
{
    if s.len() > 0 {
        lemma_split_not_empty(s.drop_last(), mark);
    }
}

/// A text without the mark is one piece.
pub proof fn lemma_split_none(s: Seq<char>, mark: char)
    requires
        forall|i: int| 0 <= i < s.len() ==> #[trigger] s[i] != mark,
    ensures
        split(s, mark) == seq![s],
    decreases s.len(),
{
    if s.len() > 0 {
        let front = s.drop_last();
        assert forall|i: int| 0 <= i < front.len() implies #[trigger] front[i] != mark by {
            assert(front[i] == s[i]);
        }
        lemma_split_none(front, mark);
        assert(s[s.len() - 1] != mark);
        assert(front.push(s.last()) =~= s);
        assert(split(s, mark) =~= seq![s]);
    } else {
        assert(s =~= Seq::empty());
    }
}

/// The pieces before a mark and those after it are the pieces of both together.
pub proof fn lemma_split_at(s: Seq<char>, mark: char, rest: Seq<char>)
    ensures
        split(s.push(mark) + rest, mark) == split(s, mark) + split(rest, mark),
    decreases rest.len(),
{
    let all = s.push(mark) + rest;
    if rest.len() == 0 {
        assert(all =~= s.push(mark));
        assert(all.drop_last() =~= s);
        assert(split(all, mark) =~= split(s, mark) + split(rest, mark));
    } else {
        let front = rest.drop_last();
        lemma_split_at(s, mark, front);
        lemma_split_not_empty(front, mark);
        assert(all.drop_last() =~= s.push(mark) + front);
        assert(split(all, mark) =~= split(s, mark) + split(rest, mark));
    }
}

/// The pieces of `s` between the characters `mark`, each without the white space around it.
pub fn split_trimmed(s: &str, mark: char) -> (r: Vec<String>)
    ensures
        texts(r@) == split(s@, mark).map_values(|piece: Seq<char>| trim(piece)),
{
    let chars = chars_of(s);
    let mut out: Vec<String> = Vec::new();
    let mut from: usize = 0;
    let mut i: usize = 0;
    let ghost f = |piece: Seq<char>| trim(piece);
    proof {
        lemma_split_not_empty(chars@.take(0), mark);
    }
    while i < chars.len()
        invariant
            chars@ == s@,
            from <= i <= chars@.len(),
            f == (|piece: Seq<char>| trim(piece)),
            split(chars@.take(i as int), mark).len() == out@.len() + 1,
            texts(out@) == split(chars@.take(i as int), mark).drop_last().map_values(f),
            split(chars@.take(i as int), mark).last() == chars@.subrange(from as int, i as int),
        decreases chars@.len() - i,
    {
        let ghost now = split(chars@.take(i as int), mark);
        let ghost next = split(chars@.take(i + 1), mark);
        assert(chars@.take(i + 1).drop_last() =~= chars@.take(i as int));
        if chars[i] == mark {
            let piece = trimmed_range(&chars, from, i);
            let ghost done = texts(out@);
            out.push(piece);
            from = i + 1;
            assert(next.drop_last() =~= now);
            assert(texts(out@) =~= done.push(f(now.last())));
            assert(now.map_values(f) =~= now.drop_last().map_values(f).push(f(now.last())));
            assert(texts(out@) =~= next.drop_last().map_values(f));
            assert(next.last() =~= chars@.subrange(i + 1, i + 1));
        } else {
            assert(next.drop_last() =~= now.drop_last());
            assert(next.last() =~= chars@.subrange(from as int, i + 1));
        }
        i += 1;
    }
    assert(chars@.take(i as int) =~= s@);
    let ghost all = split(s@, mark);
    let ghost done = texts(out@);
    let piece = trimmed_range(&chars, from, i);
    out.push(piece);
    assert(texts(out@) =~= done.push(f(all.last())));
    assert(all.map_values(f) =~= all.drop_last().map_values(f).push(f(all.last())));
    out
}

/// The parts one after the other, with `separator` between each two.
pub open spec fn join(parts: Seq<Seq<char>>, separator: Seq<char>) -> Seq<char>
    decreases parts.len(),
{
    if parts.len() == 0 {
        Seq::empty()
    } else if parts.len() == 1 {
        parts[0]
    } else {
        join(parts.drop_last(), separator) + separator + parts.last()
    }
}

/// Joining one part more.
pub proof fn lemma_join_step(parts: Seq<Seq<char>>, separator: Seq<char>, n: int)
    requires
        0 <= n < parts.len(),
    ensures
        n == 0 ==> join(parts.take(n + 1), separator) == parts[n],
        n > 0 ==> join(parts.take(n + 1), separator) == join(parts.take(n), separator) + separator
            + parts[n],
{
    assert(parts.take(n + 1).drop_last() =~= parts.take(n));
}

/// The parts one after the other, with `separator` between each two.
pub fn joined(parts: &Vec<String>, separator: &str) -> (r: String)
    ensures
        r@ == join(texts(parts@), separator@),
{
    let mut out = String::new();
    let mut i: usize = 0;
    let ghost all = texts(parts@);
    while i < parts.len()
        invariant
            all == texts(parts@),
            i <= parts@.len(),
            out@ == join(all.take(i as int), separator@),
        decreases parts@.len() - i,
    {
        if i > 0 {
            out.push_str(separator);
        }
        out.push_str(parts[i].as_str());
        proof {
            lemma_join_step(all, separator@, i as int);
            if i == 0 {
                assert(out@ =~= parts@[0]@);
            }
        }
        i += 1;
    }
    assert(all.take(i as int) =~= all);
    out
}

/// `part` stands in `s` from position `at` on.
pub open spec fn occurs_at(s: Seq<char>, part: Seq<char>, at: int) -> bool {
    &&& 0 <= at
    &&& at + part.len() <= s.len()
    &&& forall|k: int| 0 <= k < part.len() ==> s[at + k] == #[trigger] part[k]
}

/// `part` stands somewhere in `s`.
pub open spec fn contains(s: Seq<char>, part: Seq<char>) -> bool {
    exists|at: int| #[trigger] occurs_at(s, part, at)
}

/// Whether `part` stands in `whole` from position `at` on.
fn stands_at(whole: &Vec<char>, part: &Vec<char>, at: usize) -> (r: bool)
    requires
        at + part@.len() <= whole@.len(),
    ensures
        r == occurs_at(whole@, part@, at as int),
{
    let end = whole.len();
    let mut k: usize = 0;
    while k < part.len() && whole[at + k] == part[k]
        invariant
            end == whole@.len(),
            at + part@.len() <= end,
            k <= part@.len(),
            forall|j: int| 0 <= j < k ==> whole@[at + j] == #[trigger] part@[j],
        decreases part@.len() - k,
    {
        k += 1;
    }
    if k < part.len() {
        assert(whole@[at + k] != part@[k as int]);
    }
    k == part.len()
}

/// Whether `part` stands somewhere in `s`.
pub fn has_part(s: &str, part: &str) -> (r: bool)
    ensures
        r == contains(s@, part@),
{
    let whole = chars_of(s);
    let sought = chars_of(part);
    if sought.len() > whole.len() {
        return false;
    }
    let last = whole.len() - sought.len();
    let mut at: usize = 0;
    while at < last
        invariant
            whole@ == s@,
            sought@ == part@,
            last + sought@.len() == whole@.len(),
            at <= last,
            forall|k: int| 0 <= k < at ==> !#[trigger] occurs_at(s@, part@, k),
        decreases last - at,
    {
        if stands_at(&whole, &sought, at) {
            return true;
        }
        at += 1;
    }
    stands_at(&whole, &sought, last)
}

/// A text holds itself.
pub proof fn lemma_contains_itself(s: Seq<char>)
    ensures
        contains(s, s),
{
    assert(occurs_at(s, s, 0));
}

/// Two texts together hold what one of them holds.
pub proof fn lemma_contains_in_sum(a: Seq<char>, b: Seq<char>, piece: Seq<char>)
    ensures
        contains(a, piece) ==> contains(a + b, piece),
        contains(b, piece) ==> contains(a + b, piece),
{
    if contains(a, piece) {
        let at = choose|at: int| #[trigger] occurs_at(a, piece, at);
        assert(occurs_at(a + b, piece, at));
    }
    if contains(b, piece) {
        let at = choose|at: int| #[trigger] occurs_at(b, piece, at);
        assert forall|k: int| 0 <= k < piece.len() implies (a + b)[a.len() + at + k]
            == #[trigger] piece[k] by {
            assert(b[at + k] == piece[k]);
        }
        assert(occurs_at(a + b, piece, a.len() + at));
    }
}

/// Parts stand in what they are joined to.
pub proof fn lemma_join_contains(parts: Seq<Seq<char>>, separator: Seq<char>, i: int)
    requires
        0 <= i < parts.len(),
    ensures
        contains(join(parts, separator), parts[i]),
    decreases parts.len(),
{
    if parts.len() == 1 {
        lemma_contains_itself(parts[0]);
    } else {
        let front = join(parts.drop_last(), separator);
        if i < parts.len() - 1 {
            lemma_join_contains(parts.drop_last(), separator, i);
            lemma_contains_in_sum(front, separator, parts[i]);
        } else {
            lemma_contains_itself(parts[i]);
        }
        lemma_contains_in_sum(front + separator, parts.last(), parts[i]);
    }
}

/// `s` without the characters `mark` at its end.
pub open spec fn without_end(s: Seq<char>, mark: char) -> Seq<char>
    decreases s.len(),
{
    if s.len() > 0 && s.last() == mark {
        without_end(s.drop_last(), mark)
    } else {
        s
    }
}

/// `s` without the characters `mark` at its end.
pub fn strip_end(s: &str, mark: char) -> (r: String)
    ensures
        r@ == without_end(s@, mark),
{
    let chars = chars_of(s);
    let mut end: usize = chars.len();
    assert(chars@.take(end as int) =~= s@);
    while end > 0 && chars[end - 1] == mark
        invariant
            end <= chars@.len(),
            without_end(s@, mark) == without_end(chars@.take(end as int), mark),
        decreases end,
    {
        assert(chars@.take(end as int).drop_last() =~= chars@.take(end - 1));
        end -= 1;
    }
    assert(chars@.subrange(0, end as int) =~= chars@.take(end as int));
    string_of(&chars, 0, end)
}

/// So many spaces.
pub open spec fn spaces(n: nat) -> Seq<char> {
    Seq::new(n, |i: int| ' ')
}

/// Appends so many spaces.
pub fn push_spaces(out: &mut String, n: usize)
    ensures
        final(out)@ == old(out)@ + spaces(n as nat),
{
    let ghost start = out@;
    let mut i: usize = 0;
    assert(out@ =~= start + spaces(0));
    while i < n
        invariant
            i <= n,
            out@ == start + spaces(i as nat),
        decreases n - i,
    {
        out.push(' ');
        i += 1;
        assert(out@ =~= start + spaces(i as nat));
    }
}

/// The bytes of a string.
pub fn bytes_of(s: &str) -> (r: Vec<u8>)
    ensures
        r@ == encode_utf8(s@),
{
    let bytes = s.as_bytes();
    let mut out: Vec<u8> = Vec::new();
    let mut i: usize = 0;
    while i < bytes.len()
        invariant
            bytes@ == encode_utf8(s@),
            i <= bytes@.len(),
            out@ == bytes@.take(i as int),
        decreases bytes@.len() - i,
    {
        out.push(bytes[i]);
        i += 1;
    }
    assert(bytes@.take(i as int) =~= bytes@);
    out
}

} // verus!
