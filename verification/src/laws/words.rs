//! Texts: what trimming, cutting and joining leave of them.

use vstd::prelude::*;
use vstd::utf8::encode_utf8;

use crate::text::{
    before, decides, is_white_space, join, lemma_before_asymmetric, lemma_split_at, lemma_split_none, lower, split, trim, trim_end,
    trim_start, until, without_end,
};

verus! {

/// All characters of `s` are white space.
pub open spec fn is_blank(s: Seq<char>) -> bool {
    forall|i: int| 0 <= i < s.len() ==> is_white_space(#[trigger] s[i])
}

/// `s` neither begins nor ends with white space.
pub open spec fn is_bare(s: Seq<char>) -> bool {
    s.len() > 0 ==> !is_white_space(s[0]) && !is_white_space(s.last())
}

/// White space are the characters that Unicode counts as such, by their codes.
pub proof fn lemma_white_space(c: char)
    ensures
        is_white_space(c) <==> {
            let code = c as int;
            ||| 9 <= code <= 13
            ||| code == 32
            ||| code == 133
            ||| code == 160
            ||| code == 5760
            ||| 8192 <= code <= 8202
            ||| code == 8232
            ||| code == 8233
            ||| code == 8239
            ||| code == 8287
            ||| code == 12288
        },
{
}

proof fn lemma_trim_start(s: Seq<char>) -> (at: int)
    ensures
        0 <= at <= s.len(),
        trim_start(s) == s.skip(at),
        is_blank(s.take(at)),
        at < s.len() ==> !is_white_space(s[at]),
    decreases s.len(),
{
    if s.len() > 0 && is_white_space(s[0]) {
        let rest = s.drop_first();
        let at = lemma_trim_start(rest);
        assert(s.skip(at + 1) =~= rest.skip(at));
        assert forall|i: int| 0 <= i < s.take(at + 1).len() implies is_white_space(
            #[trigger] s.take(at + 1)[i],
        ) by {
            if i > 0 {
                assert(rest.take(at)[i - 1] == s[i]);
            }
        }
        if at < rest.len() {
            assert(rest[at] == s[at + 1]);
        }
        at + 1
    } else {
        assert(s.skip(0) =~= s);
        0
    }
}

proof fn lemma_trim_end(s: Seq<char>) -> (at: int)
    ensures
        0 <= at <= s.len(),
        trim_end(s) == s.take(at),
        is_blank(s.skip(at)),
        at > 0 ==> !is_white_space(s[at - 1]),
    decreases s.len(),
{
    if s.len() > 0 && is_white_space(s.last()) {
        let rest = s.drop_last();
        let at = lemma_trim_end(rest);
        assert(s.take(at) =~= rest.take(at));
        assert forall|i: int| 0 <= i < s.skip(at).len() implies is_white_space(
            #[trigger] s.skip(at)[i],
        ) by {
            if at + i < rest.len() {
                assert(rest.skip(at)[i] == s[at + i]);
            }
        }
        at
    } else {
        assert(s.take(s.len() as int) =~= s);
        s.len() as int
    }
}

/// `t` stands in `s` with nothing but white space around it.
pub open spec fn stands_in(s: Seq<char>, t: Seq<char>) -> bool {
    exists|from: int, to: int| #[trigger] is_core(s, t, from, to)
}

/// `t` stands in `s` from `from` up to `to`, and the rest of `s` is white space.
pub open spec fn is_core(s: Seq<char>, t: Seq<char>, from: int, to: int) -> bool {
    &&& 0 <= from <= to <= s.len()
    &&& t == s.subrange(from, to)
    &&& is_blank(s.take(from))
    &&& is_blank(s.skip(to))
}

/// Trimming takes away the white space around a text and nothing else, and leaves none of it.
pub proof fn lemma_trim(s: Seq<char>)
    ensures
        is_bare(trim(s)),
        stands_in(s, trim(s)),
        trim(s).len() == 0 <==> is_blank(s),
{
    let from = lemma_trim_start(s);
    let rest = trim_start(s);
    let n = lemma_trim_end(rest);
    let to = from + n;
    assert(trim(s) =~= s.subrange(from, to));
    assert forall|i: int| 0 <= i < s.skip(to).len() implies is_white_space(
        #[trigger] s.skip(to)[i],
    ) by {
        assert(rest.skip(n)[i] == s[to + i]);
    }
    assert(is_core(s, trim(s), from, to));
    if n > 0 {
        assert(trim(s)[0] == s[from]);
        assert(rest[n - 1] == s[to - 1]);
        assert(!is_white_space(s[from]));
    } else {
        assert forall|i: int| 0 <= i < s.len() implies is_white_space(#[trigger] s[i]) by {
            if i < from {
                assert(s.take(from)[i] == s[i]);
            } else {
                assert(s.skip(to)[i - to] == s[i]);
            }
        }
    }
}

/// Trimming finds what was put between white space.
pub proof fn lemma_trim_finds(front: Seq<char>, core: Seq<char>, back: Seq<char>)
    requires
        is_blank(front),
        is_blank(back),
        is_bare(core),
        core.len() > 0,
    ensures
        trim(front + core + back) == core,
{
    let s = front + core + back;
    let from = lemma_trim_start(s);
    let rest = trim_start(s);
    let n = lemma_trim_end(rest);
    let a = front.len() as int;
    let b = a + core.len();
    assert(s[a] == core[0]);
    assert(s[b - 1] == core.last());
    if from < a {
        assert(s[from] == front[from]);
    } else if from > a {
        assert(s.take(from)[a] == s[a]);
    }
    assert(rest =~= core + back);
    if n > core.len() {
        assert(rest[n - 1] == back[n - 1 - core.len()]);
    } else if n < core.len() {
        assert(rest.skip(n)[core.len() - 1 - n] == core.last());
    }
    assert(trim(s) =~= core);
}

/// A text that stands in another with nothing but white space around it is what trimming leaves.
pub proof fn lemma_trim_is_the_core(s: Seq<char>, t: Seq<char>)
    requires
        stands_in(s, t),
        is_bare(t),
        t.len() > 0,
    ensures
        trim(s) == t,
{
    let (from, to) = choose|from: int, to: int| #[trigger] is_core(s, t, from, to);
    lemma_trim_finds(s.take(from), t, s.skip(to));
    assert(s.take(from) + t + s.skip(to) =~= s);
}

/// Small letters stay and capitals become the small letter that is 32 places behind them; nothing
/// else changes, and doing it again changes nothing.
pub proof fn lemma_lower(s: Seq<char>)
    ensures
        lower(s).len() == s.len(),
        forall|i: int|
            0 <= i < s.len() ==> (#[trigger] lower(s)[i]) as int == if 65 <= s[i] as int <= 90 {
                s[i] as int + 32
            } else {
                s[i] as int
            },
        lower(lower(s)) == lower(s),
{
    assert(lower(lower(s)) =~= lower(s));
}

/// What stands before the first mark is a beginning of the text without the mark in it; the text
/// goes on with the mark or ends there.
pub proof fn lemma_until(s: Seq<char>, mark: char)
    ensures
        until(s, mark).len() <= s.len(),
        until(s, mark) == s.take(until(s, mark).len() as int),
        !until(s, mark).contains(mark),
        until(s, mark).len() < s.len() ==> s[until(s, mark).len() as int] == mark,
    decreases s.len(),
{
    if s.len() > 0 && s[0] != mark {
        let rest = s.drop_first();
        lemma_until(rest, mark);
        let t = until(rest, mark);
        let all = until(s, mark);
        assert(all =~= s.take(all.len() as int)) by {
            assert forall|i: int| 0 <= i < all.len() implies all[i] == s[i] by {
                if i > 0 {
                    assert(t[i - 1] == rest.take(t.len() as int)[i - 1]);
                }
            }
        }
        assert forall|i: int| 0 <= i < all.len() implies all[i] != mark by {
            if i > 0 {
                assert(t[i - 1] == all[i]);
                assert(t.contains(t[i - 1]));
            }
        }
        if all.len() < s.len() {
            assert(rest[t.len() as int] == s[all.len() as int]);
        }
    }
}

/// The pieces of a text hold no mark, and joined by marks they are the text again.
pub proof fn lemma_split_joins(s: Seq<char>, mark: char)
    ensures
        split(s, mark).len() > 0,
        join(split(s, mark), seq![mark]) == s,
        forall|i: int|
            0 <= i < split(s, mark).len() ==> !(#[trigger] split(s, mark)[i]).contains(mark),
    decreases s.len(),
{
    let all = split(s, mark);
    let glue = seq![mark];
    if s.len() == 0 {
        assert(join(all, glue) =~= s);
        assert(all[0].len() == 0);
    } else {
        let front = split(s.drop_last(), mark);
        lemma_split_joins(s.drop_last(), mark);
        if s.last() == mark {
            assert(all.drop_last() =~= front);
            assert(join(all, glue) =~= join(front, glue) + glue + all.last());
            assert(join(all, glue) =~= s);
            assert forall|i: int| 0 <= i < all.len() implies !(#[trigger] all[i]).contains(
                mark,
            ) by {
                if i < front.len() {
                    assert(all[i] == front[i]);
                }
            }
        } else {
            let last = front.last().push(s.last());
            assert(all.drop_last() =~= front.drop_last());
            assert(all.last() == last);
            if front.len() == 1 {
                assert(join(front, glue) == front[0]);
                assert(join(all, glue) =~= s);
            } else {
                assert(join(all, glue) =~= join(front, glue).push(s.last()));
                assert(join(all, glue) =~= s);
            }
            assert forall|i: int| 0 <= i < all.len() implies !(#[trigger] all[i]).contains(
                mark,
            ) by {
                if i < front.len() - 1 {
                    assert(all[i] == front[i]);
                } else {
                    assert(all[i] == last);
                    assert(!front[front.len() - 1].contains(mark));
                    assert forall|k: int| 0 <= k < last.len() implies last[k] != mark by {
                        if k < last.len() - 1 {
                            assert(front.last()[k] == last[k]);
                            assert(front[front.len() - 1].contains(front.last()[k]));
                        }
                    }
                }
            }
        }
    }
}

/// A line between two line feeds is one of the pieces that a text is cut into at its line feeds.
pub proof fn lemma_split_finds(front: Seq<char>, line: Seq<char>, back: Seq<char>, mark: char)
    requires
        !line.contains(mark),
    ensures
        split(front.push(mark) + line.push(mark) + back, mark).contains(line),
{
    assert forall|i: int| 0 <= i < line.len() implies #[trigger] line[i] != mark by {
        assert(line.contains(line[i]));
    }
    lemma_split_none(line, mark);
    lemma_split_at(line, mark, back);
    lemma_split_at(front, mark, line.push(mark) + back);
    let all = split(front.push(mark) + line.push(mark) + back, mark);
    assert(front.push(mark) + line.push(mark) + back =~= front.push(mark) + (line.push(mark)
        + back));
    let n = split(front, mark).len() as int;
    assert(all[n] == line);
}

/// Taking a mark off the end of a text leaves a beginning of it that does not end with the mark,
/// and takes nothing else away.
pub proof fn lemma_without_end(s: Seq<char>, mark: char)
    ensures
        without_end(s, mark).len() <= s.len(),
        without_end(s, mark) == s.take(without_end(s, mark).len() as int),
        without_end(s, mark).len() > 0 ==> without_end(s, mark).last() != mark,
        forall|i: int| without_end(s, mark).len() <= i < s.len() ==> #[trigger] s[i] == mark,
    decreases s.len(),
{
    if s.len() > 0 && s.last() == mark {
        let front = s.drop_last();
        lemma_without_end(front, mark);
        let t = without_end(front, mark);
        assert(s.take(t.len() as int) =~= front.take(t.len() as int));
        assert forall|i: int| t.len() <= i < s.len() implies #[trigger] s[i] == mark by {
            if i < front.len() {
                assert(front[i] == s[i]);
            }
        }
    } else {
        assert(s.take(s.len() as int) =~= s);
    }
}

/// Of two texts the one comes first that ends where the other goes on, or that has the smaller byte
/// where they begin to differ.
pub proof fn lemma_order_of_texts(a: Seq<char>, b: Seq<char>, n: int)
    requires
        0 <= n <= encode_utf8(a).len(),
        n <= encode_utf8(b).len(),
        encode_utf8(a).take(n) == encode_utf8(b).take(n),
    ensures
        n == encode_utf8(a).len() && n < encode_utf8(b).len() ==> before(a, b),
        n < encode_utf8(a).len() && n < encode_utf8(b).len() && encode_utf8(a)[n] < encode_utf8(
            b,
        )[n] ==> before(a, b) && !before(b, a),
{
    let x = encode_utf8(a);
    let y = encode_utf8(b);
    assert forall|k: int| 0 <= k < n implies x[k] == y[k] by {
        assert(x.take(n)[k] == y.take(n)[k]);
    }
    if n < y.len() && (n == x.len() || x[n] < y[n]) {
        assert(decides(x, y, n));
        lemma_before_asymmetric(a, b);
    }
}

} // verus!
