//! What a reader of JSON text gets back: the text of an object tells which members it has.

use vstd::prelude::*;

use crate::json::{
    array_text, cell_texts, escape, escaped, is_digits, is_exponent, is_fraction, is_json,
    is_number, member_text, number_of, object_text, quote, Cells,
};
use crate::text::{decimal, digit, hex_digit, join};

verus! {

// ---------------------------------------------------------------------------------------------
// Strings
// ---------------------------------------------------------------------------------------------

/// What a hexadecimal digit stands for.
pub open spec fn hex_value(c: char) -> int {
    if '0' <= c <= '9' {
        c as int - 48
    } else {
        c as int - 87
    }
}

/// What a letter behind a backslash stands for.
pub open spec fn short_escape(c: char) -> char {
    if c == 'b' {
        '\u{8}'
    } else if c == 't' {
        '\u{9}'
    } else if c == 'n' {
        '\u{a}'
    } else if c == 'f' {
        '\u{c}'
    } else if c == 'r' {
        '\u{d}'
    } else {
        c
    }
}

/// The text that is written inside a JSON string as `s`.
pub open spec fn unescape(s: Seq<char>) -> Seq<char>
    decreases s.len(),
{
    if s.len() == 0 {
        Seq::empty()
    } else if s[0] != '\\' || s.len() < 2 {
        seq![s[0]] + unescape(s.skip(1))
    } else if s[1] == 'u' && s.len() >= 6 {
        let code = hex_value(s[2]) * 4096 + hex_value(s[3]) * 256 + hex_value(s[4]) * 16
            + hex_value(s[5]);
        seq![code as char] + unescape(s.skip(6))
    } else {
        seq![short_escape(s[1])] + unescape(s.skip(2))
    }
}

proof fn lemma_hex_value(d: int)
    requires
        0 <= d < 16,
    ensures
        hex_value(hex_digit(d)) == d,
{
}

proof fn lemma_unescape_first(c: char, rest: Seq<char>)
    ensures
        unescape(escaped(c) + rest) == seq![c] + unescape(rest),
{
    let whole = escaped(c) + rest;
    assert(whole.skip(escaped(c).len() as int) =~= rest);
    if escaped(c).len() == 6 {
        lemma_hex_value(c as int / 16);
        lemma_hex_value(c as int % 16);
        lemma_hex_value(0);
        assert(hex_value('0') == 0);
        assert(whole[2] == '0' && whole[3] == '0');
        assert(whole[4] == hex_digit(c as int / 16));
        assert(whole[5] == hex_digit(c as int % 16));
    }
}

proof fn lemma_escape_first(s: Seq<char>)
    requires
        s.len() > 0,
    ensures
        escape(s) == escaped(s[0]) + escape(s.skip(1)),
    decreases s.len(),
{
    let front = s.drop_last();
    if front.len() == 0 {
        assert(s.skip(1) =~= Seq::empty());
        assert(escape(front) + escaped(s.last()) =~= escaped(s[0]) + escape(s.skip(1)));
    } else {
        lemma_escape_first(front);
        assert(s.skip(1).drop_last() =~= front.skip(1));
        assert(escaped(s[0]) + escape(front.skip(1)) + escaped(s.last()) =~= escaped(s[0]) + (
        escape(front.skip(1)) + escaped(s.last())));
    }
}

/// Reading a JSON string gives the text back that it was written for.
pub proof fn lemma_string_reads_back(s: Seq<char>)
    ensures
        unescape(escape(s)) == s,
    decreases s.len(),
{
    if s.len() == 0 {
        assert(unescape(escape(s)) =~= s);
    } else {
        lemma_string_reads_back(s.skip(1));
        lemma_escape_first(s);
        lemma_unescape_first(s[0], escape(s.skip(1)));
        assert(seq![s[0]] + s.skip(1) =~= s);
    }
}

// ---------------------------------------------------------------------------------------------
// Going through a text
// ---------------------------------------------------------------------------------------------

/// Where a reader stands who goes through a text: inside how many brackets, and whether inside a
/// string and behind a backslash.
pub ghost struct Scan {
    pub depth: int,
    pub in_string: bool,
    pub escaped: bool,
}

/// Inside so many brackets, and not inside a string.
pub open spec fn outside(depth: int) -> Scan {
    Scan { depth, in_string: false, escaped: false }
}

/// Inside a string, and not behind a backslash.
pub open spec fn inside(depth: int) -> Scan {
    Scan { depth, in_string: true, escaped: false }
}

/// Where the reader stands one character further.
pub open spec fn stepped(scan: Scan, c: char) -> Scan {
    if scan.in_string {
        if scan.escaped {
            Scan { escaped: false, ..scan }
        } else if c == '\\' {
            Scan { escaped: true, ..scan }
        } else if c == '"' {
            Scan { in_string: false, ..scan }
        } else {
            scan
        }
    } else if c == '"' {
        Scan { in_string: true, ..scan }
    } else if c == '[' || c == '{' {
        Scan { depth: scan.depth + 1, ..scan }
    } else if c == ']' || c == '}' {
        Scan { depth: scan.depth - 1, ..scan }
    } else {
        scan
    }
}

/// Where the reader stands after a text.
pub open spec fn scanned(scan: Scan, text: Seq<char>) -> Scan
    decreases text.len(),
{
    if text.len() == 0 {
        scan
    } else {
        stepped(scanned(scan, text.drop_last()), text.last())
    }
}

proof fn lemma_scanned_one(scan: Scan, c: char)
    ensures
        scanned(scan, seq![c]) == stepped(scan, c),
{
    reveal_with_fuel(scanned, 2);
    assert(seq![c].drop_last() =~= Seq::empty());
}

proof fn lemma_scanned_add(scan: Scan, a: Seq<char>, b: Seq<char>)
    ensures
        scanned(scan, a + b) == scanned(scanned(scan, a), b),
    decreases b.len(),
{
    if b.len() == 0 {
        assert(a + b =~= a);
    } else {
        assert((a + b).drop_last() =~= a + b.drop_last());
        lemma_scanned_add(scan, a, b.drop_last());
    }
}

/// Where the reader stands after the first `i` characters of two texts together.
proof fn lemma_scanned_part(scan: Scan, a: Seq<char>, b: Seq<char>, i: int)
    requires
        0 <= i <= a.len() + b.len(),
    ensures
        i <= a.len() ==> scanned(scan, (a + b).take(i)) == scanned(scan, a.take(i)),
        i >= a.len() ==> scanned(scan, (a + b).take(i)) == scanned(
            scanned(scan, a),
            b.take(i - a.len()),
        ),
{
    if i <= a.len() {
        assert((a + b).take(i) =~= a.take(i));
    }
    if i >= a.len() {
        assert((a + b).take(i) =~= a + b.take(i - a.len()));
        lemma_scanned_add(scan, a, b.take(i - a.len()));
    }
}

/// After a text the reader is where they were before it, and on the way never inside fewer
/// brackets.
pub open spec fn stays(text: Seq<char>, depth: int) -> bool {
    &&& scanned(outside(depth), text) == outside(depth)
    &&& forall|i: int|
        0 <= i <= text.len() ==> (#[trigger] scanned(outside(depth), text.take(i))).depth >= depth
}

/// No comma stands inside as many brackets as the text begins in, outside of strings.
pub open spec fn no_comma(text: Seq<char>, depth: int) -> bool {
    forall|i: int|
        0 <= i < text.len() && #[trigger] scanned(outside(depth), text.take(i)) == outside(depth)
            ==> text[i] != ','
}

/// The text is of one piece.
pub open spec fn is_whole(text: Seq<char>, depth: int) -> bool {
    stays(text, depth) && no_comma(text, depth)
}

proof fn lemma_stays_add(a: Seq<char>, b: Seq<char>, depth: int)
    requires
        stays(a, depth),
        stays(b, depth),
    ensures
        stays(a + b, depth),
{
    lemma_scanned_add(outside(depth), a, b);
    assert forall|i: int| 0 <= i <= (a + b).len() implies (#[trigger] scanned(
        outside(depth),
        (a + b).take(i),
    )).depth >= depth by {
        lemma_scanned_part(outside(depth), a, b, i);
        if i <= a.len() {
            assert(scanned(outside(depth), a.take(i)).depth >= depth);
        } else {
            assert(scanned(outside(depth), b.take(i - a.len())).depth >= depth);
        }
    }
}

proof fn lemma_whole_add(a: Seq<char>, b: Seq<char>, depth: int)
    requires
        is_whole(a, depth),
        is_whole(b, depth),
    ensures
        is_whole(a + b, depth),
{
    lemma_stays_add(a, b, depth);
    assert forall|i: int| 0 <= i < (a + b).len() && #[trigger] scanned(
        outside(depth),
        (a + b).take(i),
    ) == outside(depth) implies (a + b)[i] != ',' by {
        lemma_scanned_part(outside(depth), a, b, i);
        if i < a.len() {
            assert(scanned(outside(depth), a.take(i)) == outside(depth));
        } else {
            assert(scanned(outside(depth), b.take(i - a.len())) == outside(depth));
        }
    }
}

/// Characters by which a reader moves neither into nor out of anything.
pub open spec fn is_level(c: char) -> bool {
    c != '"' && c != '[' && c != ']' && c != '{' && c != '}'
}

proof fn lemma_level_text(text: Seq<char>, depth: int)
    requires
        forall|i: int| 0 <= i < text.len() ==> is_level(#[trigger] text[i]),
    ensures
        stays(text, depth),
    decreases text.len(),
{
    if text.len() > 0 {
        let front = text.drop_last();
        assert forall|i: int| 0 <= i < front.len() implies is_level(#[trigger] front[i]) by {
            assert(front[i] == text[i]);
        }
        lemma_level_text(front, depth);
        assert(is_level(text[text.len() - 1]));
        assert forall|i: int| 0 <= i <= text.len() implies (#[trigger] scanned(
            outside(depth),
            text.take(i),
        )).depth >= depth by {
            if i < text.len() {
                assert(text.take(i) =~= front.take(i));
                assert(scanned(outside(depth), front.take(i)).depth >= depth);
            } else {
                assert(text.take(i) =~= text);
            }
        }
    } else {
        assert forall|i: int| 0 <= i <= text.len() implies (#[trigger] scanned(
            outside(depth),
            text.take(i),
        )).depth >= depth by {
            assert(text.take(i) =~= text);
        }
    }
}

proof fn lemma_level_whole(text: Seq<char>, depth: int)
    requires
        forall|i: int| 0 <= i < text.len() ==> is_level(#[trigger] text[i]) && text[i] != ',',
    ensures
        is_whole(text, depth),
{
    lemma_level_text(text, depth);
}

proof fn lemma_decimal_level(n: nat)
    ensures
        forall|i: int| 0 <= i < decimal(n).len() ==> '0' <= #[trigger] decimal(n)[i] <= '9',
    decreases n,
{
    assert(forall|d: int| 0 <= d < 10 ==> '0' <= #[trigger] digit(d) <= '9');
    if n >= 10 {
        let front = decimal(n / 10);
        lemma_decimal_level(n / 10);
        assert forall|i: int| 0 <= i < decimal(n).len() implies '0' <= #[trigger] decimal(n)[i]
            <= '9' by {
            if i < front.len() {
                assert(decimal(n)[i] == front[i]);
            } else {
                assert(decimal(n)[i] == digit((n % 10) as int));
            }
        }
    } else {
        assert(decimal(n)[0] == digit(n as int));
    }
}

proof fn lemma_number_whole(text: Seq<char>, depth: int)
    requires
        is_number(text),
    ensures
        is_whole(text, depth),
{
    let (minus, whole, fraction, exponent) = choose|
        minus: bool,
        whole: nat,
        fraction: Seq<char>,
        exponent: Seq<char>,
    |
        text == #[trigger] number_of(minus, whole, fraction, exponent) && is_fraction(fraction)
            && is_exponent(exponent);
    lemma_decimal_level(whole);
    assert forall|i: int| 0 <= i < fraction.len() implies is_level(#[trigger] fraction[i])
        && fraction[i] != ',' by {
        if i > 0 {
            assert(fraction.skip(1)[i - 1] == fraction[i]);
        }
    }
    assert forall|i: int| 0 <= i < exponent.len() implies is_level(#[trigger] exponent[i])
        && exponent[i] != ',' by {
        if i > 0 && is_digits(exponent.skip(1)) {
            assert(exponent.skip(1)[i - 1] == exponent[i]);
        } else if i > 1 {
            assert(exponent.skip(2)[i - 2] == exponent[i]);
        }
    }
    lemma_level_whole(text, depth);
}

proof fn lemma_word_whole(text: Seq<char>, depth: int)
    requires
        text == "null"@ || text == "true"@ || text == "false"@,
    ensures
        is_whole(text, depth),
{
    reveal_strlit("null");
    reveal_strlit("true");
    reveal_strlit("false");
    lemma_level_whole(text, depth);
}

/// A reader stays inside a string through all that an escaped character is written as.
proof fn lemma_escaped_inside(c: char, depth: int, i: int)
    requires
        0 <= i <= escaped(c).len(),
    ensures
        scanned(inside(depth), escaped(c).take(i)).in_string,
        scanned(inside(depth), escaped(c).take(i)).depth == depth,
        i == escaped(c).len() ==> scanned(inside(depth), escaped(c).take(i)) == inside(depth),
    decreases i,
{
    let text = escaped(c);
    if i > 0 {
        lemma_escaped_inside(c, depth, i - 1);
        assert(text.take(i).drop_last() =~= text.take(i - 1));
        assert(text.take(i).last() == text[i - 1]);
        if i == 1 {
            assert(text.take(0) =~= Seq::empty());
        }
        if i >= 2 {
            lemma_scanned_one(inside(depth), '\\');
            assert(text.take(1) =~= seq!['\\']);
        }
        if i >= 3 {
            lemma_unicode_inside(c, depth, i);
        }
    } else {
        assert(text.take(0) =~= Seq::empty());
    }
}

/// The same for the characters that are written by their code.
proof fn lemma_unicode_inside(c: char, depth: int, i: int)
    requires
        escaped(c).len() == 6,
        2 <= i <= 6,
    ensures
        scanned(inside(depth), escaped(c).take(i)) == inside(depth),
    decreases i,
{
    let text = escaped(c);
    assert(text.take(i).drop_last() =~= text.take(i - 1));
    assert(text.take(i).last() == text[i - 1]);
    if i == 2 {
        lemma_scanned_one(inside(depth), '\\');
        assert(text.take(1) =~= seq!['\\']);
    } else {
        lemma_unicode_inside(c, depth, i - 1);
        assert(forall|d: int|
            0 <= d < 16 ==> #[trigger] hex_digit(d) != '"' && hex_digit(d) != '\\');
        assert(text[i - 1] != '"' && text[i - 1] != '\\');
    }
}

/// A reader stays inside a string through all that stands in it.
proof fn lemma_escape_inside(s: Seq<char>, depth: int)
    ensures
        scanned(inside(depth), escape(s)) == inside(depth),
        forall|i: int|
            0 <= i <= escape(s).len() ==> (#[trigger] scanned(
                inside(depth),
                escape(s).take(i),
            )).in_string && scanned(inside(depth), escape(s).take(i)).depth == depth,
    decreases s.len(),
{
    let text = escape(s);
    if s.len() > 0 {
        let front = escape(s.drop_last());
        let last = escaped(s.last());
        lemma_escape_inside(s.drop_last(), depth);
        lemma_scanned_add(inside(depth), front, last);
        lemma_escaped_inside(s.last(), depth, last.len() as int);
        assert(last.take(last.len() as int) =~= last);
        assert forall|i: int| 0 <= i <= text.len() implies (#[trigger] scanned(
            inside(depth),
            text.take(i),
        )).in_string && scanned(inside(depth), text.take(i)).depth == depth by {
            lemma_scanned_part(inside(depth), front, last, i);
            if i <= front.len() {
                assert(scanned(inside(depth), front.take(i)).in_string);
            } else {
                lemma_escaped_inside(s.last(), depth, i - front.len());
            }
        }
    } else {
        assert forall|i: int| 0 <= i <= text.len() implies (#[trigger] scanned(
            inside(depth),
            text.take(i),
        )).in_string && scanned(inside(depth), text.take(i)).depth == depth by {
            assert(text.take(i) =~= Seq::empty());
        }
    }
}

/// A reader is inside a string from its first quotation mark to its last one.
proof fn lemma_quote_scanned(s: Seq<char>, depth: int)
    ensures
        scanned(outside(depth), quote(s)) == outside(depth),
        forall|i: int|
            1 <= i < quote(s).len() ==> (#[trigger] scanned(
                outside(depth),
                quote(s).take(i),
            )).in_string && scanned(outside(depth), quote(s).take(i)).depth == depth,
{
    let text = quote(s);
    let mark = seq!['"'];
    lemma_escape_inside(s, depth);
    lemma_scanned_one(outside(depth), '"');
    lemma_scanned_one(inside(depth), '"');
    lemma_scanned_add(outside(depth), mark, escape(s));
    lemma_scanned_add(outside(depth), mark + escape(s), mark);
    assert forall|i: int| 1 <= i < text.len() implies (#[trigger] scanned(
        outside(depth),
        text.take(i),
    )).in_string && scanned(outside(depth), text.take(i)).depth == depth by {
        lemma_scanned_part(outside(depth), mark + escape(s), mark, i);
        lemma_scanned_part(outside(depth), mark, escape(s), i);
        assert(scanned(inside(depth), escape(s).take(i - 1)).in_string);
    }
}

proof fn lemma_quote_whole(s: Seq<char>, depth: int)
    ensures
        is_whole(quote(s), depth),
{
    let text = quote(s);
    lemma_quote_scanned(s, depth);
    assert forall|i: int| 0 <= i <= text.len() implies (#[trigger] scanned(
        outside(depth),
        text.take(i),
    )).depth >= depth by {
        if i == 0 {
            assert(text.take(i) =~= Seq::empty());
        } else if i == text.len() {
            assert(text.take(i) =~= text);
        }
    }
}

/// What stands in brackets is of one piece.
proof fn lemma_brackets_whole(open: char, inner: Seq<char>, close: char, depth: int)
    requires
        open == '[' || open == '{',
        close == ']' || close == '}',
        stays(inner, depth + 1),
    ensures
        is_whole(seq![open] + inner + seq![close], depth),
{
    let text = seq![open] + inner + seq![close];
    lemma_scanned_one(outside(depth), open);
    lemma_scanned_one(outside(depth + 1), close);
    lemma_scanned_add(outside(depth), seq![open], inner);
    lemma_scanned_add(outside(depth), seq![open] + inner, seq![close]);
    assert forall|i: int| 1 <= i < text.len() implies (#[trigger] scanned(
        outside(depth),
        text.take(i),
    )).depth > depth by {
        lemma_scanned_part(outside(depth), seq![open] + inner, seq![close], i);
        lemma_scanned_part(outside(depth), seq![open], inner, i);
        assert(scanned(outside(depth + 1), inner.take(i - 1)).depth >= depth + 1);
    }
    assert forall|i: int| 0 <= i <= text.len() implies (#[trigger] scanned(
        outside(depth),
        text.take(i),
    )).depth >= depth by {
        if i == 0 {
            assert(text.take(i) =~= Seq::empty());
        } else if i == text.len() {
            assert(text.take(i) =~= text);
        }
    }
}

proof fn lemma_join_stays(parts: Seq<Seq<char>>, depth: int)
    requires
        forall|i: int| 0 <= i < parts.len() ==> stays(#[trigger] parts[i], depth),
    ensures
        stays(join(parts, seq![',']), depth),
    decreases parts.len(),
{
    if parts.len() == 0 {
        lemma_level_text(Seq::empty(), depth);
    } else if parts.len() == 1 {
        assert(stays(parts[0], depth));
    } else {
        let front = parts.drop_last();
        assert forall|i: int| 0 <= i < front.len() implies stays(#[trigger] front[i], depth) by {
            assert(front[i] == parts[i]);
        }
        lemma_join_stays(front, depth);
        lemma_level_text(seq![','], depth);
        assert(stays(parts[parts.len() - 1], depth));
        lemma_stays_add(join(front, seq![',']), seq![','], depth);
        lemma_stays_add(join(front, seq![',']) + seq![','], parts.last(), depth);
    }
}

proof fn lemma_member_whole(key: Seq<char>, value: Seq<char>, depth: int)
    requires
        is_whole(value, depth),
    ensures
        is_whole(member_text(key, value), depth),
{
    lemma_quote_whole(key, depth);
    lemma_level_whole(seq![':'], depth);
    lemma_whole_add(quote(key), seq![':'], depth);
    lemma_whole_add(quote(key) + seq![':'], value, depth);
}

/// The JSON text of one value is of one piece.
pub proof fn lemma_json_whole(text: Seq<char>, depth: int)
    requires
        is_json(text),
    ensures
        is_whole(text, depth),
    decreases text.len(),
{
    if text == "null"@ || text == "true"@ || text == "false"@ {
        lemma_word_whole(text, depth);
    } else if is_number(text) {
        lemma_number_whole(text, depth);
    } else if exists|s: Seq<char>| text == #[trigger] quote(s) {
        let s = choose|s: Seq<char>| text == #[trigger] quote(s);
        lemma_quote_whole(s, depth);
    } else if exists|items: Seq<Seq<char>>|
        text == #[trigger] array_text(items) && forall|i: int|
            0 <= i < items.len() ==> (#[trigger] items[i]).len() < text.len() && is_json(items[i]) {
        let items = choose|items: Seq<Seq<char>>|
            text == #[trigger] array_text(items) && forall|i: int|
                0 <= i < items.len() ==> (#[trigger] items[i]).len() < text.len() && is_json(
                    items[i],
                );
        assert forall|i: int| 0 <= i < items.len() implies stays(
            #[trigger] items[i],
            depth + 1,
        ) by {
            lemma_json_whole(items[i], depth + 1);
        }
        lemma_join_stays(items, depth + 1);
        lemma_brackets_whole('[', join(items, seq![',']), ']', depth);
    } else {
        let cells = choose|cells: Cells|
            text == #[trigger] object_text(cell_texts(cells)) && forall|i: int|
                0 <= i < cells.len() ==> (#[trigger] cells[i]).1.len() < text.len() && is_json(
                    cells[i].1,
                );
        let members = cell_texts(cells);
        assert forall|i: int| 0 <= i < members.len() implies stays(
            #[trigger] members[i],
            depth + 1,
        ) by {
            assert(cells[i].1.len() < text.len());
            lemma_json_whole(cells[i].1, depth + 1);
            lemma_member_whole(cells[i].0, cells[i].1, depth + 1);
            assert(members[i] == member_text(cells[i].0, cells[i].1));
        }
        lemma_join_stays(members, depth + 1);
        lemma_brackets_whole('{', join(members, seq![',']), '}', depth);
    }
}

// ---------------------------------------------------------------------------------------------
// Reading an object
// ---------------------------------------------------------------------------------------------

/// The pieces of a text between the commas that stand inside no brackets and no string.
pub open spec fn pieces(text: Seq<char>) -> Seq<Seq<char>>
    decreases text.len(),
{
    if text.len() == 0 {
        seq![Seq::empty()]
    } else {
        let front = pieces(text.drop_last());
        if text.last() == ',' && scanned(outside(0), text.drop_last()) == outside(0) {
            front.push(Seq::empty())
        } else {
            front.drop_last().push(front.last().push(text.last()))
        }
    }
}

/// Where the string ends that a text begins with, if it does not end before `from`.
pub open spec fn string_end(text: Seq<char>, from: int) -> int
    decreases text.len() - from,
{
    if from >= text.len() || scanned(outside(0), text.take(from)) == outside(0) {
        from
    } else {
        string_end(text, from + 1)
    }
}

/// The key and the text of the value that a member of an object has.
pub open spec fn read_member(text: Seq<char>) -> (Seq<char>, Seq<char>) {
    let end = string_end(text, 1);
    (unescape(text.subrange(1, end - 1)), text.skip(end + 1))
}

/// The members that the text of an object has, in their order: what stands between the brackets,
/// cut at the commas, and each piece cut where its key ends.
pub open spec fn read_object(text: Seq<char>) -> Cells {
    let inner = text.subrange(1, text.len() - 1);
    if inner.len() == 0 {
        Seq::empty()
    } else {
        pieces(inner).map_values(|member: Seq<char>| read_member(member))
    }
}

proof fn lemma_pieces_not_empty(text: Seq<char>)
    ensures
        pieces(text).len() > 0,
    decreases text.len(),
{
    if text.len() > 0 {
        lemma_pieces_not_empty(text.drop_last());
    }
}

proof fn lemma_pieces_of_whole(text: Seq<char>)
    requires
        no_comma(text, 0),
    ensures
        pieces(text) == seq![text],
    decreases text.len(),
{
    if text.len() > 0 {
        let front = text.drop_last();
        let last = text.len() - 1;
        assert forall|i: int| 0 <= i < front.len() && #[trigger] scanned(outside(0), front.take(i))
            == outside(0) implies front[i] != ',' by {
            assert(front.take(i) =~= text.take(i));
        }
        lemma_pieces_of_whole(front);
        assert(front =~= text.take(last));
        assert(front.push(text.last()) =~= text);
        assert(pieces(text) =~= seq![text]);
    } else {
        assert(text =~= Seq::empty());
    }
}

proof fn lemma_pieces_at(front: Seq<char>, rest: Seq<char>)
    requires
        scanned(outside(0), front) == outside(0),
    ensures
        pieces(front + seq![','] + rest) == pieces(front) + pieces(rest),
    decreases rest.len(),
{
    let comma = seq![','];
    let all = front + comma + rest;
    if rest.len() == 0 {
        assert(all =~= front + comma);
        assert(all.drop_last() =~= front);
        assert(pieces(all) =~= pieces(front) + pieces(rest));
    } else {
        let less = rest.drop_last();
        lemma_pieces_at(front, less);
        lemma_pieces_not_empty(less);
        assert(all.drop_last() =~= front + comma + less);
        lemma_scanned_add(outside(0), front + comma, less);
        lemma_scanned_add(outside(0), front, comma);
        lemma_scanned_one(outside(0), ',');
        assert(pieces(all) =~= pieces(front) + pieces(rest));
    }
}

proof fn lemma_pieces_of_join(parts: Seq<Seq<char>>)
    requires
        parts.len() > 0,
        forall|i: int| 0 <= i < parts.len() ==> is_whole(#[trigger] parts[i], 0),
    ensures
        pieces(join(parts, seq![','])) == parts,
    decreases parts.len(),
{
    if parts.len() == 1 {
        assert(is_whole(parts[0], 0));
        lemma_pieces_of_whole(parts[0]);
        assert(parts =~= seq![parts[0]]);
    } else {
        let front = parts.drop_last();
        let last = parts[parts.len() - 1];
        assert forall|i: int| 0 <= i < front.len() implies is_whole(#[trigger] front[i], 0)
            && stays(front[i], 0) by {
            assert(front[i] == parts[i]);
        }
        lemma_pieces_of_join(front);
        assert(forall|i: int| 0 <= i < front.len() ==> stays(#[trigger] front[i], 0));
        lemma_join_stays(front, 0);
        lemma_pieces_at(join(front, seq![',']), last);
        assert(is_whole(last, 0));
        lemma_pieces_of_whole(last);
        assert(front + seq![last] =~= parts);
    }
}

proof fn lemma_string_end(text: Seq<char>, from: int, end: int)
    requires
        0 <= from <= end <= text.len(),
        forall|i: int|
            from <= i < end ==> #[trigger] scanned(outside(0), text.take(i)) != outside(0),
        scanned(outside(0), text.take(end)) == outside(0),
    ensures
        string_end(text, from) == end,
    decreases end - from,
{
    if from < end {
        assert(scanned(outside(0), text.take(from)) != outside(0));
        lemma_string_end(text, from + 1, end);
    }
}

/// Reading a member gives its key and the text of its value back.
pub proof fn lemma_member_reads_back(key: Seq<char>, value: Seq<char>)
    ensures
        read_member(member_text(key, value)) == (key, value),
{
    let name = quote(key);
    let text = member_text(key, value);
    let rest = seq![':'] + value;
    let end = name.len() as int;
    assert(text =~= name + rest);
    lemma_quote_scanned(key, 0);
    assert forall|i: int| 1 <= i < end implies #[trigger] scanned(outside(0), text.take(i))
        != outside(0) by {
        lemma_scanned_part(outside(0), name, rest, i);
        assert(scanned(outside(0), name.take(i)).in_string);
    }
    assert(text.take(end) =~= name);
    lemma_string_end(text, 1, end);
    assert(text.subrange(1, end - 1) =~= escape(key));
    assert(text.skip(end + 1) =~= value);
    lemma_string_reads_back(key);
}

/// Reading the text of an object gives its members back, whatever is written in their keys and
/// values. So the text tells which members the object has.
pub proof fn lemma_object_reads_back(cells: Cells)
    requires
        forall|i: int| 0 <= i < cells.len() ==> is_json((#[trigger] cells[i]).1),
    ensures
        read_object(object_text(cell_texts(cells))) == cells,
{
    let members = cell_texts(cells);
    let inner = join(members, seq![',']);
    let text = object_text(members);
    assert(text.subrange(1, text.len() - 1) =~= inner);
    assert forall|i: int| 0 <= i < members.len() implies is_whole(#[trigger] members[i], 0)
        && members[i].len() > 0 by {
        assert(is_json(cells[i].1));
        lemma_json_whole(cells[i].1, 0);
        lemma_member_whole(cells[i].0, cells[i].1, 0);
        assert(members[i] == member_text(cells[i].0, cells[i].1));
    }
    if members.len() == 0 {
        assert(read_object(text) =~= cells);
    } else {
        assert(forall|i: int| 0 <= i < members.len() ==> is_whole(#[trigger] members[i], 0));
        lemma_pieces_of_join(members);
        assert(inner.len() > 0) by {
            assert(is_whole(members[0], 0) && members[0].len() > 0);
            if members.len() > 1 {
                assert(inner == join(members.drop_last(), seq![',']) + seq![','] + members.last());
            }
        }
        assert forall|i: int| 0 <= i < cells.len() implies #[trigger] read_object(text)[i]
            == cells[i] by {
            assert(members[i] == member_text(cells[i].0, cells[i].1));
            lemma_member_reads_back(cells[i].0, cells[i].1);
        }
        assert(read_object(text) =~= cells);
    }
}

// ---------------------------------------------------------------------------------------------
// Reading an array
// ---------------------------------------------------------------------------------------------

/// The texts of the items that the text of an array has, in their order: what stands between the
/// brackets, cut at the commas.
pub open spec fn read_array(text: Seq<char>) -> Seq<Seq<char>> {
    let inner = text.subrange(1, text.len() - 1);
    if inner.len() == 0 {
        Seq::empty()
    } else {
        pieces(inner)
    }
}

/// The JSON text of a value is never empty.
pub proof fn lemma_json_not_empty(text: Seq<char>)
    requires
        is_json(text),
    ensures
        text.len() > 0,
{
    reveal_strlit("null");
    reveal_strlit("true");
    reveal_strlit("false");
    if is_number(text) {
        let (minus, whole, fraction, exponent) = choose|
            minus: bool,
            whole: nat,
            fraction: Seq<char>,
            exponent: Seq<char>,
        |
            text == #[trigger] number_of(minus, whole, fraction, exponent) && is_fraction(fraction)
                && is_exponent(exponent);
        assert(decimal(whole).len() > 0);
    }
}

/// Reading the text of an array gives the texts of its items back.
pub proof fn lemma_array_reads_back(items: Seq<Seq<char>>)
    requires
        forall|i: int| 0 <= i < items.len() ==> is_json(#[trigger] items[i]),
    ensures
        read_array(array_text(items)) == items,
{
    let inner = join(items, seq![',']);
    let text = array_text(items);
    assert(text.subrange(1, text.len() - 1) =~= inner);
    assert forall|i: int| 0 <= i < items.len() implies is_whole(#[trigger] items[i], 0)
        && items[i].len() > 0 by {
        assert(is_json(items[i]));
        lemma_json_whole(items[i], 0);
        lemma_json_not_empty(items[i]);
    }
    if items.len() == 0 {
        assert(read_array(text) =~= items);
    } else {
        assert(forall|i: int| 0 <= i < items.len() ==> is_whole(#[trigger] items[i], 0));
        lemma_pieces_of_join(items);
        assert(inner.len() > 0) by {
            assert(is_whole(items[0], 0) && items[0].len() > 0);
            if items.len() > 1 {
                assert(inner == join(items.drop_last(), seq![',']) + seq![','] + items.last());
            }
        }
    }
}

} // verus!
