//! JSON text, in the compact form: no white space between the tokens.

use vstd::prelude::*;

use crate::text::{
    decimal, digit, hex_digit, join, lemma_join_contains, lemma_join_step, occurs_at, push_decimal,
};
use crate::value::{Entries, Json, Value, ValueMap};

verus! {

/// There is neither a line feed nor a carriage return in `s`.
pub open spec fn one_line(s: Seq<char>) -> bool {
    forall|i: int| 0 <= i < s.len() ==> s[i] != '\n' && s[i] != '\r'
}

/// How a character is written inside a JSON string.
pub open spec fn escaped(c: char) -> Seq<char> {
    if c == '\u{8}' {
        seq!['\\', 'b']
    } else if c == '\u{9}' {
        seq!['\\', 't']
    } else if c == '\u{a}' {
        seq!['\\', 'n']
    } else if c == '\u{c}' {
        seq!['\\', 'f']
    } else if c == '\u{d}' {
        seq!['\\', 'r']
    } else if c == '\u{22}' || c == '\u{5c}' {
        seq!['\\', c]
    } else if (c as int) < 32 {
        seq!['\\', 'u', '0', '0', hex_digit(c as int / 16), hex_digit(c as int % 16)]
    } else {
        seq![c]
    }
}

/// The characters of `s`, each as it is written inside a JSON string.
pub open spec fn escape(s: Seq<char>) -> Seq<char>
    decreases s.len(),
{
    if s.len() == 0 {
        Seq::empty()
    } else {
        escape(s.drop_last()) + escaped(s.last())
    }
}

/// A JSON string.
pub open spec fn quote(s: Seq<char>) -> Seq<char> {
    seq!['"'] + escape(s) + seq!['"']
}

/// A JSON string takes up one line, whatever it holds.
pub proof fn lemma_quote_one_line(s: Seq<char>)
    ensures
        one_line(quote(s)),
{
    lemma_escape_one_line(s);
}

proof fn lemma_escaped_one_line(c: char)
    ensures
        one_line(escaped(c)),
{
    assert(forall|d: int|
        0 <= d < 16 ==> #[trigger] hex_digit(d) != '\n' && hex_digit(d) != '\r');
}

proof fn lemma_escape_one_line(s: Seq<char>)
    ensures
        one_line(escape(s)),
    decreases s.len(),
{
    if s.len() > 0 {
        lemma_escape_one_line(s.drop_last());
        lemma_escaped_one_line(s.last());
    }
}

/// `serde_json::to_string` of a string slice. It writes the characters between two quotation
/// marks; it escapes the quotation mark, the backslash and the control characters below the
/// space, the five that have a short form by it and the others by their code in four
/// hexadecimal digits, and leaves every other character as it is. It never fails on a string.
#[verifier::external_body]
fn quoted(s: &str) -> (r: String)
    ensures
        r@ == quote(s@),
{
    serde_json::to_string(s).expect("a string has a JSON form")
}

/// There is at least one character, and all are decimal digits.
pub open spec fn is_digits(s: Seq<char>) -> bool {
    s.len() > 0 && forall|i: int| 0 <= i < s.len() ==> '0' <= #[trigger] s[i] <= '9'
}

/// Nothing, or a point and digits.
pub open spec fn is_fraction(s: Seq<char>) -> bool {
    s.len() == 0 || (s[0] == '.' && is_digits(s.skip(1)))
}

/// Nothing, or the letter `e`, a sign if there is one, and digits.
pub open spec fn is_exponent(s: Seq<char>) -> bool {
    ||| s.len() == 0
    ||| s[0] == 'e' && is_digits(s.skip(1))
    ||| s[0] == 'e' && s.len() > 1 && (s[1] == '+' || s[1] == '-') && is_digits(s.skip(2))
}

/// A JSON number by its parts.
pub open spec fn number_of(
    minus: bool,
    whole: nat,
    fraction: Seq<char>,
    exponent: Seq<char>,
) -> Seq<char> {
    (if minus {
        seq!['-']
    } else {
        Seq::empty()
    }) + decimal(whole) + fraction + exponent
}

/// A JSON number: a sign if it is negative, an integer without leading zeros, a fraction and an
/// exponent, of which the last two may be missing.
pub open spec fn is_number(s: Seq<char>) -> bool {
    exists|minus: bool, whole: nat, fraction: Seq<char>, exponent: Seq<char>|
        s == #[trigger] number_of(minus, whole, fraction, exponent) && is_fraction(fraction)
            && is_exponent(exponent)
}

/// What `serde_json::Number` displays.
pub uninterp spec fn number_text(number: serde_json::Number) -> Seq<char>;

/// `serde_json::Number` displayed: a JSON number. It holds an integer, which is written in
/// decimal, or a finite double, which is written with a fraction, an exponent or both.
#[verifier::external_body]
fn displayed(number: &serde_json::Number) -> (r: String)
    ensures
        r@ == number_text(*number),
        is_number(r@),
{
    number.to_string()
}

/// All the numbers in a value are displayed as JSON writes numbers.
pub open spec fn numbers_are_json(value: Json) -> bool
    decreases value,
{
    match value {
        Json::Number(number) => is_number(number_text(number)),
        Json::Array(items) => forall|i: int|
            0 <= i < items.len() ==> numbers_are_json(#[trigger] items[i]),
        Json::Object(entries) => forall|i: int|
            0 <= i < entries.len() ==> numbers_are_json((#[trigger] entries[i]).1),
        _ => true,
    }
}

/// A JSON array of the given texts.
pub open spec fn array_text(items: Seq<Seq<char>>) -> Seq<char> {
    seq!['['] + join(items, seq![',']) + seq![']']
}

/// A member of a JSON object.
pub open spec fn member_text(key: Seq<char>, value: Seq<char>) -> Seq<char> {
    quote(key) + seq![':'] + value
}

/// A JSON object of the given members, in their order.
pub open spec fn object_text(members: Seq<Seq<char>>) -> Seq<char> {
    seq!['{'] + join(members, seq![',']) + seq!['}']
}

/// The JSON text of a value.
pub open spec fn json_text(value: Json) -> Seq<char>
    decreases value,
{
    match value {
        Json::Null => "null"@,
        Json::Bool(b) => if b {
            "true"@
        } else {
            "false"@
        },
        Json::Number(number) => number_text(number),
        Json::String(s) => quote(s),
        Json::Array(items) => array_text(item_texts(items)),
        Json::Object(entries) => object_text(entry_texts(entries)),
    }
}

/// The JSON texts of the items of an array.
pub open spec fn item_texts(items: Seq<Json>) -> Seq<Seq<char>>
    decreases items,
{
    Seq::new(
        items.len(),
        |i: int|
            if 0 <= i < items.len() {
                json_text(items[i])
            } else {
                Seq::empty()
            },
    )
}

/// The members of the JSON object for a map: its entries in ascending order of their keys.
pub open spec fn entry_texts(entries: Entries) -> Seq<Seq<char>>
    decreases entries,
{
    Seq::new(
        entries.len(),
        |i: int|
            if 0 <= i < entries.len() {
                member_text(entries[i].0, json_text(entries[i].1))
            } else {
                Seq::empty()
            },
    )
}

/// The JSON text of a map.
pub open spec fn map_text(entries: Entries) -> Seq<char> {
    object_text(entry_texts(entries))
}

/// The members of a JSON object, each as its key and the JSON text of its value.
pub type Cells = Seq<(Seq<char>, Seq<char>)>;

/// The texts of the members.
pub open spec fn cell_texts(cells: Cells) -> Seq<Seq<char>> {
    cells.map_values(|cell: (Seq<char>, Seq<char>)| member_text(cell.0, cell.1))
}

/// The members for the entries of a map.
pub open spec fn entry_cells(entries: Entries) -> Cells {
    entries.map_values(|entry: (Seq<char>, Json)| (entry.0, json_text(entry.1)))
}

/// `text` is the JSON text of one value: one of the three words, a number, a string, an array of
/// such texts or an object whose members have such texts as their values.
pub open spec fn is_json(text: Seq<char>) -> bool
    decreases text.len(),
{
    ||| text == "null"@
    ||| text == "true"@
    ||| text == "false"@
    ||| is_number(text)
    ||| exists|s: Seq<char>| text == #[trigger] quote(s)
    ||| exists|items: Seq<Seq<char>>|
        text == #[trigger] array_text(items) && forall|i: int|
            0 <= i < items.len() ==> (#[trigger] items[i]).len() < text.len() && is_json(items[i])
    ||| exists|cells: Cells|
        text == #[trigger] object_text(cell_texts(cells)) && forall|i: int|
            0 <= i < cells.len() ==> (#[trigger] cells[i]).1.len() < text.len() && is_json(
                cells[i].1,
            )
}

/// `text` is the JSON text of one value and takes up one line.
pub open spec fn is_json_line(text: Seq<char>) -> bool {
    is_json(text) && one_line(text)
}

/// A JSON string is a JSON text, in one line.
pub proof fn lemma_quote_is_json_line(s: Seq<char>)
    ensures
        is_json_line(quote(s)),
{
    lemma_quote_one_line(s);
}

/// An array of JSON texts is a JSON text, in one line if they are.
pub proof fn lemma_array_is_json(items: Seq<Seq<char>>)
    requires
        forall|i: int| 0 <= i < items.len() ==> is_json_line(#[trigger] items[i]),
    ensures
        is_json_line(array_text(items)),
{
    let text = array_text(items);
    assert forall|i: int| 0 <= i < items.len() implies (#[trigger] items[i]).len() < text.len()
        && is_json(items[i]) by {
        assert(is_json_line(items[i]));
        lemma_join_contains(items, seq![','], i);
        let at = choose|at: int| #[trigger] occurs_at(join(items, seq![',']), items[i], at);
    }
    assert forall|i: int| 0 <= i < items.len() implies one_line(#[trigger] items[i]) by {
        assert(is_json_line(items[i]));
    }
    lemma_join_one_line(items);
}

/// An object whose members have JSON texts as their values is a JSON text, in one line if they
/// are.
pub proof fn lemma_object_is_json(cells: Cells)
    requires
        forall|i: int| 0 <= i < cells.len() ==> is_json_line((#[trigger] cells[i]).1),
    ensures
        is_json_line(object_text(cell_texts(cells))),
{
    let members = cell_texts(cells);
    let text = object_text(members);
    assert forall|i: int| 0 <= i < cells.len() implies (#[trigger] cells[i]).1.len() < text.len()
        && is_json(cells[i].1) by {
        assert(is_json_line(cells[i].1));
        assert(members[i] == member_text(cells[i].0, cells[i].1));
        lemma_join_contains(members, seq![','], i);
        let at = choose|at: int| #[trigger] occurs_at(join(members, seq![',']), members[i], at);
    }
    assert forall|i: int| 0 <= i < members.len() implies one_line(#[trigger] members[i]) by {
        assert(is_json_line(cells[i].1));
        assert(members[i] == member_text(cells[i].0, cells[i].1));
        lemma_quote_one_line(cells[i].0);
    }
    lemma_join_one_line(members);
}

/// The members of the object for a map are those for its entries.
pub(crate) proof fn lemma_entry_cells(entries: Entries)
    ensures
        cell_texts(entry_cells(entries)) == entry_texts(entries),
{
    assert(cell_texts(entry_cells(entries)) =~= entry_texts(entries));
}

/// A number is a JSON text, in one line.
pub proof fn lemma_number_is_json_line(s: Seq<char>)
    requires
        is_number(s),
    ensures
        is_json_line(s),
{
    let (minus, whole, fraction, exponent) = choose|
        minus: bool,
        whole: nat,
        fraction: Seq<char>,
        exponent: Seq<char>,
    |
        s == #[trigger] number_of(minus, whole, fraction, exponent) && is_fraction(fraction)
            && is_exponent(exponent);
    lemma_decimal_one_line(whole);
    assert forall|i: int| 0 <= i < fraction.len() implies fraction[i] != '\n' && fraction[i]
        != '\r' by {
        if i > 0 {
            assert(fraction.skip(1)[i - 1] == fraction[i]);
        }
    }
    assert forall|i: int| 0 <= i < exponent.len() implies exponent[i] != '\n' && exponent[i]
        != '\r' by {
        if i > 0 && is_digits(exponent.skip(1)) {
            assert(exponent.skip(1)[i - 1] == exponent[i]);
        } else if i > 1 {
            assert(exponent.skip(2)[i - 2] == exponent[i]);
        }
    }
}

/// A natural number in decimal is a JSON text, in one line.
pub proof fn lemma_decimal_is_json_line(n: nat)
    ensures
        is_json_line(decimal(n)),
{
    let none = Seq::<char>::empty();
    assert(number_of(false, n, none, none) =~= decimal(n));
    assert(is_number(decimal(n)));
    lemma_number_is_json_line(decimal(n));
}

/// Parts that take up one line each do so when joined by a comma.
pub proof fn lemma_join_one_line(parts: Seq<Seq<char>>)
    requires
        forall|i: int| 0 <= i < parts.len() ==> one_line(#[trigger] parts[i]),
    ensures
        one_line(join(parts, seq![','])),
    decreases parts.len(),
{
    if parts.len() > 1 {
        let front = parts.drop_last();
        assert forall|i: int| 0 <= i < front.len() implies one_line(#[trigger] front[i]) by {
            assert(one_line(parts[i]));
        }
        lemma_join_one_line(front);
        assert(one_line(parts.last()));
    } else if parts.len() == 1 {
        assert(one_line(parts[0]));
    }
}

/// Appends a JSON string.
pub fn push_quoted(out: &mut String, s: &str)
    ensures
        final(out)@ == old(out)@ + quote(s@),
{
    let text = quoted(s);
    out.push_str(text.as_str());
}

/// Appends the JSON text of a value, which takes up one line.
pub fn push_json(out: &mut String, value: &Value)
    ensures
        final(out)@ == old(out)@ + json_text(value@),
        is_json_line(json_text(value@)),
        numbers_are_json(value@),
    decreases value,
{
    match value {
        Value::Null => {
            out.push_str("null");
            proof {
                reveal_strlit("null");
            }
        },
        Value::Bool(b) => {
            if *b {
                out.push_str("true");
            } else {
                out.push_str("false");
            }
            proof {
                reveal_strlit("true");
                reveal_strlit("false");
            }
        },
        Value::Number(number) => {
            let text = displayed(number);
            out.push_str(text.as_str());
            proof {
                lemma_number_is_json_line(text@);
            }
        },
        Value::String(s) => {
            push_quoted(out, s.as_str());
            proof {
                lemma_quote_is_json_line(s@);
            }
        },
        Value::Array(items) => {
            let ghost start = out@;
            let ghost parts = item_texts(value@->Array_0);
            out.push('[');
            let mut i: usize = 0;
            while i < items.len()
                invariant
                    value == Value::Array(*items),
                    i <= items@.len(),
                    parts.len() == items@.len(),
                    forall|k: int| 0 <= k < parts.len() ==> #[trigger] parts[k] == json_text(items@[k]@),
                    forall|k: int| 0 <= k < i ==> is_json_line(#[trigger] parts[k]),
                    forall|k: int|
                        0 <= k < i ==> numbers_are_json(#[trigger] value@->Array_0[k]),
                    out@ == start + seq!['['] + join(parts.take(i as int), seq![',']),
                decreases items@.len() - i,
            {
                if i > 0 {
                    out.push(',');
                }
                proof {
                    assert(decreases_to!(*value => value->Array_0));
                    assert(decreases_to!(value->Array_0 => value->Array_0@));
                    assert(decreases_to!(value->Array_0@ => value->Array_0@[i as int]));
                    assert(decreases_to!(*value => value->Array_0@[i as int]));
                }
                push_json(out, &items[i]);
                proof {
                    lemma_join_step(parts, seq![','], i as int);
                    assert(out@ =~= start + seq!['['] + join(parts.take(i + 1), seq![',']));
                }
                i += 1;
            }
            out.push(']');
            proof {
                assert(parts.take(i as int) =~= parts);
                lemma_array_is_json(parts);
                assert(out@ =~= start + array_text(parts));
            }
        },
        Value::Object(map) => {
            push_map(out, map);
        },
    }
}

/// Appends the JSON text of a map, which takes up one line.
pub fn push_map(out: &mut String, map: &ValueMap)
    ensures
        final(out)@ == old(out)@ + map_text(map@),
        is_json_line(map_text(map@)),
        numbers_are_json(Json::Object(map@)),
    decreases map,
{
    let ghost start = out@;
    let ghost model = map@;
    let ghost parts = entry_texts(model);
    out.push('{');
    let mut i: usize = 0;
    while i < map.len()
        invariant
            model == map@,
            i <= model.len(),
            parts.len() == model.len(),
            forall|k: int|
                0 <= k < parts.len() ==> #[trigger] parts[k] == member_text(
                    model[k].0,
                    json_text(model[k].1),
                ),
            forall|k: int| 0 <= k < i ==> is_json_line(json_text((#[trigger] model[k]).1)),
            forall|k: int| 0 <= k < i ==> numbers_are_json((#[trigger] model[k]).1),
            out@ == start + seq!['{'] + join(parts.take(i as int), seq![',']),
        decreases model.len() - i,
    {
        if i > 0 {
            out.push(',');
        }
        let key = map.key_at(i);
        let value = map.value_at(i);
        push_quoted(out, key);
        out.push(':');
        push_json(out, value);
        proof {
            lemma_join_step(parts, seq![','], i as int);
            assert(out@ =~= start + seq!['{'] + join(parts.take(i + 1), seq![',']));
        }
        i += 1;
    }
    out.push('}');
    proof {
        assert(parts.take(i as int) =~= parts);
        let cells = entry_cells(model);
        assert forall|k: int| 0 <= k < cells.len() implies is_json_line((#[trigger] cells[k]).1) by {
            assert(is_json_line(json_text(model[k].1)));
        }
        lemma_object_is_json(cells);
        lemma_entry_cells(model);
        assert(out@ =~= start + object_text(parts));
    }
}

/// A decimal number takes up one line.
pub proof fn lemma_decimal_one_line(n: nat)
    ensures
        one_line(decimal(n)),
    decreases n,
{
    assert(forall|d: int| 0 <= d < 10 ==> #[trigger] digit(d) != '\n' && digit(d) != '\r');
    if n >= 10 {
        lemma_decimal_one_line(n / 10);
    }
}

/// Joining one part more at the end.
proof fn lemma_join_push(parts: Seq<Seq<char>>, part: Seq<char>)
    ensures
        join(parts.push(part), seq![',']) == if parts.len() == 0 {
            part
        } else {
            join(parts, seq![',']) + seq![','] + part
        },
{
    assert(parts.push(part).drop_last() =~= parts);
}

/// A JSON array that is being written.
pub(crate) struct ArrayWriter {
    text: String,
    items: Ghost<Seq<Seq<char>>>,
}

impl ArrayWriter {
    /// The texts of the items written so far.
    pub closed spec fn view(&self) -> Seq<Seq<char>> {
        self.items@
    }

    /// The text is the array so far, and each item is a JSON text in one line.
    pub closed spec fn wf(&self) -> bool {
        &&& self.text@ == seq!['['] + join(self.items@, seq![','])
        &&& forall|i: int| 0 <= i < self.items@.len() ==> is_json_line(#[trigger] self.items@[i])
    }

    pub fn new() -> (r: ArrayWriter)
        ensures
            r.wf(),
            r@ == Seq::<Seq<char>>::empty(),
    {
        let mut text = String::new();
        text.push('[');
        let r = ArrayWriter { text, items: Ghost(Seq::empty()) };
        assert(r.text@ =~= seq!['['] + join(r.items@, seq![',']));
        r
    }

    fn separate(&mut self, first: bool)
        requires
            old(self).wf(),
            first == (old(self)@.len() == 0),
        ensures
            final(self).items == old(self).items,
            final(self).text@ == if first {
                old(self).text@
            } else {
                old(self).text@.push(',')
            },
    {
        if !first {
            self.text.push(',');
        }
    }

    /// Writes a string.
    pub fn string(&mut self, s: &str, first: bool)
        requires
            old(self).wf(),
            first == (old(self)@.len() == 0),
        ensures
            final(self).wf(),
            final(self)@ == old(self)@.push(quote(s@)),
    {
        self.separate(first);
        push_quoted(&mut self.text, s);
        self.items = Ghost(self.items@.push(quote(s@)));
        proof {
            lemma_quote_is_json_line(s@);
            lemma_join_push(old(self).items@, quote(s@));
            assert(self.text@ =~= seq!['['] + join(self.items@, seq![',']));
        }
    }

    /// Writes a map.
    pub fn map(&mut self, map: &ValueMap, first: bool)
        requires
            old(self).wf(),
            first == (old(self)@.len() == 0),
        ensures
            final(self).wf(),
            final(self)@ == old(self)@.push(map_text(map@)),
            numbers_are_json(Json::Object(map@)),
    {
        self.separate(first);
        push_map(&mut self.text, map);
        self.items = Ghost(self.items@.push(map_text(map@)));
        proof {
            lemma_join_push(old(self).items@, map_text(map@));
            assert(self.text@ =~= seq!['['] + join(self.items@, seq![',']));
        }
    }

    /// The finished array.
    pub fn finish(self) -> (r: String)
        requires
            self.wf(),
        ensures
            r@ == array_text(self@),
            is_json_line(r@),
    {
        let mut text = self.text;
        text.push(']');
        proof {
            lemma_array_is_json(self.items@);
            assert(text@ =~= array_text(self.items@));
        }
        text
    }
}

/// A JSON object that is being written.
pub(crate) struct ObjectWriter {
    text: String,
    empty: bool,
    cells: Ghost<Cells>,
}

impl ObjectWriter {
    /// The members written so far.
    pub closed spec fn view(&self) -> Cells {
        self.cells@
    }

    /// The text is the object so far, and the value of each member is a JSON text in one line.
    pub closed spec fn wf(&self) -> bool {
        &&& self.text@ == seq!['{'] + join(cell_texts(self.cells@), seq![','])
        &&& self.empty == (self.cells@.len() == 0)
        &&& forall|i: int|
            0 <= i < self.cells@.len() ==> is_json_line((#[trigger] self.cells@[i]).1)
    }

    pub fn new() -> (r: ObjectWriter)
        ensures
            r.wf(),
            r@ == Seq::<(Seq<char>, Seq<char>)>::empty(),
    {
        let mut text = String::new();
        text.push('{');
        let r = ObjectWriter { text, empty: true, cells: Ghost(Seq::empty()) };
        assert(r.text@ =~= seq!['{'] + join(cell_texts(r.cells@), seq![',']));
        r
    }

    /// Writes a member whose value is given by its JSON text.
    pub fn member(&mut self, key: &str, value: &str)
        requires
            old(self).wf(),
            is_json_line(value@),
        ensures
            final(self).wf(),
            final(self)@ == old(self)@.push((key@, value@)),
    {
        if !self.empty {
            self.text.push(',');
        }
        push_quoted(&mut self.text, key);
        self.text.push(':');
        self.text.push_str(value);
        self.empty = false;
        self.cells = Ghost(self.cells@.push((key@, value@)));
        proof {
            let part = member_text(key@, value@);
            let parts = cell_texts(old(self).cells@);
            lemma_join_push(parts, part);
            assert(cell_texts(self.cells@) =~= parts.push(part));
            assert(self.text@ =~= seq!['{'] + join(cell_texts(self.cells@), seq![',']));
        }
    }

    /// Writes a member whose value is a string.
    pub fn string(&mut self, key: &str, value: &str)
        requires
            old(self).wf(),
        ensures
            final(self).wf(),
            final(self)@ == old(self)@.push((key@, quote(value@))),
    {
        let text = quoted(value);
        proof {
            lemma_quote_is_json_line(value@);
        }
        self.member(key, text.as_str());
    }

    /// Writes a member whose value is a natural number.
    pub fn number(&mut self, key: &str, value: u64)
        requires
            old(self).wf(),
        ensures
            final(self).wf(),
            final(self)@ == old(self)@.push((key@, decimal(value as nat))),
    {
        let mut text = String::new();
        push_decimal(&mut text, value);
        proof {
            lemma_decimal_is_json_line(value as nat);
            assert(text@ =~= decimal(value as nat));
        }
        self.member(key, text.as_str());
    }

    /// Writes a member whose value is a map.
    pub fn map(&mut self, key: &str, value: &ValueMap)
        requires
            old(self).wf(),
        ensures
            final(self).wf(),
            final(self)@ == old(self)@.push((key@, map_text(value@))),
            numbers_are_json(Json::Object(value@)),
    {
        let mut text = String::new();
        push_map(&mut text, value);
        assert(text@ =~= map_text(value@));
        self.member(key, text.as_str());
    }

    /// Writes a member.
    pub fn value(&mut self, key: &str, value: &Value)
        requires
            old(self).wf(),
        ensures
            final(self).wf(),
            final(self)@ == old(self)@.push((key@, json_text(value@))),
            numbers_are_json(value@),
    {
        let mut text = String::new();
        push_json(&mut text, value);
        assert(text@ =~= json_text(value@));
        self.member(key, text.as_str());
    }

    /// The finished object.
    pub fn finish(self) -> (r: String)
        requires
            self.wf(),
        ensures
            r@ == object_text(cell_texts(self@)),
            is_json_line(r@),
            forall|i: int| 0 <= i < self@.len() ==> is_json_line((#[trigger] self@[i]).1),
    {
        let mut text = self.text;
        text.push('}');
        proof {
            lemma_object_is_json(self.cells@);
            assert(text@ =~= object_text(cell_texts(self.cells@)));
        }
        text
    }
}

} // verus!
