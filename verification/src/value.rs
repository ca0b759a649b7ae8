//! Attribute values and ordered maps of them.

use vstd::prelude::*;

use crate::text::{
    before, lemma_before_asymmetric, lemma_before_total, lemma_before_transitive, place_of, Place,
};

verus! {

/// `serde_json::Number`: an integer or a finite double, carried as it is.
#[verifier::external_type_specification]
#[verifier::external_body]
pub struct ExNumber(serde_json::Number);

/// Cloning a number gives the same number.
pub assume_specification[ <serde_json::Number as Clone>::clone ](
    number: &serde_json::Number,
) -> (r: serde_json::Number)
    ensures
        r == *number,
;

/// A JSON value. Objects keep their keys in ascending order, each key once.
#[derive(Debug, PartialEq)]
pub enum Value {
    Null,
    Bool(bool),
    Number(serde_json::Number),
    String(String),
    Array(Vec<Value>),
    Object(ValueMap),
}

/// A map from strings to values, in ascending order of its keys.
#[derive(Debug, PartialEq)]
pub struct ValueMap {
    entries: Vec<(String, Value)>,
}

/// What a [`Value`] stands for.
pub ghost enum Json {
    Null,
    Bool(bool),
    Number(serde_json::Number),
    String(Seq<char>),
    Array(Seq<Json>),
    Object(Seq<(Seq<char>, Json)>),
}

/// What a [`ValueMap`] stands for: its entries, in the order of its keys.
pub type Entries = Seq<(Seq<char>, Json)>;

// ---------------------------------------------------------------------------------------------
// Entries
// ---------------------------------------------------------------------------------------------

/// The keys ascend, so that no key occurs twice.
pub open spec fn ordered(entries: Entries) -> bool {
    forall|i: int, j: int|
        0 <= i < j < entries.len() ==> before((#[trigger] entries[i]).0, (#[trigger] entries[j]).0)
}

/// Entry `i` has the key `key`.
pub open spec fn keyed(entries: Entries, key: Seq<char>, i: int) -> bool {
    0 <= i < entries.len() && entries[i].0 == key
}

/// Some entry has the key `key`.
pub open spec fn has_key(entries: Entries, key: Seq<char>) -> bool {
    exists|i: int| #[trigger] keyed(entries, key, i)
}

/// The value under `key`.
pub open spec fn lookup(entries: Entries, key: Seq<char>) -> Option<Json> {
    if has_key(entries, key) {
        Some(entries[choose|i: int| #[trigger] keyed(entries, key, i)].1)
    } else {
        None
    }
}

/// The entries with `value` under `key` and all else as before.
pub open spec fn put(entries: Entries, key: Seq<char>, value: Json) -> Entries {
    entries.filter(|entry: (Seq<char>, Json)| before(entry.0, key)).push((key, value))
        + entries.filter(|entry: (Seq<char>, Json)| before(key, entry.0))
}

/// The entries that a list of pairs gives: of several pairs with one key, the last counts.
pub open spec fn collect(pairs: Entries) -> Entries
    decreases pairs.len(),
{
    if pairs.len() == 0 {
        Seq::empty()
    } else {
        put(collect(pairs.drop_last()), pairs.last().0, pairs.last().1)
    }
}

/// The value of the last pair with the key `key`.
pub open spec fn last_value(pairs: Entries, key: Seq<char>) -> Option<Json>
    decreases pairs.len(),
{
    if pairs.len() == 0 {
        None
    } else if pairs.last().0 == key {
        Some(pairs.last().1)
    } else {
        last_value(pairs.drop_last(), key)
    }
}

/// The value under a key that an entry has.
pub proof fn lemma_lookup(entries: Entries, i: int)
    requires
        ordered(entries),
        0 <= i < entries.len(),
    ensures
        lookup(entries, entries[i].0) == Some(entries[i].1),
{
    let key = entries[i].0;
    assert(keyed(entries, key, i));
    let k = choose|k: int| #[trigger] keyed(entries, key, k);
    lemma_before_asymmetric(key, key);
    assert(k == i);
}

/// Filtering by a predicate that holds of exactly the first `n` elements.
proof fn lemma_filter_front<A>(s: Seq<A>, keep: spec_fn(A) -> bool, n: int)
    requires
        0 <= n <= s.len(),
        forall|i: int| 0 <= i < n ==> keep(#[trigger] s[i]),
        forall|i: int| n <= i < s.len() ==> !keep(#[trigger] s[i]),
    ensures
        s.filter(keep) == s.take(n),
    decreases s.len(),
{
    reveal(Seq::filter);
    if s.len() > 0 {
        let front = s.drop_last();
        if n == s.len() {
            lemma_filter_front(front, keep, n - 1);
            assert(s.take(n) =~= front.take(n - 1).push(s.last()));
        } else {
            lemma_filter_front(front, keep, n);
            assert(s.take(n) =~= front.take(n));
        }
    } else {
        assert(s.take(n) =~= s.filter(keep));
    }
}

/// Filtering by a predicate that holds of exactly the elements from `n` on.
proof fn lemma_filter_back<A>(s: Seq<A>, keep: spec_fn(A) -> bool, n: int)
    requires
        0 <= n <= s.len(),
        forall|i: int| 0 <= i < n ==> !keep(#[trigger] s[i]),
        forall|i: int| n <= i < s.len() ==> keep(#[trigger] s[i]),
    ensures
        s.filter(keep) == s.skip(n),
    decreases s.len(),
{
    reveal(Seq::filter);
    if s.len() > 0 {
        let front = s.drop_last();
        if n == s.len() {
            lemma_filter_back(front, keep, n - 1);
            assert(s.skip(n) =~= front.skip(n - 1));
        } else {
            lemma_filter_back(front, keep, n);
            assert(s.skip(n) =~= front.skip(n).push(s.last()));
        }
    } else {
        assert(s.skip(n) =~= s.filter(keep));
    }
}

/// Where [`put`] places the entry, and that the keys still ascend.
proof fn lemma_put_at(entries: Entries, key: Seq<char>, value: Json, at: int)
    requires
        ordered(entries),
        0 <= at <= entries.len(),
        forall|i: int| 0 <= i < at ==> before((#[trigger] entries[i]).0, key),
        at < entries.len() ==> !before(entries[at].0, key),
        at < entries.len() ==> entries[at].0 == key || before(key, entries[at].0),
    ensures
        ({
            let skip = if at < entries.len() && entries[at].0 == key { at + 1 } else { at };
            put(entries, key, value) == entries.take(at).push((key, value)) + entries.skip(skip)
        }),
        ordered(put(entries, key, value)),
{
    let less = |entry: (Seq<char>, Json)| before(entry.0, key);
    let more = |entry: (Seq<char>, Json)| before(key, entry.0);
    let skip = if at < entries.len() && entries[at].0 == key { at + 1 } else { at };
    assert forall|i: int| at <= i < entries.len() implies !less(#[trigger] entries[i]) by {
        if i > at {
            assert(before(entries[at].0, entries[i].0));
            if before(entries[i].0, key) {
                lemma_before_transitive(entries[at].0, entries[i].0, key);
            }
        }
    }
    assert forall|i: int| 0 <= i < skip implies !more(#[trigger] entries[i]) by {
        lemma_before_asymmetric(entries[i].0, key);
    }
    assert forall|i: int| skip <= i < entries.len() implies more(#[trigger] entries[i]) by {
        if i > at {
            assert(before(entries[at].0, entries[i].0));
            if before(key, entries[at].0) {
                lemma_before_transitive(key, entries[at].0, entries[i].0);
            }
        }
    }
    lemma_filter_front(entries, less, at);
    lemma_filter_back(entries, more, skip);
    let after = entries.take(at).push((key, value)) + entries.skip(skip);
    assert forall|i: int, j: int| 0 <= i < j < after.len() implies before(
        (#[trigger] after[i]).0,
        (#[trigger] after[j]).0,
    ) by {
        if i < at && j < at {
            assert(before(entries[i].0, entries[j].0));
        } else if i < at && j == at {
            assert(less(entries[i]));
        } else if i < at {
            assert(before(entries[i].0, entries[j - at - 1 + skip].0));
        } else if i == at {
            assert(more(entries[j - at - 1 + skip]));
        } else {
            assert(before(entries[i - at - 1 + skip].0, entries[j - at - 1 + skip].0));
        }
    }
}

/// Where a key belongs among ascending keys: the number of keys before it.
spec fn rank(entries: Entries, key: Seq<char>) -> int
    decreases entries.len(),
{
    if entries.len() == 0 {
        0
    } else if before(entries.last().0, key) {
        entries.len() as int
    } else {
        rank(entries.drop_last(), key)
    }
}

proof fn lemma_rank(entries: Entries, key: Seq<char>)
    requires
        ordered(entries),
    ensures
        0 <= rank(entries, key) <= entries.len(),
        forall|i: int| 0 <= i < rank(entries, key) ==> before((#[trigger] entries[i]).0, key),
        forall|i: int|
            rank(entries, key) <= i < entries.len() ==> {
                &&& !before((#[trigger] entries[i]).0, key)
                &&& entries[i].0 == key || before(key, entries[i].0)
            },
    decreases entries.len(),
{
    if entries.len() > 0 {
        let last = entries.last().0;
        if before(last, key) {
            assert forall|i: int| 0 <= i < entries.len() implies before(
                (#[trigger] entries[i]).0,
                key,
            ) by {
                if i < entries.len() - 1 {
                    assert(before(entries[i].0, entries[entries.len() - 1].0));
                    lemma_before_transitive(entries[i].0, last, key);
                }
            }
        } else {
            let front = entries.drop_last();
            assert(ordered(front));
            lemma_rank(front, key);
            lemma_before_total(last, key);
            assert forall|i: int| 0 <= i < rank(entries, key) implies before(
                (#[trigger] entries[i]).0,
                key,
            ) by {
                assert(before(front[i].0, key));
            }
            assert forall|i: int| rank(entries, key) <= i < entries.len() implies {
                &&& !before((#[trigger] entries[i]).0, key)
                &&& entries[i].0 == key || before(key, entries[i].0)
            } by {
                if i < front.len() {
                    assert(!before(front[i].0, key));
                }
            }
        }
    }
}

/// Putting a value under a key keeps the keys ascending, makes a lookup of that key find the
/// value, and leaves what a lookup of any other key finds.
pub proof fn lemma_put(entries: Entries, key: Seq<char>, value: Json)
    requires
        ordered(entries),
    ensures
        ordered(put(entries, key, value)),
        lookup(put(entries, key, value), key) == Some(value),
        forall|other: Seq<char>|
            other != key ==> #[trigger] lookup(put(entries, key, value), other) == lookup(
                entries,
                other,
            ),
{
    let at = rank(entries, key);
    lemma_rank(entries, key);
    lemma_put_at(entries, key, value, at);
    let after = put(entries, key, value);
    let skip = if at < entries.len() && entries[at].0 == key { at + 1 } else { at };
    assert(after[at] == (key, value));
    lemma_lookup(after, at);
    assert forall|other: Seq<char>| other != key implies #[trigger] lookup(after, other) == lookup(
        entries,
        other,
    ) by {
        if has_key(entries, other) {
            let i = choose|i: int| #[trigger] keyed(entries, other, i);
            lemma_lookup(entries, i);
            let k = if i < at { i } else { i + at + 1 - skip };
            assert(after[k] == entries[i]);
            lemma_lookup(after, k);
        } else if has_key(after, other) {
            let k = choose|k: int| #[trigger] keyed(after, other, k);
            let i = if k < at { k } else { k - at - 1 + skip };
            assert(after[k] == entries[i]);
            assert(keyed(entries, other, i));
        }
    }
}

/// Of several pairs with one key the last one counts, and every key of the list is there.
pub proof fn lemma_collect(pairs: Entries)
    ensures
        ordered(collect(pairs)),
        forall|key: Seq<char>| #[trigger] lookup(collect(pairs), key) == last_value(pairs, key),
    decreases pairs.len(),
{
    if pairs.len() > 0 {
        let front = pairs.drop_last();
        lemma_collect(front);
        lemma_put(collect(front), pairs.last().0, pairs.last().1);
        assert forall|key: Seq<char>| #[trigger] lookup(collect(pairs), key) == last_value(
            pairs,
            key,
        ) by {
            if key != pairs.last().0 {
                assert(lookup(collect(front), key) == last_value(front, key));
            }
        }
    } else {
        assert forall|key: Seq<char>| #[trigger] lookup(collect(pairs), key) == last_value(
            pairs,
            key,
        ) by {
            assert(!has_key(collect(pairs), key));
        }
    }
}

// ---------------------------------------------------------------------------------------------
// Values
// ---------------------------------------------------------------------------------------------

impl Value {
    pub open spec fn view(&self) -> Json
        decreases self,
    {
        match self {
            Value::Null => Json::Null,
            Value::Bool(b) => Json::Bool(*b),
            Value::Number(n) => Json::Number(*n),
            Value::String(s) => Json::String(s@),
            Value::Array(items) => Json::Array(
                Seq::new(
                    items@.len(),
                    |i: int|
                        if 0 <= i < items@.len() {
                            items@[i].view()
                        } else {
                            Json::Null
                        },
                ),
            ),
            Value::Object(map) => Json::Object(map.view()),
        }
    }

    /// The text of a string value.
    pub fn as_str(&self) -> (r: Option<&str>)
        ensures
            match r {
                Some(s) => self@ == Json::String(s@),
                None => !(self@ is String),
            },
    {
        match self {
            Value::String(s) => Some(s.as_str()),
            _ => None,
        }
    }
}

impl Clone for Value {
    fn clone(&self) -> (r: Value)
        ensures
            r@ == self@,
        decreases self,
    {
        match self {
            Value::Null => Value::Null,
            Value::Bool(b) => Value::Bool(*b),
            Value::Number(n) => Value::Number(n.clone()),
            Value::String(s) => Value::String(s.clone()),
            Value::Array(items) => {
                let mut out: Vec<Value> = Vec::new();
                let mut i: usize = 0;
                while i < items.len()
                    invariant
                        self == Value::Array(*items),
                        i <= items@.len(),
                        out@.len() == i,
                        forall|j: int| 0 <= j < i ==> (#[trigger] out@[j])@ == items@[j]@,
                    decreases items@.len() - i,
                {
                    proof {
                        assert(decreases_to!(*self => self->Array_0));
                        assert(decreases_to!(self->Array_0 => self->Array_0@));
                        assert(decreases_to!(self->Array_0@ => self->Array_0@[i as int]));
                        assert(decreases_to!(*self => self->Array_0@[i as int]));
                    }
                    out.push(items[i].clone());
                    i += 1;
                }
                let r = Value::Array(out);
                assert(r@->Array_0 =~= self@->Array_0);
                r
            },
            Value::Object(map) => Value::Object(map.clone()),
        }
    }
}

impl ValueMap {
    pub closed spec fn view(&self) -> Entries
        decreases self,
    {
        Seq::new(
            self.entries@.len(),
            |i: int|
                if 0 <= i < self.entries@.len() {
                    (self.entries@[i].0@, self.entries@[i].1.view())
                } else {
                    (Seq::empty(), Json::Null)
                },
        )
    }

    #[verifier::type_invariant]
    spec fn keys_ascend(self) -> bool {
        ordered(self.view())
    }

    /// The map without entries.
    pub fn new() -> (r: ValueMap)
        ensures
            r@ == Entries::empty(),
    {
        let r = ValueMap { entries: Vec::new() };
        assert(r@ =~= Entries::empty());
        r
    }

    /// The number of entries.
    pub fn len(&self) -> (r: usize)
        ensures
            r == self@.len(),
            ordered(self@),
    {
        proof {
            use_type_invariant(self);
        }
        self.entries.len()
    }

    /// Whether there are no entries.
    pub fn is_empty(&self) -> (r: bool)
        ensures
            r == (self@.len() == 0),
    {
        self.entries.len() == 0
    }

    /// The key of entry `i`.
    pub fn key_at(&self, i: usize) -> (r: &str)
        requires
            i < self@.len(),
        ensures
            r@ == self@[i as int].0,
    {
        self.entries[i].0.as_str()
    }

    /// The value of entry `i`.
    pub fn value_at(&self, i: usize) -> (r: &Value)
        requires
            i < self@.len(),
        ensures
            r@ == self@[i as int].1,
            decreases_to!(self => r),
    {
        proof {
            assert(decreases_to!(*self => self.entries));
            assert(decreases_to!(self.entries => self.entries@));
            assert(decreases_to!(self.entries@ => self.entries@[i as int]));
            assert(decreases_to!(self.entries@[i as int] => self.entries@[i as int].1));
        }
        &self.entries[i].1
    }

    /// The number of keys before `key`.
    fn find(&self, key: &str) -> (r: usize)
        ensures
            r <= self@.len(),
            forall|i: int| 0 <= i < r ==> before((#[trigger] self@[i]).0, key@),
            r < self@.len() ==> {
                &&& !before(self@[r as int].0, key@)
                &&& self@[r as int].0 == key@ || before(key@, self@[r as int].0)
            },
    {
        let mut i: usize = 0;
        while i < self.entries.len()
            invariant
                i <= self@.len(),
                forall|k: int| 0 <= k < i ==> before((#[trigger] self@[k]).0, key@),
            decreases self@.len() - i,
        {
            let place = place_of(self.entries[i].0.as_str(), key);
            proof {
                lemma_before_asymmetric(self@[i as int].0, key@);
                lemma_before_asymmetric(key@, self@[i as int].0);
            }
            if place != Place::Before {
                return i;
            }
            i += 1;
        }
        i
    }

    /// The value under `key`.
    pub fn get(&self, key: &str) -> (r: Option<&Value>)
        ensures
            match r {
                Some(value) => lookup(self@, key@) == Some(value@),
                None => lookup(self@, key@) is None,
            },
    {
        proof {
            use_type_invariant(self);
        }
        let at = self.find(key);
        if at < self.entries.len() {
            if place_of(self.entries[at].0.as_str(), key) == Place::Same {
                proof {
                    lemma_lookup(self@, at as int);
                }
                return Some(&self.entries[at].1);
            }
        }
        proof {
            if has_key(self@, key@) {
                let i = choose|i: int| #[trigger] keyed(self@, key@, i);
                lemma_before_asymmetric(key@, key@);
                if i > at {
                    assert(before(self@[at as int].0, self@[i].0));
                    lemma_before_asymmetric(self@[at as int].0, key@);
                }
            }
        }
        None
    }

    /// Whether some entry has the key `key`.
    pub fn contains_key(&self, key: &str) -> (r: bool)
        ensures
            r == has_key(self@, key@),
    {
        self.get(key).is_some()
    }

    /// Puts `value` under `key` and gives back what stood there before.
    pub fn insert(&mut self, key: String, value: Value) -> (r: Option<Value>)
        ensures
            final(self)@ == put(old(self)@, key@, value@),
            match r {
                Some(previous) => lookup(old(self)@, key@) == Some(previous@),
                None => lookup(old(self)@, key@) is None,
            },
    {
        proof {
            use_type_invariant(&*self);
        }
        let ghost before_call = self@;
        let at = self.find(key.as_str());
        let found = self.contains_key(key.as_str());
        let mut entries: Vec<(String, Value)> = Vec::new();
        let ghost key_text = key@;
        let ghost json = value@;
        proof {
            lemma_put_at(before_call, key_text, json, at as int);
            if has_key(before_call, key_text) {
                let i = choose|i: int| #[trigger] keyed(before_call, key_text, i);
                lemma_before_asymmetric(key_text, key_text);
                if i > at {
                    assert(before(before_call[at as int].0, before_call[i].0));
                    lemma_before_asymmetric(before_call[at as int].0, key_text);
                }
                assert(i == at);
                lemma_lookup(before_call, at as int);
            } else if at < before_call.len() {
                assert(!keyed(before_call, key_text, at as int));
            }
        }
        assert(ValueMap { entries }.view() =~= Entries::empty());
        let ghost pairs = self.entries@;
        std::mem::swap(&mut entries, &mut self.entries);
        let mut previous: Option<Value> = None;
        if found {
            let (_, value_there) = entries.remove(at);
            previous = Some(value_there);
        }
        entries.insert(at, (key, value));
        proof {
            let skip = if found { at + 1 } else { at as int };
            let now = ValueMap { entries }.view();
            let wanted = put(before_call, key_text, json);
            assert(entries@ =~= pairs.take(at as int).push((key, value)) + pairs.skip(skip));
            assert(now =~= wanted) by {
                assert forall|i: int| 0 <= i < now.len() implies now[i] == wanted[i] by {
                    if i > at {
                        assert(entries@[i] == pairs[i - at - 1 + skip]);
                        assert(wanted[i] == before_call[i - at - 1 + skip]);
                    }
                }
            }
        }
        self.entries = entries;
        previous
    }
}

impl Clone for ValueMap {
    fn clone(&self) -> (r: ValueMap)
        ensures
            r@ == self@,
        decreases self,
    {
        let mut entries: Vec<(String, Value)> = Vec::new();
        let mut i: usize = 0;
        while i < self.entries.len()
            invariant
                i <= self.entries@.len(),
                entries@.len() == i,
                forall|j: int|
                    0 <= j < i ==> {
                        &&& (#[trigger] entries@[j]).0@ == self.entries@[j].0@
                        &&& entries@[j].1@ == self.entries@[j].1@
                    },
            decreases self.entries@.len() - i,
        {
            let value = self.value_at(i);
            entries.push((self.entries[i].0.clone(), value.clone()));
            i += 1;
        }
        proof {
            use_type_invariant(self);
        }
        assert(ValueMap { entries }.view() =~= self@);
        ValueMap { entries }
    }
}

impl Default for ValueMap {
    fn default() -> (r: ValueMap)
        ensures
            r@ == Entries::empty(),
    {
        ValueMap::new()
    }
}

} // verus!
