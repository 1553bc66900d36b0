//! A map from text keys that keeps its entries in key order.
use crate::text::str_eq;
use vstd::prelude::*;
use vstd::utf8::*;

verus! {

/// Lexicographic order of byte strings.
pub open spec fn bytes_before(left: Seq<u8>, right: Seq<u8>) -> bool
    decreases left.len(),
{
    if right.len() == 0 {
        false
    } else if left.len() == 0 {
        true
    } else if left[0] == right[0] {
        bytes_before(left.skip(1), right.skip(1))
    } else {
        left[0] < right[0]
    }
}

/// The order of text keys: by their UTF-8 bytes.
pub open spec fn key_before(left: Seq<char>, right: Seq<char>) -> bool {
    bytes_before(encode_utf8(left), encode_utf8(right))
}

proof fn lemma_bytes_irreflexive(bytes: Seq<u8>)
    ensures
        !bytes_before(bytes, bytes),
    decreases bytes.len(),
{
    if bytes.len() > 0 {
        lemma_bytes_irreflexive(bytes.skip(1));
    }
}

proof fn lemma_bytes_transitive(a: Seq<u8>, b: Seq<u8>, c: Seq<u8>)
    requires
        bytes_before(a, b),
        bytes_before(b, c),
    ensures
        bytes_before(a, c),
    decreases a.len(),
{
    if a.len() > 0 && b.len() > 0 && c.len() > 0 && a[0] == b[0] && b[0] == c[0] {
        lemma_bytes_transitive(a.skip(1), b.skip(1), c.skip(1));
    }
}

proof fn lemma_bytes_total(a: Seq<u8>, b: Seq<u8>)
    ensures
        a == b || bytes_before(a, b) || bytes_before(b, a),
    decreases a.len(),
{
    if a.len() > 0 && b.len() > 0 {
        if a[0] == b[0] {
            lemma_bytes_total(a.skip(1), b.skip(1));
            if a.skip(1) == b.skip(1) {
                assert(a =~= seq![a[0]] + a.skip(1));
                assert(b =~= seq![b[0]] + b.skip(1));
            }
        }
    } else {
        assert(a.len() == 0 && b.len() == 0 ==> a =~= b);
    }
}

proof fn lemma_bytes_common(a: Seq<u8>, b: Seq<u8>, n: int)
    requires
        0 <= n <= a.len(),
        n <= b.len(),
        a.take(n) == b.take(n),
    ensures
        bytes_before(a, b) == bytes_before(a.skip(n), b.skip(n)),
    decreases n,
{
    if n > 0 {
        assert(a[0] == a.take(n)[0] && b[0] == b.take(n)[0]);
        assert(a.skip(1).take(n - 1) =~= a.take(n).skip(1));
        assert(b.skip(1).take(n - 1) =~= b.take(n).skip(1));
        lemma_bytes_common(a.skip(1), b.skip(1), n - 1);
        assert(a.skip(1).skip(n - 1) =~= a.skip(n));
        assert(b.skip(1).skip(n - 1) =~= b.skip(n));
    } else {
        assert(a.skip(0) =~= a);
        assert(b.skip(0) =~= b);
    }
}

/// The order of keys is a strict total order.
pub proof fn law_key_order_is_total(a: Seq<char>, b: Seq<char>, c: Seq<char>)
    ensures
        !key_before(a, a),
        key_before(a, b) && key_before(b, c) ==> key_before(a, c),
        a == b || key_before(a, b) || key_before(b, a),
{
    lemma_bytes_irreflexive(encode_utf8(a));
    if key_before(a, b) && key_before(b, c) {
        lemma_bytes_transitive(encode_utf8(a), encode_utf8(b), encode_utf8(c));
    }
    lemma_bytes_total(encode_utf8(a), encode_utf8(b));
    encode_utf8_decode_utf8(a);
    encode_utf8_decode_utf8(b);
}

fn is_before(left: &str, right: &str) -> (before: bool)
    ensures
        before == key_before(left@, right@),
{
    let a = left.as_bytes();
    let b = right.as_bytes();
    let mut at: usize = 0;
    while at < a.len() && at < b.len() && a[at] == b[at]
        invariant
            at <= a@.len(),
            at <= b@.len(),
            forall|i: int| 0 <= i < at ==> a@[i] == b@[i],
        decreases a@.len() - at,
    {
        at = at + 1;
    }
    proof {
        assert(a@.take(at as int) =~= b@.take(at as int));
        lemma_bytes_common(a@, b@, at as int);
    }
    if at == b.len() {
        false
    } else if at == a.len() {
        true
    } else {
        a[at] < b[at]
    }
}

/// A map whose entries stand in the order of their keys.
#[derive(Debug, PartialEq, Eq)]
pub struct OrdMap<V> {
    entries: Vec<(String, V)>,
}

/// Every key stands before the keys behind it.
pub open spec fn in_key_order<V>(entries: Seq<(String, V)>) -> bool {
    forall|i: int, j: int|
        0 <= i < j < entries.len() ==> key_before(#[trigger] entries[i].0@, #[trigger] entries[j].0@)
}

/// An entry holds `key`.
pub open spec fn holds_key<V>(entries: Seq<(String, V)>, key: Seq<char>) -> bool {
    exists|i: int| 0 <= i < entries.len() && #[trigger] entries[i].0@ == key
}

/// Where `key` stands among the entries.
pub open spec fn position<V>(entries: Seq<(String, V)>, key: Seq<char>) -> int {
    choose|i: int| 0 <= i < entries.len() && #[trigger] entries[i].0@ == key
}

/// The map that a list of entries stands for.
pub open spec fn entry_map<V>(entries: Seq<(String, V)>) -> Map<Seq<char>, V> {
    Map::new(
        |key: Seq<char>| holds_key(entries, key),
        |key: Seq<char>| entries[position(entries, key)].1,
    )
}

impl<V> View for OrdMap<V> {
    type V = Map<Seq<char>, V>;

    closed spec fn view(&self) -> Map<Seq<char>, V> {
        entry_map(self.entries@)
    }
}

/// The map holds each entry under its key.
pub proof fn lemma_entry<V>(entries: Seq<(String, V)>, i: int)
    requires
        in_key_order(entries),
        0 <= i < entries.len(),
    ensures
        entry_map(entries).contains_key(entries[i].0@),
        entry_map(entries)[entries[i].0@] == entries[i].1,
{
    let key = entries[i].0@;
    assert(holds_key(entries, key));
    let j = position(entries, key);
    law_key_order_is_total(key, key, key);
    if i < j {
        assert(key_before(entries[i].0@, entries[j].0@));
    } else if j < i {
        assert(key_before(entries[j].0@, entries[i].0@));
    }
}

impl<V> OrdMap<V> {
    #[verifier::type_invariant]
    spec fn ordered(&self) -> bool {
        in_key_order(self.entries@)
    }

    /// Creates an empty map.
    pub fn new() -> (map: Self)
        ensures
            map@ == Map::<Seq<char>, V>::empty(),
    {
        let map = OrdMap { entries: Vec::new() };
        assert(map@ =~= Map::<Seq<char>, V>::empty());
        map
    }

    /// Returns the entries in the order of their keys.
    pub fn entries(&self) -> (entries: &[(String, V)])
        ensures
            in_key_order(entries@),
            entry_map(entries@) == self@,
    {
        proof {
            use_type_invariant(self);
        }
        self.entries.as_slice()
    }

    /// The number of entries whose key stands before `key`.
    fn rank(&self, key: &str) -> (at: usize)
        ensures
            at <= self.entries@.len(),
            forall|i: int| 0 <= i < at ==> key_before(#[trigger] self.entries@[i].0@, key@),
            at < self.entries@.len() ==> !key_before(self.entries@[at as int].0@, key@),
    {
        let mut at: usize = 0;
        while at < self.entries.len() && is_before(self.entries[at].0.as_str(), key)
            invariant
                at <= self.entries@.len(),
                forall|i: int| 0 <= i < at ==> key_before(#[trigger] self.entries@[i].0@, key@),
            decreases self.entries@.len() - at,
        {
            at = at + 1;
        }
        at
    }

    /// Returns the value under `key`.
    pub fn get(&self, key: &str) -> (value: Option<&V>)
        ensures
            value is Some <==> self@.contains_key(key@),
            value matches Some(value) ==> *value == self@[key@],
    {
        proof {
            use_type_invariant(self);
        }
        let at: usize = self.rank(key);
        if at < self.entries.len() && str_eq(self.entries[at].0.as_str(), key) {
            proof {
                lemma_entry(self.entries@, at as int);
            }
            return Some(&self.entries[at].1);
        }
        proof {
            if self@.contains_key(key@) {
                let i = position(self.entries@, key@);
                law_key_order_is_total(key@, key@, key@);
                if i > at {
                    let there = self.entries@[at as int].0@;
                    assert(key_before(there, self.entries@[i].0@));
                }
            }
        }
        None
    }

    /// Returns whether a value stands under `key`.
    pub fn contains_key(&self, key: &str) -> (found: bool)
        ensures
            found == self@.contains_key(key@),
    {
        self.get(key).is_some()
    }

    /// Puts `value` under `key`, in place of a value that stood there.
    pub fn insert(&mut self, key: String, value: V)
        ensures
            final(self)@ == old(self)@.insert(key@, value),
    {
        proof {
            use_type_invariant(&*self);
        }
        let at: usize = self.rank(key.as_str());
        let ghost before = self.entries@;
        let found: bool = at < self.entries.len() && str_eq(
            self.entries[at].0.as_str(),
            key.as_str(),
        );
        let ghost name = key@;
        let mut entries: Vec<(String, V)> = Vec::new();
        std::mem::swap(&mut entries, &mut self.entries);
        if found {
            let _ = entries.remove(at);
        }
        entries.insert(at, (key, value));
        let ghost skipped: int = if found { 1 } else { 0 };
        proof {
            assert(entries@.len() == before.len() + 1 - skipped);
            assert(entries@[at as int] == (key, value));
            assert(forall|i: int| 0 <= i < at ==> entries@[i] == before[i]);
            assert(forall|i: int|
                at < i < entries@.len() ==> entries@[i] == before[i - 1 + skipped]);
            assert forall|i: int, j: int| 0 <= i < j < entries@.len() implies key_before(
                #[trigger] entries@[i].0@,
                #[trigger] entries@[j].0@,
            ) by {
                lemma_order_kept(before, entries@, at as int, skipped, name, i, j);
            }
            assert(entry_map(entries@) =~= entry_map(before).insert(name, value)) by {
                lemma_inserted(before, entries@, at as int, skipped, name);
            }
        }
        self.entries = entries;
    }
}

impl<V: Clone> Clone for OrdMap<V> {
    fn clone(&self) -> (copy: Self)
        ensures
            copy@.dom() == self@.dom(),
            forall|key: Seq<char>|
                copy@.contains_key(key) ==> cloned::<V>(self@[key], #[trigger] copy@[key]),
    {
        proof {
            use_type_invariant(self);
        }
        let mut entries: Vec<(String, V)> = Vec::new();
        let mut at: usize = 0;
        while at < self.entries.len()
            invariant
                at <= self.entries@.len(),
                entries@.len() == at,
                forall|i: int| 0 <= i < at ==> #[trigger] entries@[i].0 == self.entries@[i].0,
                forall|i: int|
                    0 <= i < at ==> cloned::<V>(self.entries@[i].1, #[trigger] entries@[i].1),
            decreases self.entries@.len() - at,
        {
            let value = self.entries[at].1.clone();
            entries.push((self.entries[at].0.clone(), value));
            at = at + 1;
        }
        proof {
            assert forall|i: int, j: int| 0 <= i < j < entries@.len() implies key_before(
                #[trigger] entries@[i].0@,
                #[trigger] entries@[j].0@,
            ) by {
                assert(key_before(self.entries@[i].0@, self.entries@[j].0@));
            }
            assert forall|key: Seq<char>| holds_key(entries@, key) implies holds_key(
                self.entries@,
                key,
            ) && cloned::<V>(self@[key], entry_map(entries@)[key]) by {
                let i = position(entries@, key);
                assert(self.entries@[i].0@ == key);
                lemma_entry(entries@, i);
                lemma_entry(self.entries@, i);
            }
            assert forall|key: Seq<char>| holds_key(self.entries@, key) implies holds_key(
                entries@,
                key,
            ) by {
                let i = position(self.entries@, key);
                assert(entries@[i].0@ == key);
            }
            assert(entry_map(entries@).dom() =~= self@.dom());
        }
        OrdMap { entries }
    }
}

proof fn lemma_order_kept<V>(
    before: Seq<(String, V)>,
    entries: Seq<(String, V)>,
    at: int,
    skipped: int,
    name: Seq<char>,
    i: int,
    j: int,
)
    requires
        in_key_order(before),
        0 <= at <= before.len(),
        skipped == 0 || skipped == 1,
        skipped == 1 ==> at < before.len() && before[at].0@ == name,
        skipped == 0 && at < before.len() ==> before[at].0@ != name,
        forall|k: int| 0 <= k < at ==> key_before(#[trigger] before[k].0@, name),
        at < before.len() ==> !key_before(before[at].0@, name),
        entries.len() == before.len() + 1 - skipped,
        entries[at].0@ == name,
        forall|k: int| 0 <= k < at ==> entries[k] == before[k],
        forall|k: int| at < k < entries.len() ==> entries[k] == before[k - 1 + skipped],
        0 <= i < j < entries.len(),
    ensures
        key_before(entries[i].0@, entries[j].0@),
{
    if j < at {
    } else if j == at {
        assert(key_before(before[i].0@, name));
    } else {
        let k = j - 1 + skipped;
        if i == at {
            law_key_order_is_total(before[at].0@, name, name);
            if k > at {
                assert(key_before(before[at].0@, before[k].0@));
                law_key_order_is_total(name, before[at].0@, before[k].0@);
            }
        } else if i < at {
            assert(entries[i] == before[i]);
            assert(key_before(before[i].0@, before[k].0@));
        } else {
            let l = i - 1 + skipped;
            assert(key_before(before[l].0@, before[k].0@));
        }
    }
}

proof fn lemma_inserted<V>(
    before: Seq<(String, V)>,
    entries: Seq<(String, V)>,
    at: int,
    skipped: int,
    name: Seq<char>,
)
    requires
        in_key_order(before),
        in_key_order(entries),
        0 <= at <= before.len(),
        skipped == 0 || skipped == 1,
        skipped == 1 ==> at < before.len() && before[at].0@ == name,
        entries.len() == before.len() + 1 - skipped,
        entries[at].0@ == name,
        forall|k: int| 0 <= k < at ==> entries[k] == before[k],
        forall|k: int| at < k < entries.len() ==> entries[k] == before[k - 1 + skipped],
    ensures
        entry_map(entries) == entry_map(before).insert(name, entries[at].1),
{
    let expected = entry_map(before).insert(name, entries[at].1);
    assert forall|key: Seq<char>| entry_map(entries).contains_key(key) implies
        expected.contains_key(key) && entry_map(entries)[key] == expected[key] by {
        let i = position(entries, key);
        assert(entries[i].0@ == key);
        lemma_entry(entries, i);
        if i < at {
            lemma_entry(before, i);
            assert(key_before(entries[i].0@, entries[at].0@));
            law_key_order_is_total(key, key, key);
        } else if i > at {
            lemma_entry(before, i - 1 + skipped);
            assert(key_before(entries[at].0@, entries[i].0@));
            law_key_order_is_total(key, key, key);
        }
    }
    assert forall|key: Seq<char>| expected.contains_key(key) implies
        entry_map(entries).contains_key(key) by {
        if key == name {
            lemma_entry(entries, at);
        } else {
            let i = position(before, key);
            assert(before[i].0@ == key);
            if i < at {
                assert(entries[i].0@ == key);
            } else {
                let j = i + 1 - skipped;
                assert(entries[j] == before[j - 1 + skipped]);
                assert(entries[j].0@ == key);
            }
        }
    }
    assert(entry_map(entries) =~= expected);
}

/// Where two byte strings part: they agree up to `at`, and there one of them
/// ends or has the smaller byte.
pub open spec fn part_at(left: Seq<u8>, right: Seq<u8>, at: int) -> bool {
    &&& 0 <= at <= left.len()
    &&& at < right.len()
    &&& left.take(at) == right.take(at)
    &&& at == left.len() || left[at] < right[at]
}

/// One key stands before another exactly where, at the first byte in which
/// their UTF-8 forms part, it ends or has the smaller byte.
pub proof fn law_key_order_is_by_bytes(left: Seq<char>, right: Seq<char>)
    ensures
        key_before(left, right) <==> exists|at: int| #[trigger]
            part_at(encode_utf8(left), encode_utf8(right), at),
{
    let a = encode_utf8(left);
    let b = encode_utf8(right);
    if key_before(left, right) {
        let at = lemma_part(a, b);
        assert(part_at(a, b, at));
    }
    if exists|at: int| #[trigger] part_at(a, b, at) {
        let at = choose|at: int| #[trigger] part_at(a, b, at);
        lemma_bytes_common(a, b, at);
    }
}

proof fn lemma_part(a: Seq<u8>, b: Seq<u8>) -> (at: int)
    requires
        bytes_before(a, b),
    ensures
        part_at(a, b, at),
    decreases a.len(),
{
    if a.len() == 0 {
        assert(a.take(0) =~= b.take(0));
        0
    } else if a[0] == b[0] {
        let rest = lemma_part(a.skip(1), b.skip(1));
        assert(a.take(rest + 1) =~= seq![a[0]] + a.skip(1).take(rest));
        assert(b.take(rest + 1) =~= seq![b[0]] + b.skip(1).take(rest));
        rest + 1
    } else {
        assert(a.take(0) =~= b.take(0));
        0
    }
}

} // verus!
