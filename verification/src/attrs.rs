//! Attribute maps: string keys to string values, kept in the order in which
//! the keys were first set, with no key held twice.

use crate::text::plain_key;
use vstd::prelude::*;

verus! {

/// What an attribute map holds: its entries, oldest key first.
pub type Entries = Seq<(Seq<char>, Seq<char>)>;

/// Whether some entry has the key.
pub open spec fn has_key(s: Entries, key: Seq<char>) -> bool {
    exists|i: int| 0 <= i < s.len() && (#[trigger] s[i]).0 == key
}

/// The place of an entry with the key, where there is one.
pub open spec fn key_index(s: Entries, key: Seq<char>) -> int {
    choose|i: int| 0 <= i < s.len() && (#[trigger] s[i]).0 == key
}

/// The value stored under the key.
pub open spec fn value_of(s: Entries, key: Seq<char>) -> Option<Seq<char>> {
    if has_key(s, key) {
        Some(s[key_index(s, key)].1)
    } else {
        None
    }
}

/// No key occurs in two entries.
pub open spec fn distinct_keys(s: Entries) -> bool {
    forall|i: int, j: int| 0 <= i < j < s.len() ==> (#[trigger] s[i]).0 != (#[trigger] s[j]).0
}

/// The entries after `key` is set to `value`: an entry that has the key keeps
/// its place and takes the value, a new key goes to the end.
pub open spec fn put(s: Entries, key: Seq<char>, value: Seq<char>) -> Entries {
    if has_key(s, key) {
        s.update(key_index(s, key), (key, value))
    } else {
        s.push((key, value))
    }
}

/// The entries after `key` is set to `value` unless the key is already there.
pub open spec fn put_if_absent(s: Entries, key: Seq<char>, value: Seq<char>) -> Entries {
    if has_key(s, key) {
        s
    } else {
        s.push((key, value))
    }
}

/// The entries without the one that has the key.
pub open spec fn without(s: Entries, key: Seq<char>) -> Entries {
    if has_key(s, key) {
        s.remove(key_index(s, key))
    } else {
        s
    }
}

/// With distinct keys, an entry that has the key is the one `key_index` names.
pub proof fn lemma_key_found(s: Entries, key: Seq<char>, i: int)
    requires
        distinct_keys(s),
        0 <= i < s.len(),
        s[i].0 == key,
    ensures
        has_key(s, key),
        key_index(s, key) == i,
        value_of(s, key) == Some(s[i].1),
{
    let j = key_index(s, key);
    if j < i {
        assert(s[j].0 != s[i].0);
    } else if i < j {
        assert(s[i].0 != s[j].0);
    }
}

/// Setting a key keeps the keys distinct, is seen under that key, and leaves
/// every other key as it was.
pub proof fn lemma_put(s: Entries, key: Seq<char>, value: Seq<char>)
    requires
        distinct_keys(s),
    ensures
        distinct_keys(put(s, key, value)),
        value_of(put(s, key, value), key) == Some(value),
        forall|other: Seq<char>|
            other != key ==> value_of(#[trigger] put(s, key, value), other) == #[trigger] value_of(
                s,
                other,
            ),
{
    let t = put(s, key, value);
    if has_key(s, key) {
        let i = key_index(s, key);
        assert forall|a: int, b: int| 0 <= a < b < t.len() implies (#[trigger] t[a]).0 != (
        #[trigger] t[b]).0 by {
            assert(s[a].0 != s[b].0);
        }
        lemma_key_found(t, key, i);
        assert forall|other: Seq<char>| other != key implies value_of(t, other) == value_of(
            s,
            other,
        ) by {
            if has_key(s, other) {
                let j = key_index(s, other);
                assert(t[j] == s[j]);
                lemma_key_found(t, other, j);
            } else if has_key(t, other) {
                let j = key_index(t, other);
                assert(s[j].0 == other);
            }
        }
    } else {
        let n = s.len() as int;
        assert forall|a: int, b: int| 0 <= a < b < t.len() implies (#[trigger] t[a]).0 != (
        #[trigger] t[b]).0 by {
            if b == n {
                assert(s[a].0 != key);
            } else {
                assert(s[a].0 != s[b].0);
            }
        }
        lemma_key_found(t, key, n);
        assert forall|other: Seq<char>| other != key implies value_of(t, other) == value_of(
            s,
            other,
        ) by {
            if has_key(s, other) {
                let j = key_index(s, other);
                assert(t[j] == s[j]);
                lemma_key_found(t, other, j);
            } else if has_key(t, other) {
                let j = key_index(t, other);
                assert(s[j].0 == other);
            }
        }
    }
}

/// Setting a key only where it is absent keeps the keys distinct, keeps a
/// value that was there, and leaves every other key as it was.
pub proof fn lemma_put_if_absent(s: Entries, key: Seq<char>, value: Seq<char>)
    requires
        distinct_keys(s),
    ensures
        distinct_keys(put_if_absent(s, key, value)),
        value_of(put_if_absent(s, key, value), key) == (if has_key(s, key) {
            value_of(s, key)
        } else {
            Some(value)
        }),
        forall|other: Seq<char>|
            other != key ==> value_of(#[trigger] put_if_absent(s, key, value), other)
                == #[trigger] value_of(s, other),
{
    if !has_key(s, key) {
        assert(put_if_absent(s, key, value) == put(s, key, value));
        lemma_put(s, key, value);
    }
}

/// Removing a key keeps the keys distinct, leaves nothing under that key, and
/// leaves every other key as it was.
pub proof fn lemma_without(s: Entries, key: Seq<char>)
    requires
        distinct_keys(s),
    ensures
        distinct_keys(without(s, key)),
        value_of(without(s, key), key) is None,
        forall|other: Seq<char>|
            other != key ==> value_of(#[trigger] without(s, key), other) == #[trigger] value_of(
                s,
                other,
            ),
{
    let t = without(s, key);
    if has_key(s, key) {
        let i = key_index(s, key);
        assert forall|a: int| 0 <= a < t.len() implies #[trigger] t[a] == s[if a < i {
            a
        } else {
            a + 1
        }] by {}
        assert forall|a: int, b: int| 0 <= a < b < t.len() implies (#[trigger] t[a]).0 != (
        #[trigger] t[b]).0 by {
            let a0 = if a < i {
                a
            } else {
                a + 1
            };
            let b0 = if b < i {
                b
            } else {
                b + 1
            };
            assert(s[a0].0 != s[b0].0);
        }
        if has_key(t, key) {
            let j = key_index(t, key);
            let j0 = if j < i {
                j
            } else {
                j + 1
            };
            assert(t[j] == s[j0]);
            lemma_key_found(s, key, j0);
        }
        assert forall|other: Seq<char>| other != key implies value_of(t, other) == value_of(
            s,
            other,
        ) by {
            if has_key(s, other) {
                let j = key_index(s, other);
                let j1 = if j < i {
                    j
                } else {
                    j - 1
                };
                assert(t[j1] == s[j]);
                lemma_key_found(t, other, j1);
            } else if has_key(t, other) {
                let j = key_index(t, other);
                let j0 = if j < i {
                    j
                } else {
                    j + 1
                };
                assert(t[j] == s[j0]);
                assert(s[j0].0 == other);
            }
        }
    }
}

/// Every key is plain.
pub open spec fn plain_keys(s: Entries) -> bool {
    forall|i: int| 0 <= i < s.len() ==> plain_key((#[trigger] s[i]).0)
}

/// The place of the first key that is not plain, where there is one.
pub open spec fn first_dotted(s: Entries) -> int {
    choose|i: int|
        0 <= i < s.len() && !plain_key((#[trigger] s[i]).0) && forall|j: int|
            0 <= j < i ==> plain_key((#[trigger] s[j]).0)
}

/// Setting a plain key keeps every key plain.
pub proof fn lemma_plain_put(s: Entries, key: Seq<char>, value: Seq<char>)
    requires
        plain_keys(s),
        plain_key(key),
    ensures
        plain_keys(put(s, key, value)),
        plain_keys(put_if_absent(s, key, value)),
{
    let t = put(s, key, value);
    assert forall|i: int| 0 <= i < t.len() implies plain_key((#[trigger] t[i]).0) by {
        if i < s.len() && t[i] != (key, value) {
            assert(t[i] == s[i]);
        }
    }
    let u = put_if_absent(s, key, value);
    assert forall|i: int| 0 <= i < u.len() implies plain_key((#[trigger] u[i]).0) by {
        if i < s.len() {
            assert(u[i] == s[i]);
        }
    }
}

/// Removing a key keeps every key plain.
pub proof fn lemma_plain_without(s: Entries, key: Seq<char>)
    requires
        plain_keys(s),
    ensures
        plain_keys(without(s, key)),
{
    let t = without(s, key);
    if has_key(s, key) {
        let k = key_index(s, key);
        assert forall|i: int| 0 <= i < t.len() implies plain_key((#[trigger] t[i]).0) by {
            if i < k {
                assert(t[i] == s[i]);
            } else {
                assert(t[i] == s[i + 1]);
            }
        }
    }
}

/// An attribute map.
#[derive(Debug)]
pub struct Attrs {
    entries: Vec<(String, String)>,
}

impl View for Attrs {
    type V = Entries;

    closed spec fn view(&self) -> Entries {
        Seq::new(self.entries@.len(), |i: int| (self.entries@[i].0@, self.entries@[i].1@))
    }
}

impl Attrs {
    /// A well-formed map holds no key twice. Every map that this module hands
    /// out is well formed.
    pub open spec fn wf(&self) -> bool {
        distinct_keys(self@)
    }

    /// The empty map.
    pub fn new() -> (a: Attrs)
        ensures
            a@ == Seq::<(Seq<char>, Seq<char>)>::empty(),
            a.wf(),
    {
        let a = Attrs { entries: Vec::new() };
        assert(a@ =~= Seq::<(Seq<char>, Seq<char>)>::empty());
        a
    }

    /// The number of keys.
    pub fn len(&self) -> (n: usize)
        ensures
            n == self@.len(),
    {
        self.entries.len()
    }

    /// Whether the map holds no key.
    pub fn is_empty(&self) -> (b: bool)
        ensures
            b == (self@.len() == 0),
    {
        self.entries.len() == 0
    }

    fn position(&self, key: &str) -> (r: Option<usize>)
        requires
            self.wf(),
        ensures
            match r {
                Some(i) => i < self@.len() && self@[i as int].0 == key@ && has_key(self@, key@)
                    && key_index(self@, key@) == i,
                None => !has_key(self@, key@),
            },
    {
        let mut i: usize = 0;
        while i < self.entries.len()
            invariant
                self.wf(),
                i <= self.entries@.len(),
                forall|j: int| 0 <= j < i ==> (#[trigger] self@[j]).0 != key@,
            decreases self.entries@.len() - i,
        {
            if *key == *self.entries[i].0.as_str() {
                proof {
                    lemma_key_found(self@, key@, i as int);
                }
                return Some(i);
            }
            i += 1;
        }
        None
    }

    /// Whether the key is set.
    pub fn contains_key(&self, key: &str) -> (b: bool)
        requires
            self.wf(),
        ensures
            b == has_key(self@, key@),
    {
        self.position(key).is_some()
    }

    /// The value stored under the key.
    pub fn get(&self, key: &str) -> (r: Option<&String>)
        requires
            self.wf(),
        ensures
            match r {
                Some(v) => value_of(self@, key@) == Some(v@),
                None => value_of(self@, key@) is None,
            },
    {
        match self.position(key) {
            Some(i) => Some(&self.entries[i].1),
            None => None,
        }
    }

    /// The entry at a place, oldest key first.
    pub fn entry(&self, i: usize) -> (r: Option<(&String, &String)>)
        ensures
            match r {
                Some((k, v)) => i < self@.len() && self@[i as int] == (k@, v@),
                None => i >= self@.len(),
            },
    {
        if i < self.entries.len() {
            Some((&self.entries[i].0, &self.entries[i].1))
        } else {
            None
        }
    }

    /// Sets the key to the value and hands back the value it had.
    pub fn insert(&mut self, key: String, value: String) -> (prev: Option<String>)
        requires
            old(self).wf(),
        ensures
            final(self).wf(),
            final(self)@ == put(old(self)@, key@, value@),
            match prev {
                Some(v) => value_of(old(self)@, key@) == Some(v@),
                None => value_of(old(self)@, key@) is None,
            },
    {
        proof {
            lemma_put(self@, key@, value@);
        }
        match self.position(key.as_str()) {
            Some(i) => {
                let prev = self.entries[i].1.clone();
                self.entries.set(i, (key, value));
                assert(self@ =~= put(old(self)@, key@, value@));
                Some(prev)
            },
            None => {
                self.entries.push((key, value));
                assert(self@ =~= put(old(self)@, key@, value@));
                None
            },
        }
    }

    /// Adds an entry under a key that the map does not hold.
    pub(crate) fn append(&mut self, key: &str, value: String)
        requires
            old(self).wf(),
            !has_key(old(self)@, key@),
        ensures
            final(self).wf(),
            final(self)@ == old(self)@.push((key@, value@)),
    {
        proof {
            lemma_put(self@, key@, value@);
        }
        self.entries.push((String::from_str(key), value));
        assert(self@ =~= old(self)@.push((key@, value@)));
    }

    /// Sets the key to the value unless the key is already set, and tells
    /// whether it set it.
    pub fn insert_if_absent(&mut self, key: String, value: String) -> (set: bool)
        requires
            old(self).wf(),
        ensures
            final(self).wf(),
            final(self)@ == put_if_absent(old(self)@, key@, value@),
            set == !has_key(old(self)@, key@),
    {
        proof {
            lemma_put_if_absent(self@, key@, value@);
        }
        match self.position(key.as_str()) {
            Some(_) => false,
            None => {
                self.entries.push((key, value));
                assert(self@ =~= put_if_absent(old(self)@, key@, value@));
                true
            },
        }
    }

    /// Removes the key and hands back the value it had.
    pub fn remove(&mut self, key: &str) -> (prev: Option<String>)
        requires
            old(self).wf(),
        ensures
            final(self).wf(),
            final(self)@ == without(old(self)@, key@),
            match prev {
                Some(v) => value_of(old(self)@, key@) == Some(v@),
                None => value_of(old(self)@, key@) is None,
            },
    {
        proof {
            lemma_without(self@, key@);
        }
        match self.position(key) {
            Some(i) => {
                let gone = self.entries.remove(i);
                assert(self@ =~= without(old(self)@, key@));
                Some(gone.1)
            },
            None => None,
        }
    }
}

impl Clone for Attrs {
    /// A copy that holds the same entries.
    fn clone(&self) -> (a: Attrs)
        ensures
            a@ == self@,
    {
        let mut entries: Vec<(String, String)> = Vec::new();
        let mut i: usize = 0;
        while i < self.entries.len()
            invariant
                i <= self.entries@.len(),
                entries@.len() == i,
                forall|j: int|
                    0 <= j < i ==> (#[trigger] entries@[j]).0@ == self.entries@[j].0@
                        && entries@[j].1@ == self.entries@[j].1@,
            decreases self.entries@.len() - i,
        {
            let k = self.entries[i].0.clone();
            let v = self.entries[i].1.clone();
            entries.push((k, v));
            i += 1;
        }
        let ghost copied = Seq::new(entries@.len(), |i: int| (entries@[i].0@, entries@[i].1@));
        assert(copied =~= self@);
        Attrs { entries }
    }
}

} // verus!
