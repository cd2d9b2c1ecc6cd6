//! The in-memory typed key/value settings store.
//!
//! Keys are strings; values are booleans, integers or strings. The store
//! keeps at most one entry per key. Reading and writing the backing file is
//! the host's job: it hands the library a list of entries and receives the
//! entries back for serialization.

use vstd::prelude::*;

verus! {

/// A typed settings value.
#[derive(Debug, PartialEq)]
pub enum KVValue {
    Boolean(bool),
    Integer(i64),
    Text(String),
}

/// The settings entries: at most one value per key.
#[derive(Debug)]
pub struct KVData {
    pub entries: Vec<(String, KVValue)>,
}

/// The settings store.
#[derive(Debug)]
pub struct KVStore {
    pub kv: KVData,
}

/// No key occurs twice.
pub open spec fn kv_unique(s: Seq<(String, KVValue)>) -> bool {
    forall|i: int, j: int| 0 <= i < j < s.len() ==> (#[trigger] s[i]).0@ != (#[trigger] s[j]).0@
}

/// Whether some entry holds this key.
pub open spec fn kv_has(s: Seq<(String, KVValue)>, k: Seq<char>) -> bool {
    exists|i: int| 0 <= i < s.len() && (#[trigger] s[i]).0@ == k
}

/// Index of the entry holding this key, when there is one.
pub open spec fn kv_index(s: Seq<(String, KVValue)>, k: Seq<char>) -> int {
    choose|i: int| 0 <= i < s.len() && (#[trigger] s[i]).0@ == k
}

/// The value stored under a key, if any.
pub open spec fn kv_get(s: Seq<(String, KVValue)>, k: Seq<char>) -> Option<KVValue> {
    if kv_has(s, k) {
        Some(s[kv_index(s, k)].1)
    } else {
        None
    }
}

/// With unique keys, any entry holding the key is the entry looked up.
proof fn lemma_kv_index_is(s: Seq<(String, KVValue)>, k: Seq<char>, i: int)
    requires
        kv_unique(s),
        0 <= i < s.len(),
        s[i].0@ == k,
    ensures
        kv_has(s, k),
        kv_index(s, k) == i,
        kv_get(s, k) == Some(s[i].1),
{
    assert(kv_has(s, k));
    let w = kv_index(s, k);
    if w != i {
        if w < i {
            assert(s[w].0@ != s[i].0@);
        } else {
            assert(s[i].0@ != s[w].0@);
        }
    }
}

/// Appending an entry for a fresh key: that key's lookup gains the value,
/// every other lookup is unchanged.
proof fn lemma_kv_push(s: Seq<(String, KVValue)>, k: String, v: KVValue)
    requires
        kv_unique(s),
        !kv_has(s, k@),
    ensures
        kv_unique(s.push((k, v))),
        kv_get(s.push((k, v)), k@) == Some(v),
        forall|u: Seq<char>| u != k@ ==> kv_get(s.push((k, v)), u) == kv_get(s, u),
{
    let s2 = s.push((k, v));
    assert forall|i: int, j: int| 0 <= i < j < s2.len() implies (#[trigger] s2[i]).0@ != (
    #[trigger] s2[j]).0@ by {
        if j == s2.len() - 1 {
            assert(s2[i].0@ == s[i].0@);
        }
    }
    lemma_kv_index_is(s2, k@, s.len() as int);
    assert forall|u: Seq<char>| u != k@ implies kv_get(s2, u) == kv_get(s, u) by {
        if kv_has(s, u) {
            let w = kv_index(s, u);
            assert(s2[w].0@ == u);
            lemma_kv_index_is(s2, u, w);
        } else if kv_has(s2, u) {
            let w = choose|w: int| 0 <= w < s2.len() && (#[trigger] s2[w]).0@ == u;
            assert(w < s.len());
            assert(s[w].0@ == u);
        }
    }
}

/// Replacing the entry of one key: that key's lookup changes, every other
/// lookup is unchanged.
proof fn lemma_kv_update(s: Seq<(String, KVValue)>, i: int, k: String, v: KVValue)
    requires
        kv_unique(s),
        0 <= i < s.len(),
        s[i].0@ == k@,
    ensures
        kv_unique(s.update(i, (k, v))),
        kv_get(s.update(i, (k, v)), k@) == Some(v),
        forall|u: Seq<char>| u != k@ ==> kv_get(s.update(i, (k, v)), u) == kv_get(s, u),
{
    let s2 = s.update(i, (k, v));
    assert forall|a: int, b: int| 0 <= a < b < s2.len() implies (#[trigger] s2[a]).0@ != (
    #[trigger] s2[b]).0@ by {
        assert(s2[a].0@ == s[a].0@);
        assert(s2[b].0@ == s[b].0@);
    }
    lemma_kv_index_is(s2, k@, i);
    assert forall|u: Seq<char>| u != k@ implies kv_get(s2, u) == kv_get(s, u) by {
        if kv_has(s, u) {
            let w = kv_index(s, u);
            assert(w != i);
            assert(s2[w].0@ == u);
            lemma_kv_index_is(s2, u, w);
        } else if kv_has(s2, u) {
            let w = choose|w: int| 0 <= w < s2.len() && (#[trigger] s2[w]).0@ == u;
            assert(s[w].0@ == u);
        }
    }
}

/// Removing the entry of one key: that key's lookup disappears, every other
/// lookup is unchanged.
proof fn lemma_kv_remove(s: Seq<(String, KVValue)>, i: int)
    requires
        kv_unique(s),
        0 <= i < s.len(),
    ensures
        kv_unique(s.remove(i)),
        kv_get(s.remove(i), s[i].0@) == None::<KVValue>,
        forall|u: Seq<char>| u != s[i].0@ ==> kv_get(s.remove(i), u) == kv_get(s, u),
{
    let s2 = s.remove(i);
    assert forall|a: int, b: int| 0 <= a < b < s2.len() implies (#[trigger] s2[a]).0@ != (
    #[trigger] s2[b]).0@ by {
        let oa: int = if a < i {
            a
        } else {
            a + 1
        };
        let ob: int = if b < i {
            b
        } else {
            b + 1
        };
        assert(s2[a].0@ == s[oa].0@);
        assert(s2[b].0@ == s[ob].0@);
    }
    assert forall|w: int| 0 <= w < s2.len() implies (#[trigger] s2[w]).0@ != s[i].0@ by {
        if w < i {
            assert(s2[w].0@ == s[w].0@);
        } else {
            assert(s2[w].0@ == s[w + 1].0@);
        }
    }
    assert(!kv_has(s2, s[i].0@));
    assert forall|u: Seq<char>| u != s[i].0@ implies kv_get(s2, u) == kv_get(s, u) by {
        if kv_has(s, u) {
            let w = kv_index(s, u);
            assert(w != i);
            if w < i {
                assert(s2[w].0@ == u);
                lemma_kv_index_is(s2, u, w);
            } else {
                assert(s2[w - 1].0@ == u);
                lemma_kv_index_is(s2, u, w - 1);
            }
        } else if kv_has(s2, u) {
            let w = choose|w: int| 0 <= w < s2.len() && (#[trigger] s2[w]).0@ == u;
            if w < i {
                assert(s[w].0@ == u);
            } else {
                assert(s[w + 1].0@ == u);
            }
        }
    }
}

/// Find the entry of a key.
fn kv_find(entries: &Vec<(String, KVValue)>, key: &String) -> (r: Option<usize>)
    requires
        kv_unique(entries@),
    ensures
        match r {
            Some(i) => i < entries@.len() && entries@[i as int].0@ == key@ && kv_index(
                entries@,
                key@,
            ) == i as int && kv_get(entries@, key@) == Some(entries@[i as int].1),
            None => !kv_has(entries@, key@) && kv_get(entries@, key@) == None::<KVValue>,
        },
{
    let mut i: usize = 0;
    while i < entries.len()
        invariant
            0 <= i <= entries@.len(),
            kv_unique(entries@),
            forall|j: int| 0 <= j < i ==> (#[trigger] entries@[j]).0@ != key@,
        decreases entries@.len() - i,
    {
        if entries[i].0 == *key {
            proof {
                lemma_kv_index_is(entries@, key@, i as int);
            }
            return Some(i);
        }
        i = i + 1;
    }
    proof {
        if kv_has(entries@, key@) {
            let w = choose|w: int| 0 <= w < entries@.len() && (#[trigger] entries@[w]).0@ == key@;
            assert(entries@[w].0@ != key@);
        }
    }
    None
}

impl KVStore {
    /// Keys are unique.
    pub open spec fn wf(self) -> bool {
        kv_unique(self.kv.entries@)
    }

    /// The value stored under a key, if any.
    pub open spec fn spec_value(self, k: Seq<char>) -> Option<KVValue> {
        kv_get(self.kv.entries@, k)
    }

    /// An empty store.
    pub fn new() -> (r: KVStore)
        ensures
            r.wf(),
            r.kv.entries@.len() == 0,
    {
        KVStore { kv: KVData { entries: Vec::new() } }
    }

    /// Store a value under a key, replacing any previous value.
    pub fn set(&mut self, key: &str, value: KVValue)
        requires
            old(self).wf(),
        ensures
            final(self).wf(),
            final(self).spec_value(key@) == Some(value),
            forall|u: Seq<char>|
                u != key@ ==> final(self).spec_value(u) == old(self).spec_value(u),
    {
        let k = key.to_owned();
        match kv_find(&self.kv.entries, &k) {
            Some(i) => {
                let ghost old_entries = self.kv.entries@;
                proof {
                    lemma_kv_update(old_entries, i as int, k, value);
                }
                self.kv.entries[i] = (k, value);
            },
            None => {
                let ghost old_entries = self.kv.entries@;
                proof {
                    lemma_kv_push(old_entries, k, value);
                }
                self.kv.entries.push((k, value));
            },
        }
    }

    /// The value stored under a key, if any.
    pub fn get(&self, key: &str) -> (r: Option<KVValue>)
        requires
            self.wf(),
        ensures
            r == self.spec_value(key@),
    {
        let k = key.to_owned();
        match kv_find(&self.kv.entries, &k) {
            Some(i) => {
                match &self.kv.entries[i].1 {
                    KVValue::Boolean(b) => Some(KVValue::Boolean(*b)),
                    KVValue::Integer(n) => Some(KVValue::Integer(*n)),
                    KVValue::Text(s) => Some(KVValue::Text(s.clone())),
                }
            },
            None => None,
        }
    }

    /// The string stored under a key, when the key holds a string.
    pub fn get_as_str(&self, key: &str) -> (r: Option<String>)
        requires
            self.wf(),
        ensures
            match self.spec_value(key@) {
                Some(KVValue::Text(s)) => r == Some(s),
                _ => r is None,
            },
    {
        let k = key.to_owned();
        match kv_find(&self.kv.entries, &k) {
            Some(i) => {
                match &self.kv.entries[i].1 {
                    KVValue::Text(s) => Some(s.clone()),
                    _ => None,
                }
            },
            None => None,
        }
    }

    /// The integer stored under a key, when the key holds an integer.
    pub fn get_as_integer(&self, key: &str) -> (r: Option<i64>)
        requires
            self.wf(),
        ensures
            match self.spec_value(key@) {
                Some(KVValue::Integer(n)) => r == Some(n),
                _ => r is None,
            },
    {
        let k = key.to_owned();
        match kv_find(&self.kv.entries, &k) {
            Some(i) => {
                match &self.kv.entries[i].1 {
                    KVValue::Integer(n) => Some(*n),
                    _ => None,
                }
            },
            None => None,
        }
    }

    /// The boolean stored under a key, with the given fallback when the key
    /// is missing or holds another type.
    pub fn get_as_bool_or_default(&self, key: &str, default: bool) -> (r: bool)
        requires
            self.wf(),
        ensures
            r == (match self.spec_value(key@) {
                Some(KVValue::Boolean(b)) => b,
                _ => default,
            }),
    {
        let k = key.to_owned();
        match kv_find(&self.kv.entries, &k) {
            Some(i) => {
                match &self.kv.entries[i].1 {
                    KVValue::Boolean(b) => *b,
                    _ => default,
                }
            },
            None => default,
        }
    }

    /// The boolean stored under a key, `false` when the key is missing or
    /// holds another type.
    pub fn get_as_bool(&self, key: &str) -> (r: bool)
        requires
            self.wf(),
        ensures
            r == (match self.spec_value(key@) {
                Some(KVValue::Boolean(b)) => b,
                _ => false,
            }),
    {
        self.get_as_bool_or_default(key, false)
    }

    /// Remove the value stored under a key, if any.
    pub fn delete(&mut self, key: &str)
        requires
            old(self).wf(),
        ensures
            final(self).wf(),
            final(self).spec_value(key@) == None::<KVValue>,
            forall|u: Seq<char>|
                u != key@ ==> final(self).spec_value(u) == old(self).spec_value(u),
    {
        let k = key.to_owned();
        match kv_find(&self.kv.entries, &k) {
            Some(i) => {
                let ghost old_entries = self.kv.entries@;
                proof {
                    lemma_kv_remove(old_entries, i as int);
                }
                self.kv.entries.remove(i);
            },
            None => {},
        }
    }
}

} // verus!
