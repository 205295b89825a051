//! The property-list tree that an archive is read from.

use vstd::prelude::*;

verus! {

/// An integer of a property list: any value that fits in an `i64` or a `u64`.
#[derive(Clone, Copy, Debug, PartialEq, Eq, Structural)]
pub struct PlistInteger {
    value: i128,
}

impl PlistInteger {
    /// The integer's mathematical value.
    pub closed spec fn spec_value(&self) -> int {
        self.value as int
    }

    pub fn from_signed(v: i64) -> (r: PlistInteger)
        ensures
            r.spec_value() == v as int,
    {
        PlistInteger { value: v as i128 }
    }

    pub fn from_unsigned(v: u64) -> (r: PlistInteger)
        ensures
            r.spec_value() == v as int,
    {
        PlistInteger { value: v as i128 }
    }

    /// The value as an `i64`, where it fits in one.
    pub fn as_signed(&self) -> (r: Option<i64>)
        ensures
            r == (if i64::MIN <= self.spec_value() <= i64::MAX {
                Some(self.spec_value() as i64)
            } else {
                None
            }),
    {
        if i64::MIN as i128 <= self.value && self.value <= i64::MAX as i128 {
            Some(self.value as i64)
        } else {
            None
        }
    }

    /// The value as a `u64`, where it fits in one.
    pub fn as_unsigned(&self) -> (r: Option<u64>)
        ensures
            r == (if 0 <= self.spec_value() <= u64::MAX {
                Some(self.spec_value() as u64)
            } else {
                None
            }),
    {
        if 0 <= self.value && self.value <= u64::MAX as i128 {
            Some(self.value as u64)
        } else {
            None
        }
    }
}

/// A node of a property-list tree.
///
/// A real number is held as its IEEE-754 bit pattern.
#[derive(Debug)]
pub enum PlistValue {
    Array(Vec<PlistValue>),
    Dictionary(Dictionary),
    Boolean(bool),
    Data(Vec<u8>),
    Real(u64),
    Integer(PlistInteger),
    String(String),
    Uid(u64),
}

/// A property-list dictionary: string keys, each present once, in the order
/// in which they were inserted.
#[derive(Debug)]
pub struct Dictionary {
    entries: Vec<(String, PlistValue)>,
}

/// Whether `key` is one of the keys of `entries`.
pub open spec fn has_key<V>(entries: Seq<(String, V)>, key: Seq<char>) -> bool {
    exists|i: int| 0 <= i < entries.len() && (#[trigger] entries[i]).0@ == key
}

/// No key occurs twice in `entries`.
pub open spec fn keys_unique<V>(entries: Seq<(String, V)>) -> bool {
    forall|i: int, j: int|
        0 <= i < entries.len() && 0 <= j < entries.len() && (#[trigger] entries[i]).0@ == (
        #[trigger] entries[j]).0@ ==> i == j
}

/// The value stored under `key` in `entries`, if any.
pub open spec fn lookup<V>(entries: Seq<(String, V)>, key: Seq<char>) -> Option<V> {
    if has_key(entries, key) {
        let i = choose|i: int| 0 <= i < entries.len() && (#[trigger] entries[i]).0@ == key;
        Some(entries[i].1)
    } else {
        None
    }
}

/// In entries whose keys are unique, the entry at `i` is what `lookup` finds.
pub proof fn lemma_lookup_at<V>(entries: Seq<(String, V)>, i: int)
    requires
        keys_unique(entries),
        0 <= i < entries.len(),
    ensures
        has_key(entries, entries[i].0@),
        lookup(entries, entries[i].0@) == Some(entries[i].1),
{
    let key = entries[i].0@;
    assert(has_key(entries, key));
    let j = choose|j: int| 0 <= j < entries.len() && (#[trigger] entries[j]).0@ == key;
    assert(entries[j].0@ == entries[i].0@);
}

/// Whether `a` and `b` hold the same characters.
pub fn eq_str(a: &String, b: &str) -> (r: bool)
    ensures
        r == (a@ == b@),
{
    *a == b.to_owned()
}

/// Keeping the entries that satisfy `pred` keeps the keys unique.
pub proof fn lemma_filter_keys_unique<V>(entries: Seq<(String, V)>, pred: spec_fn((String, V)) -> bool)
    requires
        keys_unique(entries),
    ensures
        keys_unique(entries.filter(pred)),
        forall|i: int|
            0 <= i < entries.filter(pred).len() ==> entries.contains(
                #[trigger] entries.filter(pred)[i],
            ),
    decreases entries.len(),
{
    reveal(Seq::filter);
    if entries.len() > 0 {
        let init = entries.drop_last();
        let last = entries[entries.len() - 1];
        assert forall|i: int, j: int|
            0 <= i < init.len() && 0 <= j < init.len() && (#[trigger] init[i]).0@ == (
            #[trigger] init[j]).0@ implies i == j by {
            assert(init[i] == entries[i]);
            assert(init[j] == entries[j]);
        }
        lemma_filter_keys_unique(init, pred);
        let sub = init.filter(pred);
        assert forall|i: int| 0 <= i < sub.len() implies entries.contains(#[trigger] sub[i])
            && sub[i].0@ != last.0@ by {
            assert(init.contains(sub[i]));
            let k = choose|k: int| 0 <= k < init.len() && init[k] == sub[i];
            assert(entries[k] == init[k]);
        }
        if pred(entries.last()) {
            let out = sub.push(entries.last());
            assert(entries.filter(pred) == out);
            assert forall|i: int| 0 <= i < out.len() implies entries.contains(#[trigger] out[i]) by {
                if i == sub.len() {
                    assert(entries[entries.len() - 1] == out[i]);
                } else {
                    assert(out[i] == sub[i]);
                }
            }
            assert forall|i: int, j: int|
                0 <= i < out.len() && 0 <= j < out.len() && (#[trigger] out[i]).0@ == (
                #[trigger] out[j]).0@ implies i == j by {
                if i < sub.len() && j < sub.len() {
                    assert(out[i] == sub[i]);
                    assert(out[j] == sub[j]);
                } else if i < sub.len() {
                    assert(out[i] == sub[i]);
                } else if j < sub.len() {
                    assert(out[j] == sub[j]);
                }
            }
        } else {
            assert(entries.filter(pred) == sub);
        }
    }
}

/// Finds the position of `key` in `entries`.
pub fn find_key<V>(entries: &Vec<(String, V)>, key: &str) -> (r: Option<usize>)
    ensures
        r is None <==> !has_key(entries@, key@),
        r matches Some(i) ==> i < entries@.len() && entries@[i as int].0@ == key@,
{
    let wanted = key.to_owned();
    let mut i: usize = 0;
    while i < entries.len()
        invariant
            i <= entries@.len(),
            wanted@ == key@,
            forall|j: int| 0 <= j < i ==> (#[trigger] entries@[j]).0@ != key@,
        decreases entries@.len() - i,
    {
        if entries[i].0 == wanted {
            return Some(i);
        }
        i = i + 1;
    }
    None
}

impl Dictionary {
    pub closed spec fn spec_entries(&self) -> Seq<(String, PlistValue)> {
        self.entries@
    }

    #[verifier::type_invariant]
    spec fn inv(&self) -> bool {
        keys_unique(self.entries@)
    }

    pub open spec fn spec_get(&self, key: Seq<char>) -> Option<PlistValue> {
        lookup(self.spec_entries(), key)
    }

    pub fn new() -> (r: Dictionary)
        ensures
            r.spec_entries().len() == 0,
    {
        Dictionary { entries: Vec::new() }
    }

    pub fn len(&self) -> (r: usize)
        ensures
            r == self.spec_entries().len(),
    {
        self.entries.len()
    }

    pub fn contains_key(&self, key: &str) -> (r: bool)
        ensures
            r == has_key(self.spec_entries(), key@),
    {
        find_key(&self.entries, key).is_some()
    }

    pub fn get(&self, key: &str) -> (r: Option<&PlistValue>)
        ensures
            r is None <==> self.spec_get(key@) is None,
            r matches Some(v) ==> self.spec_get(key@) == Some(*v),
    {
        proof {
            use_type_invariant(self);
        }
        match find_key(&self.entries, key) {
            Some(i) => {
                proof {
                    lemma_lookup_at(self.entries@, i as int);
                }
                Some(&self.entries[i].1)
            },
            None => None,
        }
    }

    /// Stores `value` under `key`: in place where the key is present, else
    /// as a new last entry.
    pub fn insert(&mut self, key: String, value: PlistValue)
        ensures
            has_key(old(self).spec_entries(), key@) ==> exists|i: int|
                0 <= i < old(self).spec_entries().len() && (#[trigger] old(self).spec_entries()[i]).0@
                    == key@ && final(self).spec_entries() == old(self).spec_entries().update(
                    i,
                    (key, value),
                ),
            !has_key(old(self).spec_entries(), key@) ==> final(self).spec_entries()
                =~= old(self).spec_entries().push((key, value)),
            final(self).spec_get(key@) == Some(value),
    {
        proof {
            use_type_invariant(&*self);
        }
        let ghost pre = self.entries@;
        let found = find_key(&self.entries, key.as_str());
        let mut taken = Dictionary::new();
        std::mem::swap(self, &mut taken);
        let Dictionary { mut entries } = taken;
        match found {
            Some(i) => {
                let entry = (key, value);
                let ghost post = pre.update(i as int, entry);
                assert forall|a: int, b: int|
                    0 <= a < post.len() && 0 <= b < post.len() && (#[trigger] post[a]).0@ == (
                    #[trigger] post[b]).0@ implies a == b by {
                    if a != i && b != i {
                        assert(pre[a] == post[a]);
                        assert(pre[b] == post[b]);
                    } else if a == i && b != i {
                        assert(pre[b] == post[b]);
                        assert(pre[b].0@ == pre[i as int].0@);
                    } else if b == i && a != i {
                        assert(pre[a] == post[a]);
                        assert(pre[a].0@ == pre[i as int].0@);
                    }
                }
                proof {
                    lemma_lookup_at(post, i as int);
                }
                assert(pre[i as int].0@ == key@);
                entries.set(i, entry);
                *self = Dictionary { entries };
            },
            None => {
                let entry = (key, value);
                let ghost post = pre.push(entry);
                assert forall|a: int, b: int|
                    0 <= a < post.len() && 0 <= b < post.len() && (#[trigger] post[a]).0@ == (
                    #[trigger] post[b]).0@ implies a == b by {
                    if a < pre.len() && b < pre.len() {
                        assert(pre[a] == post[a]);
                        assert(pre[b] == post[b]);
                    } else if a < pre.len() {
                        assert(pre[a] == post[a]);
                    } else if b < pre.len() {
                        assert(pre[b] == post[b]);
                    }
                }
                proof {
                    lemma_lookup_at(post, pre.len() as int);
                }
                entries.push(entry);
                *self = Dictionary { entries };
            },
        }
    }

    /// Takes out the value stored under `key`, with its entry.
    pub fn remove(&mut self, key: &str) -> (r: Option<PlistValue>)
        ensures
            r == old(self).spec_get(key@),
            !has_key(old(self).spec_entries(), key@) ==> final(self).spec_entries() == old(
                self,
            ).spec_entries(),
            has_key(old(self).spec_entries(), key@) ==> exists|i: int|
                0 <= i < old(self).spec_entries().len() && (#[trigger] old(self).spec_entries()[i]).0@
                    == key@ && final(self).spec_entries() == old(self).spec_entries().remove(i),
    {
        proof {
            use_type_invariant(&*self);
        }
        let ghost pre = self.entries@;
        match find_key(&self.entries, key) {
            Some(i) => {
                proof {
                    lemma_lookup_at(pre, i as int);
                }
                let mut taken = Dictionary::new();
                std::mem::swap(self, &mut taken);
                let Dictionary { mut entries } = taken;
                let entry = entries.remove(i);
                assert forall|a: int, b: int|
                    0 <= a < entries@.len() && 0 <= b < entries@.len() && (
                    #[trigger] entries@[a]).0@ == (#[trigger] entries@[b]).0@ implies a == b by {
                    let pa = if a < i { a } else { a + 1 };
                    let pb = if b < i { b } else { b + 1 };
                    assert(entries@[a] == pre[pa]);
                    assert(entries@[b] == pre[pb]);
                }
                *self = Dictionary { entries };
                assert(pre[i as int].0@ == key@);
                Some(entry.1)
            },
            None => None,
        }
    }

    /// The entries, in order.
    pub fn entries(&self) -> (r: &Vec<(String, PlistValue)>)
        ensures
            r@ == self.spec_entries(),
            keys_unique(r@),
    {
        proof {
            use_type_invariant(self);
        }
        &self.entries
    }

    /// Hands out the entries, in order.
    pub fn into_entries(self) -> (r: Vec<(String, PlistValue)>)
        ensures
            r@ == self.spec_entries(),
            keys_unique(r@),
    {
        proof {
            use_type_invariant(&self);
        }
        self.entries
    }
}

} // verus!
