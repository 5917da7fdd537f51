//! Parquet key-value metadata in which typed spatial metadata replaces reserved keys while
//! every other entry of the source file is kept.

use vstd::prelude::*;
use crate::text::text_eq;

verus! {

/// One Parquet key-value metadata entry.
#[derive(Debug, PartialEq, Eq)]
pub struct KeyValue {
    pub key: String,
    pub value: Option<String>,
}

impl Clone for KeyValue {
    fn clone(&self) -> (copy: Self)
        ensures
            copy == *self,
    {
        let value = match &self.value {
            Some(v) => Some(v.clone()),
            None => None,
        };
        KeyValue { key: self.key.clone(), value }
    }
}

/// The entries of `entries` whose key is not `key`, in order.
pub open spec fn entries_without(entries: Seq<KeyValue>, key: Seq<char>) -> Seq<KeyValue>
    decreases entries.len(),
{
    if entries.len() == 0 {
        Seq::empty()
    } else {
        let rest = entries_without(entries.drop_last(), key);
        if entries.last().key@ == key {
            rest
        } else {
            rest.push(entries.last())
        }
    }
}

/// The entries after `entry` is inserted into `entries`: every entry under its key is removed
/// and `entry` is appended.
pub open spec fn spec_insert(entries: Seq<KeyValue>, entry: KeyValue) -> Seq<KeyValue> {
    entries_without(entries, entry.key@).push(entry)
}

/// Stores typed spatial metadata alongside preserved Parquet key-value entries.
pub struct ParquetMetadataSet {
    entries: Vec<KeyValue>,
}

impl View for ParquetMetadataSet {
    type V = Seq<KeyValue>;

    closed spec fn view(&self) -> Seq<KeyValue> {
        self.entries@
    }
}

impl ParquetMetadataSet {
    /// Construct a metadata set from source entries that may contain reserved keys.
    pub fn new(entries: Vec<KeyValue>) -> (set: Self)
        ensures
            set@ == entries@,
    {
        ParquetMetadataSet { entries }
    }

    /// Insert one serialized metadata entry, replacing every entry under its reserved key.
    pub fn insert(&mut self, entry: KeyValue)
        ensures
            final(self)@ == spec_insert(old(self)@, entry),
    {
        let mut kept: Vec<KeyValue> = Vec::new();
        let mut i: usize = 0;
        while i < self.entries.len()
            invariant
                i <= self.entries@.len(),
                kept@ == entries_without(self.entries@.subrange(0, i as int), entry.key@),
            decreases self.entries@.len() - i,
        {
            let keep = !text_eq(self.entries[i].key.as_str(), entry.key.as_str());
            if keep {
                kept.push(self.entries[i].clone());
            }
            proof {
                let prefix = self.entries@.subrange(0, i + 1);
                assert(prefix.drop_last() =~= self.entries@.subrange(0, i as int));
                assert(prefix.last() == self.entries@[i as int]);
            }
            i = i + 1;
        }
        proof {
            assert(self.entries@.subrange(0, self.entries@.len() as int) =~= self.entries@);
        }
        kept.push(entry);
        self.entries = kept;
    }

    /// Return the completed Parquet key-value entries.
    pub fn into_entries(self) -> (entries: Vec<KeyValue>)
        ensures
            entries@ == self@,
    {
        self.entries
    }
}

proof fn lemma_entries_without_excludes(entries: Seq<KeyValue>, key: Seq<char>)
    ensures
        forall|i: int|
            0 <= i < entries_without(entries, key).len() ==> (#[trigger] entries_without(
                entries,
                key,
            )[i]).key@ != key,
    decreases entries.len(),
{
    if entries.len() > 0 {
        lemma_entries_without_excludes(entries.drop_last(), key);
    }
}

proof fn lemma_entries_without_idempotent(entries: Seq<KeyValue>, key: Seq<char>)
    ensures
        entries_without(entries_without(entries, key), key) == entries_without(entries, key),
    decreases entries.len(),
{
    if entries.len() > 0 {
        lemma_entries_without_idempotent(entries.drop_last(), key);
        let rest = entries_without(entries.drop_last(), key);
        if entries.last().key@ != key {
            let w = rest.push(entries.last());
            assert(w.drop_last() =~= rest);
        }
    }
}

/// After an insert, the inserted entry is the only one under its key and comes last.
pub proof fn lemma_insert_leaves_one_entry_per_key(entries: Seq<KeyValue>, entry: KeyValue)
    ensures
        spec_insert(entries, entry).last() == entry,
        forall|i: int|
            0 <= i < spec_insert(entries, entry).len() - 1 ==> (#[trigger] spec_insert(
                entries,
                entry,
            )[i]).key@ != entry.key@,
{
    lemma_entries_without_excludes(entries, entry.key@);
    let w = entries_without(entries, entry.key@);
    assert forall|i: int| 0 <= i < spec_insert(entries, entry).len() - 1 implies (
    #[trigger] spec_insert(entries, entry)[i]).key@ != entry.key@ by {
        assert(spec_insert(entries, entry)[i] == w[i]);
    }
}

/// Inserting twice under one key leaves what the second insert alone leaves.
pub proof fn lemma_insert_replaces_earlier_insert(entries: Seq<KeyValue>, first: KeyValue, second: KeyValue)
    requires
        first.key@ == second.key@,
    ensures
        spec_insert(spec_insert(entries, first), second) == spec_insert(entries, second),
{
    let key = first.key@;
    let w = entries_without(entries, key);
    let pushed = w.push(first);
    assert(pushed.drop_last() =~= w);
    lemma_entries_without_idempotent(entries, key);
}

/// An insert keeps every entry under another key, in order.
pub proof fn lemma_insert_keeps_other_keys(entries: Seq<KeyValue>, entry: KeyValue, key: Seq<char>)
    requires
        key != entry.key@,
    ensures
        entries_without(spec_insert(entries, entry), entry.key@) == entries_without(entries, entry.key@),
{
    let w = entries_without(entries, entry.key@);
    assert(w.push(entry).drop_last() =~= w);
    lemma_entries_without_idempotent(entries, entry.key@);
}

} // verus!
