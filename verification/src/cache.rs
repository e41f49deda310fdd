//! The blob cache that a node keeps, and the operations on it that the log
//! records.

use vstd::prelude::*;
use crate::keyed::{
    distinct, has_key, index_of, lemma_index_of, lemma_no_key, lemma_upsert, lemma_without, lookup,
    upsert, without,
};

verus! {

/// An operation on the cache, as a transaction records it.
#[derive(Debug, Clone, Copy, PartialEq, Eq, Structural)]
pub enum CacheOperation {
    Put,
    Get,
    Delete,
}

impl CacheOperation {
    /// The tag that stands for an operation on the wire.
    pub open spec fn spec_tag(self) -> u8 {
        match self {
            CacheOperation::Put => 0,
            CacheOperation::Get => 1,
            CacheOperation::Delete => 2,
        }
    }

    /// The operation that a tag stands for.
    pub open spec fn spec_from_tag(value: u8) -> Option<CacheOperation> {
        if value == 0 {
            Some(CacheOperation::Put)
        } else if value == 1 {
            Some(CacheOperation::Get)
        } else if value == 2 {
            Some(CacheOperation::Delete)
        } else {
            None
        }
    }

    /// The tag of this operation.
    pub fn tag(self) -> (value: u8)
        ensures
            value == self.spec_tag(),
            Self::spec_from_tag(value) == Some(self),
    {
        match self {
            CacheOperation::Put => 0,
            CacheOperation::Get => 1,
            CacheOperation::Delete => 2,
        }
    }

    /// The operation with the given tag, if there is one.
    pub fn from_tag(value: u8) -> (op: Option<CacheOperation>)
        ensures
            op == Self::spec_from_tag(value),
    {
        if value == 0 {
            Some(CacheOperation::Put)
        } else if value == 1 {
            Some(CacheOperation::Get)
        } else if value == 2 {
            Some(CacheOperation::Delete)
        } else {
            None
        }
    }

    /// The operation with the given tag, which must be one of the three.
    pub fn from(value: u8) -> (op: CacheOperation)
        requires
            value <= 2,
        ensures
            Some(op) == Self::spec_from_tag(value),
    {
        if value == 0 {
            CacheOperation::Put
        } else if value == 1 {
            CacheOperation::Get
        } else {
            CacheOperation::Delete
        }
    }
}

/// What the cache records about one blob.
#[derive(Debug)]
pub struct CachedDataMeta {
    pub name: String,
    pub size: usize,
    pub last_updated: u64,
    pub last_accessed: u64,
    pub transactions: usize,
}

/// What a record about a blob holds.
pub struct CachedDataMetaView {
    pub name: Seq<char>,
    pub size: usize,
    pub last_updated: u64,
    pub last_accessed: u64,
    pub transactions: usize,
}

impl View for CachedDataMeta {
    type V = CachedDataMetaView;

    open spec fn view(&self) -> CachedDataMetaView {
        CachedDataMetaView {
            name: self.name@,
            size: self.size,
            last_updated: self.last_updated,
            last_accessed: self.last_accessed,
            transactions: self.transactions,
        }
    }
}

impl Clone for CachedDataMeta {
    fn clone(&self) -> (copy: Self)
        ensures
            copy == *self,
    {
        CachedDataMeta {
            name: self.name.clone(),
            size: self.size,
            last_updated: self.last_updated,
            last_accessed: self.last_accessed,
            transactions: self.transactions,
        }
    }
}

/// One more than `n`, wrapping round at the top of `usize`.
pub open spec fn next_count(n: usize) -> usize {
    if n == usize::MAX {
        0
    } else {
        (n + 1) as usize
    }
}

/// A store of named blobs. `now` is the time of the call, in seconds.
pub trait Cache {
    /// The blobs in the store, by name.
    spec fn blobs(&self) -> Map<Seq<char>, Seq<u8>>;

    /// What the store needs to hold of itself.
    spec fn wf(&self) -> bool;

    /// The blob stored under `key`, if there is one. The blobs stay as
    /// they are.
    fn get(&mut self, key: &str, now: u64) -> (value: Option<Vec<u8>>)
        requires
            old(self).wf(),
        ensures
            final(self).wf(),
            final(self).blobs() == old(self).blobs(),
            match value {
                Some(v) => old(self).blobs().contains_key(key@) && v@ == old(self).blobs()[key@],
                None => !old(self).blobs().contains_key(key@),
            },
    ;

    /// Stores `value` under `key`, in place of what was there.
    fn set(&mut self, key: &str, value: &[u8], now: u64)
        requires
            old(self).wf(),
        ensures
            final(self).wf(),
            final(self).blobs() == old(self).blobs().insert(key@, value@),
    ;

    /// Removes what is stored under `key`.
    fn delete(&mut self, key: &str)
        requires
            old(self).wf(),
        ensures
            final(self).wf(),
            final(self).blobs() == old(self).blobs().remove(key@),
    ;

    /// The records of all blobs in the store, one for each.
    fn metadata(&self) -> (records: Vec<CachedDataMeta>)
        requires
            self.wf(),
        ensures
            forall|i: int|
                0 <= i < records@.len() ==> self.blobs().contains_key(
                    (#[trigger] records@[i]).name@,
                ),
            forall|name: Seq<char>|
                self.blobs().contains_key(name) ==> exists|i: int|
                    0 <= i < records@.len() && (#[trigger] records@[i]).name@ == name,
    ;
}

/// A blob and its record.
#[derive(Debug)]
pub struct CacheEntry {
    pub value: Vec<u8>,
    pub meta: CachedDataMeta,
}

/// What an entry holds.
pub struct CacheEntryView {
    pub value: Seq<u8>,
    pub meta: CachedDataMetaView,
}

impl View for CacheEntry {
    type V = CacheEntryView;

    open spec fn view(&self) -> CacheEntryView {
        CacheEntryView { value: self.value@, meta: self.meta@ }
    }
}

/// The views of a run of entries.
pub open spec fn entry_views(entries: Seq<CacheEntry>) -> Seq<CacheEntryView> {
    Seq::new(entries.len(), |i: int| entries[i]@)
}

/// The views of a run of records.
pub open spec fn meta_views(records: Seq<CachedDataMeta>) -> Seq<CachedDataMetaView> {
    Seq::new(records.len(), |i: int| records[i]@)
}

/// An entry is known by the name in its record.
pub open spec fn name_key() -> spec_fn(CacheEntryView) -> Seq<char> {
    |e: CacheEntryView| e.meta.name
}

/// The blobs that a run of entries holds, by name.
pub open spec fn blobs_of(entries: Seq<CacheEntryView>) -> Map<Seq<char>, Seq<u8>> {
    Map::new(
        |name: Seq<char>| has_key(entries, name_key(), name),
        |name: Seq<char>| entries[index_of(entries, name_key(), name)].value,
    )
}

/// The entry that `set` leaves under `name`: the blob with its length and
/// the time of the call; one transaction for a new name, and one more than
/// before for a known one, whose time of last access stays.
pub open spec fn stored(
    entries: Seq<CacheEntryView>,
    name: Seq<char>,
    value: Seq<u8>,
    size: usize,
    now: u64,
) -> CacheEntryView {
    match lookup(entries, name_key(), name) {
        Some(known) => CacheEntryView {
            value,
            meta: CachedDataMetaView {
                name,
                size,
                last_updated: now,
                last_accessed: known.meta.last_accessed,
                transactions: next_count(known.meta.transactions),
            },
        },
        None => CacheEntryView {
            value,
            meta: CachedDataMetaView {
                name,
                size,
                last_updated: now,
                last_accessed: 0,
                transactions: 1,
            },
        },
    }
}

/// The entry that `get` leaves in the place of `known`: read at `now`, with
/// one transaction more.
pub open spec fn read(known: CacheEntryView, now: u64) -> CacheEntryView {
    CacheEntryView {
        value: known.value,
        meta: CachedDataMetaView {
            last_accessed: now,
            transactions: next_count(known.meta.transactions),
            ..known.meta
        },
    }
}

/// Putting an entry in adds its blob under its name.
pub proof fn lemma_blobs_upsert(entries: Seq<CacheEntryView>, entry: CacheEntryView)
    requires
        distinct(entries, name_key()),
    ensures
        distinct(upsert(entries, name_key(), entry), name_key()),
        blobs_of(upsert(entries, name_key(), entry)) == blobs_of(entries).insert(
            entry.meta.name,
            entry.value,
        ),
{
    lemma_upsert(entries, name_key(), entry);
    let after = upsert(entries, name_key(), entry);
    let target = blobs_of(entries).insert(entry.meta.name, entry.value);
    assert forall|name: Seq<char>| #[trigger]
        blobs_of(after).dom().contains(name) == target.dom().contains(name) by {
        if name != entry.meta.name {
            assert(lookup(after, name_key(), name) == lookup(entries, name_key(), name));
        }
    }
    assert forall|name: Seq<char>| #[trigger]
        blobs_of(after).dom().contains(name) implies blobs_of(after)[name] == target[name] by {
        if name != entry.meta.name {
            assert(lookup(after, name_key(), name) == lookup(entries, name_key(), name));
        }
    }
    assert(blobs_of(after) =~= target);
}

/// Taking a name out removes its blob.
pub proof fn lemma_blobs_without(entries: Seq<CacheEntryView>, name: Seq<char>)
    requires
        distinct(entries, name_key()),
    ensures
        distinct(without(entries, name_key(), name), name_key()),
        blobs_of(without(entries, name_key(), name)) == blobs_of(entries).remove(name),
{
    lemma_without(entries, name_key(), name);
    let after = without(entries, name_key(), name);
    let target = blobs_of(entries).remove(name);
    assert forall|other: Seq<char>| #[trigger]
        blobs_of(after).dom().contains(other) == target.dom().contains(other) by {
        if other != name {
            assert(lookup(after, name_key(), other) == lookup(entries, name_key(), other));
        }
    }
    assert forall|other: Seq<char>| #[trigger]
        blobs_of(after).dom().contains(other) implies blobs_of(after)[other] == target[other] by {
        if other != name {
            assert(lookup(after, name_key(), other) == lookup(entries, name_key(), other));
        }
    }
    assert(blobs_of(after) =~= target);
}

/// A cache held in memory, in the order in which names were first stored.
#[derive(Debug)]
pub struct InMemoryCache {
    entries: Vec<CacheEntry>,
}

impl InMemoryCache {
    /// The entries of the cache, oldest name first.
    pub closed spec fn entries(&self) -> Seq<CacheEntryView> {
        entry_views(self.entries@)
    }

    /// An empty cache.
    pub fn new() -> (cache: Self)
        ensures
            cache.wf(),
            cache.entries() == Seq::<CacheEntryView>::empty(),
            cache.blobs() == Map::<Seq<char>, Seq<u8>>::empty(),
    {
        let cache = InMemoryCache { entries: Vec::new() };
        assert(cache.entries() =~= Seq::<CacheEntryView>::empty());
        assert(cache.blobs() =~= Map::<Seq<char>, Seq<u8>>::empty());
        cache
    }

    /// The index of the entry under `key`.
    fn find(&self, key: &String) -> (found: Option<usize>)
        requires
            self.wf(),
        ensures
            match found {
                Some(i) => {
                    &&& i < self.entries@.len()
                    &&& lookup(self.entries(), name_key(), key@) == Some(self.entries@[i as int]@)
                    &&& index_of(self.entries(), name_key(), key@) == i
                    &&& has_key(self.entries(), name_key(), key@)
                },
                None => !has_key(self.entries(), name_key(), key@),
            },
    {
        let ghost views = self.entries();
        let mut i: usize = 0;
        while i < self.entries.len()
            invariant
                i <= self.entries@.len(),
                views == entry_views(self.entries@),
                distinct(views, name_key()),
                forall|k: int| 0 <= k < i ==> (name_key())(#[trigger] views[k]) != key@,
            decreases self.entries@.len() - i,
        {
            if self.entries[i].meta.name == *key {
                proof {
                    assert((name_key())(views[i as int]) == key@);
                    lemma_index_of(views, name_key(), i as int);
                }
                return Some(i);
            }
            i += 1;
        }
        proof {
            lemma_no_key(views, name_key(), key@);
        }
        None
    }

    /// The blob stored under `key`, if there is one, without counting an
    /// access.
    pub fn peek(&self, key: &str) -> (value: Option<Vec<u8>>)
        requires
            self.wf(),
        ensures
            match value {
                Some(v) => self.blobs().contains_key(key@) && v@ == self.blobs()[key@],
                None => !self.blobs().contains_key(key@),
            },
    {
        let name = key.to_owned();
        match self.find(&name) {
            Some(i) => Some(self.entries[i].value.clone()),
            None => None,
        }
    }

    /// How many blobs the cache holds.
    pub fn len(&self) -> (n: usize)
        ensures
            n == self.entries().len(),
    {
        self.entries.len()
    }
}

impl Cache for InMemoryCache {
    open spec fn blobs(&self) -> Map<Seq<char>, Seq<u8>> {
        blobs_of(self.entries())
    }

    /// No name is stored twice, and each record gives the length of its
    /// blob.
    open spec fn wf(&self) -> bool {
        &&& distinct(self.entries(), name_key())
        &&& forall|i: int|
            0 <= i < self.entries().len() ==> (#[trigger] self.entries()[i]).meta.size
                == self.entries()[i].value.len()
    }

    /// Counts the access and notes its time.
    fn get(&mut self, key: &str, now: u64) -> (value: Option<Vec<u8>>)
        ensures
            final(self).entries() == match lookup(old(self).entries(), name_key(), key@) {
                Some(known) => upsert(old(self).entries(), name_key(), read(known, now)),
                None => old(self).entries(),
            },
    {
        let name = key.to_owned();
        let ghost before = self.entries();
        match self.find(&name) {
            Some(i) => {
                let known = &self.entries[i];
                let value = known.value.clone();
                let entry = CacheEntry {
                    value: known.value.clone(),
                    meta: CachedDataMeta {
                        name,
                        size: known.meta.size,
                        last_updated: known.meta.last_updated,
                        last_accessed: now,
                        transactions: known.meta.transactions.wrapping_add(1),
                    },
                };
                proof {
                    lemma_blobs_upsert(before, entry@);
                    assert(entry@ == read(before[i as int], now));
                    assert(blobs_of(before).insert(key@, entry@.value) =~= blobs_of(before));
                }
                self.entries.set(i, entry);
                proof {
                    let after = self.entries();
                    assert(after =~= before.update(i as int, entry@));
                    assert forall|k: int| 0 <= k < after.len() implies (#[trigger] after[k]).meta.size
                        == after[k].value.len() by {
                        if k != i {
                            assert(after[k] == before[k]);
                        } else {
                            assert(before[k].meta.size == before[k].value.len());
                        }
                    }
                }
                Some(value)
            },
            None => None,
        }
    }

    /// A new name starts with one transaction; a known name counts one
    /// more.
    fn set(&mut self, key: &str, value: &[u8], now: u64)
        ensures
            final(self).entries() == upsert(
                old(self).entries(),
                name_key(),
                stored(old(self).entries(), key@, value@, value@.len() as usize, now),
            ),
    {
        let name = key.to_owned();
        let ghost before = self.entries();
        let size: usize = value.len();
        match self.find(&name) {
            Some(i) => {
                let known = &self.entries[i];
                let entry = CacheEntry {
                    value: vstd::slice::slice_to_vec(value),
                    meta: CachedDataMeta {
                        name,
                        size,
                        last_updated: now,
                        last_accessed: known.meta.last_accessed,
                        transactions: known.meta.transactions.wrapping_add(1),
                    },
                };
                proof {
                    lemma_blobs_upsert(before, entry@);
                    assert(entry@ == stored(before, key@, value@, size, now));
                }
                self.entries.set(i, entry);
                proof {
                    let after = self.entries();
                    assert(after =~= before.update(i as int, entry@));
                    assert forall|k: int| 0 <= k < after.len() implies (#[trigger] after[k]).meta.size
                        == after[k].value.len() by {
                        if k != i {
                            assert(after[k] == before[k]);
                        }
                    }
                }
            },
            None => {
                let entry = CacheEntry {
                    value: vstd::slice::slice_to_vec(value),
                    meta: CachedDataMeta {
                        name,
                        size,
                        last_updated: now,
                        last_accessed: 0,
                        transactions: 1,
                    },
                };
                proof {
                    lemma_blobs_upsert(before, entry@);
                    assert(entry@ == stored(before, key@, value@, size, now));
                }
                self.entries.push(entry);
                proof {
                    let after = self.entries();
                    assert(after =~= before.push(entry@));
                    assert forall|k: int| 0 <= k < after.len() implies (#[trigger] after[k]).meta.size
                        == after[k].value.len() by {
                        if k < before.len() {
                            assert(after[k] == before[k]);
                        }
                    }
                }
            },
        }
    }

    /// The other entries keep their order.
    fn delete(&mut self, key: &str)
        ensures
            final(self).entries() == without(old(self).entries(), name_key(), key@),
    {
        let name = key.to_owned();
        let ghost before = self.entries();
        proof {
            lemma_blobs_without(before, key@);
        }
        match self.find(&name) {
            Some(i) => {
                self.entries.remove(i);
                proof {
                    let after = self.entries();
                    assert(after =~= before.remove(i as int));
                    assert forall|k: int| 0 <= k < after.len() implies (#[trigger] after[k]).meta.size
                        == after[k].value.len() by {
                        if k < i {
                            assert(after[k] == before[k]);
                        } else {
                            assert(after[k] == before[k + 1]);
                        }
                    }
                }
            },
            None => {},
        }
    }

    /// The records come in the order of the entries.
    fn metadata(&self) -> (records: Vec<CachedDataMeta>)
        ensures
            meta_views(records@) == Seq::new(
                self.entries().len(),
                |i: int| self.entries()[i].meta,
            ),
    {
        let mut records: Vec<CachedDataMeta> = Vec::new();
        let mut i: usize = 0;
        while i < self.entries.len()
            invariant
                i <= self.entries@.len(),
                records@.len() == i,
                forall|k: int| 0 <= k < i ==> (#[trigger] records@[k]) == self.entries@[k].meta,
            decreases self.entries@.len() - i,
        {
            records.push(self.entries[i].meta.clone());
            i += 1;
        }
        proof {
            let views = self.entries();
            assert(meta_views(records@) =~= Seq::new(views.len(), |i: int| views[i].meta));
            assert forall|k: int| 0 <= k < records@.len() implies self.blobs().contains_key(
                (#[trigger] records@[k]).name@,
            ) by {
                assert((name_key())(views[k]) == records@[k].name@);
            }
            assert forall|name: Seq<char>| self.blobs().contains_key(name) implies exists|i: int|
                0 <= i < records@.len() && (#[trigger] records@[i]).name@ == name by {
                let k = index_of(views, name_key(), name);
                assert(records@[k].name@ == name);
            }
        }
        records
    }
}

} // verus!
