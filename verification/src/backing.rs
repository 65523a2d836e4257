//! The durable memory substrate: one linear persistent memory, partitioned
//! into numbered regions, with a single-value cell and a key-ordered byte map
//! attached to regions of it.
//!
//! Everything here delegates to the stable-structures crate and is trusted:
//! each item's contract states what that crate's source shows, and the
//! verified layers above build on those contracts alone. Writes are persisted
//! before the call returns; a write the backing memory cannot complete aborts
//! inside the callee, so no contract here speaks of a half-applied write.

use vstd::prelude::*;
use ic_stable_structures::memory_manager::{MemoryId, MemoryManager, VirtualMemory};
use ic_stable_structures::{Cell, DefaultMemoryImpl, StableBTreeMap};

verus! {

/// A handle on the single linear persistent memory backing everything.
/// Opaque: what it holds is only visible through the structures attached to
/// it.
#[verifier::external_body]
pub struct RawMemory {
    mem: DefaultMemoryImpl,
}

impl RawMemory {
    /// Relies on DefaultMemoryImpl::default: the process's default linear
    /// memory. Where the environment provides a persistent one, this is that
    /// memory, with whatever it held before; otherwise a fresh empty one.
    #[verifier::external_body]
    pub fn new() -> (r: RawMemory) {
        RawMemory { mem: DefaultMemoryImpl::default() }
    }

    /// Relies on Clone for DefaultMemoryImpl: the clone addresses the same
    /// underlying memory, the way a later process lifetime would after a
    /// restart.
    #[verifier::external_body]
    pub fn another_handle(&self) -> (r: RawMemory) {
        RawMemory { mem: self.mem.clone() }
    }
}

/// One numbered, independently growable region of the persistent memory.
#[verifier::external_body]
pub struct Region {
    mem: VirtualMemory<DefaultMemoryImpl>,
}

/// Partitions one linear persistent memory into numbered regions.
#[verifier::external_body]
pub struct RegionManager {
    inner: MemoryManager<DefaultMemoryImpl>,
}

impl RegionManager {
    /// Relies on MemoryManager::init: reads the manager's own metadata from
    /// the memory when present (so regions written under an earlier process
    /// lifetime stay reachable under the same tags), and lays down fresh
    /// metadata otherwise; inconsistent metadata aborts rather than guessing.
    #[verifier::external_body]
    pub fn init(memory: RawMemory) -> (r: RegionManager) {
        RegionManager { inner: MemoryManager::init(memory.mem) }
    }

    /// Relies on MemoryManager::get: the region addressed by this tag.
    /// Distinct tags never alias, growing one region never corrupts another,
    /// and the same tag addresses the same region across process lifetimes.
    /// The manager reserves the highest tag value as its own unallocated
    /// marker and refuses it, so that value is excluded here.
    #[verifier::external_body]
    pub fn region(&self, tag: u8) -> (r: Region)
        requires
            tag < 255,
    {
        Region { mem: self.inner.get(MemoryId::new(tag)) }
    }
}

/// Durable storage for exactly one u64, inside one region.
#[verifier::external_body]
pub struct U64Cell {
    inner: Cell<u64, VirtualMemory<DefaultMemoryImpl>>,
}

/// The value the cell currently holds.
pub uninterp spec fn u64_cell_value(c: U64Cell) -> u64;

impl U64Cell {
    /// Relies on Cell::init: when the region's header carries the cell's
    /// magic bytes and a compatible layout version, the stored value is
    /// loaded and kept; an incompatible version aborts; any other content —
    /// an empty region included — is overwritten with the default, which
    /// is written durably and becomes the value.
    #[verifier::external_body]
    pub fn init(region: Region, default_value: u64) -> (r: U64Cell) {
        U64Cell { inner: Cell::init(region.mem, default_value) }
    }

    /// Relies on Cell::into_memory and Cell::init: dropping the in-memory
    /// cell and re-initializing over the same region yields the value that
    /// was durably held, since every write was flushed before returning.
    /// Consuming the cell means no stale copy survives the re-attachment.
    #[verifier::external_body]
    pub fn reattach(self) -> (r: U64Cell)
        ensures
            u64_cell_value(r) == u64_cell_value(self),
    {
        U64Cell { inner: Cell::init(self.inner.into_memory(), 0) }
    }

    /// Relies on Cell::get: the current value, the one most recently written
    /// by `set` (or the one established at `init`).
    #[verifier::external_body]
    pub fn get(&self) -> (r: u64)
        ensures
            r == u64_cell_value(*self),
    {
        *self.inner.get()
    }

    /// Relies on Cell::set: writes the value through to the region before
    /// returning and keeps it as the current value; a write the region cannot
    /// complete aborts inside the call.
    #[verifier::external_body]
    pub fn set(&mut self, value: u64)
        ensures
            u64_cell_value(*final(self)) == value,
    {
        self.inner.set(value);
    }
}

/// A durable key-ordered map from u64 to a variable-length byte entry,
/// inside one region.
#[verifier::external_body]
pub struct ByteMap {
    inner: StableBTreeMap<u64, Vec<u8>, VirtualMemory<DefaultMemoryImpl>>,
}

/// The entries the map currently holds.
pub uninterp spec fn byte_map_entries(m: ByteMap) -> Map<u64, Seq<u8>>;

impl ByteMap {
    /// Relies on BTreeMap::init: when the region's header carries the map's
    /// magic bytes, the map attaches to the tree stored there, holding the
    /// entries written under an earlier process lifetime; any other content —
    /// an empty region included — is overwritten with a fresh empty map.
    #[verifier::external_body]
    pub fn init(region: Region) -> (r: ByteMap) {
        ByteMap { inner: StableBTreeMap::init(region.mem) }
    }

    /// Relies on BTreeMap::into_memory and BTreeMap::init: dropping the
    /// in-memory map and re-initializing over the same region yields the
    /// entries that were durably held, since every insert and remove was
    /// persisted before returning. Consuming the map means no stale copy
    /// survives the re-attachment.
    #[verifier::external_body]
    pub fn reattach(self) -> (r: ByteMap)
        ensures
            byte_map_entries(r) == byte_map_entries(self),
    {
        ByteMap { inner: StableBTreeMap::init(self.inner.into_memory()) }
    }

    /// Relies on BTreeMap::get: a copy of the entry stored under the key, or
    /// None when the key is absent; the map is unchanged.
    #[verifier::external_body]
    pub fn get(&self, key: u64) -> (r: Option<Vec<u8>>)
        ensures
            match r {
                Option::Some(v) => byte_map_entries(*self).contains_key(key) && v@
                    == byte_map_entries(*self)[key],
                Option::None => !byte_map_entries(*self).contains_key(key),
            },
    {
        self.inner.get(&key)
    }

    /// Relies on BTreeMap::insert: stores the entry under the key durably
    /// before returning, replacing and handing back the prior entry if one
    /// was there.
    #[verifier::external_body]
    pub fn insert(&mut self, key: u64, value: Vec<u8>) -> (r: Option<Vec<u8>>)
        ensures
            byte_map_entries(*final(self)) == byte_map_entries(*old(self)).insert(key, value@),
            match r {
                Option::Some(v) => byte_map_entries(*old(self)).contains_key(key) && v@
                    == byte_map_entries(*old(self))[key],
                Option::None => !byte_map_entries(*old(self)).contains_key(key),
            },
    {
        self.inner.insert(key, value)
    }

    /// Relies on BTreeMap::remove: deletes the entry under the key durably
    /// before returning, handing it back if one was there.
    #[verifier::external_body]
    pub fn remove(&mut self, key: u64) -> (r: Option<Vec<u8>>)
        ensures
            byte_map_entries(*final(self)) == byte_map_entries(*old(self)).remove(key),
            match r {
                Option::Some(v) => byte_map_entries(*old(self)).contains_key(key) && v@
                    == byte_map_entries(*old(self))[key],
                Option::None => !byte_map_entries(*old(self)).contains_key(key),
            },
    {
        self.inner.remove(&key)
    }

    /// Relies on BTreeMap::keys: the keys in ascending order, each exactly
    /// once.
    #[verifier::external_body]
    pub fn keys_in_order(&self) -> (r: Vec<u64>)
        ensures
            forall|a: int, b: int| 0 <= a < b < r@.len() ==> r@[a] < r@[b],
            forall|k: u64| #[trigger] byte_map_entries(*self).contains_key(k) <==> r@.contains(k),
    {
        self.inner.keys().collect()
    }
}

} // verus!
