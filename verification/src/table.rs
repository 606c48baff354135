//! A hash table from integer keys to integer handles, backed by `hashbrown`.
//!
//! The kernel keeps several registries of this shape: bound UDP ports, ICMP
//! echo requests waiting for a reply, the threads of a process. Each maps a
//! small integer key to the handle of the object that owns it.
use hashbrown::HashMap;
use rustc_hash::FxBuildHasher;
use slab::Slab;
use vstd::prelude::*;

verus! {

/// A `hashbrown` map from `u64` keys to `u64` handles, hashed with the Fx hasher.
#[verifier::external_body]
pub struct HandleTable {
    map: HashMap<u64, u64, FxBuildHasher>,
}

/// The entries that a table holds.
pub uninterp spec fn table_contents(t: HandleTable) -> Map<u64, u64>;

/// The map with no entries.
pub open spec fn no_entries() -> Map<u64, u64> {
    Map::empty()
}

impl HandleTable {
    /// The entries of this table.
    pub open spec fn view(&self) -> Map<u64, u64> {
        table_contents(*self)
    }

    /// Wraps `hashbrown::HashMap::with_hasher`, which builds an empty map
    /// without allocating: the table holds nothing.
    #[verifier::external_body]
    pub fn new() -> (r: HandleTable)
        ensures
            table_contents(r) == no_entries(),
    {
        HandleTable { map: HashMap::with_hasher(FxBuildHasher) }
    }

    /// Wraps `hashbrown::HashMap::len`: the number of entries.
    #[verifier::external_body]
    pub fn len(&self) -> (r: usize)
        ensures
            r == table_contents(*self).len(),
    {
        self.map.len()
    }

    /// Wraps `hashbrown::HashMap::get`: the handle stored under `key`, if any.
    #[verifier::external_body]
    pub fn get(&self, key: u64) -> (r: Option<u64>)
        ensures
            r == (if table_contents(*self).contains_key(key) { Some(table_contents(*self)[key]) } else { None::<u64> }),
    {
        self.map.get(&key).copied()
    }

    /// Wraps `hashbrown::HashMap::try_insert`: where `key` is absent the entry
    /// is added and `true` comes back; where it is present nothing changes and
    /// `false` comes back.
    #[verifier::external_body]
    pub fn try_insert(&mut self, key: u64, value: u64) -> (r: bool)
        ensures
            r == !table_contents(*old(self)).contains_key(key),
            table_contents(*final(self)) == (if r { table_contents(*old(self)).insert(key, value) } else { table_contents(*old(self)) }),
    {
        self.map.try_insert(key, value).is_ok()
    }

    /// Wraps `hashbrown::HashMap::insert`: the entry under `key` becomes
    /// `value`, and the handle it replaced, if any, comes back.
    #[verifier::external_body]
    pub fn insert(&mut self, key: u64, value: u64) -> (r: Option<u64>)
        ensures
            r == (if table_contents(*old(self)).contains_key(key) { Some(table_contents(*old(self))[key]) } else { None::<u64> }),
            table_contents(*final(self)) == table_contents(*old(self)).insert(key, value),
    {
        self.map.insert(key, value)
    }

    /// Wraps `hashbrown::HashMap::remove`: the entry under `key` leaves the
    /// table, and its handle comes back if there was one.
    #[verifier::external_body]
    pub fn remove(&mut self, key: u64) -> (r: Option<u64>)
        ensures
            r == (if table_contents(*old(self)).contains_key(key) { Some(table_contents(*old(self))[key]) } else { None::<u64> }),
            table_contents(*final(self)) == table_contents(*old(self)).remove(key),
    {
        self.map.remove(&key)
    }
}

/// `slab::Slab`, an allocator of small integer keys that reuses the most
/// recently released key first.
#[verifier::external_type_specification]
#[verifier::external_body]
#[verifier::reject_recursive_types(T)]
pub struct ExSlab<T>(Slab<T>);

/// The keys that a slab holds.
pub uninterp spec fn slab_keys(s: Slab<()>) -> Set<usize>;

/// The key that a slab hands out next.
pub uninterp spec fn slab_next(s: Slab<()>) -> usize;

/// Wraps `slab::Slab::new`: an empty slab, whose next key is 0.
#[verifier::external_body]
fn slab_new() -> (r: Slab<()>)
    ensures
        slab_keys(r) == Set::<usize>::empty(),
        slab_next(r) == 0,
{
    Slab::new()
}

/// Wraps `slab::Slab::vacant_key`: the key of the next insertion, which the
/// slab does not hold.
#[verifier::external_body]
fn slab_vacant_key(s: &Slab<()>) -> (r: usize)
    ensures
        r == slab_next(*s) && !slab_keys(*s).contains(r),
{
    s.vacant_key()
}

/// Wraps `slab::Slab::insert`: takes the next key and returns it.
#[verifier::external_body]
fn slab_insert(s: &mut Slab<()>) -> (r: usize)
    ensures
        r == slab_next(*old(s)),
        slab_keys(*final(s)) == slab_keys(*old(s)).insert(r),
{
    s.insert(())
}

/// Wraps `slab::Slab::try_remove`: releases `key` when the slab holds it,
/// which then becomes the next key; `true` then.
#[verifier::external_body]
fn slab_try_remove(s: &mut Slab<()>, key: usize) -> (r: bool)
    ensures
        r == slab_keys(*old(s)).contains(key),
        slab_keys(*final(s)) == slab_keys(*old(s)).remove(key),
        slab_next(*final(s)) == (if r { key } else { slab_next(*old(s)) }),
{
    s.try_remove(key).is_some()
}

/// Wraps `slab::Slab::contains`: whether the slab holds `key`.
#[verifier::external_body]
fn slab_contains(s: &Slab<()>, key: usize) -> (r: bool)
    ensures
        r == slab_keys(*s).contains(key),
{
    s.contains(key)
}

/// Small integer IDs, handed out and released; a released ID is the next
/// one handed out.
pub struct IdSlab {
    pub slab: Slab<()>,
}

impl IdSlab {
    /// The IDs in use.
    pub open spec fn keys(&self) -> Set<usize> {
        slab_keys(self.slab)
    }

    /// The ID handed out next.
    pub open spec fn next(&self) -> usize {
        slab_next(self.slab)
    }

    /// No IDs in use; the next is 0.
    pub fn new() -> (r: IdSlab)
        ensures
            r.keys() == Set::<usize>::empty(),
            r.next() == 0,
    {
        IdSlab { slab: slab_new() }
    }

    /// The ID handed out next, which is not in use.
    pub fn vacant_key(&self) -> (r: usize)
        ensures
            r == self.next() && !self.keys().contains(r),
    {
        slab_vacant_key(&self.slab)
    }

    /// Hands out the next ID.
    pub fn insert(&mut self) -> (r: usize)
        ensures
            r == old(self).next(),
            final(self).keys() == old(self).keys().insert(r),
    {
        slab_insert(&mut self.slab)
    }

    /// Releases `key` when it is in use, which then is the next ID; `true` then.
    pub fn try_remove(&mut self, key: usize) -> (r: bool)
        ensures
            r == old(self).keys().contains(key),
            final(self).keys() == old(self).keys().remove(key),
            final(self).next() == (if r { key } else { old(self).next() }),
    {
        slab_try_remove(&mut self.slab, key)
    }

    /// Whether `key` is in use.
    pub fn contains(&self, key: usize) -> (r: bool)
        ensures
            r == self.keys().contains(key),
    {
        slab_contains(&self.slab, key)
    }
}

} // verus!
