//! Thread-affine pools: bounded stacks of reset items, kept in a registry
//! keyed by discriminant so that every container type with the same
//! discriminant draws on one pool.
//!
//! The registry and the size table are explicit values here; a program keeps
//! one registry per thread and one size table per process.
use crate::{key_of, Discriminant, IsoPoolable, Poolable};
use std::collections::HashMap;
use vstd::prelude::*;

verus! {

broadcast use vstd::std_specs::hash::group_hash_axioms;

/// Pool size used where none was configured for a discriminant.
pub const DEFAULT_POOL_SIZE: usize = 1024;

/// Largest item capacity accepted where none was configured.
pub const DEFAULT_ITEM_CAPACITY: usize = 1024;

/// Whether a pool holding `len` items, with room for `max` items of capacity
/// at most `max_capacity`, accepts an item of capacity `cap`.
pub open spec fn admits(len: nat, max: nat, max_capacity: nat, cap: nat) -> bool {
    len < max && 0 < cap && cap <= max_capacity
}

/// A bounded stack of reset items; the last item in is the first out.
pub struct Pool<T> {
    max: usize,
    max_capacity: usize,
    data: Vec<T>,
    admitted: Ghost<Seq<nat>>,
}

impl<T: Poolable> Pool<T> {
    /// The items held, oldest first.
    pub closed spec fn items(&self) -> Seq<T> {
        self.data@
    }

    /// The capacity each held item reported when it was admitted.
    pub closed spec fn admitted(&self) -> Seq<nat> {
        self.admitted@
    }

    /// The largest number of items the pool holds.
    pub closed spec fn max_pool_size(&self) -> nat {
        self.max as nat
    }

    /// The largest item capacity the pool accepts.
    pub closed spec fn max_item_capacity(&self) -> nat {
        self.max_capacity as nat
    }

    /// Every held item is reset and was admitted with a capacity in
    /// `1..=max_item_capacity`, and the pool is within its size.
    pub open spec fn wf(&self) -> bool {
        &&& self.items().len() <= self.max_pool_size()
        &&& self.admitted().len() == self.items().len()
        &&& forall|i: int| 0 <= i < self.items().len() ==> #[trigger] self.items()[i].is_emptied()
        &&& forall|i: int|
            0 <= i < self.admitted().len() ==> 0 < #[trigger] self.admitted()[i]
                <= self.max_item_capacity()
    }

    /// An empty pool of at most `max` items of capacity at most
    /// `max_capacity`.
    pub fn new(max: usize, max_capacity: usize) -> (r: Pool<T>)
        ensures
            r.wf(),
            r.items() == Seq::<T>::empty(),
            r.max_pool_size() == max,
            r.max_item_capacity() == max_capacity,
    {
        Pool { max, max_capacity, data: Vec::with_capacity(max), admitted: Ghost(Seq::empty()) }
    }

    /// The number of items held.
    pub fn len(&self) -> (r: usize)
        ensures
            r == self.items().len(),
    {
        self.data.len()
    }

    /// The largest number of items the pool holds.
    pub fn max_size(&self) -> (r: usize)
        ensures
            r == self.max_pool_size(),
    {
        self.max
    }

    /// The largest item capacity the pool accepts.
    pub fn max_capacity(&self) -> (r: usize)
        ensures
            r == self.max_item_capacity(),
    {
        self.max_capacity
    }

    /// Removes the most recently admitted item; `None` where the pool is
    /// empty.
    pub fn take(&mut self) -> (r: Option<T>)
        requires
            old(self).wf(),
        ensures
            final(self).wf(),
            final(self).max_pool_size() == old(self).max_pool_size(),
            final(self).max_item_capacity() == old(self).max_item_capacity(),
            old(self).items().len() == 0 ==> r.is_none() && final(self).items() == old(self).items()
                && final(self).admitted() == old(self).admitted(),
            old(self).items().len() > 0 ==> {
                &&& r == Some(old(self).items().last())
                &&& final(self).items() == old(self).items().drop_last()
                &&& final(self).admitted() == old(self).admitted().drop_last()
                &&& 0 < old(self).admitted().last() <= old(self).max_item_capacity()
            },
            r matches Some(t) ==> t.is_emptied(),
    {
        let r = self.data.pop();
        if r.is_some() {
            proof {
                assert(old(self).items()[old(self).items().len() - 1].is_emptied());
                assert(0 < old(self).admitted()[old(self).admitted().len() - 1]);
                self.admitted@ = self.admitted@.drop_last();
            }
        }
        r
    }

    /// Admits the reset item `t`, whose capacity is `cap`, where the pool has
    /// room and `cap` is in `1..=max_item_capacity`; otherwise hands it back.
    pub fn accept(&mut self, t: T, cap: usize) -> (r: Option<T>)
        requires
            old(self).wf(),
            t.is_emptied(),
        ensures
            final(self).wf(),
            final(self).max_pool_size() == old(self).max_pool_size(),
            final(self).max_item_capacity() == old(self).max_item_capacity(),
            r.is_none() <==> admits(
                old(self).items().len(),
                old(self).max_pool_size(),
                old(self).max_item_capacity(),
                cap as nat,
            ),
            r.is_none() ==> final(self).items() == old(self).items().push(t)
                && final(self).admitted() == old(self).admitted().push(cap as nat),
            r.is_some() ==> r == Some(t) && final(self).items() == old(self).items()
                && final(self).admitted() == old(self).admitted(),
    {
        if self.data.len() < self.max && 0 < cap && cap <= self.max_capacity {
            self.data.push(t);
            proof {
                self.admitted@ = self.admitted@.push(cap as nat);
                assert(forall|i: int|
                    0 <= i < self.items().len() - 1 ==> self.items()[i] == old(self).items()[i]);
                assert(forall|i: int|
                    0 <= i < self.admitted().len() - 1 ==> self.admitted()[i] == old(
                        self,
                    ).admitted()[i]);
            }
            None
        } else {
            Some(t)
        }
    }

    /// Admits the reset item `t` where the pool has room and its capacity is
    /// in `1..=max_item_capacity`; otherwise hands it back.
    pub fn insert_raw(&mut self, t: T) -> (r: Option<T>)
        requires
            old(self).wf(),
            t.is_emptied(),
        ensures
            final(self).wf(),
            final(self).max_pool_size() == old(self).max_pool_size(),
            final(self).max_item_capacity() == old(self).max_item_capacity(),
            old(self).items().len() >= old(self).max_pool_size() ==> r.is_some(),
            r.is_none() ==> final(self).items() == old(self).items().push(t)
                && final(self).admitted().drop_last() == old(self).admitted(),
            r.is_some() ==> r == Some(t) && final(self).items() == old(self).items()
                && final(self).admitted() == old(self).admitted(),
    {
        let cap = t.capacity();
        let r = self.accept(t, cap);
        proof {
            if r.is_none() {
                assert(self.admitted().drop_last() =~= old(self).admitted());
            }
        }
        r
    }

    /// Where the pool has room and `t`'s capacity is in
    /// `1..=max_item_capacity`, resets `t` and admits it; otherwise hands it
    /// back untouched, without resetting it.
    pub fn insert(&mut self, t: T) -> (r: Option<T>)
        requires
            old(self).wf(),
        ensures
            final(self).wf(),
            final(self).max_pool_size() == old(self).max_pool_size(),
            final(self).max_item_capacity() == old(self).max_item_capacity(),
            old(self).items().len() >= old(self).max_pool_size() ==> r.is_some(),
            r.is_none() ==> final(self).items().len() == old(self).items().len() + 1
                && final(self).items().drop_last() == old(self).items()
                && final(self).items().last().is_emptied(),
            r.is_some() ==> r == Some(t) && final(self).items() == old(self).items()
                && final(self).admitted() == old(self).admitted(),
    {
        let cap = t.capacity();
        if self.data.len() < self.max && 0 < cap && cap <= self.max_capacity {
            let mut t = t;
            t.reset();
            let ghost reset_t = t;
            let r = self.accept(t, cap);
            proof {
                assert(self.items() == old(self).items().push(reset_t));
                assert(self.items().drop_last() =~= old(self).items());
            }
            r
        } else {
            Some(t)
        }
    }
}

/// The per-discriminant pool size and item capacity limits that new pools
/// are created with.
pub struct SizeTable {
    sizes: HashMap<u64, (usize, usize)>,
}

/// The limits a pool for key `k` is created with under the table `m`.
pub open spec fn limits_in(m: Map<u64, (usize, usize)>, k: u64) -> (usize, usize) {
    if m.contains_key(k) {
        m[k]
    } else {
        (DEFAULT_POOL_SIZE, DEFAULT_ITEM_CAPACITY)
    }
}

impl SizeTable {
    /// The configured limits, by discriminant key.
    pub closed spec fn configured(&self) -> Map<u64, (usize, usize)> {
        self.sizes@
    }

    /// A table with nothing configured.
    pub fn new() -> (r: SizeTable)
        ensures
            r.configured() == Map::<u64, (usize, usize)>::empty(),
    {
        SizeTable { sizes: HashMap::new() }
    }

    /// The limits for `d`: those configured, else the defaults.
    pub fn lookup(&self, d: Discriminant) -> (r: (usize, usize))
        ensures
            r == limits_in(self.configured(), key_of(d)),
    {
        let k = d.key();
        match self.sizes.get(&k) {
            Some(s) => *s,
            None => (DEFAULT_POOL_SIZE, DEFAULT_ITEM_CAPACITY),
        }
    }

    /// Configures the limits for `d`.
    pub fn configure(&mut self, d: Discriminant, max_pool_size: usize, max_item_capacity: usize)
        ensures
            final(self).configured() == old(self).configured().insert(
                key_of(d),
                (max_pool_size, max_item_capacity),
            ),
    {
        let k = d.key();
        self.sizes.insert(k, (max_pool_size, max_item_capacity));
    }
}

/// A registry of pools of `T`, one per discriminant.
pub struct LocalPools<T> {
    pools: HashMap<u64, Pool<T>>,
}

impl<T: Poolable> LocalPools<T> {
    /// The pools, by discriminant key.
    pub closed spec fn buckets(&self) -> Map<u64, Pool<T>> {
        self.pools@
    }

    /// Every pool is well formed.
    pub open spec fn wf(&self) -> bool {
        forall|k: u64| #[trigger] self.buckets().contains_key(k) ==> self.buckets()[k].wf()
    }

    /// The items pooled under key `k`.
    pub open spec fn items_at(&self, k: u64) -> Seq<T> {
        if self.buckets().contains_key(k) {
            self.buckets()[k].items()
        } else {
            Seq::empty()
        }
    }

    /// The limits of the pool under key `k`, or `sizes` where there is none
    /// yet.
    pub open spec fn limits_at(&self, k: u64, sizes: (usize, usize)) -> (nat, nat) {
        if self.buckets().contains_key(k) {
            (self.buckets()[k].max_pool_size(), self.buckets()[k].max_item_capacity())
        } else {
            (sizes.0 as nat, sizes.1 as nat)
        }
    }

    /// A registry with no pools.
    pub fn new() -> (r: LocalPools<T>)
        ensures
            r.wf(),
            r.buckets() == Map::<u64, Pool<T>>::empty(),
    {
        LocalPools { pools: HashMap::new() }
    }

    /// Removes the pool under key `k`, or makes a new one with limits
    /// `sizes`.
    fn detach_pool(&mut self, k: u64, sizes: (usize, usize)) -> (r: Pool<T>)
        requires
            old(self).wf(),
        ensures
            final(self).wf(),
            final(self).buckets() == old(self).buckets().remove(k),
            r.wf(),
            r.items() == old(self).items_at(k),
            (r.max_pool_size(), r.max_item_capacity()) == old(self).limits_at(k, sizes),
            old(self).buckets().contains_key(k) ==> r == old(self).buckets()[k],
    {
        proof {
            if old(self).buckets().contains_key(k) {
                assert(old(self).buckets()[k].wf());
            }
        }
        let r = match self.pools.remove(&k) {
            Some(p) => p,
            None => Pool::new(sizes.0, sizes.1),
        };
        assert forall|j: u64| #[trigger] self.buckets().contains_key(j) implies self.buckets()[j].wf() by {
            assert(old(self).buckets().contains_key(j));
        }
        r
    }

    /// Takes the most recent item of the pool for `d`, making that pool with
    /// limits `sizes` where it does not exist yet.
    pub fn take_from(&mut self, d: Discriminant, sizes: (usize, usize)) -> (r: Option<T>)
        requires
            old(self).wf(),
        ensures
            final(self).wf(),
            final(self).buckets().contains_key(key_of(d)),
            forall|k: u64|
                k != key_of(d) ==> #[trigger] final(self).buckets().contains_key(k)
                    == old(self).buckets().contains_key(k) && (old(self).buckets().contains_key(k)
                    ==> final(self).buckets()[k] == old(self).buckets()[k]),
            final(self).limits_at(key_of(d), sizes) == old(self).limits_at(key_of(d), sizes),
            old(self).items_at(key_of(d)).len() == 0 ==> r.is_none() && final(self).items_at(
                key_of(d),
            ) == old(self).items_at(key_of(d)),
            old(self).items_at(key_of(d)).len() > 0 ==> r == Some(
                old(self).items_at(key_of(d)).last(),
            ) && final(self).items_at(key_of(d)) == old(self).items_at(key_of(d)).drop_last(),
            old(self).items_at(key_of(d)).len() > 0 ==> 0 < old(self).buckets()[key_of(
                d,
            )].admitted().last() <= old(self).buckets()[key_of(d)].max_item_capacity(),
            r matches Some(t) ==> t.is_emptied(),
    {
        let k = d.key();
        let mut p = self.detach_pool(k, sizes);
        let r = p.take();
        self.pools.insert(k, p);
        r
    }

    /// Admits the reset item `t` to the pool for `d`, making that pool with
    /// limits `sizes` where it does not exist yet; hands `t` back where the
    /// pool is full or its capacity is out of bounds.
    pub fn insert_into(&mut self, d: Discriminant, sizes: (usize, usize), t: T) -> (r: Option<T>)
        requires
            old(self).wf(),
            t.is_emptied(),
        ensures
            final(self).wf(),
            final(self).buckets().contains_key(key_of(d)),
            forall|k: u64|
                k != key_of(d) ==> #[trigger] final(self).buckets().contains_key(k)
                    == old(self).buckets().contains_key(k) && (old(self).buckets().contains_key(k)
                    ==> final(self).buckets()[k] == old(self).buckets()[k]),
            final(self).limits_at(key_of(d), sizes) == old(self).limits_at(key_of(d), sizes),
            old(self).items_at(key_of(d)).len() >= old(self).limits_at(key_of(d), sizes).0
                ==> r.is_some(),
            r.is_none() ==> final(self).items_at(key_of(d)) == old(self).items_at(key_of(d)).push(
                t,
            ),
            r.is_some() ==> r == Some(t) && final(self).items_at(key_of(d)) == old(self).items_at(
                key_of(d),
            ),
    {
        let k = d.key();
        let mut p = self.detach_pool(k, sizes);
        let r = p.insert_raw(t);
        self.pools.insert(k, p);
        r
    }

    /// Offers `t` to the pool for `d`, making that pool with limits `sizes`
    /// where it does not exist yet: where the pool has room and `t`'s
    /// capacity is in bounds, `t` is reset and kept; otherwise it comes back
    /// untouched.
    pub fn insert_reset(&mut self, d: Discriminant, sizes: (usize, usize), t: T) -> (r: Option<T>)
        requires
            old(self).wf(),
        ensures
            final(self).wf(),
            final(self).buckets().contains_key(key_of(d)),
            forall|k: u64|
                k != key_of(d) ==> #[trigger] final(self).buckets().contains_key(k)
                    == old(self).buckets().contains_key(k) && (old(self).buckets().contains_key(k)
                    ==> final(self).buckets()[k] == old(self).buckets()[k]),
            final(self).limits_at(key_of(d), sizes) == old(self).limits_at(key_of(d), sizes),
            old(self).items_at(key_of(d)).len() >= old(self).limits_at(key_of(d), sizes).0
                ==> r.is_some(),
            r.is_none() ==> final(self).items_at(key_of(d)).len() == old(self).items_at(
                key_of(d),
            ).len() + 1 && final(self).items_at(key_of(d)).drop_last() == old(self).items_at(
                key_of(d),
            ) && final(self).items_at(key_of(d)).last().is_emptied(),
            r.is_some() ==> r == Some(t) && final(self).items_at(key_of(d)) == old(self).items_at(
                key_of(d),
            ),
    {
        let k = d.key();
        let mut p = self.detach_pool(k, sizes);
        let r = p.insert(t);
        self.pools.insert(k, p);
        r
    }

    /// Removes every pool.
    pub fn clear(&mut self)
        ensures
            final(self).wf(),
            final(self).buckets() == Map::<u64, Pool<T>>::empty(),
    {
        self.pools.clear();
    }

    /// Removes the pool for `d`.
    pub fn remove(&mut self, d: Discriminant)
        requires
            old(self).wf(),
        ensures
            final(self).wf(),
            final(self).buckets() == old(self).buckets().remove(key_of(d)),
    {
        let k = d.key();
        self.pools.remove(&k);
    }
}

/// `new` differs from `old` at most in the pool under key `k`.
pub open spec fn only_changes<T: Poolable>(old: LocalPools<T>, new: LocalPools<T>, k: u64) -> bool {
    forall|j: u64|
        j != k ==> #[trigger] new.buckets().contains_key(j) == old.buckets().contains_key(j) && (
        old.buckets().contains_key(j) ==> new.buckets()[j] == old.buckets()[j])
}

/// `new` is `old` after taking `r` for a type with discriminant `d`, where a
/// missing pool is made with limits `sizes`: the most recent item of the
/// pool for `d` where it has one, else a new empty value.
pub open spec fn took<T: Poolable>(
    old: LocalPools<T>,
    new: LocalPools<T>,
    d: Option<Discriminant>,
    sizes: (usize, usize),
    r: T,
) -> bool {
    &&& new.wf()
    &&& r.is_emptied()
    &&& match d {
        None => new.buckets() == old.buckets(),
        Some(d) => {
            let k = key_of(d);
            &&& new.buckets().contains_key(k)
            &&& only_changes(old, new, k)
            &&& new.limits_at(k, sizes) == old.limits_at(k, sizes)
            &&& old.items_at(k).len() == 0 ==> new.items_at(k) == old.items_at(k)
            &&& old.items_at(k).len() > 0 ==> r == old.items_at(k).last() && new.items_at(k)
                == old.items_at(k).drop_last()
            &&& old.items_at(k).len() > 0 ==> 0 < old.buckets()[k].admitted().last()
                <= old.buckets()[k].max_item_capacity()
        },
    }
}

/// `new` is `old` after offering a reset item for a type with discriminant
/// `d`, where a missing pool is made with limits `sizes`; `kept` says whether
/// the pool kept it. A full pool never keeps it.
pub open spec fn offered<T: Poolable>(
    old: LocalPools<T>,
    new: LocalPools<T>,
    d: Option<Discriminant>,
    sizes: (usize, usize),
    kept: bool,
) -> bool {
    &&& new.wf()
    &&& match d {
        None => !kept && new.buckets() == old.buckets(),
        Some(d) => {
            let k = key_of(d);
            &&& new.buckets().contains_key(k)
            &&& only_changes(old, new, k)
            &&& new.limits_at(k, sizes) == old.limits_at(k, sizes)
            &&& old.items_at(k).len() >= old.limits_at(k, sizes).0 ==> !kept
            &&& kept ==> new.items_at(k).len() == old.items_at(k).len() + 1 && new.items_at(
                k,
            ).drop_last() == old.items_at(k) && new.items_at(k).last().is_emptied()
            &&& !kept ==> new.items_at(k) == old.items_at(k)
        },
    }
}

/// The limits a pool for `T` is created with: `explicit` where given, else
/// those configured in `table`.
pub open spec fn resolved<T: IsoPoolable>(
    table: Map<u64, (usize, usize)>,
    explicit: Option<(usize, usize)>,
) -> (usize, usize) {
    match explicit {
        Some(s) => s,
        None => match T::spec_discriminant() {
            Some(d) => limits_in(table, key_of(d)),
            None => (DEFAULT_POOL_SIZE, DEFAULT_ITEM_CAPACITY),
        },
    }
}

/// Removes every pool.
pub fn clear<T: Poolable>(pools: &mut LocalPools<T>)
    ensures
        final(pools).wf(),
        final(pools).buckets() == Map::<u64, Pool<T>>::empty(),
{
    pools.clear();
}

/// Removes the pool for `T`'s discriminant, if `T` is pooled.
pub fn clear_type<T: IsoPoolable>(pools: &mut LocalPools<T>)
    requires
        old(pools).wf(),
    ensures
        final(pools).wf(),
        final(pools).buckets() == match T::spec_discriminant() {
            Some(d) => old(pools).buckets().remove(key_of(d)),
            None => old(pools).buckets(),
        },
{
    if let Some(d) = T::discriminant() {
        pools.remove(d);
    }
}

/// Configures the limits that new pools for `T` are created with, if `T` is
/// pooled; pools that exist keep theirs.
pub fn set_size<T: IsoPoolable>(
    sizes: &mut SizeTable,
    max_pool_size: usize,
    max_element_capacity: usize,
)
    ensures
        final(sizes).configured() == match T::spec_discriminant() {
            Some(d) => old(sizes).configured().insert(
                key_of(d),
                (max_pool_size, max_element_capacity),
            ),
            None => old(sizes).configured(),
        },
{
    if let Some(d) = T::discriminant() {
        sizes.configure(d, max_pool_size, max_element_capacity);
    }
}

/// The limits that new pools for `T` are created with; `None` where `T` is
/// not pooled.
pub fn get_size<T: IsoPoolable>(sizes: &SizeTable) -> (r: Option<(usize, usize)>)
    ensures
        r == match T::spec_discriminant() {
            Some(d) => Some(limits_in(sizes.configured(), key_of(d))),
            None => None,
        },
{
    match T::discriminant() {
        Some(d) => Some(sizes.lookup(d)),
        None => None,
    }
}

fn take_inner<T: IsoPoolable>(pools: &mut LocalPools<T>, sizes: (usize, usize)) -> (r: T)
    requires
        old(pools).wf(),
    ensures
        took(*old(pools), *final(pools), T::spec_discriminant(), sizes, r),
{
    match T::discriminant() {
        Some(d) => match pools.take_from(d, sizes) {
            Some(t) => t,
            None => T::empty(),
        },
        None => T::empty(),
    }
}

/// Takes a `T` from its pool, or makes a new empty one where the pool is
/// empty or `T` is not pooled. A missing pool is made with the limits that
/// `sizes` gives for `T`.
pub fn take<T: IsoPoolable>(pools: &mut LocalPools<T>, sizes: &SizeTable) -> (r: T)
    requires
        old(pools).wf(),
    ensures
        took(
            *old(pools),
            *final(pools),
            T::spec_discriminant(),
            resolved::<T>(sizes.configured(), None),
            r,
        ),
{
    let limits = match T::discriminant() {
        Some(d) => sizes.lookup(d),
        None => (DEFAULT_POOL_SIZE, DEFAULT_ITEM_CAPACITY),
    };
    take_inner(pools, limits)
}

/// Takes a `T` from its pool, or makes a new empty one where the pool is
/// empty or `T` is not pooled. A missing pool is made with limits
/// `(max, max_elt)`.
pub fn take_sz<T: IsoPoolable>(pools: &mut LocalPools<T>, max: usize, max_elt: usize) -> (r: T)
    requires
        old(pools).wf(),
    ensures
        took(*old(pools), *final(pools), T::spec_discriminant(), (max, max_elt), r),
{
    take_inner(pools, (max, max_elt))
}

fn insert_raw_inner<T: IsoPoolable>(pools: &mut LocalPools<T>, sizes: (usize, usize), t: T) -> (r:
    Option<T>)
    requires
        old(pools).wf(),
        t.is_emptied(),
    ensures
        offered(*old(pools), *final(pools), T::spec_discriminant(), sizes, r.is_none()),
        r.is_none() ==> final(pools).items_at(key_of(T::spec_discriminant().unwrap())).last() == t,
        r.is_some() ==> r == Some(t),
{
    match T::discriminant() {
        Some(d) => {
            let r = pools.insert_into(d, sizes, t);
            proof {
                let k = key_of(d);
                if r.is_none() {
                    assert(pools.items_at(k).drop_last() =~= old(pools).items_at(k));
                }
            }
            r
        },
        None => Some(t),
    }
}

/// Adds the reset item `t` to its pool where there is room and its capacity
/// is in bounds; otherwise hands it back. A missing pool is made with the
/// limits that `sizes` gives for `T`.
pub fn insert_raw<T: IsoPoolable>(pools: &mut LocalPools<T>, sizes: &SizeTable, t: T) -> (r:
    Option<T>)
    requires
        old(pools).wf(),
        t.is_emptied(),
    ensures
        offered(
            *old(pools),
            *final(pools),
            T::spec_discriminant(),
            resolved::<T>(sizes.configured(), None),
            r.is_none(),
        ),
        r.is_none() ==> final(pools).items_at(key_of(T::spec_discriminant().unwrap())).last() == t,
        r.is_some() ==> r == Some(t),
{
    let limits = match T::discriminant() {
        Some(d) => sizes.lookup(d),
        None => (DEFAULT_POOL_SIZE, DEFAULT_ITEM_CAPACITY),
    };
    insert_raw_inner(pools, limits, t)
}

/// Adds the reset item `t` to its pool where there is room and its capacity
/// is in bounds; otherwise hands it back. A missing pool is made with limits
/// `(max, max_elt)`.
pub fn insert_raw_sz<T: IsoPoolable>(pools: &mut LocalPools<T>, max: usize, max_elt: usize, t: T) -> (r:
    Option<T>)
    requires
        old(pools).wf(),
        t.is_emptied(),
    ensures
        offered(*old(pools), *final(pools), T::spec_discriminant(), (max, max_elt), r.is_none()),
        r.is_none() ==> final(pools).items_at(key_of(T::spec_discriminant().unwrap())).last() == t,
        r.is_some() ==> r == Some(t),
{
    insert_raw_inner(pools, (max, max_elt), t)
}

fn insert_inner<T: IsoPoolable>(pools: &mut LocalPools<T>, sizes: (usize, usize), t: T) -> (r:
    Option<T>)
    requires
        old(pools).wf(),
    ensures
        offered(*old(pools), *final(pools), T::spec_discriminant(), sizes, r.is_none()),
        r.is_some() ==> r == Some(t),
{
    match T::discriminant() {
        Some(d) => pools.insert_reset(d, sizes, t),
        None => Some(t),
    }
}

/// Where its pool has room and `t`'s capacity is in bounds, resets `t` and
/// adds it to that pool; otherwise hands it back untouched. Reset is done
/// only on a return to the pool, never on the way to a final release. A
/// missing pool is made with the limits that `sizes` gives for `T`.
pub fn insert<T: IsoPoolable>(pools: &mut LocalPools<T>, sizes: &SizeTable, t: T) -> (r: Option<T>)
    requires
        old(pools).wf(),
    ensures
        offered(
            *old(pools),
            *final(pools),
            T::spec_discriminant(),
            resolved::<T>(sizes.configured(), None),
            r.is_none(),
        ),
        r.is_some() ==> r == Some(t),
{
    let limits = match T::discriminant() {
        Some(d) => sizes.lookup(d),
        None => (DEFAULT_POOL_SIZE, DEFAULT_ITEM_CAPACITY),
    };
    insert_inner(pools, limits, t)
}

/// Where its pool has room and `t`'s capacity is in bounds, resets `t` and
/// adds it to that pool; otherwise hands it back untouched. A missing pool is
/// made with limits `(max, max_elt)`.
pub fn insert_sz<T: IsoPoolable>(pools: &mut LocalPools<T>, max: usize, max_elt: usize, t: T) -> (r:
    Option<T>)
    requires
        old(pools).wf(),
    ensures
        offered(*old(pools), *final(pools), T::spec_discriminant(), (max, max_elt), r.is_none()),
        r.is_some() ==> r == Some(t),
{
    insert_inner(pools, (max, max_elt), t)
}

/// A value taken from a thread's registry, to be handed back to the registry
/// of whichever thread lets go of it.
pub struct LPooled<T> {
    item: T,
}

impl<T: IsoPoolable> LPooled<T> {
    /// The value held.
    pub closed spec fn inner(&self) -> T {
        self.item
    }

    /// Takes a value from its pool, or makes a new empty one.
    pub fn take(pools: &mut LocalPools<T>, sizes: &SizeTable) -> (r: LPooled<T>)
        requires
            old(pools).wf(),
        ensures
            took(
                *old(pools),
                *final(pools),
                T::spec_discriminant(),
                resolved::<T>(sizes.configured(), None),
                r.inner(),
            ),
    {
        LPooled { item: take(pools, sizes) }
    }

    /// Takes a value from its pool, or makes a new empty one; a missing pool
    /// is made with limits `(max, max_elements)`.
    pub fn take_sz(pools: &mut LocalPools<T>, max: usize, max_elements: usize) -> (r: LPooled<T>)
        requires
            old(pools).wf(),
        ensures
            took(*old(pools), *final(pools), T::spec_discriminant(), (max, max_elements), r.inner()),
    {
        LPooled { item: take_sz(pools, max, max_elements) }
    }

    /// Wraps a value so that it is offered to a pool when released.
    pub fn from_item(t: T) -> (r: LPooled<T>)
        ensures
            r.inner() == t,
    {
        LPooled { item: t }
    }

    /// The value, which will no longer be offered to a pool.
    pub fn detach(self) -> (r: T)
        ensures
            r == self.inner(),
    {
        self.item
    }

    /// The value held.
    pub fn get(&self) -> (r: &T)
        ensures
            *r == self.inner(),
    {
        &self.item
    }

    /// The value held, for mutation.
    pub fn get_mut(&mut self) -> (r: &mut T)
        ensures
            *r == old(self).inner(),
            final(self).inner() == *final(r),
    {
        &mut self.item
    }

    /// Lets go of the value, given whether it is really dropped: only then is
    /// it offered to its pool, where it is reset if kept. Returns it, as it
    /// was, where it was not kept, for the caller to drop; a value still
    /// shared leaves the registry untouched.
    pub fn release_as(self, pools: &mut LocalPools<T>, sizes: &SizeTable, really_dropped: bool) -> (r:
        Option<T>)
        requires
            old(pools).wf(),
        ensures
            final(pools).wf(),
            !really_dropped ==> r == Some(self.inner()) && *final(pools) == *old(pools),
            really_dropped ==> offered(
                *old(pools),
                *final(pools),
                T::spec_discriminant(),
                resolved::<T>(sizes.configured(), None),
                r.is_none(),
            ),
            r.is_some() ==> r == Some(self.inner()),
    {
        if really_dropped {
            insert(pools, sizes, self.item)
        } else {
            Some(self.item)
        }
    }

    /// Lets go of the value: where it is really dropped it is offered to its
    /// pool, and reset if kept. Returns it, as it was, where it was not kept,
    /// for the caller to drop.
    pub fn release(self, pools: &mut LocalPools<T>, sizes: &SizeTable) -> (r: Option<T>)
        requires
            old(pools).wf(),
        ensures
            final(pools).wf(),
            r.is_some() ==> r == Some(self.inner()) && forall|k: u64| #[trigger]
                final(pools).items_at(k) == old(pools).items_at(k),
            r.is_none() ==> offered(
                *old(pools),
                *final(pools),
                T::spec_discriminant(),
                resolved::<T>(sizes.configured(), None),
                true,
            ),
    {
        let mut t = self.item;
        let really_dropped = t.really_dropped();
        LPooled { item: t }.release_as(pools, sizes, really_dropped)
    }

    /// Lets go of the value into `pool`: where it is really dropped it is
    /// offered there, and reset if kept. Returns it, as it was, where it was
    /// not kept.
    pub fn release_to(self, pool: &mut Pool<T>) -> (r: Option<T>)
        requires
            old(pool).wf(),
        ensures
            final(pool).wf(),
            final(pool).max_pool_size() == old(pool).max_pool_size(),
            final(pool).max_item_capacity() == old(pool).max_item_capacity(),
            r.is_some() ==> r == Some(self.inner()) && final(pool).items() == old(pool).items(),
            r.is_none() ==> final(pool).items().drop_last() == old(pool).items()
                && final(pool).items().len() == old(pool).items().len() + 1,
    {
        let mut t = self.item;
        if t.really_dropped() {
            pool.insert(t)
        } else {
            Some(t)
        }
    }
}

impl<T: IsoPoolable> core::ops::Deref for LPooled<T> {
    type Target = T;

    fn deref(&self) -> (r: &T)
        ensures
            *r == self.inner(),
    {
        &self.item
    }
}

/// An item kept by the pool for a discriminant is the one the next take for
/// that discriminant hands out, and that take leaves the pool as it was
/// before the item came: last in, first out.
pub proof fn lemma_kept_item_is_taken_next<T: Poolable>(
    p0: LocalPools<T>,
    p1: LocalPools<T>,
    p2: LocalPools<T>,
    d: Discriminant,
    sizes: (usize, usize),
    t: T,
    r: T,
)
    requires
        offered(p0, p1, Some(d), sizes, true),
        p1.items_at(key_of(d)).last() == t,
        took(p1, p2, Some(d), sizes, r),
    ensures
        r == t,
        p2.items_at(key_of(d)) == p0.items_at(key_of(d)),
{
}

/// Taking or offering for one discriminant leaves the pool of every other
/// discriminant as it was.
pub proof fn lemma_other_discriminants_untouched<T: Poolable>(
    p0: LocalPools<T>,
    p1: LocalPools<T>,
    d: Discriminant,
    e: Discriminant,
    sizes: (usize, usize),
    r: T,
    kept: bool,
)
    requires
        d != e,
        took(p0, p1, Some(d), sizes, r) || offered(p0, p1, Some(d), sizes, kept),
    ensures
        p1.items_at(key_of(e)) == p0.items_at(key_of(e)),
        p1.limits_at(key_of(e), sizes) == p0.limits_at(key_of(e), sizes),
{
    crate::lemma_key_injective(d, e);
    assert(p1.buckets().contains_key(key_of(e)) == p0.buckets().contains_key(key_of(e)));
}

/// Two types with the same discriminant draw on one pool: an item kept for
/// one is the one the next take for the other hands out.
pub proof fn lemma_equal_discriminants_share<T: Poolable, A: IsoPoolable, B: IsoPoolable>(
    p0: LocalPools<T>,
    p1: LocalPools<T>,
    p2: LocalPools<T>,
    sizes: (usize, usize),
    t: T,
    r: T,
)
    requires
        A::spec_discriminant() is Some,
        A::spec_discriminant() == B::spec_discriminant(),
        offered(p0, p1, A::spec_discriminant(), sizes, true),
        p1.items_at(key_of(A::spec_discriminant().unwrap())).last() == t,
        took(p1, p2, B::spec_discriminant(), sizes, r),
    ensures
        r == t,
{
    lemma_kept_item_is_taken_next(p0, p1, p2, A::spec_discriminant().unwrap(), sizes, t, r);
}

/// A pool one short of full accepts an item whose capacity is in bounds, and
/// is then full, so it refuses the next item whatever its capacity.
pub proof fn lemma_last_slot(len: nat, max: nat, max_capacity: nat, cap: nat, next_cap: nat)
    requires
        len + 1 == max,
        0 < cap <= max_capacity,
    ensures
        admits(len, max, max_capacity, cap),
        !admits(len + 1, max, max_capacity, next_cap),
{
}

/// An item just taken from a pool fits back: the pool has room again and the
/// capacity the item was admitted with is within the pool's bound.
pub proof fn lemma_taken_item_fits<T: Poolable>(before: Pool<T>, after: Pool<T>)
    requires
        before.wf(),
        before.items().len() > 0,
        after.items() == before.items().drop_last(),
        after.max_pool_size() == before.max_pool_size(),
        after.max_item_capacity() == before.max_item_capacity(),
    ensures
        admits(
            after.items().len(),
            after.max_pool_size(),
            after.max_item_capacity(),
            before.admitted().last(),
        ),
{
    assert(0 < before.admitted()[before.admitted().len() - 1]);
}

} // verus!
