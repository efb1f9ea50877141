//! Shared pools: lock-free bounded queues of reset items that handles return
//! to from any thread.
//!
//! A pool is owned through [`RawPool`] and referenced weakly from the handles
//! it gives out, so that a pool that is gone is never kept alive by them.
use crate::local::{limits_in, SizeTable, DEFAULT_ITEM_CAPACITY, DEFAULT_POOL_SIZE};
use crate::{key_of, Discriminant, IsoPoolable, Poolable};
use crossbeam_queue::ArrayQueue;
use std::collections::HashMap;
use std::sync::{Arc, Weak};
use vstd::prelude::*;

verus! {

broadcast use vstd::std_specs::hash::group_hash_axioms;

#[verifier::external_type_specification]
#[verifier::external_body]
#[verifier::reject_recursive_types(T)]
pub struct ExArrayQueue<T>(ArrayQueue<T>);

/// Relies on `ArrayQueue::new`, which panics on a zero capacity and on one
/// whose lap size does not fit in 64 bits.
pub assume_specification<T>[ ArrayQueue::<T>::new ](cap: usize) -> ArrayQueue<T>
    requires
        0 < cap <= usize::MAX / 2,
;

/// Relies on `ArrayQueue::push`: where the queue is full the value comes back.
pub assume_specification<T>[ ArrayQueue::<T>::push ](q: &ArrayQueue<T>, value: T) -> (r: Result<
    (),
    T,
>)
    ensures
        r matches Err(v) ==> v == value,
;

/// Relies on `ArrayQueue::pop`, which removes the oldest value if any.
pub assume_specification<T>[ ArrayQueue::<T>::pop ](q: &ArrayQueue<T>) -> Option<T>;

/// Relies on `ArrayQueue::len`, the number of values at some moment of the
/// call.
pub assume_specification<T>[ ArrayQueue::<T>::len ](q: &ArrayQueue<T>) -> usize;

/// Largest pool size a shared pool can be made with.
pub const MAX_SHARED_POOL_SIZE: usize = usize::MAX / 2;

/// A reset item as it waits in a shared pool: it is emptied and reported a
/// nonzero capacity when it was admitted.
struct Stored<T: Poolable> {
    item: T,
    capacity: Ghost<nat>,
}

impl<T: Poolable> Stored<T> {
    #[verifier::type_invariant]
    spec fn inv(self) -> bool {
        self.item.is_emptied() && 0 < self.capacity@
    }

    /// The item, which is emptied.
    fn into_item(self) -> (r: T)
        ensures
            r.is_emptied(),
    {
        proof {
            use_type_invariant(&self);
        }
        self.item
    }
}

#[verifier::reject_recursive_types(T)]
struct PoolInner<T: Poolable> {
    max_pool_size: usize,
    max_elt_capacity: usize,
    queue: ArrayQueue<Stored<T>>,
}

/// A shared, lock-free pool of at most `max_pool_size` items of capacity at
/// most `max_item_capacity`; items are handed out oldest first.
#[verifier::reject_recursive_types(T)]
pub struct RawPool<T: Poolable> {
    inner: Arc<PoolInner<T>>,
}

/// A pool of values of `T`.
pub type Pool<T> = RawPool<T>;

/// A reference to a shared pool that does not keep it alive.
#[verifier::external_body]
#[verifier::reject_recursive_types(T)]
pub struct WeakPool<T: Poolable> {
    inner: Weak<PoolInner<T>>,
}

/// Relies on `Weak::new`: a reference to no pool.
#[verifier::external_body]
fn weak_none<T: Poolable>() -> WeakPool<T> {
    WeakPool { inner: Weak::new() }
}

/// Relies on `Weak::upgrade`: the pool, while some owner keeps it alive.
#[verifier::external_body]
fn weak_upgrade<T: Poolable>(w: &WeakPool<T>) -> Option<RawPool<T>> {
    w.inner.upgrade().map(|inner| RawPool { inner })
}

/// Relies on `Weak::clone`: another reference to the same pool.
#[verifier::external_body]
fn weak_clone<T: Poolable>(w: &WeakPool<T>) -> WeakPool<T> {
    WeakPool { inner: Weak::clone(&w.inner) }
}

/// Relies on `Arc::downgrade`: a weak reference to the pool.
#[verifier::external_body]
fn arc_downgrade<T: Poolable>(p: &RawPool<T>) -> WeakPool<T> {
    WeakPool { inner: Arc::downgrade(&p.inner) }
}

/// Relies on `Arc::clone`: another owner of the same pool.
#[verifier::external_body]
fn arc_clone<T: Poolable>(p: &RawPool<T>) -> (r: RawPool<T>)
    ensures
        r == *p,
{
    RawPool { inner: Arc::clone(&p.inner) }
}

impl<T: Poolable> WeakPool<T> {
    /// A reference to no pool.
    pub fn new() -> WeakPool<T> {
        weak_none()
    }

    /// The pool, where it is still alive.
    pub fn upgrade(&self) -> Option<RawPool<T>> {
        weak_upgrade(self)
    }
}

impl<T: Poolable> Clone for WeakPool<T> {
    fn clone(&self) -> Self {
        weak_clone(self)
    }
}

impl<T: Poolable> Clone for RawPool<T> {
    fn clone(&self) -> (r: Self)
        ensures
            r == *self,
    {
        arc_clone(self)
    }
}

/// Whether an item of capacity `cap` may enter a pool that accepts items of
/// capacity at most `max_capacity`.
pub open spec fn capacity_admitted(cap: nat, max_capacity: nat) -> bool {
    0 < cap && cap <= max_capacity
}

/// How many items one prune discards from a pool of capacity `capacity`
/// holding `len`: a tenth of them where more than a tenth of the capacity is
/// held, else a hundredth where more than a hundredth is held, and always at
/// least one while any are held.
pub open spec fn prune_amount(len: nat, capacity: nat) -> nat {
    let ten = if capacity / 10 > 1 { capacity / 10 } else { 1 };
    let one = if ten / 10 > 1 { ten / 10 } else { 1 };
    if len > ten {
        if len / 10 > 1 { len / 10 } else { 1 }
    } else if len > one {
        if len / 100 > 1 { len / 100 } else { 1 }
    } else if len > 0 {
        1
    } else {
        0
    }
}

/// The number of items left after `n` prunes of a pool of capacity
/// `capacity` that held `len` and received nothing meanwhile.
pub open spec fn left_after_prunes(len: nat, capacity: nat, n: nat) -> nat
    decreases n,
{
    if n == 0 {
        len
    } else {
        left_after_prunes((len - prune_amount(len, capacity)) as nat, capacity, (n - 1) as nat)
    }
}

/// How many items one prune discards from a pool of capacity `capacity`
/// holding `len`.
pub fn prune_count(len: usize, capacity: usize) -> (r: usize)
    ensures
        r == prune_amount(len as nat, capacity as nat),
{
    let ten: usize = if capacity / 10 > 1 { capacity / 10 } else { 1 };
    let one: usize = if ten / 10 > 1 { ten / 10 } else { 1 };
    if len > ten {
        if len / 10 > 1 { len / 10 } else { 1 }
    } else if len > one {
        if len / 100 > 1 { len / 100 } else { 1 }
    } else if len > 0 {
        1
    } else {
        0
    }
}

/// A prune discards at least one item from a nonempty pool and never more
/// than it holds, and nothing from an empty one.
pub proof fn lemma_prune_shrinks(len: nat, capacity: nat)
    ensures
        len > 0 ==> 1 <= prune_amount(len, capacity) <= len,
        len == 0 ==> prune_amount(len, capacity) == 0,
{
}

/// Pruning a pool that receives nothing empties it within as many prunes as
/// it held items, and pruning an empty pool leaves it empty.
pub proof fn lemma_prunes_empty(len: nat, capacity: nat, n: nat)
    requires
        n >= len,
    ensures
        left_after_prunes(len, capacity, n) == 0,
    decreases n,
{
    if n > 0 {
        lemma_prune_shrinks(len, capacity);
        lemma_prunes_empty((len - prune_amount(len, capacity)) as nat, capacity, (n - 1) as nat);
    }
}

impl<T: Poolable> RawPool<T> {
    /// The largest number of items the pool holds.
    pub closed spec fn max_pool_size(&self) -> nat {
        self.inner.max_pool_size as nat
    }

    /// The largest item capacity the pool accepts.
    pub closed spec fn max_item_capacity(&self) -> nat {
        self.inner.max_elt_capacity as nat
    }

    /// An empty pool of at most `max_capacity` items of capacity at most
    /// `max_elt_capacity`.
    pub fn new(max_capacity: usize, max_elt_capacity: usize) -> (r: RawPool<T>)
        requires
            0 < max_capacity <= MAX_SHARED_POOL_SIZE,
        ensures
            r.max_pool_size() == max_capacity,
            r.max_item_capacity() == max_elt_capacity,
    {
        RawPool {
            inner: Arc::new(
                PoolInner {
                    max_pool_size: max_capacity,
                    max_elt_capacity,
                    queue: ArrayQueue::new(max_capacity),
                },
            ),
        }
    }

    /// The largest number of items the pool holds.
    pub fn capacity(&self) -> (r: usize)
        ensures
            r == self.max_pool_size(),
    {
        self.inner.max_pool_size
    }

    /// The largest item capacity the pool accepts.
    pub fn max_elt_capacity(&self) -> (r: usize)
        ensures
            r == self.max_item_capacity(),
    {
        self.inner.max_elt_capacity
    }

    /// The number of items pooled at some moment of the call.
    pub fn len(&self) -> usize {
        self.inner.queue.len()
    }

    /// A weak reference to the pool.
    pub fn downgrade(&self) -> WeakPool<T> {
        arc_downgrade(self)
    }

    /// The oldest pooled item, which is emptied; `None` where none is pooled.
    pub fn try_take_item(&self) -> (r: Option<T>)
        ensures
            r matches Some(t) ==> t.is_emptied(),
    {
        match self.inner.queue.pop() {
            Some(s) => Some(s.into_item()),
            None => None,
        }
    }

    /// The oldest pooled item in a handle bound to this pool; `None` where
    /// none is pooled.
    pub fn try_take(&self) -> (r: Option<GPooled<T>>)
        ensures
            r matches Some(h) ==> h.inner().is_emptied(),
    {
        match self.try_take_item() {
            Some(t) => Some(GPooled { pool: self.downgrade(), object: t }),
            None => None,
        }
    }

    /// The oldest pooled item, or a new empty one where none is pooled, in a
    /// handle bound to this pool.
    pub fn take(&self) -> (r: GPooled<T>)
        ensures
            r.inner().is_emptied(),
    {
        let object = match self.try_take_item() {
            Some(t) => t,
            None => T::empty(),
        };
        GPooled { pool: self.downgrade(), object }
    }

    /// Offers `t`, whose capacity is `cap`: where `cap` is in
    /// `1..=max_item_capacity` and the queue was seen with room, `t` is reset
    /// and queued. Returns what was not queued, for final release: untouched
    /// where the capacity is out of bounds or the queue was seen full, reset
    /// only where another thread filled the queue between that look and the
    /// push, which a lock-free queue cannot rule out.
    pub fn offer(&self, t: T, cap: usize) -> (r: Option<T>)
        ensures
            !capacity_admitted(cap as nat, self.max_item_capacity()) ==> r == Some(t),
            r.is_none() ==> capacity_admitted(cap as nat, self.max_item_capacity()),
            r matches Some(x) ==> x == t || x.is_emptied(),
    {
        if 0 < cap && cap <= self.inner.max_elt_capacity {
            if self.inner.queue.len() >= self.inner.max_pool_size {
                return Some(t);
            }
            let mut t = t;
            t.reset();
            let s = Stored { item: t, capacity: Ghost(cap as nat) };
            match self.inner.queue.push(s) {
                Ok(()) => None,
                Err(s) => Some(s.into_item()),
            }
        } else {
            Some(t)
        }
    }

    /// Offers `t` to the pool, as [`RawPool::offer`] does with the capacity
    /// `t` reports. Returns what was not pooled, for final release.
    pub fn insert(&self, t: T) -> (r: Option<T>)
        ensures
            r matches Some(x) ==> x == t || x.is_emptied(),
    {
        let cap = t.capacity();
        self.offer(t, cap)
    }

    /// Discards up to `n` pooled items, oldest first, and returns how many
    /// were discarded; fewer only where the pool ran empty.
    pub fn discard(&self, n: usize) -> (r: usize)
        ensures
            r <= n,
    {
        let mut discarded: usize = 0;
        let mut i: usize = 0;
        while i < n
            invariant
                discarded <= i <= n,
            decreases n - i,
        {
            if let Some(_v) = self.inner.queue.pop() {
                discarded = discarded + 1;
            }
            i = i + 1;
        }
        discarded
    }

    /// Discards some pooled items to shed memory: a tenth of those held where
    /// more than a tenth of the capacity is held, else a hundredth where more
    /// than a hundredth is held, else one while any is held. Returns the
    /// number held when the call began, as read, and the number discarded,
    /// which is at most [`prune_amount`] of it.
    pub fn prune(&self) -> (r: (usize, usize))
        ensures
            r.1 <= prune_amount(r.0 as nat, self.max_pool_size()),
            r.0 == 0 ==> r.1 == 0,
    {
        let len = self.inner.queue.len();
        let n = prune_count(len, self.inner.max_pool_size);
        let discarded = self.discard(n);
        (len, discarded)
    }
}

/// A value taken from a shared pool, to be handed back to that pool when it
/// is released, whichever thread releases it.
#[verifier::reject_recursive_types(T)]
pub struct GPooled<T: Poolable> {
    pool: WeakPool<T>,
    object: T,
}

impl<T: Poolable> GPooled<T> {
    /// The value held.
    pub closed spec fn inner(&self) -> T {
        self.object
    }

    /// Takes a `T` from its shared pool in `pools`, or a new empty one; an
    /// orphan where `T` is not pooled.
    pub fn take(pools: &mut GlobalPools<T>, sizes: &SizeTable) -> (r: GPooled<T>)
        where
            T: IsoPoolable,
        requires
            can_make(*old(pools), configured_for::<T>(sizes.configured())),
        ensures
            r.inner().is_emptied(),
            exists|p: Option<RawPool<T>>|
                looked_up(*old(pools), *final(pools), configured_for::<T>(sizes.configured()), p),
    {
        take(pools, sizes)
    }

    /// Takes a `T` from its shared pool in `pools`, made with limits
    /// `(max, max_elements)` where missing, or a new empty one; an orphan
    /// where `T` is not pooled.
    pub fn take_sz(pools: &mut GlobalPools<T>, max: usize, max_elements: usize) -> (r: GPooled<T>)
        where
            T: IsoPoolable,
        requires
            can_make(*old(pools), (max, max_elements)),
        ensures
            r.inner().is_emptied(),
            exists|p: Option<RawPool<T>>| looked_up(*old(pools), *final(pools), (max, max_elements), p),
    {
        take_sz(pools, max, max_elements)
    }

    /// A handle bound to no pool: releasing it drops the value.
    pub fn orphan(t: T) -> (r: GPooled<T>)
        ensures
            r.inner() == t,
    {
        GPooled { pool: WeakPool::new(), object: t }
    }

    /// Binds the handle to `pool`, which it will be returned to.
    pub fn assign(&mut self, pool: &RawPool<T>)
        ensures
            final(self).inner() == old(self).inner(),
    {
        self.pool = pool.downgrade();
    }

    /// The value, which will no longer be returned to a pool.
    pub fn detach(self) -> (r: T)
        ensures
            r == self.inner(),
    {
        self.object
    }

    /// The value held.
    pub fn get(&self) -> (r: &T)
        ensures
            *r == self.inner(),
    {
        &self.object
    }

    /// The value held, for mutation.
    pub fn get_mut(&mut self) -> (r: &mut T)
        ensures
            *r == old(self).inner(),
            final(self).inner() == *final(r),
    {
        &mut self.object
    }

    /// Lets go of the value into `pool`, the pool it is bound to where that
    /// is alive, given whether it is really dropped: only a value really
    /// dropped with a live pool is offered. Returns what was not pooled, for
    /// final release; without a live pool the value comes back untouched.
    pub fn release_into(self, pool: Option<RawPool<T>>, really_dropped: bool) -> (r: Option<T>)
        ensures
            !really_dropped || pool.is_none() ==> r == Some(self.inner()),
            r.is_none() ==> really_dropped && pool.is_some(),
            r matches Some(x) ==> x == self.inner() || x.is_emptied(),
    {
        if really_dropped {
            match pool {
                Some(p) => {
                    let cap = self.object.capacity();
                    p.offer(self.object, cap)
                },
                None => Some(self.object),
            }
        } else {
            Some(self.object)
        }
    }

    /// Lets go of the value, given whether it is really dropped: only then is
    /// it offered to its pool, where that pool is alive. Returns what was not
    /// pooled, for final release.
    pub fn release_as(self, really_dropped: bool) -> (r: Option<T>)
        ensures
            !really_dropped ==> r == Some(self.inner()),
            r.is_none() ==> really_dropped,
            r matches Some(x) ==> x == self.inner() || x.is_emptied(),
    {
        let pool = if really_dropped {
            self.pool.upgrade()
        } else {
            None
        };
        self.release_into(pool, really_dropped)
    }

    /// Lets go of the value: where it is really dropped and its pool is
    /// alive it is offered to that pool. Returns what was not pooled, for
    /// final release.
    pub fn release(self) -> (r: Option<T>)
        ensures
            r matches Some(x) ==> x == self.inner() || x.is_emptied(),
    {
        let mut s = self;
        let really_dropped = s.object.really_dropped();
        s.release_as(really_dropped)
    }
}

impl<T: Poolable> core::ops::Deref for GPooled<T> {
    type Target = T;

    fn deref(&self) -> (r: &T)
        ensures
            *r == self.inner(),
    {
        &self.object
    }
}

/// A registry of shared pools of `T`, one per discriminant.
#[verifier::reject_recursive_types(T)]
pub struct GlobalPools<T: Poolable> {
    pools: HashMap<u64, RawPool<T>>,
}

impl<T: Poolable> GlobalPools<T> {
    /// The pools, by discriminant key.
    pub closed spec fn buckets(&self) -> Map<u64, RawPool<T>> {
        self.pools@
    }

    /// A registry with no pools.
    pub fn new() -> (r: GlobalPools<T>)
        ensures
            r.buckets() == Map::<u64, RawPool<T>>::empty(),
    {
        GlobalPools { pools: HashMap::new() }
    }

    /// Whether there is a pool for `d`.
    pub fn has_pool(&self, d: Discriminant) -> (r: bool)
        ensures
            r == self.buckets().contains_key(key_of(d)),
    {
        let k = d.key();
        self.pools.contains_key(&k)
    }

    /// The pool for `d`, made with limits `sizes` where it does not exist
    /// yet.
    pub fn pool_for(&mut self, d: Discriminant, sizes: (usize, usize)) -> (r: RawPool<T>)
        requires
            !old(self).buckets().contains_key(key_of(d)) ==> 0 < sizes.0 <= MAX_SHARED_POOL_SIZE,
        ensures
            old(self).buckets().contains_key(key_of(d)) ==> final(self).buckets() == old(
                self,
            ).buckets() && r == old(self).buckets()[key_of(d)],
            !old(self).buckets().contains_key(key_of(d)) ==> final(self).buckets() == old(
                self,
            ).buckets().insert(key_of(d), r) && r.max_pool_size() == sizes.0
                && r.max_item_capacity() == sizes.1,
    {
        let k = d.key();
        match self.pools.get(&k) {
            Some(p) => p.clone(),
            None => {
                let p = RawPool::new(sizes.0, sizes.1);
                self.pools.insert(k, p.clone());
                p
            },
        }
    }
}

/// Whether a pool for `T` can be made with the limits `sizes`, where `T` is
/// pooled and `pools` has none for it yet.
pub open spec fn can_make<T: IsoPoolable>(pools: GlobalPools<T>, sizes: (usize, usize)) -> bool {
    match T::spec_discriminant() {
        Some(d) => !pools.buckets().contains_key(key_of(d)) ==> 0 < sizes.0
            <= MAX_SHARED_POOL_SIZE,
        None => true,
    }
}

/// `new` is `old` after looking up the pool `r` of `T`, made with `sizes`
/// where missing; `None` where `T` is not pooled.
pub open spec fn looked_up<T: IsoPoolable>(
    old: GlobalPools<T>,
    new: GlobalPools<T>,
    sizes: (usize, usize),
    r: Option<RawPool<T>>,
) -> bool {
    match T::spec_discriminant() {
        None => r.is_none() && new.buckets() == old.buckets(),
        Some(d) => {
            let k = key_of(d);
            &&& r matches Some(p) && new.buckets().contains_key(k) && new.buckets()[k] == p
            &&& old.buckets().contains_key(k) ==> new.buckets() == old.buckets()
            &&& !old.buckets().contains_key(k) ==> new.buckets() == old.buckets().insert(
                k,
                r.unwrap(),
            ) && r.unwrap().max_pool_size() == sizes.0 && r.unwrap().max_item_capacity()
                == sizes.1
        },
    }
}

fn pool_inner<T: IsoPoolable>(pools: &mut GlobalPools<T>, sizes: (usize, usize)) -> (r: Option<
    RawPool<T>,
>)
    requires
        can_make(*old(pools), sizes),
    ensures
        looked_up(*old(pools), *final(pools), sizes, r),
{
    match T::discriminant() {
        Some(d) => Some(pools.pool_for(d, sizes)),
        None => None,
    }
}

/// Removes every pool.
pub fn clear<T: Poolable>(pools: &mut GlobalPools<T>)
    ensures
        final(pools).buckets() == Map::<u64, RawPool<T>>::empty(),
{
    pools.pools.clear();
}

/// Removes the pool for `T`'s discriminant, if `T` is pooled.
pub fn clear_type<T: IsoPoolable>(pools: &mut GlobalPools<T>)
    ensures
        final(pools).buckets() == match T::spec_discriminant() {
            Some(d) => old(pools).buckets().remove(key_of(d)),
            None => old(pools).buckets(),
        },
{
    if let Some(d) = T::discriminant() {
        let k = d.key();
        pools.pools.remove(&k);
    }
}

/// Configures the limits that new shared pools for `T` are made with, if
/// `T` is pooled; pools that exist keep theirs.
pub fn set_size<T: IsoPoolable>(
    sizes: &mut SizeTable,
    max_pool_size: usize,
    max_element_capacity: usize,
)
    ensures
        final(sizes).configured() == match T::spec_discriminant() {
            Some(d) => old(sizes).configured().insert(
                key_of(d),
                (max_pool_size, max_element_capacity),
            ),
            None => old(sizes).configured(),
        },
{
    if let Some(d) = T::discriminant() {
        sizes.configure(d, max_pool_size, max_element_capacity);
    }
}

/// The limits that new shared pools for `T` are made with; `None` where `T`
/// is not pooled.
pub fn get_size<T: IsoPoolable>(sizes: &SizeTable) -> (r: Option<(usize, usize)>)
    ensures
        r == match T::spec_discriminant() {
            Some(d) => Some(limits_in(sizes.configured(), key_of(d))),
            None => None,
        },
{
    match T::discriminant() {
        Some(d) => Some(sizes.lookup(d)),
        None => None,
    }
}

/// The limits `sizes` configures for `T`, the defaults where `T` is not
/// pooled.
pub open spec fn configured_for<T: IsoPoolable>(sizes: Map<u64, (usize, usize)>) -> (usize, usize) {
    match T::spec_discriminant() {
        Some(d) => limits_in(sizes, key_of(d)),
        None => (DEFAULT_POOL_SIZE, DEFAULT_ITEM_CAPACITY),
    }
}

fn limits_for<T: IsoPoolable>(sizes: &SizeTable) -> (r: (usize, usize))
    ensures
        r == configured_for::<T>(sizes.configured()),
{
    match T::discriminant() {
        Some(d) => sizes.lookup(d),
        None => (DEFAULT_POOL_SIZE, DEFAULT_ITEM_CAPACITY),
    }
}

/// The shared pool for `T`, made with the limits `sizes` configures where
/// missing; `None` where `T` is not pooled.
pub fn pool<T: IsoPoolable>(pools: &mut GlobalPools<T>, sizes: &SizeTable) -> (r: Option<RawPool<T>>)
    requires
        can_make(*old(pools), configured_for::<T>(sizes.configured())),
    ensures
        looked_up(*old(pools), *final(pools), configured_for::<T>(sizes.configured()), r),
{
    let limits = limits_for::<T>(sizes);
    pool_inner(pools, limits)
}

/// The shared pool for `T`, made with limits `(max, max_elements)` where
/// missing; `None` where `T` is not pooled.
pub fn pool_sz<T: IsoPoolable>(pools: &mut GlobalPools<T>, max: usize, max_elements: usize) -> (r:
    Option<RawPool<T>>)
    requires
        can_make(*old(pools), (max, max_elements)),
    ensures
        looked_up(*old(pools), *final(pools), (max, max_elements), r),
{
    pool_inner(pools, (max, max_elements))
}

fn take_inner<T: IsoPoolable>(pools: &mut GlobalPools<T>, sizes: (usize, usize)) -> (r: GPooled<T>)
    requires
        can_make(*old(pools), sizes),
    ensures
        r.inner().is_emptied(),
        exists|p: Option<RawPool<T>>| looked_up(*old(pools), *final(pools), sizes, p),
{
    let p = pool_inner(pools, sizes);
    match p {
        Some(p) => p.take(),
        None => GPooled::orphan(T::empty()),
    }
}

/// Takes a `T` from its shared pool, or a new empty one, in a handle bound
/// to that pool; an orphan where `T` is not pooled.
pub fn take<T: IsoPoolable>(pools: &mut GlobalPools<T>, sizes: &SizeTable) -> (r: GPooled<T>)
    requires
        can_make(*old(pools), configured_for::<T>(sizes.configured())),
    ensures
        r.inner().is_emptied(),
        exists|p: Option<RawPool<T>>|
            looked_up(*old(pools), *final(pools), configured_for::<T>(sizes.configured()), p),
{
    let limits = limits_for::<T>(sizes);
    take_inner(pools, limits)
}

/// Takes a `T` from its shared pool, made with limits `(max, max_elements)`
/// where missing, or a new empty one; an orphan where `T` is not pooled.
pub fn take_sz<T: IsoPoolable>(pools: &mut GlobalPools<T>, max: usize, max_elements: usize) -> (r:
    GPooled<T>)
    requires
        can_make(*old(pools), (max, max_elements)),
    ensures
        r.inner().is_emptied(),
        exists|p: Option<RawPool<T>>| looked_up(*old(pools), *final(pools), (max, max_elements), p),
{
    take_inner(pools, (max, max_elements))
}

/// The pool held in `slot`, made there with limits `(size, max)` where the
/// slot is empty.
pub fn pool_any<T: Poolable>(slot: &mut Option<RawPool<T>>, size: usize, max: usize) -> (r: RawPool<
    T,
>)
    requires
        old(slot).is_none() ==> 0 < size <= MAX_SHARED_POOL_SIZE,
    ensures
        *final(slot) == Some(r),
        *old(slot) matches Some(p) ==> r == p,
        old(slot).is_none() ==> r.max_pool_size() == size && r.max_item_capacity() == max,
{
    match slot {
        Some(p) => p.clone(),
        None => {
            let p = RawPool::new(size, max);
            *slot = Some(p.clone());
            p
        },
    }
}

/// Takes a `T` from the pool held in `slot`, made there with limits
/// `(size, max)` where the slot is empty.
pub fn take_any<T: Poolable>(slot: &mut Option<RawPool<T>>, size: usize, max: usize) -> (r: GPooled<
    T,
>)
    requires
        old(slot).is_none() ==> 0 < size <= MAX_SHARED_POOL_SIZE,
    ensures
        r.inner().is_emptied(),
        final(slot).is_some(),
        old(slot).is_some() ==> *final(slot) == *old(slot),
        old(slot).is_none() ==> final(slot).unwrap().max_pool_size() == size
            && final(slot).unwrap().max_item_capacity() == max,
{
    let p = pool_any(slot, size, max);
    p.take()
}

} // verus!
