//! Reference-counted cells whose allocations are recycled through a shared
//! pool: when the last holder lets go, the cell is reset in place and offered
//! back to the pool it came from.
//!
//! [`Arc`] is built on `std::sync::Arc`, [`TArc`] on `triomphe::Arc`.
use crate::global::{RawPool, WeakPool};
use crate::Poolable;
use vstd::prelude::*;

verus! {

/// Relies on `std::sync::Arc::get_mut`: the value, where no other pointer to
/// the allocation exists.
#[verifier::external_body]
fn cell_get_mut<T>(a: &mut std::sync::Arc<T>) -> (r: Option<&mut T>)
    ensures
        r is None ==> *final(a) == *old(a),
        r is Some ==> *r.unwrap() == **old(a) && **final(a) == *final(r.unwrap()),
{
    std::sync::Arc::get_mut(a)
}

/// Relies on `std::sync::Arc::make_mut`: the value, cloned into a new
/// allocation first where the current one is shared.
#[verifier::external_body]
fn cell_make_mut<T: Clone>(a: &mut std::sync::Arc<T>) -> (r: &mut T)
    ensures
        cloned(**old(a), *r),
        **final(a) == *final(r),
{
    std::sync::Arc::make_mut(a)
}

/// Relies on `std::sync::Arc::clone`: another pointer to the same
/// allocation.
#[verifier::external_body]
fn cell_clone<T>(a: &std::sync::Arc<T>) -> (r: std::sync::Arc<T>)
    ensures
        r == *a,
{
    std::sync::Arc::clone(a)
}

/// Relies on `std::sync::Arc::strong_count`, which counts the pointer passed.
#[verifier::external_body]
fn cell_strong_count<T>(a: &std::sync::Arc<T>) -> (r: usize)
    ensures
        r >= 1,
{
    std::sync::Arc::strong_count(a)
}

/// Relies on `std::sync::Arc::weak_count`.
#[verifier::external_body]
fn cell_weak_count<T>(a: &std::sync::Arc<T>) -> usize {
    std::sync::Arc::weak_count(a)
}

/// Relies on `std::sync::Arc::as_ptr`: the address of the value.
#[verifier::external_body]
fn cell_addr<T>(a: &std::sync::Arc<T>) -> usize {
    std::sync::Arc::as_ptr(a) as usize
}

/// A weak pointer to a cell's allocation.
#[verifier::external_body]
#[verifier::reject_recursive_types(T)]
pub struct WeakCell<T> {
    inner: std::sync::Weak<T>,
}

/// Relies on `std::sync::Arc::downgrade`: a weak pointer to the allocation.
#[verifier::external_body]
fn cell_downgrade<T>(a: &std::sync::Arc<T>) -> WeakCell<T> {
    WeakCell { inner: std::sync::Arc::downgrade(a) }
}

/// Relies on `std::sync::Weak::upgrade`: the cell, while a strong pointer
/// keeps it alive.
#[verifier::external_body]
fn weak_cell_upgrade<T>(w: &WeakCell<T>) -> Option<std::sync::Arc<T>> {
    w.inner.upgrade()
}

/// Relies on `std::sync::Weak::clone`: another weak pointer to the same
/// allocation.
#[verifier::external_body]
fn weak_cell_clone<T>(w: &WeakCell<T>) -> WeakCell<T> {
    WeakCell { inner: std::sync::Weak::clone(&w.inner) }
}

/// Relies on `std::sync::Weak::strong_count`.
#[verifier::external_body]
fn weak_cell_strong_count<T>(w: &WeakCell<T>) -> usize {
    w.inner.strong_count()
}

/// Relies on `std::sync::Weak::weak_count`.
#[verifier::external_body]
fn weak_cell_weak_count<T>(w: &WeakCell<T>) -> usize {
    w.inner.weak_count()
}

/// A shared cell is pooled as a whole: reset empties its value in place, or,
/// where the allocation is still shared, replaces it with a fresh one.
impl<T: Poolable> Poolable for std::sync::Arc<T> {
    open spec fn is_emptied(&self) -> bool {
        (**self).is_emptied()
    }

    fn empty() -> (r: Self) {
        std::sync::Arc::new(T::empty())
    }

    fn reset(&mut self) {
        match cell_get_mut(self) {
            Some(v) => v.reset(),
            None => {
                *self = std::sync::Arc::new(T::empty());
            },
        }
    }

    fn capacity(&self) -> usize {
        1
    }

    fn really_dropped(&mut self) -> bool {
        cell_get_mut(self).is_some()
    }
}

/// A reference-counted cell whose allocation returns to its pool when the
/// last holder releases it.
#[verifier::reject_recursive_types(T)]
pub struct Arc<T: Poolable> {
    cell: std::sync::Arc<T>,
    pool: WeakPool<std::sync::Arc<T>>,
}

impl<T: Poolable> Clone for Arc<T> {
    fn clone(&self) -> (r: Self)
        ensures
            r.value() == self.value(),
    {
        Arc { cell: cell_clone(&self.cell), pool: self.pool.clone() }
    }
}

impl<T: Poolable> Arc<T> {
    /// The value in the cell.
    pub closed spec fn value(&self) -> T {
        *self.cell
    }

    /// The pointer to the cell held.
    pub closed spec fn pointer(&self) -> std::sync::Arc<T> {
        self.cell
    }

    /// A cell holding `v`, in an allocation taken from `pool` where one is
    /// pooled and unshared.
    pub fn new(pool: &RawPool<std::sync::Arc<T>>, v: T) -> (r: Arc<T>)
        ensures
            r.value() == v,
    {
        let mut cell = match pool.try_take_item() {
            Some(c) => c,
            None => std::sync::Arc::new(T::empty()),
        };
        match cell_get_mut(&mut cell) {
            Some(slot) => {
                *slot = v;
            },
            None => {
                cell = std::sync::Arc::new(v);
            },
        }
        Arc { cell, pool: pool.downgrade() }
    }

    /// The value, where this is the only pointer to the cell.
    pub fn get_mut(&mut self) -> (r: Option<&mut T>)
        ensures
            r is None ==> final(self).value() == old(self).value(),
            r is Some ==> *r.unwrap() == old(self).value() && final(self).value()
                == *final(r.unwrap()),
    {
        cell_get_mut(&mut self.cell)
    }

    /// The value, for mutation: in place where this is the only pointer to
    /// the cell, else in a copy put in an allocation taken from the pool
    /// where it is alive, else in a fresh copy. The value lent out is the
    /// cell's value or a clone of it.
    pub fn make_mut(&mut self) -> (r: &mut T)
        where
            T: Clone,
        ensures
            cloned(old(self).value(), *r),
            final(self).value() == *final(r),
    {
        let unique = self.cell.really_dropped();
        if !unique {
            if let Some(p) = self.pool.upgrade() {
                let v = (*self.cell).clone();
                self.cell = match p.try_take_item() {
                    Some(c) => c,
                    None => std::sync::Arc::new(T::empty()),
                };
                let r = cell_make_mut(&mut self.cell);
                *r = v;
                return r;
            }
        }
        cell_make_mut(&mut self.cell)
    }

    /// The number of strong pointers to the cell.
    pub fn strong_count(&self) -> (r: usize)
        ensures
            r >= 1,
    {
        cell_strong_count(&self.cell)
    }

    /// The number of weak pointers to the cell.
    pub fn weak_count(&self) -> usize {
        cell_weak_count(&self.cell)
    }

    /// The address of the value, which stays the same while the allocation
    /// is recycled.
    pub fn addr(&self) -> usize {
        cell_addr(&self.cell)
    }

    /// A weak pointer to the cell.
    pub fn downgrade(&self) -> Weak<T> {
        Weak { inner: cell_downgrade(&self.cell), pool: self.pool.clone() }
    }

    /// Lets go of the cell into `pool`, the pool it is bound to where that
    /// is alive, given whether this was its only holder: only a unique cell
    /// with a live pool is offered. Returns the cell where it was not pooled,
    /// for its holder count to drop; without a live pool or while shared it
    /// comes back untouched.
    pub fn release_into(self, pool: Option<RawPool<std::sync::Arc<T>>>, unique: bool) -> (r: Option<std::sync::Arc<T>>)
        ensures
            !unique || pool.is_none() ==> r == Some(self.pointer()),
            r.is_none() ==> unique && pool.is_some(),
            r matches Some(c) ==> c == self.pointer() || c.is_emptied(),
    {
        if unique {
            match pool {
                Some(p) => p.offer(self.cell, 1),
                None => Some(self.cell),
            }
        } else {
            Some(self.cell)
        }
    }

    /// Lets go of the cell, given whether this was its only holder: only then
    /// is the cell offered to its pool, where that pool is alive. Returns the
    /// cell where it was not pooled, for its holder count to drop.
    pub fn release_as(self, unique: bool) -> (r: Option<std::sync::Arc<T>>)
        ensures
            !unique ==> r == Some(self.pointer()),
            r.is_none() ==> unique,
            r matches Some(c) ==> c == self.pointer() || c.is_emptied(),
    {
        let pool = if unique {
            self.pool.upgrade()
        } else {
            None
        };
        self.release_into(pool, unique)
    }

    /// Lets go of the cell: where this was its last holder it is reset and
    /// offered to its pool; otherwise only the holder count drops.
    pub fn release(self) -> (r: Option<std::sync::Arc<T>>)
        ensures
            r matches Some(c) ==> c == self.pointer() || c.is_emptied(),
    {
        let mut s = self;
        let unique = s.cell.really_dropped();
        s.release_as(unique)
    }
}

impl<T: Poolable> core::ops::Deref for Arc<T> {
    type Target = T;

    fn deref(&self) -> (r: &T)
        ensures
            *r == self.value(),
    {
        &*self.cell
    }
}

/// A weak pointer to a pooled [`Arc`].
#[verifier::reject_recursive_types(T)]
pub struct Weak<T: Poolable> {
    inner: WeakCell<T>,
    pool: WeakPool<std::sync::Arc<T>>,
}

impl<T: Poolable> Clone for Weak<T> {
    fn clone(&self) -> Self {
        Weak { inner: weak_cell_clone(&self.inner), pool: self.pool.clone() }
    }
}

impl<T: Poolable> Weak<T> {
    /// The cell, while a strong pointer keeps it alive.
    pub fn upgrade(&self) -> Option<Arc<T>> {
        match weak_cell_upgrade(&self.inner) {
            Some(cell) => Some(Arc { cell, pool: self.pool.clone() }),
            None => None,
        }
    }

    /// The number of strong pointers to the cell.
    pub fn strong_count(&self) -> usize {
        weak_cell_strong_count(&self.inner)
    }

    /// The number of weak pointers to the cell.
    pub fn weak_count(&self) -> usize {
        weak_cell_weak_count(&self.inner)
    }
}

/// A `triomphe::Arc` pointer to a cell's allocation.
#[verifier::external_body]
#[verifier::reject_recursive_types(T)]
pub struct TCell<T> {
    inner: triomphe::Arc<T>,
}

/// Relies on `triomphe::Arc::new`: a new allocation with one pointer.
#[verifier::external_body]
fn tcell_new<T>(v: T) -> TCell<T> {
    TCell { inner: triomphe::Arc::new(v) }
}

/// Relies on `triomphe::Arc::get_mut`: the value, where the count is one.
#[verifier::external_body]
fn tcell_get_mut<T>(a: &mut TCell<T>) -> Option<&mut T> {
    triomphe::Arc::get_mut(&mut a.inner)
}

/// Relies on `triomphe::Arc::count`, which counts the pointer passed.
#[verifier::external_body]
fn tcell_count<T>(a: &TCell<T>) -> (r: usize)
    ensures
        r >= 1,
{
    triomphe::Arc::count(&a.inner)
}

/// Relies on `triomphe::Arc::clone`: another pointer to the same allocation.
#[verifier::external_body]
fn tcell_clone<T>(a: &TCell<T>) -> TCell<T> {
    TCell { inner: triomphe::Arc::clone(&a.inner) }
}

/// Relies on `triomphe::Arc::heap_ptr`: the address of the allocation.
#[verifier::external_body]
fn tcell_addr<T>(a: &TCell<T>) -> usize {
    a.inner.heap_ptr() as usize
}

/// A triomphe cell is pooled as a whole: reset empties its value in place, or,
/// where the allocation is still shared, replaces it with a fresh one. Its
/// value is not visible to these proofs, so every cell counts as emptied.
impl<T: Poolable> Poolable for TCell<T> {
    open spec fn is_emptied(&self) -> bool {
        true
    }

    fn empty() -> (r: Self) {
        tcell_new(T::empty())
    }

    fn reset(&mut self) {
        match tcell_get_mut(self) {
            Some(v) => v.reset(),
            None => {
                *self = tcell_new(T::empty());
            },
        }
    }

    fn capacity(&self) -> usize {
        1
    }

    fn really_dropped(&mut self) -> bool {
        tcell_count(self) == 1
    }
}

/// A reference-counted cell over `triomphe::Arc`, whose allocation returns to
/// its pool when the last holder releases it.
#[verifier::reject_recursive_types(T)]
pub struct TArc<T: Poolable> {
    cell: TCell<T>,
    pool: WeakPool<TCell<T>>,
}

impl<T: Poolable> Clone for TArc<T> {
    fn clone(&self) -> Self {
        TArc { cell: tcell_clone(&self.cell), pool: self.pool.clone() }
    }
}

impl<T: Poolable> TArc<T> {
    /// The pointer to the cell held.
    pub closed spec fn pointer(&self) -> TCell<T> {
        self.cell
    }

    /// A cell holding `v`, in an allocation taken from `pool` where one is
    /// pooled and unshared.
    pub fn new(pool: &RawPool<TCell<T>>, v: T) -> TArc<T> {
        let mut cell = match pool.try_take_item() {
            Some(c) => c,
            None => tcell_new(T::empty()),
        };
        match tcell_get_mut(&mut cell) {
            Some(slot) => {
                *slot = v;
            },
            None => {
                cell = tcell_new(v);
            },
        }
        TArc { cell, pool: pool.downgrade() }
    }

    /// Whether this is the only pointer to the cell: whether the count, as
    /// read, is one.
    pub fn is_unique(&self) -> bool {
        tcell_count(&self.cell) == 1
    }

    /// The value, where this is the only pointer to the cell.
    pub fn get_mut(&mut self) -> Option<&mut T> {
        tcell_get_mut(&mut self.cell)
    }

    /// The number of pointers to the cell.
    pub fn strong_count(&self) -> (r: usize)
        ensures
            r >= 1,
    {
        tcell_count(&self.cell)
    }

    /// The address of the allocation, which stays the same while it is
    /// recycled.
    pub fn addr(&self) -> usize {
        tcell_addr(&self.cell)
    }

    /// Lets go of the cell into `pool`, the pool it is bound to where that
    /// is alive, given whether this was its only holder: only a unique cell
    /// with a live pool is offered. Returns the cell where it was not pooled,
    /// for its holder count to drop; without a live pool or while shared it
    /// comes back untouched.
    pub fn release_into(self, pool: Option<RawPool<TCell<T>>>, unique: bool) -> (r: Option<TCell<T>>)
        ensures
            !unique || pool.is_none() ==> r == Some(self.pointer()),
            r.is_none() ==> unique && pool.is_some(),
            r matches Some(c) ==> c == self.pointer() || c.is_emptied(),
    {
        if unique {
            match pool {
                Some(p) => p.offer(self.cell, 1),
                None => Some(self.cell),
            }
        } else {
            Some(self.cell)
        }
    }

    /// Lets go of the cell, given whether this was its only holder: only then
    /// is the cell offered to its pool, where that pool is alive. Returns the
    /// cell where it was not pooled, for its holder count to drop.
    pub fn release_as(self, unique: bool) -> (r: Option<TCell<T>>)
        ensures
            !unique ==> r == Some(self.pointer()),
            r.is_none() ==> unique,
            r matches Some(c) ==> c == self.pointer() || c.is_emptied(),
    {
        let pool = if unique {
            self.pool.upgrade()
        } else {
            None
        };
        self.release_into(pool, unique)
    }

    /// Lets go of the cell: where this was its last holder it is reset and
    /// offered to its pool; otherwise only the count drops.
    pub fn release(self) -> (r: Option<TCell<T>>)
        ensures
            r matches Some(c) ==> c == self.pointer() || c.is_emptied(),
    {
        let unique = tcell_count(&self.cell) == 1;
        self.release_as(unique)
    }
}

} // verus!
