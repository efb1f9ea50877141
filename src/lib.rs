//! Object pools that reuse container allocations instead of freeing them.
//!
//! - [`local`]: bounded stacks of reset items, selected by a layout
//!   [`Discriminant`] so that layout-compatible containers share one pool.
//! - [`global`]: shared, lock-free bounded queues that handles return to from
//!   any thread.
//! - [`arc`]: reference-counted cells whose allocation is recycled through a
//!   global pool once the last holder lets go.
//! - [`site_ids`]: the persisted table that gives each declaration site a
//!   stable 16-bit id.
use vstd::prelude::*;

pub mod arc;
pub mod global;
pub mod local;
pub mod pooled;
pub mod site_ids;

verus! {

/// A globally unique id for a source code position.
#[derive(Debug, Clone, Copy, PartialEq, Eq, Hash)]
pub struct LocationId(pub u16);

/// The size and alignment of one element type, packed in 16 bits: the upper
/// 12 bits hold the size in bytes, the lower 4 the alignment modulo 16.
#[derive(Debug, Clone, Copy, PartialEq, Eq, Hash)]
pub struct ULayout(pub u16);

/// Largest element size that a layout word can hold.
pub const MAX_ELEMENT_SIZE: usize = 0x0FFF;

/// Largest element alignment that a layout word can hold.
pub const MAX_ELEMENT_ALIGN: usize = 0x10;

/// The const-size field of a discriminant that has no const size.
pub const NO_SIZE: u16 = 0xFFFF;

/// Whether an element of size `size` and alignment `align` fits a layout word.
pub open spec fn layout_fits(size: nat, align: nat) -> bool {
    size <= MAX_ELEMENT_SIZE && align <= MAX_ELEMENT_ALIGN
}

/// The layout word of an element that fits.
pub open spec fn layout_word(size: nat, align: nat) -> u16 {
    (size * 16 + align % 16) as u16
}

/// The layout word of `T`, or `None` where `T` is too large or too aligned.
pub open spec fn layout_of<T>() -> Option<ULayout> {
    if layout_fits(vstd::layout::size_of::<T>(), vstd::layout::align_of::<T>()) {
        Some(ULayout(layout_word(vstd::layout::size_of::<T>(), vstd::layout::align_of::<T>())))
    } else {
        None
    }
}

impl Default for ULayout {
    fn default() -> (r: ULayout)
        ensures
            r == ULayout(0),
    {
        ULayout(0)
    }
}

impl ULayout {
    /// The layout word of a missing element.
    pub fn empty() -> (r: ULayout)
        ensures
            r == ULayout(0),
    {
        ULayout(0)
    }

    /// The layout word of `T`, or `None` where its size exceeds 4095 bytes or
    /// its alignment exceeds 16.
    pub fn new<T>() -> (r: Option<ULayout>)
        ensures
            r == layout_of::<T>(),
    {
        let size = core::mem::size_of::<T>();
        let align = core::mem::align_of::<T>();
        if size > MAX_ELEMENT_SIZE {
            return None;
        }
        if align > MAX_ELEMENT_ALIGN {
            return None;
        }
        assert(((size << 4usize) | (0x0Fusize & align)) == size * 16 + align % 16) by (bit_vector)
            requires
                size <= 0x0FFF,
                align <= 0x10,
        ;
        Some(ULayout(((size << 4usize) | (0x0Fusize & align)) as u16))
    }
}

/// A compact key describing a container type: the site where its pooling was
/// declared, the layouts of up to two element types, and a const size.
///
/// Two containers with equal discriminants promise that their empty
/// allocations can be used for one another.
#[derive(Debug, Clone, Copy, PartialEq, Eq, Hash)]
pub struct Discriminant {
    pub container: LocationId,
    pub first: ULayout,
    pub second: ULayout,
    pub size: u16,
}

/// The discriminant of a container with no element type.
pub open spec fn discriminant_of(id: LocationId) -> Discriminant {
    Discriminant { container: id, first: ULayout(0), second: ULayout(0), size: NO_SIZE }
}

/// The discriminant of a container with one element type `T`.
pub open spec fn discriminant_p1<T>(id: LocationId) -> Option<Discriminant> {
    match layout_of::<T>() {
        Some(l) => Some(Discriminant { container: id, first: l, second: ULayout(0), size: NO_SIZE }),
        None => None,
    }
}

/// The discriminant of a container with one element type `T` and a const
/// size `size`.
pub open spec fn discriminant_p1_size<T>(id: LocationId, size: nat) -> Option<Discriminant> {
    match layout_of::<T>() {
        Some(l) => if size < NO_SIZE {
            Some(Discriminant { container: id, first: l, second: ULayout(0), size: size as u16 })
        } else {
            None
        },
        None => None,
    }
}

/// The discriminant of a container with two element types `T` and `U`.
pub open spec fn discriminant_p2<T, U>(id: LocationId) -> Option<Discriminant> {
    match (layout_of::<T>(), layout_of::<U>()) {
        (Some(l), Some(m)) => Some(Discriminant { container: id, first: l, second: m, size: NO_SIZE }),
        _ => None,
    }
}

/// The discriminant of a container with two element types `T` and `U` and a
/// const size `size`.
pub open spec fn discriminant_p2_size<T, U>(id: LocationId, size: nat) -> Option<Discriminant> {
    match (layout_of::<T>(), layout_of::<U>()) {
        (Some(l), Some(m)) => if size < NO_SIZE {
            Some(Discriminant { container: id, first: l, second: m, size: size as u16 })
        } else {
            None
        },
        _ => None,
    }
}

/// The discriminant packed into one 64-bit word, site id in the top 16 bits.
pub open spec fn key_of(d: Discriminant) -> u64 {
    ((d.container.0 as u64) << 48u64) | ((d.first.0 as u64) << 32u64) | ((d.second.0 as u64)
        << 16u64) | (d.size as u64)
}

/// Packing a discriminant into its key loses nothing: equal keys mean equal
/// discriminants.
pub proof fn lemma_key_injective(d: Discriminant, e: Discriminant)
    ensures
        key_of(d) == key_of(e) <==> d == e,
{
    let (a, b, c, s) = (d.container.0 as u64, d.first.0 as u64, d.second.0 as u64, d.size as u64);
    let (w, x, y, t) = (e.container.0 as u64, e.first.0 as u64, e.second.0 as u64, e.size as u64);
    assert(((a << 48u64) | (b << 32u64) | (c << 16u64) | s) == ((w << 48u64) | (x << 32u64) | (y
        << 16u64) | t) ==> a == w && b == x && c == y && s == t) by (bit_vector)
        requires
            a < 0x10000,
            b < 0x10000,
            c < 0x10000,
            s < 0x10000,
            w < 0x10000,
            x < 0x10000,
            y < 0x10000,
            t < 0x10000,
    ;
}

impl Discriminant {
    /// The discriminant of a container with no element type. Always `Some`.
    pub fn new(id: LocationId) -> (r: Option<Discriminant>)
        ensures
            r == Some(discriminant_of(id)),
    {
        Some(Discriminant { container: id, first: ULayout::empty(), second: ULayout::empty(), size: NO_SIZE })
    }

    /// The discriminant of a container with one element type `T`; `None`
    /// where `T` is too large to fit.
    pub fn new_p1<T>(id: LocationId) -> (r: Option<Discriminant>)
        ensures
            r == discriminant_p1::<T>(id),
    {
        let first = match ULayout::new::<T>() {
            Some(l) => l,
            None => return None,
        };
        Some(Discriminant { container: id, first, second: ULayout::empty(), size: NO_SIZE })
    }

    /// The discriminant of a container with one element type `T` and a const
    /// `SIZE`; `None` where `T` or `SIZE` is too large to fit.
    pub fn new_p1_size<T, const SIZE: usize>(id: LocationId) -> (r: Option<Discriminant>)
        ensures
            r == discriminant_p1_size::<T>(id, SIZE as nat),
    {
        let first = match ULayout::new::<T>() {
            Some(l) => l,
            None => return None,
        };
        if SIZE >= NO_SIZE as usize {
            return None;
        }
        Some(Discriminant { container: id, first, second: ULayout::empty(), size: SIZE as u16 })
    }

    /// The discriminant of a container with two element types `T` and `U`;
    /// `None` where either is too large to fit.
    pub fn new_p2<T, U>(id: LocationId) -> (r: Option<Discriminant>)
        ensures
            r == discriminant_p2::<T, U>(id),
    {
        let first = match ULayout::new::<T>() {
            Some(l) => l,
            None => return None,
        };
        let second = match ULayout::new::<U>() {
            Some(l) => l,
            None => return None,
        };
        Some(Discriminant { container: id, first, second, size: NO_SIZE })
    }

    /// The discriminant of a container with two element types `T` and `U` and
    /// a const `SIZE`; `None` where any of them is too large to fit.
    pub fn new_p2_size<T, U, const SIZE: usize>(id: LocationId) -> (r: Option<Discriminant>)
        ensures
            r == discriminant_p2_size::<T, U>(id, SIZE as nat),
    {
        let first = match ULayout::new::<T>() {
            Some(l) => l,
            None => return None,
        };
        let second = match ULayout::new::<U>() {
            Some(l) => l,
            None => return None,
        };
        if SIZE >= NO_SIZE as usize {
            return None;
        }
        Some(Discriminant { container: id, first, second, size: SIZE as u16 })
    }

    /// The discriminant packed into one 64-bit word; distinct discriminants
    /// have distinct keys.
    pub fn key(&self) -> (r: u64)
        ensures
            r == key_of(*self),
    {
        ((self.container.0 as u64) << 48u64) | ((self.first.0 as u64) << 32u64) | ((
        self.second.0 as u64) << 16u64) | (self.size as u64)
    }
}

/// A container whose allocation can be recycled.
pub trait Poolable: Sized {
    /// Whether the value holds no elements: the state `empty` creates and
    /// `reset` restores.
    spec fn is_emptied(&self) -> bool;

    /// A new empty value.
    fn empty() -> (r: Self)
        ensures
            r.is_emptied(),
    ;

    /// Empties the value in place, keeping its allocation.
    fn reset(&mut self)
        ensures
            final(self).is_emptied(),
    ;

    /// The number of elements the value's allocation can hold.
    fn capacity(&self) -> usize;

    /// Whether dropping this value really releases it; false only for a
    /// shared value that other holders still reference. Asking leaves the
    /// value as it was.
    fn really_dropped(&mut self) -> (r: bool)
        ensures
            *final(self) == *old(self),
    {
        true
    }
}

/// A poolable container whose empty allocations can be shared by every
/// container with the same discriminant.
///
/// An implementation must pass every type parameter that affects the layout
/// of the allocation to the discriminant; a container that can never be truly
/// empty (a reference-counted cell) must not implement it.
pub trait IsoPoolable: Poolable {
    /// The discriminant of the type, or `None` where it is not pooled.
    spec fn spec_discriminant() -> Option<Discriminant>;

    /// The discriminant of the type, or `None` where it is not pooled.
    fn discriminant() -> (r: Option<Discriminant>)
        ensures
            r == Self::spec_discriminant(),
    ;
}

} // verus!
