//! [`Poolable`] and [`IsoPoolable`] for the standard containers: `Vec`,
//! `VecDeque`, `String`, `HashMap`, `HashSet`, `indexmap`'s `IndexMap` and
//! `IndexSet`, and `Option` of a poolable value.
use crate::{
    discriminant_of, discriminant_p1, discriminant_p2, Discriminant, IsoPoolable, LocationId,
    Poolable,
};
use std::collections::{HashMap, HashSet, VecDeque};
use std::hash::{BuildHasher, Hash};
use vstd::prelude::*;

verus! {

/// Site id of the growable array's discriminant.
pub const VEC_SITE: u16 = 1;

/// Site id of the double-ended queue's discriminant.
pub const VEC_DEQUE_SITE: u16 = 2;

/// Site id of the string's discriminant.
pub const STRING_SITE: u16 = 3;

/// Site id of the hash map's discriminant.
pub const HASH_MAP_SITE: u16 = 4;

/// Site id of the hash set's discriminant.
pub const HASH_SET_SITE: u16 = 5;

/// Site id of the insertion-ordered map's discriminant.
pub const INDEX_MAP_SITE: u16 = 6;

/// Site id of the insertion-ordered set's discriminant.
pub const INDEX_SET_SITE: u16 = 7;

#[verifier::external_type_specification]
#[verifier::external_body]
#[verifier::reject_recursive_types(K)]
#[verifier::reject_recursive_types(V)]
#[verifier::reject_recursive_types(S)]
pub struct ExIndexMap<K, V, S>(indexmap::IndexMap<K, V, S>);

#[verifier::external_type_specification]
#[verifier::external_body]
#[verifier::reject_recursive_types(T)]
#[verifier::reject_recursive_types(S)]
pub struct ExIndexSet<T, S>(indexmap::IndexSet<T, S>);

/// Relies on `IndexMap::default`: an empty map.
pub assume_specification<K, V, S: Default>[ <indexmap::IndexMap<K, V, S> as Default>::default ]() -> indexmap::IndexMap<K, V, S>;

/// Relies on `IndexMap::clear`, which removes every entry and keeps the
/// allocation.
pub assume_specification<K, V, S>[ indexmap::IndexMap::<K, V, S>::clear ](m: &mut indexmap::IndexMap<K, V, S>);

/// Relies on `IndexMap::capacity`, the number of entries it holds without
/// growing.
#[verifier::external_body]
fn index_map_capacity<K, V, S>(m: &indexmap::IndexMap<K, V, S>) -> usize {
    m.capacity()
}

/// Relies on `IndexSet::default`: an empty set.
pub assume_specification<T, S: Default>[ <indexmap::IndexSet<T, S> as Default>::default ]() -> indexmap::IndexSet<T, S>;

/// Relies on `IndexSet::clear`, which removes every member and keeps the
/// allocation.
pub assume_specification<T, S>[ indexmap::IndexSet::<T, S>::clear ](m: &mut indexmap::IndexSet<T, S>);

/// Relies on `IndexSet::capacity`, the number of members it holds without
/// growing.
#[verifier::external_body]
fn index_set_capacity<T, S>(m: &indexmap::IndexSet<T, S>) -> usize {
    m.capacity()
}

/// Relies on `Vec::capacity`, which is never below the length.
#[verifier::external_body]
fn vec_capacity<T>(v: &Vec<T>) -> (r: usize)
    ensures
        r >= v@.len(),
{
    v.capacity()
}

/// Relies on `VecDeque::capacity`, which is never below the length.
#[verifier::external_body]
fn vec_deque_capacity<T>(v: &VecDeque<T>) -> (r: usize)
    ensures
        r >= v@.len(),
{
    v.capacity()
}

/// Relies on `String::capacity`, the size of the byte buffer.
#[verifier::external_body]
fn string_capacity(s: &String) -> usize {
    s.capacity()
}

/// Relies on `String::clear`: the string becomes empty.
#[verifier::external_body]
fn string_clear(s: &mut String)
    ensures
        final(s)@ == Seq::<char>::empty(),
{
    s.clear()
}

/// Relies on `HashMap::capacity`, the number of entries it holds without
/// growing.
#[verifier::external_body]
fn hash_map_capacity<K, V, S>(m: &HashMap<K, V, S>) -> usize {
    m.capacity()
}

/// Relies on `HashSet::capacity`, the number of members it holds without
/// growing.
#[verifier::external_body]
fn hash_set_capacity<K, S>(m: &HashSet<K, S>) -> usize {
    m.capacity()
}

impl<T> Poolable for Vec<T> {
    open spec fn is_emptied(&self) -> bool {
        self@.len() == 0
    }

    fn empty() -> (r: Self) {
        Vec::new()
    }

    fn reset(&mut self) {
        self.clear()
    }

    fn capacity(&self) -> usize {
        vec_capacity(self)
    }
}

impl<T> IsoPoolable for Vec<T> {
    open spec fn spec_discriminant() -> Option<Discriminant> {
        discriminant_p1::<T>(LocationId(VEC_SITE))
    }

    fn discriminant() -> (r: Option<Discriminant>) {
        Discriminant::new_p1::<T>(LocationId(VEC_SITE))
    }
}

impl<T> Poolable for VecDeque<T> {
    open spec fn is_emptied(&self) -> bool {
        self@.len() == 0
    }

    fn empty() -> (r: Self) {
        VecDeque::new()
    }

    fn reset(&mut self) {
        self.clear()
    }

    fn capacity(&self) -> usize {
        vec_deque_capacity(self)
    }
}

impl<T> IsoPoolable for VecDeque<T> {
    open spec fn spec_discriminant() -> Option<Discriminant> {
        discriminant_p1::<T>(LocationId(VEC_DEQUE_SITE))
    }

    fn discriminant() -> (r: Option<Discriminant>) {
        Discriminant::new_p1::<T>(LocationId(VEC_DEQUE_SITE))
    }
}

impl Poolable for String {
    open spec fn is_emptied(&self) -> bool {
        self@.len() == 0
    }

    fn empty() -> (r: Self) {
        String::new()
    }

    fn reset(&mut self) {
        string_clear(self)
    }

    fn capacity(&self) -> usize {
        string_capacity(self)
    }
}

impl IsoPoolable for String {
    open spec fn spec_discriminant() -> Option<Discriminant> {
        Some(discriminant_of(LocationId(STRING_SITE)))
    }

    fn discriminant() -> (r: Option<Discriminant>) {
        Discriminant::new(LocationId(STRING_SITE))
    }
}

impl<K: Hash + Eq, V, R: Default + BuildHasher> Poolable for HashMap<K, V, R> {
    open spec fn is_emptied(&self) -> bool {
        self@ == Map::<K, V>::empty()
    }

    fn empty() -> (r: Self) {
        HashMap::default()
    }

    fn reset(&mut self) {
        self.clear()
    }

    fn capacity(&self) -> usize {
        hash_map_capacity(self)
    }
}

/// A map's hasher is not part of its allocation's layout, so only maps whose
/// hasher state takes no space are pooled.
impl<K: Hash + Eq, V, R: Default + BuildHasher> IsoPoolable for HashMap<K, V, R> {
    open spec fn spec_discriminant() -> Option<Discriminant> {
        if vstd::layout::size_of::<R>() == 0 {
            discriminant_p2::<K, V>(LocationId(HASH_MAP_SITE))
        } else {
            None
        }
    }

    fn discriminant() -> (r: Option<Discriminant>) {
        if core::mem::size_of::<R>() == 0 {
            Discriminant::new_p2::<K, V>(LocationId(HASH_MAP_SITE))
        } else {
            None
        }
    }
}

impl<K: Hash + Eq, R: Default + BuildHasher> Poolable for HashSet<K, R> {
    open spec fn is_emptied(&self) -> bool {
        self@ == Set::<K>::empty()
    }

    fn empty() -> (r: Self) {
        HashSet::default()
    }

    fn reset(&mut self) {
        self.clear()
    }

    fn capacity(&self) -> usize {
        hash_set_capacity(self)
    }
}

impl<K: Hash + Eq, R: Default + BuildHasher> IsoPoolable for HashSet<K, R> {
    open spec fn spec_discriminant() -> Option<Discriminant> {
        discriminant_p2::<K, R>(LocationId(HASH_SET_SITE))
    }

    fn discriminant() -> (r: Option<Discriminant>) {
        Discriminant::new_p2::<K, R>(LocationId(HASH_SET_SITE))
    }
}

impl<T: Poolable> Poolable for Option<T> {
    open spec fn is_emptied(&self) -> bool {
        match self {
            Some(t) => t.is_emptied(),
            None => true,
        }
    }

    fn empty() -> (r: Self) {
        None
    }

    fn reset(&mut self) {
        match self {
            Some(inner) => inner.reset(),
            None => {},
        }
    }

    fn capacity(&self) -> usize {
        match self {
            Some(inner) => inner.capacity(),
            None => 0,
        }
    }

    fn really_dropped(&mut self) -> bool {
        match self {
            Some(inner) => inner.really_dropped(),
            None => true,
        }
    }
}

/// An `indexmap` container's entries are not visible to these proofs, so every
/// value of it counts as emptied; `reset` still clears it.
impl<K: Hash + Eq, V, R: Default + BuildHasher> Poolable for indexmap::IndexMap<K, V, R> {
    open spec fn is_emptied(&self) -> bool {
        true
    }

    fn empty() -> (r: Self) {
        indexmap::IndexMap::default()
    }

    fn reset(&mut self) {
        self.clear()
    }

    fn capacity(&self) -> usize {
        index_map_capacity(self)
    }
}

/// Only maps whose hasher state takes no space are pooled.
impl<K: Hash + Eq, V, R: Default + BuildHasher> IsoPoolable for indexmap::IndexMap<K, V, R> {
    open spec fn spec_discriminant() -> Option<Discriminant> {
        if vstd::layout::size_of::<R>() == 0 {
            discriminant_p2::<K, V>(LocationId(INDEX_MAP_SITE))
        } else {
            None
        }
    }

    fn discriminant() -> (r: Option<Discriminant>) {
        if core::mem::size_of::<R>() == 0 {
            Discriminant::new_p2::<K, V>(LocationId(INDEX_MAP_SITE))
        } else {
            None
        }
    }
}

/// An `indexmap` container's members are not visible to these proofs, so
/// every value of it counts as emptied; `reset` still clears it.
impl<K: Hash + Eq, R: Default + BuildHasher> Poolable for indexmap::IndexSet<K, R> {
    open spec fn is_emptied(&self) -> bool {
        true
    }

    fn empty() -> (r: Self) {
        indexmap::IndexSet::default()
    }

    fn reset(&mut self) {
        self.clear()
    }

    fn capacity(&self) -> usize {
        index_set_capacity(self)
    }
}

impl<K: Hash + Eq, R: Default + BuildHasher> IsoPoolable for indexmap::IndexSet<K, R> {
    open spec fn spec_discriminant() -> Option<Discriminant> {
        discriminant_p2::<K, R>(LocationId(INDEX_SET_SITE))
    }

    fn discriminant() -> (r: Option<Discriminant>) {
        Discriminant::new_p2::<K, R>(LocationId(INDEX_SET_SITE))
    }
}

} // verus!
