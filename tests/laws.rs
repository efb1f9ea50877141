use poolshark::arc::{Arc, TArc, TCell};
use poolshark::global::{self, prune_count, GPooled, GlobalPools, RawPool};
use poolshark::local::{self, LPooled, LocalPools, Pool, SizeTable};
use poolshark::{Discriminant, IsoPoolable, LocationId, Poolable, ULayout};

#[test]
fn popped_items_are_empty_and_allocated() {
    let mut p: Pool<Vec<u8>> = Pool::new(4, 64);
    let mut v = Vec::with_capacity(16);
    v.push(1u8);
    v.push(2u8);
    assert!(p.insert(v).is_none());
    let t = p.take().unwrap();
    assert!(t.is_empty());
    assert!(t.capacity() > 0);
}

#[test]
fn zero_capacity_item_is_released() {
    let mut p: Pool<Vec<u8>> = Pool::new(4, 64);
    assert!(p.insert(Vec::new()).is_some());
    assert!(p.accept(Vec::new(), 0).is_some());
    assert_eq!(p.len(), 0);
}

#[test]
fn capacity_at_bound_accepted_one_beyond_rejected() {
    let mut p: Pool<Vec<u8>> = Pool::new(4, 8);
    assert!(p.accept(Vec::new(), 8).is_none());
    assert!(p.accept(Vec::new(), 9).is_some());
    assert_eq!(p.len(), 1);
    let g: RawPool<Vec<u8>> = RawPool::new(4, 8);
    assert!(g.offer(Vec::with_capacity(8), 8).is_none());
    assert!(g.offer(Vec::with_capacity(9), 9).is_some());
    assert!(g.offer(Vec::with_capacity(9), 0).is_some());
    assert_eq!(g.len(), 1);
}

#[test]
fn last_slot_accepted_then_full() {
    let mut p: Pool<Vec<u8>> = Pool::new(2, 1024);
    assert!(p.insert(Vec::with_capacity(4)).is_none());
    assert_eq!(p.len(), 1);
    assert!(p.insert(Vec::with_capacity(4)).is_none());
    assert!(p.insert(Vec::with_capacity(4)).is_some());
    assert_eq!(p.len(), 2);
}

#[test]
fn local_take_after_release_returns_same_allocation() {
    let sizes = SizeTable::new();
    let mut pools: LocalPools<Vec<u64>> = LocalPools::new();
    let mut a = LPooled::take(&mut pools, &sizes);
    a.get_mut().reserve(10);
    a.get_mut().push(7);
    let addr = a.get().as_ptr().addr();
    assert!(a.release(&mut pools, &sizes).is_none());
    let b = LPooled::take(&mut pools, &sizes);
    assert_eq!(b.get().as_ptr().addr(), addr);
    assert!(b.get().is_empty());
    let c = LPooled::take(&mut pools, &sizes);
    assert_eq!(c.get().capacity(), 0);
}

#[test]
fn local_pool_is_last_in_first_out() {
    let mut p: Pool<Vec<u8>> = Pool::new(4, 1024);
    let a: Vec<u8> = Vec::with_capacity(10);
    let b: Vec<u8> = Vec::with_capacity(20);
    let (pa, pb) = (a.as_ptr().addr(), b.as_ptr().addr());
    assert!(p.insert(a).is_none());
    assert!(p.insert(b).is_none());
    assert_eq!(p.take().unwrap().as_ptr().addr(), pb);
    assert_eq!(p.take().unwrap().as_ptr().addr(), pa);
    assert!(p.take().is_none());
}

#[test]
fn global_pool_is_first_in_first_out() {
    let pool: RawPool<Vec<u8>> = RawPool::new(4, 1024);
    let a: Vec<u8> = Vec::with_capacity(10);
    let b: Vec<u8> = Vec::with_capacity(20);
    let (pa, pb) = (a.as_ptr().addr(), b.as_ptr().addr());
    pool.insert(a);
    pool.insert(b);
    assert_eq!(pool.take().get().as_ptr().addr(), pa);
    assert_eq!(pool.take().get().as_ptr().addr(), pb);
    assert!(pool.try_take().is_none());
}

#[test]
fn shared_cell_release_does_not_pool() {
    let pool: RawPool<std::sync::Arc<String>> = RawPool::new(8, 1);
    let a = Arc::new(&pool, "x".to_string());
    let b = a.clone();
    assert_eq!(a.strong_count(), 2);
    assert!(a.release().is_some());
    assert!(pool.try_take().is_none());
    assert_eq!(b.strong_count(), 1);
    assert!(b.release().is_none());
    assert_eq!(pool.len(), 1);
}

#[test]
fn unique_cell_returns_and_is_reused() {
    let pool: RawPool<std::sync::Arc<String>> = RawPool::new(8, 1);
    let a = Arc::new(&pool, "first".to_string());
    let addr = a.addr();
    assert!(a.release().is_none());
    let b = Arc::new(&pool, "second".to_string());
    assert_eq!(b.addr(), addr);
    assert_eq!(b.strong_count(), 1);
    let mut c = b.clone();
    assert!(c.get_mut().is_none());
    c.make_mut().push('!');
    assert_eq!(c.strong_count(), 1);
    assert_eq!(b.strong_count(), 1);
    let w = b.downgrade();
    assert_eq!(b.weak_count(), 1);
    assert_eq!(w.strong_count(), 1);
    assert!(w.upgrade().is_some());
}

#[test]
fn tcell_shared_release_does_not_pool() {
    let pool: RawPool<TCell<String>> = RawPool::new(8, 1);
    let a = TArc::new(&pool, "x".to_string());
    let b = a.clone();
    assert!(!a.is_unique());
    assert_eq!(a.strong_count(), 2);
    assert!(a.release().is_some());
    assert!(pool.try_take().is_none());
    assert!(b.is_unique());
    assert!(b.release().is_none());
    assert_eq!(pool.len(), 1);
}

#[test]
fn unequal_discriminants_use_separate_pools() {
    let sizes = SizeTable::new();
    let d32 = <Vec<u32> as IsoPoolable>::discriminant().unwrap();
    let d64 = <Vec<u64> as IsoPoolable>::discriminant().unwrap();
    assert!(d32 != d64);
    let mut pools: LocalPools<Vec<u8>> = LocalPools::new();
    assert!(pools.insert_into(d32, (8, 64), Vec::with_capacity(4)).is_none());
    assert!(pools.take_from(d64, (8, 64)).is_none());
    assert!(pools.take_from(d32, (8, 64)).is_some());
    let mut v: LocalPools<Vec<u32>> = LocalPools::new();
    assert!(local::insert(&mut v, &sizes, Vec::with_capacity(4)).is_none());
    let mut w: LocalPools<Vec<u64>> = LocalPools::new();
    assert_eq!(local::take(&mut w, &sizes).capacity(), 0);
}

#[test]
fn equal_discriminants_share_a_pool() {
    let du = <Vec<u32> as IsoPoolable>::discriminant().unwrap();
    let di = <Vec<i32> as IsoPoolable>::discriminant().unwrap();
    assert_eq!(du, di);
    let mut pools: LocalPools<Vec<u8>> = LocalPools::new();
    let v: Vec<u8> = Vec::with_capacity(4);
    let addr = v.as_ptr().addr();
    assert!(pools.insert_into(du, (8, 64), v).is_none());
    assert_eq!(pools.take_from(di, (8, 64)).unwrap().as_ptr().addr(), addr);
}

#[test]
fn prune_shrinks_to_empty() {
    let pool: RawPool<Vec<u8>> = RawPool::new(1000, 1000);
    for _ in 0..1000 {
        pool.insert(Vec::with_capacity(1));
    }
    assert_eq!(pool.len(), 1000);
    pool.prune();
    assert_eq!(pool.len(), 900);
    pool.prune();
    assert_eq!(pool.len(), 810);
    let mut last = pool.len();
    while last > 0 {
        pool.prune();
        assert!(pool.len() < last);
        last = pool.len();
    }
    pool.prune();
    assert_eq!(pool.len(), 0);
}

#[test]
fn prune_counts() {
    assert_eq!(prune_count(1000, 1000), 100);
    assert_eq!(prune_count(900, 1000), 90);
    assert_eq!(prune_count(101, 1000), 10);
    assert_eq!(prune_count(50, 1000), 1);
    assert_eq!(prune_count(5, 1000), 1);
    assert_eq!(prune_count(1, 1000), 1);
    assert_eq!(prune_count(0, 1000), 0);
}

#[test]
fn reset_twice_is_reset_once() {
    let mut v = vec![1u8, 2, 3];
    let cap = v.capacity();
    Poolable::reset(&mut v);
    assert!(v.is_empty());
    Poolable::reset(&mut v);
    assert!(v.is_empty());
    assert_eq!(v.capacity(), cap);
    let mut s = String::from("abc");
    Poolable::reset(&mut s);
    Poolable::reset(&mut s);
    assert_eq!(s, "");
}

#[test]
fn taken_item_goes_back_when_there_is_room() {
    let sizes = SizeTable::new();
    let mut pools: LocalPools<String> = LocalPools::new();
    assert!(local::insert(&mut pools, &sizes, String::with_capacity(8)).is_none());
    let s = local::take(&mut pools, &sizes);
    assert_eq!(s.capacity(), 8);
    assert!(local::insert(&mut pools, &sizes, s).is_none());
    let mut any = None;
    let g = global::take_any::<Vec<u8>>(&mut any, 16, 1024);
    let mut v = g.detach();
    v.reserve(3);
    let p = any.unwrap();
    assert!(p.offer(v, 3).is_none());
}

#[test]
fn oversized_element_type_is_never_pooled() {
    assert!(ULayout::new::<[u8; 4096]>().is_none());
    assert!(ULayout::new::<[u8; 4095]>().is_some());
    assert!(<Vec<[u8; 4096]> as IsoPoolable>::discriminant().is_none());
    let sizes = SizeTable::new();
    let mut pools: LocalPools<Vec<[u8; 4096]>> = LocalPools::new();
    let mut v = local::take(&mut pools, &sizes);
    v.reserve(2);
    assert!(local::insert(&mut pools, &sizes, v).is_some());
    assert_eq!(local::take(&mut pools, &sizes).capacity(), 0);
    assert_eq!(local::get_size::<Vec<[u8; 4096]>>(&sizes), None);
}

#[test]
fn layout_words() {
    assert_eq!(ULayout::new::<u64>(), Some(ULayout(8 * 16 + 8)));
    assert_eq!(ULayout::new::<u8>(), Some(ULayout(16 + 1)));
    assert_eq!(ULayout::new::<()>(), Some(ULayout(1)));
    assert_eq!(ULayout::new::<u128>(), Some(ULayout(16 * 16)));
    assert_eq!(ULayout::empty(), ULayout(0));
}

#[test]
fn discriminant_factories() {
    let id = LocationId(7);
    let none = ULayout(0);
    assert_eq!(
        Discriminant::new(id),
        Some(Discriminant { container: id, first: none, second: none, size: 0xFFFF })
    );
    assert_eq!(
        Discriminant::new_p1::<u32>(id),
        Some(Discriminant { container: id, first: ULayout(68), second: none, size: 0xFFFF })
    );
    assert_eq!(
        Discriminant::new_p2::<u32, u16>(id),
        Some(Discriminant { container: id, first: ULayout(68), second: ULayout(34), size: 0xFFFF })
    );
    assert_eq!(
        Discriminant::new_p1_size::<u8, 65534>(id),
        Some(Discriminant { container: id, first: ULayout(17), second: none, size: 65534 })
    );
    assert_eq!(Discriminant::new_p1_size::<u8, 65535>(id), None);
    assert_eq!(
        Discriminant::new_p2_size::<u8, u16, 3>(id),
        Some(Discriminant { container: id, first: ULayout(17), second: ULayout(34), size: 3 })
    );
    assert_eq!(Discriminant::new_p2_size::<u8, u16, 70000>(id), None);
    assert_eq!(Discriminant::new_p2::<u8, [u8; 5000]>(id), None);
    let d = Discriminant { container: LocationId(1), first: ULayout(2), second: ULayout(3), size: 4 };
    assert_eq!(d.key(), 0x0001_0002_0003_0004);
}

#[test]
fn size_configuration() {
    let mut sizes = SizeTable::new();
    assert_eq!(local::get_size::<String>(&sizes), Some((1024, 1024)));
    local::set_size::<String>(&mut sizes, 3, 5);
    assert_eq!(local::get_size::<String>(&sizes), Some((3, 5)));
    assert_eq!(global::get_size::<Vec<u8>>(&sizes), Some((1024, 1024)));
    global::set_size::<Vec<u8>>(&mut sizes, 2, 9);
    assert_eq!(global::get_size::<Vec<u8>>(&sizes), Some((2, 9)));
    let mut pools: LocalPools<String> = LocalPools::new();
    for _ in 0..3 {
        assert!(local::insert(&mut pools, &sizes, String::with_capacity(4)).is_none());
    }
    assert!(local::insert(&mut pools, &sizes, String::with_capacity(4)).is_some());
    assert!(local::insert_sz(&mut pools, 100, 100, String::with_capacity(4)).is_some());
    local::clear_type::<String>(&mut pools);
    assert!(local::insert_sz(&mut pools, 1, 100, String::with_capacity(4)).is_none());
    assert!(local::insert_sz(&mut pools, 1, 100, String::with_capacity(4)).is_some());
    local::clear(&mut pools);
    assert_eq!(local::take_sz(&mut pools, 1, 1).capacity(), 0);
}

#[test]
fn global_registry() {
    let sizes = SizeTable::new();
    let mut pools: GlobalPools<Vec<u8>> = GlobalPools::new();
    let p = global::pool(&mut pools, &sizes).unwrap();
    assert_eq!(p.capacity(), 1024);
    assert_eq!(p.max_elt_capacity(), 1024);
    let mut h = global::take(&mut pools, &sizes);
    h.get_mut().reserve(5);
    let addr = h.get().as_ptr().addr();
    assert!(h.release().is_none());
    let h2 = global::take_sz(&mut pools, 1, 1);
    assert_eq!(h2.get().as_ptr().addr(), addr);
    global::clear_type::<Vec<u8>>(&mut pools);
    let q = global::pool_sz(&mut pools, 3, 4).unwrap();
    assert_eq!(q.capacity(), 3);
    global::clear(&mut pools);
    assert_eq!(global::pool_sz(&mut pools, 5, 6).unwrap().capacity(), 5);
}

#[test]
fn orphan_release_touches_no_pool() {
    let h = GPooled::orphan(vec![1u8, 2, 3]);
    let v = h.release().unwrap();
    assert_eq!(v, vec![1u8, 2, 3]);
    let pool: RawPool<Vec<u8>> = RawPool::new(4, 1024);
    let mut h = GPooled::orphan(vec![1u8, 2, 3]);
    h.assign(&pool);
    assert!(h.release().is_none());
    assert_eq!(pool.len(), 1);
    let d = pool.take().detach();
    assert!(d.is_empty());
}

#[test]
fn pool_gone_releases_item() {
    let pool: RawPool<Vec<u8>> = RawPool::new(4, 1024);
    let mut h = pool.take();
    h.get_mut().push(1);
    drop(pool);
    assert_eq!(h.release(), Some(vec![1u8]));
}

#[test]
fn lpooled_detach_and_from() {
    let h = LPooled::from_item(vec![5u8]);
    assert_eq!(h.detach(), vec![5u8]);
    let mut pools: LocalPools<Vec<u8>> = LocalPools::new();
    let h = LPooled::take_sz(&mut pools, 1, 1);
    assert!(h.get().is_empty());
}

#[test]
fn index_containers_are_pooled() {
    type Fx = std::hash::BuildHasherDefault<fxhash::FxHasher>;
    let sizes = SizeTable::new();
    let mut pools: LocalPools<indexmap::IndexMap<u32, u32, Fx>> = LocalPools::new();
    let mut m = local::take(&mut pools, &sizes);
    m.insert(1, 2);
    let cap = m.capacity();
    assert!(local::insert(&mut pools, &sizes, m).is_none());
    let m2 = local::take(&mut pools, &sizes);
    assert!(m2.is_empty());
    assert_eq!(m2.capacity(), cap);
    assert!(<indexmap::IndexMap<u32, u32> as IsoPoolable>::discriminant().is_none());
    let mut sets: LocalPools<indexmap::IndexSet<u8, Fx>> = LocalPools::new();
    let mut s = local::take(&mut sets, &sizes);
    s.insert(3);
    assert!(local::insert(&mut sets, &sizes, s).is_none());
    assert!(local::take(&mut sets, &sizes).is_empty());
}

#[test]
fn handle_take_methods() {
    let sizes = SizeTable::new();
    let mut pools: GlobalPools<String> = GlobalPools::new();
    let mut h = GPooled::take(&mut pools, &sizes);
    h.get_mut().push_str("abc");
    assert!(h.release().is_none());
    let h = GPooled::take_sz(&mut pools, 8, 8);
    assert_eq!(h.get(), "");
    assert!(h.get().capacity() >= 3);
}

#[test]
fn value_not_really_dropped_is_not_returned() {
    let pool: RawPool<Vec<u8>> = RawPool::new(4, 1024);
    let mut h = pool.take();
    h.get_mut().push(1);
    assert_eq!(h.len(), 1);
    assert_eq!(h.release_as(false), Some(vec![1u8]));
    assert_eq!(pool.len(), 0);
    let sizes = SizeTable::new();
    let mut pools: LocalPools<Vec<u8>> = LocalPools::new();
    let l = LPooled::take(&mut pools, &sizes);
    assert!(l.is_empty());
    let cell_pool: RawPool<std::sync::Arc<String>> = RawPool::new(4, 1);
    let c = Arc::new(&cell_pool, "v".to_string());
    assert_eq!(c.len(), 1);
    assert_eq!(ULayout::default(), ULayout(0));
}

#[test]
fn refused_item_is_not_reset() {
    let mut p: Pool<Vec<u8>> = Pool::new(4, 4);
    let mut big = Vec::with_capacity(100);
    big.push(9u8);
    assert_eq!(p.insert(big), Some(vec![9u8]));
    let mut full: Pool<Vec<u8>> = Pool::new(0, 1024);
    assert_eq!(full.insert(vec![1u8, 2]), Some(vec![1u8, 2]));
    let mut sizes = SizeTable::new();
    local::set_size::<Vec<u8>>(&mut sizes, 1, 1024);
    let mut pools: LocalPools<Vec<u8>> = LocalPools::new();
    assert!(local::insert(&mut pools, &sizes, vec![3u8]).is_none());
    assert_eq!(local::insert(&mut pools, &sizes, vec![4u8]), Some(vec![4u8]));
    assert_eq!(local::insert_sz(&mut pools, 1, 1024, vec![5u8]), Some(vec![5u8]));
}

#[test]
fn shared_local_value_comes_back_untouched() {
    let sizes = SizeTable::new();
    let mut pools: LocalPools<Vec<u8>> = LocalPools::new();
    let h = LPooled::from_item(vec![7u8, 8]);
    assert_eq!(h.release_as(&mut pools, &sizes, false), Some(vec![7u8, 8]));
    assert_eq!(local::take(&mut pools, &sizes).capacity(), 0);
    let h = LPooled::from_item(vec![7u8, 8]);
    assert!(h.release_as(&mut pools, &sizes, true).is_none());
    assert!(local::take(&mut pools, &sizes).capacity() >= 2);
    let mut p: Pool<Vec<u8>> = Pool::new(2, 1024);
    assert!(LPooled::from_item(vec![1u8]).release_to(&mut p).is_none());
    assert_eq!(p.len(), 1);
}

#[test]
fn make_mut_copies_a_shared_value() {
    let pool: RawPool<std::sync::Arc<String>> = RawPool::new(8, 1);
    let a = Arc::new(&pool, "abc".to_string());
    let mut b = a.clone();
    b.make_mut().push('d');
    assert_eq!(a.as_str(), "abc");
    assert_eq!(b.as_str(), "abcd");
    assert_ne!(a.addr(), b.addr());
    let mut c = Arc::new(&pool, "x".to_string());
    let addr = c.addr();
    c.make_mut().push('y');
    assert_eq!(c.addr(), addr);
    assert_eq!(c.as_str(), "xy");
}

#[test]
fn take_any_keeps_an_existing_pool() {
    let mut slot = None;
    let h = global::take_any::<Vec<u8>>(&mut slot, 3, 7);
    assert!(h.get().is_empty());
    assert_eq!(slot.as_ref().unwrap().capacity(), 3);
    assert_eq!(slot.as_ref().unwrap().max_elt_capacity(), 7);
    let _ = global::take_any::<Vec<u8>>(&mut slot, 50, 60);
    assert_eq!(slot.as_ref().unwrap().capacity(), 3);
    assert_eq!(slot.as_ref().unwrap().max_elt_capacity(), 7);
}

#[test]
fn release_without_live_pool_returns_value_untouched() {
    let pool: RawPool<Vec<u8>> = RawPool::new(4, 1024);
    let h = GPooled::orphan(vec![1u8, 2]);
    assert_eq!(h.release_into(None, true), Some(vec![1u8, 2]));
    let h = GPooled::orphan(vec![3u8]);
    assert_eq!(h.release_into(Some(pool.clone()), false), Some(vec![3u8]));
    assert_eq!(pool.len(), 0);
    let h = GPooled::orphan(vec![4u8]);
    assert!(h.release_into(Some(pool.clone()), true).is_none());
    assert_eq!(pool.len(), 1);
    let cells: RawPool<std::sync::Arc<String>> = RawPool::new(4, 1);
    let a = Arc::new(&cells, "a".to_string());
    assert!(a.release_into(None, true).is_some());
    let t: RawPool<TCell<String>> = RawPool::new(4, 1);
    let b = TArc::new(&t, "b".to_string());
    assert!(b.release_into(Some(t.clone()), false).is_some());
    assert_eq!(t.len(), 0);
}

#[test]
fn prune_reports_what_it_read_and_discarded() {
    let pool: RawPool<Vec<u8>> = RawPool::new(1000, 1000);
    assert_eq!(pool.prune(), (0, 0));
    for _ in 0..1000 {
        assert!(pool.insert(Vec::with_capacity(1)).is_none());
    }
    assert_eq!(pool.prune(), (1000, 100));
    assert_eq!(pool.prune(), (900, 90));
    assert_eq!(pool.insert(Vec::new()), Some(Vec::new()));
}
