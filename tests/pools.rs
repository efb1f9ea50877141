use poolshark::arc::{Arc, TArc, TCell};
use poolshark::global::{Pool, RawPool};
use poolshark::local::{LPooled, LocalPools, SizeTable};
use poolshark::IsoPoolable;
use std::collections::HashMap;

#[test]
fn normal_pool() {
    for _ in 0..100 {
        let pool: Pool<Vec<usize>> = Pool::new(1024, 1024);
        let mut v0 = pool.take();
        let mut v1 = pool.take();
        v0.get_mut().reserve(100);
        v1.get_mut().reserve(100);
        let (v0a, v1a) = (v0.get().as_ptr().addr(), v1.get().as_ptr().addr());
        let (v0c, v1c) = (v0.get().capacity(), v1.get().capacity());
        for _ in 0..100 {
            v0.release();
            v1.release();
            v0 = pool.take();
            v1 = pool.take();
            assert_eq!(v0.get().as_ptr().addr(), v0a);
            assert_eq!(v1.get().as_ptr().addr(), v1a);
            assert_eq!(v0.get().capacity(), v0c);
            assert_eq!(v1.get().capacity(), v1c);
            assert_eq!(v0.get().len(), 0);
            assert_eq!(v1.get().len(), 0);
            for i in 0..100 {
                v0.get_mut().push(i);
                v1.get_mut().push(i);
            }
            assert!(pool.try_take().is_none());
        }
        // vectors larger than 1024 will not be saved in the pool
        for _ in 0..100 {
            assert!(pool.try_take().is_none());
            let mut v2 = pool.take();
            assert_eq!(v2.get().capacity(), 0);
            v2.get_mut().reserve(1025);
            for i in 0..1025 {
                v2.get_mut().push(i);
            }
            v2.release();
        }
        // add to pool
        v0.release();
        // add to pool
        v1.release();
        assert_eq!(pool.len(), 2);
        // releases everything still in the pool
        drop(pool);
    }
}

#[test]
fn local_pool() {
    type Fx<K, V> = HashMap<K, V, std::hash::BuildHasherDefault<fxhash::FxHasher>>;
    let d0 = <Fx<i32, i32> as IsoPoolable>::discriminant();
    let d1 = <Fx<usize, usize> as IsoPoolable>::discriminant();
    let d2 = <HashMap<usize, usize> as IsoPoolable>::discriminant();
    assert!(d0 != d1);
    assert!(d0 != d2);
    assert!(d1 != d2);
    let sizes = SizeTable::new();
    let mut pools0: LocalPools<Fx<i32, i32>> = LocalPools::new();
    let mut pools1: LocalPools<Fx<usize, usize>> = LocalPools::new();
    let mut pools2: LocalPools<HashMap<usize, usize>> = LocalPools::new();
    let mut caps: Option<(usize, usize)> = None;
    for _ in 0..1000 {
        let mut hm0 = LPooled::take(&mut pools0, &sizes);
        let mut hm1 = LPooled::take(&mut pools1, &sizes);
        let mut hm2 = LPooled::take(&mut pools2, &sizes);
        assert!(hm0.get().is_empty());
        assert!(hm1.get().is_empty());
        assert!(hm2.get().is_empty());
        match caps {
            Some((c0, c1)) => {
                assert_eq!(hm0.get().capacity(), c0);
                assert_eq!(hm1.get().capacity(), c1);
            }
            None => {}
        }
        hm0.get_mut().insert(42, 0);
        hm0.get_mut().insert(0, 42);
        hm1.get_mut().insert(0, 42);
        hm1.get_mut().insert(42, 0);
        hm2.get_mut().insert(0, 0);
        hm2.get_mut().insert(1, 1);
        caps = Some((hm0.get().capacity(), hm1.get().capacity()));
        assert!(hm0.release(&mut pools0, &sizes).is_none());
        assert!(hm1.release(&mut pools1, &sizes).is_none());
        // a map whose hasher takes space is never pooled
        assert!(hm2.release(&mut pools2, &sizes).is_some());
    }
}

#[test]
fn tarc_pool() {
    for _ in 0..100 {
        let pool: RawPool<TCell<String>> = RawPool::new(1024, 1);
        let mut v0 = TArc::new(&pool, "0".to_string());
        let mut v1 = TArc::new(&pool, "0".to_string());
        let v0a = v0.addr();
        let v1a = v1.addr();
        for i in 0..100 {
            v0.release();
            v1.release();
            v0 = TArc::new(&pool, i.to_string());
            v1 = TArc::new(&pool, i.to_string());
            assert_eq!(v0.addr(), v0a);
            assert_eq!(v1.addr(), v1a);
            assert!(pool.try_take().is_none());
            let v2 = v0.clone();
            let v3 = v1.clone();
            // releases v0 and v1, but they won't go back into the pool
            // because strong_count > 1.
            std::mem::replace(&mut v0, v2).release();
            std::mem::replace(&mut v1, v3).release();
            assert!(pool.try_take().is_none());
        }
        v0.release();
        v1.release();
        drop(pool)
    }
}

#[test]
fn arc_pool() {
    for _ in 0..100 {
        let pool: RawPool<std::sync::Arc<String>> = RawPool::new(1024, 1);
        let mut v0 = Arc::new(&pool, "0".to_string());
        let mut v1 = Arc::new(&pool, "0".to_string());
        let v0a = v0.addr();
        let v1a = v1.addr();
        for i in 0..100 {
            v0.release();
            v1.release();
            v0 = Arc::new(&pool, i.to_string());
            v1 = Arc::new(&pool, i.to_string());
            assert_eq!(v0.addr(), v0a);
            assert_eq!(v1.addr(), v1a);
            assert!(pool.try_take().is_none());
            let v2 = v0.clone();
            let v3 = v1.clone();
            // releases v0 and v1, but they won't go back into the pool
            // because strong_count > 1.
            std::mem::replace(&mut v0, v2).release();
            std::mem::replace(&mut v1, v3).release();
            assert!(pool.try_take().is_none());
        }
        v0.release();
        v1.release();
        drop(pool)
    }
}
