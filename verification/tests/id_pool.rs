//! The identifier pool produces statistically unique values.

use std::collections::HashSet;

#[test]
fn ids_different() {
    let mut ids = HashSet::<u64>::new();
    let mut pool = redshirt_core::id_pool::IdPool::new();
    for _ in 0..5000 {
        assert!(ids.insert(pool.assign()));
    }
}
