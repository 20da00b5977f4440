use mapper::request::{plan_request, CACHE_MAX};
use mapper::tile::XYZ;
use moka::future::Cache;

fn run<F: std::future::Future>(f: F) -> F::Output {
    tokio::runtime::Builder::new_current_thread()
        .enable_all()
        .build()
        .unwrap()
        .block_on(f)
}

#[test]
fn cache_returns_inserted_value_until_cleared() {
    run(async {
        let cache: Cache<XYZ, Vec<Vec<u8>>> = Cache::new(CACHE_MAX);
        let plan = plan_request(&XYZ { x: 512, y: 512, z: 10 });
        assert_eq!(cache.get(&plan.tile_key).await, None);
        cache.insert(plan.tile_key, vec![vec![1, 2, 3]]).await;
        assert_eq!(cache.get(&plan.tile_key).await, Some(vec![vec![1, 2, 3]]));
        // What the periodic sweep does once per interval.
        cache.invalidate_all();
        assert_eq!(cache.get(&plan.tile_key).await, None);
    });
}

#[test]
fn alert_cache_is_shared_by_tiles_of_one_coarse_area() {
    run(async {
        let cache: Cache<XYZ, Vec<u8>> = Cache::new(CACHE_MAX);
        let a = plan_request(&XYZ { x: 4096, y: 2048, z: 13 });
        let b = plan_request(&XYZ { x: 4103, y: 2055, z: 13 });
        cache.insert(a.alert_key, vec![7]).await;
        assert_eq!(cache.get(&b.alert_key).await, Some(vec![7]));
        let c = plan_request(&XYZ { x: 4104, y: 2048, z: 13 });
        assert_eq!(cache.get(&c.alert_key).await, None);
    });
}
