use n3::spawner::{default_pool_size, pool_size};

#[test]
fn small_machines_get_ten_threads() {
    assert_eq!(pool_size(1), 10);
    assert_eq!(pool_size(10), 10);
    assert_eq!(pool_size(64), 64);
}

#[test]
fn this_machine() {
    assert_eq!(default_pool_size(), pool_size(num_cpus::get()));
}
