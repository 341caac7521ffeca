use load_balancer::pool::ConnectionPools;

fn pools(max_idle: usize, timeout: u128) -> ConnectionPools<u32> {
    ConnectionPools::new(max_idle, timeout, vec!["a:1", "b:2", "a:1"])
}

fn a() -> String {
    String::from("a:1")
}

fn b() -> String {
    String::from("b:2")
}

#[test]
fn new_pools_are_empty() {
    let mut pools = pools(2, 100);
    assert!(pools.has_pool("a:1"));
    assert!(pools.has_pool("b:2"));
    assert!(!pools.has_pool("c:3"));
    assert_eq!(pools.get_connection("a:1", 0), None);
    assert_eq!(pools.next_connection("b:2"), None);
}

#[test]
fn returned_connection_is_reused_once() {
    let mut pools = pools(2, 100);
    pools.return_connection(&a(), 7, 1000);
    assert_eq!(pools.get_connection("a:1", 1050), Some(7));
    assert_eq!(pools.get_connection("a:1", 1050), None);
}

#[test]
fn latest_connection_comes_first() {
    let mut pools = pools(3, 100);
    pools.return_connection(&a(), 1, 10);
    pools.return_connection(&a(), 2, 20);
    pools.return_connection(&a(), 3, 30);
    assert_eq!(pools.get_connection("a:1", 40), Some(3));
    assert_eq!(pools.next_connection("a:1"), Some(2));
    assert_eq!(pools.next_connection("a:1"), Some(1));
    assert_eq!(pools.next_connection("a:1"), None);
}

#[test]
fn idle_timeout_is_exclusive() {
    let mut pools = pools(2, 100);
    pools.return_connection(&a(), 1, 0);
    pools.return_connection(&a(), 2, 1);
    assert_eq!(pools.get_connection("a:1", 100), Some(2));
    assert_eq!(pools.next_connection("a:1"), None);
}

#[test]
fn stale_connections_are_thrown_away_wherever_they_are() {
    let mut pools = pools(4, 100);
    pools.return_connection(&a(), 1, 50);
    pools.return_connection(&a(), 2, 0);
    pools.return_connection(&a(), 3, 60);
    pools.return_connection(&a(), 4, 10);
    assert_eq!(pools.get_connection("a:1", 120), Some(3));
    assert_eq!(pools.next_connection("a:1"), Some(1));
    assert_eq!(pools.next_connection("a:1"), None);
}

#[test]
fn going_on_does_not_look_at_the_clock() {
    let mut pools = pools(2, 100);
    pools.return_connection(&a(), 1, 0);
    assert_eq!(pools.next_connection("a:1"), Some(1));
}

#[test]
fn clock_that_is_behind_counts_as_no_time() {
    let mut pools = pools(2, 100);
    pools.return_connection(&a(), 1, 500);
    assert_eq!(pools.get_connection("a:1", 400), Some(1));
    let mut never = ConnectionPools::new(2, 0, vec!["a:1"]);
    never.return_connection(&a(), 1u32, 500);
    assert_eq!(never.get_connection("a:1", 400), None);
}

#[test]
fn full_pool_drops_what_is_put_back() {
    let mut pools = pools(2, 100);
    pools.return_connection(&a(), 1, 0);
    pools.return_connection(&a(), 2, 0);
    pools.return_connection(&a(), 3, 0);
    assert_eq!(pools.get_connection("a:1", 0), Some(2));
    assert_eq!(pools.get_connection("a:1", 0), Some(1));
    assert_eq!(pools.get_connection("a:1", 0), None);
}

#[test]
fn pools_do_not_mix() {
    let mut pools = pools(1, 100);
    pools.return_connection(&a(), 1, 0);
    pools.return_connection(&b(), 2, 0);
    assert_eq!(pools.get_connection("a:1", 1000), None);
    assert_eq!(pools.get_connection("b:2", 0), Some(2));
}

#[test]
fn emptied_pool_has_nothing() {
    let mut pools = pools(2, 100);
    pools.return_connection(&a(), 1, 0);
    pools.return_connection(&b(), 2, 0);
    pools.empty_backend_connections(&a());
    assert_eq!(pools.get_connection("a:1", 0), None);
    assert_eq!(pools.get_connection("b:2", 0), Some(2));
    assert!(pools.has_pool("a:1"));
}

#[test]
fn emptying_an_unknown_pool_does_nothing() {
    let mut pools = pools(2, 100);
    pools.return_connection(&a(), 1, 0);
    pools.empty_backend_connections(&String::from("c:3"));
    assert!(!pools.has_pool("c:3"));
    assert_eq!(pools.get_connection("a:1", 0), Some(1));
}
