use klein::config::SingleServer;
use klein::consistent_hashing::{hash_request, hash_virtual_server, ServerPool, TOTAL_SLOTS};

fn pool_of(ids: &[(usize, &str)]) -> ServerPool {
    let mut pool = ServerPool::new(ids.len());
    for (id, name) in ids {
        pool.add_server_with_id(*id, name.to_string(), "127.0.0.1".to_string(), 8000);
    }
    pool
}

fn nodes_of(pool: &ServerPool, name: &str) -> usize {
    pool.virtual_servers()
        .iter()
        .filter(|v| v.server_container.name == name)
        .count()
}

#[test]
fn test_out() {
    let mut containers = ServerPool::new(3);
    containers.initialize();
    containers
        .virtual_servers()
        .iter()
        .for_each(|c| println!("slot={} name={}", c.slot, &c.server_container.name));
    assert!(containers.virtual_servers().is_empty());
}

#[test]
fn request_hash_exact_values() {
    assert_eq!(hash_request(5, 512), 32);
    assert_eq!(hash_request(0, 512), 17);
    assert_eq!(hash_request(165, 512), 0);
    assert_eq!(hash_request(usize::MAX, 512), ((3u128 * usize::MAX as u128 + 17) % 512) as usize);
}

#[test]
fn virtual_hash_exact_values() {
    assert_eq!(hash_virtual_server(3, 2, 512), 221);
    assert_eq!(hash_virtual_server(1, 0, 512), 1);
    assert_eq!(hash_virtual_server(0, 0, 512), 0);
    assert_eq!(hash_virtual_server(10, 7, 512), ((37 * 10 * 7) ^ (10 | 7)) % 512);
}

#[test]
fn three_backends_share_ring_evenly() {
    let pool = pool_of(&[(1, "A"), (2, "B"), (3, "C")]);
    assert_eq!(nodes_of(&pool, "A"), 170);
    assert_eq!(nodes_of(&pool, "B"), 170);
    assert_eq!(nodes_of(&pool, "C"), 170);
    assert_eq!(pool.virtual_servers().len(), 510);
    let first = pool.get_server_container(5);
    let second = pool.get_server_container(5);
    assert!(first.is_some());
    assert_eq!(first, second);
}

#[test]
fn virtual_nodes_are_in_slot_order_without_duplicates() {
    let pool = pool_of(&[(11, "a"), (22, "b"), (33, "c"), (44, "d"), (55, "e")]);
    let nodes = pool.virtual_servers();
    assert_eq!(nodes.len(), 5 * (TOTAL_SLOTS / 5));
    for w in nodes.windows(2) {
        assert!(w[0].slot < w[1].slot);
    }
    for name in ["a", "b", "c", "d", "e"] {
        assert_eq!(nodes_of(&pool, name), TOTAL_SLOTS / 5);
    }
}

#[test]
fn lookup_on_single_backend_always_finds_it() {
    let pool = pool_of(&[(7, "only")]);
    assert_eq!(nodes_of(&pool, "only"), TOTAL_SLOTS);
    for t in 0..2000 {
        assert_eq!(pool.get_server_container(t).unwrap().name, "only");
    }
}

#[test]
fn lookup_on_empty_ring_finds_nothing() {
    let pool = ServerPool::new(0);
    for t in 0..600 {
        assert!(pool.get_server_container(t).is_none());
    }
}

#[test]
fn added_backend_is_reachable() {
    let mut pool = pool_of(&[(1, "A"), (2, "B"), (3, "C")]);
    pool.add_server("n4".to_string(), "127.0.0.1".to_string(), 18000);
    let servers = pool.server_containers();
    assert_eq!(servers.len(), 4);
    let added = &servers[3];
    assert_eq!(added.name, "n4");
    assert_eq!(added.port, 18000);
    assert!(added.id >= 100_000 && added.id < 999_999);
    assert_eq!(nodes_of(&pool, "n4"), 128);
    let hit = (0..512).any(|t| pool.get_server_container(t).map(|s| s.name) == Some("n4".to_string()));
    assert!(hit);
    for name in ["A", "B", "C", "n4"] {
        assert!((0..512).any(|t| pool.get_server_container(t).map(|s| s.name) == Some(name.to_string())));
    }
}

#[test]
fn removed_backend_is_unreachable() {
    let mut pool = pool_of(&[(1, "A"), (2, "B"), (3, "C")]);
    assert!(pool.remove_server(&"B".to_string()));
    let names: Vec<String> = pool.server_containers().into_iter().map(|s| s.name).collect();
    assert_eq!(names, vec!["A".to_string(), "C".to_string()]);
    assert_eq!(nodes_of(&pool, "B"), 0);
    assert_eq!(nodes_of(&pool, "A"), 256);
    for t in 0..2000 {
        assert_ne!(pool.get_server_container(t).unwrap().name, "B");
    }
}

#[test]
fn removing_unknown_name_changes_nothing() {
    let mut pool = pool_of(&[(1, "A"), (2, "B")]);
    let before = pool.virtual_servers();
    assert!(!pool.remove_server(&"Z".to_string()));
    assert_eq!(pool.server_containers().len(), 2);
    let after = pool.virtual_servers();
    assert_eq!(before.len(), after.len());
    for (x, y) in before.iter().zip(after.iter()) {
        assert_eq!(x.slot, y.slot);
        assert_eq!(x.server_container, y.server_container);
    }
}

#[test]
fn rebuild_discards_previous_layout() {
    let mut pool = pool_of(&[(1, "A"), (2, "B"), (3, "C")]);
    pool.initialize();
    pool.initialize();
    assert_eq!(pool.virtual_servers().len(), 510);
    assert_eq!(nodes_of(&pool, "A"), 170);
}

#[test]
fn lookup_falls_through_to_next_occupied_slot() {
    let pool = pool_of(&[(5, "x"), (6, "y"), (7, "z"), (8, "w"), (9, "v"), (10, "u"), (12, "t")]);
    for t in 0..512 {
        let slot = hash_request(t, TOTAL_SLOTS);
        let nodes = pool.virtual_servers();
        let expected = nodes
            .iter()
            .find(|v| v.slot >= slot)
            .or_else(|| nodes.first())
            .map(|v| v.server_container.clone());
        assert_eq!(pool.get_server_container(t), expected);
    }
}

#[test]
fn more_backends_than_slots_leave_ring_empty() {
    let mut pool = ServerPool::new(0);
    for k in 0..513usize {
        pool.add_server_with_id(k + 1, format!("s{}", k), "h".to_string(), 1);
    }
    assert!(pool.virtual_servers().is_empty());
    assert!(pool.get_server_container(3).is_none());
    let copy = SingleServer { host: "h".to_string(), port: 1, name: "s0".to_string(), id: 1 };
    assert_eq!(pool.server_containers()[0], copy);
}

#[test]
fn drawn_identities_vary_within_range() {
    let mut pool = ServerPool::new(0);
    for k in 0..4 {
        pool.add_server(format!("n{}", k), "127.0.0.1".to_string(), 18000 + k);
    }
    let ids: Vec<usize> = pool.server_containers().iter().map(|s| s.id).collect();
    for id in &ids {
        assert!(*id >= 100_000 && *id < 999_999);
    }
    assert!(ids.iter().any(|id| *id != ids[0]));
}
