use roxlap_game_demo::hash::splitmix64;

#[test]
fn splitmix64_deterministic() {
    assert_eq!(splitmix64(0), splitmix64(0));
    assert_eq!(splitmix64(42), splitmix64(42));
}

#[test]
fn splitmix64_adjacent_seeds_differ() {
    assert_ne!(splitmix64(0), splitmix64(1));
    assert_ne!(splitmix64(100), splitmix64(101));
}

#[test]
fn splitmix64_known_values() {
    assert_eq!(splitmix64(0), 0);
    assert_eq!(splitmix64(1), 6238072747940578789);
    assert_eq!(splitmix64(42), 12058926934050108962);
    assert_eq!(splitmix64(0xdead_beef), 5622224078331092714);
}

#[test]
fn splitmix64_no_collisions_on_a_range() {
    let mut seen = std::collections::HashSet::new();
    for h in 0u64..10_000 {
        assert!(seen.insert(splitmix64(h)), "collision at {h}");
    }
}
