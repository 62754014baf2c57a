use skopje::keymap::KeyMap;

#[test]
fn from_reports_lowest_gap() {
    let mut bimap: bimap::BiMap<u64, String> = bimap::BiMap::new();
    bimap.insert(0, "zero".to_string());
    bimap.insert(1, "one".to_string());
    bimap.insert(3, "three".to_string());

    let keymap = KeyMap::from(bimap);
    assert_eq!(*keymap.see_next_key(), 2);
}

#[test]
fn transact_fills_gap_then_recalculates() {
    let mut bimap: bimap::BiMap<u64, String> = bimap::BiMap::new();
    bimap.insert(0, "zero".to_string());
    bimap.insert(1, "one".to_string());
    bimap.insert(3, "three".to_string());

    let mut keymap = KeyMap::from(bimap);
    assert_eq!(*keymap.see_next_key(), 2);

    let pk = keymap.transact("two".to_string());
    assert_eq!(pk, 2);
    assert_eq!(*keymap.see_next_key(), 4);
}

#[test]
fn new_allocates_dense_keys_from_zero() {
    let mut keymap = KeyMap::new();
    assert_eq!(*keymap.see_next_key(), 0);
    assert_eq!(keymap.transact("a".to_string()), 0);
    assert_eq!(keymap.transact("b".to_string()), 1);
    assert_eq!(keymap.transact("c".to_string()), 2);
    assert_eq!(*keymap.see_next_key(), 3);
}

#[test]
fn transact_is_idempotent() {
    let mut keymap = KeyMap::new();
    let first = keymap.transact("same".to_string());
    let len_after_first = keymap.bimap.len();
    let second = keymap.transact("same".to_string());
    assert_eq!(first, second);
    assert_eq!(keymap.bimap.len(), len_after_first);
    assert_eq!(*keymap.see_next_key(), 1);
}

#[test]
fn bijection_holds_under_repeats() {
    let mut keymap = KeyMap::new();
    keymap.transact("x".to_string());
    keymap.transact("y".to_string());
    keymap.transact("x".to_string());
    keymap.transact("z".to_string());
    keymap.transact("y".to_string());
    assert_eq!(keymap.bimap.len(), 3);
    // No two keys share an object and no two objects share a key.
    assert_eq!(keymap.bimap.get_by_right(&"x".to_string()), Some(&0));
    assert_eq!(keymap.bimap.get_by_right(&"y".to_string()), Some(&1));
    assert_eq!(keymap.bimap.get_by_right(&"z".to_string()), Some(&2));
}

#[test]
fn next_key_is_lowest_free_after_every_transact() {
    let mut bimap: bimap::BiMap<u64, String> = bimap::BiMap::new();
    bimap.insert(1, "one".to_string());
    bimap.insert(2, "two".to_string());
    bimap.insert(5, "five".to_string());
    let mut keymap = KeyMap::from(bimap);
    assert_eq!(*keymap.see_next_key(), 0);

    for obj in ["a", "b", "c", "d"] {
        keymap.transact(obj.to_string());
        let next = *keymap.see_next_key();
        assert!(!keymap.bimap.contains_left(&next));
        for k in 0..next {
            assert!(keymap.bimap.contains_left(&k));
        }
    }
}

#[test]
fn calc_lowest_key_scans_from_zero() {
    let mut bimap: bimap::BiMap<u64, String> = bimap::BiMap::new();
    assert_eq!(KeyMap::calc_lowest_key(&bimap), 0);
    bimap.insert(0, "zero".to_string());
    bimap.insert(1, "one".to_string());
    assert_eq!(KeyMap::calc_lowest_key(&bimap), 2);
}

#[test]
fn calc_next_key_moves_cursor_up() {
    let mut keymap = KeyMap::new();
    keymap.transact("a".to_string());
    keymap.bimap.insert(1, "b".to_string());
    keymap.bimap.insert(2, "c".to_string());
    keymap.calc_next_key();
    assert_eq!(*keymap.see_next_key(), 3);
}

#[test]
fn round_trip_persistence_restores_allocator() {
    let mut keymap = KeyMap::new();
    keymap.transact("zero".to_string());
    keymap.transact("one".to_string());
    keymap.transact("two".to_string());
    keymap.bimap.insert(7, "seven".to_string());

    // Persisting writes one row per pair; reloading rebuilds from the rows.
    let rows = keymap.pairs();
    assert_eq!(rows.len(), 4);
    let reloaded = KeyMap::from_pairs(&rows);

    assert_eq!(reloaded.bimap.len(), keymap.bimap.len());
    for (key, obj) in keymap.bimap.iter() {
        assert_eq!(reloaded.bimap.get_by_left(key), Some(obj));
    }
    assert_eq!(reloaded.see_next_key(), keymap.see_next_key());
}

#[test]
fn from_pairs_builds_and_finds_gap() {
    let rows = vec![
        (0u64, "zero".to_string()),
        (1u64, "one".to_string()),
        (3u64, "three".to_string()),
    ];
    let keymap = KeyMap::from_pairs(&rows);
    assert_eq!(keymap.bimap.len(), 3);
    assert_eq!(*keymap.see_next_key(), 2);
}
