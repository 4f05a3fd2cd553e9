use maelstrom_node::storage::{ClientPacket, Storage, StoragePacket};

fn store(s: &mut Storage, key: &str, msg: usize) -> usize {
    match s.apply(ClientPacket::Store { key: key.to_string(), msg }) {
        StoragePacket::Store(offset) => offset,
        _ => panic!("expected a store answer"),
    }
}

fn get(s: &mut Storage, key: &str, offset: usize) -> Vec<usize> {
    match s.apply(ClientPacket::Get { key: key.to_string(), offset }) {
        StoragePacket::Get(vals) => vals,
        _ => panic!("expected a get answer"),
    }
}

#[test]
fn hello_answered() {
    let mut s = Storage::new();
    assert!(matches!(s.apply(ClientPacket::Hello), StoragePacket::Hello));
}

#[test]
fn store_assigns_insertion_ranks() {
    let mut s = Storage::new();
    let n = 8;
    for i in 0..n {
        let offset = store(&mut s, "k", 100 + i);
        assert_eq!(offset, i);
    }
    let vals = get(&mut s, "k", 0);
    assert_eq!(vals, (0..n).map(|i| 100 + i).collect::<Vec<usize>>());
}

#[test]
fn store_keys_independent() {
    let mut s = Storage::new();
    assert_eq!(store(&mut s, "a", 1), 0);
    assert_eq!(store(&mut s, "b", 2), 0);
    assert_eq!(store(&mut s, "a", 3), 1);
    assert_eq!(get(&mut s, "a", 0), vec![1, 3]);
    assert_eq!(get(&mut s, "b", 0), vec![2]);
}

#[test]
fn get_from_offset_returns_suffix() {
    let mut s = Storage::new();
    for v in [10, 20, 30] {
        store(&mut s, "k", v);
    }
    assert_eq!(get(&mut s, "k", 1), vec![20, 30]);
}

#[test]
fn get_absent_or_beyond_empty() {
    let mut s = Storage::new();
    assert_eq!(get(&mut s, "missing", 0), Vec::<usize>::new());
    store(&mut s, "k", 10);
    assert_eq!(get(&mut s, "k", 1), Vec::<usize>::new());
    assert_eq!(get(&mut s, "k", 5), Vec::<usize>::new());
}

#[test]
fn concurrent_turns_one_key() {
    // Interleaved clients taking turns on one key: each receives the
    // offset equal to its insertion rank, and a final read sees every
    // value in insertion order.
    let mut s = Storage::new();
    let mut expected: Vec<usize> = Vec::new();
    for round in 0..5 {
        for client in 0..4 {
            let value = round * 10 + client;
            let offset = store(&mut s, "shared", value);
            assert_eq!(offset, expected.len());
            expected.push(value);
        }
    }
    assert_eq!(get(&mut s, "shared", 0), expected);
}
