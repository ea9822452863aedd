use pixfetch::DedupStore;

fn id(s: &str) -> Vec<u8> {
    s.as_bytes().to_vec()
}

#[test]
fn empty_store_round_trip() {
    let store = DedupStore::new();
    let data = store.serialize();
    assert_eq!(data, Vec::<u8>::new());
    let reloaded = DedupStore::parse(&data);
    assert_eq!(reloaded.len(), 0);
}

#[test]
fn round_trip_preserves_set() {
    let mut store = DedupStore::new();
    store.insert(id("2024/01/01/00/00/00/111"));
    store.insert(id("2024/01/01/00/00/00/222"));
    store.insert(id("2023/12/31/23/59/59/9"));
    let data = store.serialize();
    let reloaded = DedupStore::parse(&data);
    assert_eq!(reloaded.len(), 3);
    assert!(reloaded.contains(&id("2024/01/01/00/00/00/111")));
    assert!(reloaded.contains(&id("2024/01/01/00/00/00/222")));
    assert!(reloaded.contains(&id("2023/12/31/23/59/59/9")));
    assert!(!reloaded.contains(&id("2024/01/01/00/00/00/333")));
}

#[test]
fn double_round_trip_is_identical() {
    let mut store = DedupStore::new();
    store.insert(id("2024/05/06/07/08/09/10"));
    store.insert(id("2020/01/02/03/04/05/6"));
    let once = DedupStore::parse(&store.serialize());
    let twice = DedupStore::parse(&once.serialize());
    assert_eq!(once.serialize(), twice.serialize());
    assert_eq!(twice.len(), 2);
}

#[test]
fn serialize_joins_with_single_newlines() {
    let mut store = DedupStore::new();
    store.insert(id("a"));
    store.insert(id("b"));
    assert_eq!(store.serialize(), b"a\nb".to_vec());
}

#[test]
fn parse_skips_blank_lines_and_duplicates() {
    let data = b"a\n\nb\na\n".to_vec();
    let store = DedupStore::parse(&data);
    assert_eq!(store.len(), 2);
    assert!(store.contains(&id("a")));
    assert!(store.contains(&id("b")));
    assert!(!store.contains(&id("")));
}

#[test]
fn parse_accepts_missing_trailing_newline() {
    let store = DedupStore::parse(&b"x\ny".to_vec());
    assert_eq!(store.len(), 2);
    assert!(store.contains(&id("x")));
    assert!(store.contains(&id("y")));
}

#[test]
fn contains_is_exact_match() {
    let mut store = DedupStore::new();
    store.insert(id("2024/01/01/00/00/00/111"));
    assert!(!store.contains(&id("2024/01/01/00/00/00/11")));
    assert!(!store.contains(&id("024/01/01/00/00/00/111")));
    assert!(store.contains(&id("2024/01/01/00/00/00/111")));
}
