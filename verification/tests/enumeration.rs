use pixfetch::DedupStore;
use pixfetch::collect_new_ids;
use pixfetch::extract_identifier;

fn url(s: &str) -> Option<Vec<u8>> {
    Some(s.as_bytes().to_vec())
}

#[test]
fn extracts_identifier_from_thumbnail_url() {
    let u = b"https://i.pximg.net/c/250x250/img-squared/img/2024/01/01/00/00/00/111_p0_sq.jpg"
        .to_vec();
    let got = extract_identifier(&u);
    assert_eq!(got, Some(b"2024/01/01/00/00/00/111".to_vec()));
}

#[test]
fn extraction_takes_whole_trailing_digit_run() {
    let u = b"/img/2020/11/22/03/04/05/9876543 tail".to_vec();
    assert_eq!(extract_identifier(&u), Some(b"2020/11/22/03/04/05/9876543".to_vec()));
}

#[test]
fn extraction_finds_leftmost_stamp() {
    let u = b"x/1111/11/11/11/11/11/1 then /2222/22/22/22/22/22/2".to_vec();
    assert_eq!(extract_identifier(&u), Some(b"1111/11/11/11/11/11/1".to_vec()));
}

#[test]
fn extraction_rejects_urls_without_stamp() {
    assert_eq!(extract_identifier(&b"https://example.net/logo.png".to_vec()), None);
    assert_eq!(extract_identifier(&b"/2024/1/01/00/00/00/111".to_vec()), None);
    assert_eq!(extract_identifier(&b"2024/01/01/00/00/00/111".to_vec()), None);
    assert_eq!(extract_identifier(&Vec::new()), None);
}

#[test]
fn enumeration_records_new_identifiers_in_order() {
    let mut store = DedupStore::new();
    let mut matched: Vec<Vec<u8>> = Vec::new();
    let srcs = vec![
        url("https://host/img/2024/01/01/00/00/00/111_p0.png"),
        None,
        url("https://host/plain.png"),
        url("https://host/img/2024/01/01/00/00/00/222_p0.jpg"),
    ];
    collect_new_ids(&mut store, &mut matched, &srcs);
    assert_eq!(
        matched,
        vec![b"2024/01/01/00/00/00/111".to_vec(), b"2024/01/01/00/00/00/222".to_vec()]
    );
    assert!(store.contains(&b"2024/01/01/00/00/00/111".to_vec()));
    assert!(store.contains(&b"2024/01/01/00/00/00/222".to_vec()));
}

#[test]
fn enumeration_twice_never_doubles_an_identifier() {
    let mut store = DedupStore::new();
    let mut matched: Vec<Vec<u8>> = Vec::new();
    let srcs = vec![
        url("https://host/img/2024/01/01/00/00/00/111_p0.png"),
        url("https://host/img/2024/01/01/00/00/00/222_p0.png"),
    ];
    collect_new_ids(&mut store, &mut matched, &srcs);
    assert_eq!(matched.len(), 2);
    assert_eq!(store.len(), 2);
    collect_new_ids(&mut store, &mut matched, &srcs);
    assert_eq!(matched.len(), 2);
    assert_eq!(store.len(), 2);
}

#[test]
fn enumeration_skips_profile_images() {
    let mut store = DedupStore::new();
    let mut matched: Vec<Vec<u8>> = Vec::new();
    let srcs = vec![url("https://host/user-profile/img/2024/01/01/00/00/00/111_p0.png")];
    collect_new_ids(&mut store, &mut matched, &srcs);
    assert!(matched.is_empty());
    assert_eq!(store.len(), 0);
}

#[test]
fn enumeration_skips_duplicates_within_one_page() {
    let mut store = DedupStore::new();
    let mut matched: Vec<Vec<u8>> = Vec::new();
    let srcs = vec![
        url("https://host/img/2024/01/01/00/00/00/111_p0.png"),
        url("https://host/small/img/2024/01/01/00/00/00/111_p0.jpg"),
    ];
    collect_new_ids(&mut store, &mut matched, &srcs);
    assert_eq!(matched, vec![b"2024/01/01/00/00/00/111".to_vec()]);
    assert_eq!(store.len(), 1);
}

#[test]
fn enumeration_respects_preloaded_store() {
    let mut store = DedupStore::new();
    store.insert(b"2024/01/01/00/00/00/111".to_vec());
    let mut matched: Vec<Vec<u8>> = Vec::new();
    let srcs = vec![url("https://host/img/2024/01/01/00/00/00/111_p0.png")];
    collect_new_ids(&mut store, &mut matched, &srcs);
    assert!(matched.is_empty());
    assert_eq!(store.len(), 1);
}
