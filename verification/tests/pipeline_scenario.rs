use pixfetch::DedupStore;
use pixfetch::ProbeOutcome;
use pixfetch::collect_new_ids;
use pixfetch::default_formats;
use pixfetch::plan_downloads;
use pixfetch::resolve_batch;
use pixfetch::summarize_batch;

// The whole pipeline on one small batch: two identifiers, a PNG existing
// upstream for the first and only a JPEG for the second. Both resolve to
// their format's URL, the counters read one each, nothing is unmatched,
// the two download tasks get distinct sequential names, and progress
// reports two of two.
#[test]
fn two_identifier_batch_end_to_end() {
    let mut store = DedupStore::new();
    let mut ids: Vec<Vec<u8>> = Vec::new();
    let srcs = vec![
        Some(b"https://host/c/img/2024/01/01/00/00/00/111_p0_sq.jpg".to_vec()),
        Some(b"https://host/c/img/2024/01/01/00/00/00/222_p0_sq.jpg".to_vec()),
    ];
    collect_new_ids(&mut store, &mut ids, &srcs);
    assert_eq!(
        ids,
        vec![b"2024/01/01/00/00/00/111".to_vec(), b"2024/01/01/00/00/00/222".to_vec()]
    );

    let formats = default_formats();
    let base = b"https://i.pximg.net/img-original/img/".to_vec();
    let probes = vec![
        vec![
            ProbeOutcome::Response { content_type: Some(b"image/png".to_vec()) },
            ProbeOutcome::Failed,
        ],
        vec![
            ProbeOutcome::Response { content_type: Some(b"text/html".to_vec()) },
            ProbeOutcome::Response { content_type: Some(b"image/jpeg".to_vec()) },
        ],
    ];
    let (resolved, report) = resolve_batch(&base, &formats, &ids, &probes);
    assert_eq!(resolved.len(), 2);
    assert_eq!(
        resolved[0].url,
        b"https://i.pximg.net/img-original/img/2024/01/01/00/00/00/111_p0.png".to_vec()
    );
    assert_eq!(
        resolved[1].url,
        b"https://i.pximg.net/img-original/img/2024/01/01/00/00/00/222_p0.jpg".to_vec()
    );
    assert_eq!(report.format_counts, vec![1, 1]);
    assert!(report.unmatched.is_empty());

    let urls: Vec<Vec<u8>> = resolved.iter().map(|a| a.url.clone()).collect();
    let tasks = plan_downloads(&b"E:/gallery/today".to_vec(), &urls);
    assert_eq!(tasks.len(), 2);
    assert_eq!(tasks[0].path, b"E:/gallery/today/image0.png".to_vec());
    assert_eq!(tasks[1].path, b"E:/gallery/today/image1.png".to_vec());
    assert_ne!(tasks[0].path, tasks[1].path);

    let progress = summarize_batch(&vec![true, true]);
    assert_eq!(progress.done(), 2);
    assert_eq!(progress.total(), 2);
    assert_eq!(progress.failed(), 0);
    assert!(progress.is_complete());

    let data = store.serialize();
    let reloaded = DedupStore::parse(&data);
    assert_eq!(reloaded.len(), 2);
    assert!(reloaded.contains(&ids[0]));
    assert!(reloaded.contains(&ids[1]));
}
