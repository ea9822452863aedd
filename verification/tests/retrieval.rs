use pixfetch::ProgressTracker;
use pixfetch::format_decimal;
use pixfetch::plan_downloads;
use pixfetch::sanitize_title;
use pixfetch::summarize_batch;

#[test]
fn decimal_rendering_is_exact() {
    assert_eq!(format_decimal(0), b"0".to_vec());
    assert_eq!(format_decimal(7), b"7".to_vec());
    assert_eq!(format_decimal(10), b"10".to_vec());
    assert_eq!(format_decimal(12345), b"12345".to_vec());
    assert_eq!(format_decimal(1000000), b"1000000".to_vec());
}

#[test]
fn decimal_rendering_handles_the_largest_value() {
    let rendered = format_decimal(usize::MAX);
    let expected = usize::MAX.to_string().into_bytes();
    assert_eq!(rendered, expected);
}

#[test]
fn planned_tasks_get_distinct_sequential_names() {
    let dir = b"E:/gallery/landscapes".to_vec();
    let urls = vec![
        b"https://host/a_p0.png".to_vec(),
        b"https://host/b_p0.jpg".to_vec(),
    ];
    let tasks = plan_downloads(&dir, &urls);
    assert_eq!(tasks.len(), 2);
    assert_eq!(tasks[0].path, b"E:/gallery/landscapes/image0.png".to_vec());
    assert_eq!(tasks[1].path, b"E:/gallery/landscapes/image1.png".to_vec());
    assert_ne!(tasks[0].path, tasks[1].path);
    assert_eq!(tasks[0].url, urls[0]);
    assert_eq!(tasks[1].url, urls[1]);
}

#[test]
fn plan_of_empty_batch_is_empty() {
    let tasks = plan_downloads(&b"dir".to_vec(), &Vec::new());
    assert!(tasks.is_empty());
}

#[test]
fn sanitize_replaces_forbidden_characters() {
    let title = b"a/b:c*d?e\"f<g>h|i".to_vec();
    assert_eq!(sanitize_title(&title), b"a-b-c-d-e-f-g-h-i".to_vec());
    let clean = b"plain title 01".to_vec();
    assert_eq!(sanitize_title(&clean), clean);
}

#[test]
fn progress_reaches_total_despite_failures() {
    // Three of five retrievals fail: the counter still reaches five.
    let outcomes = vec![true, false, true, false, false];
    let p = summarize_batch(&outcomes);
    assert_eq!(p.total(), 5);
    assert_eq!(p.done(), 5);
    assert_eq!(p.failed(), 3);
    assert!(p.is_complete());
}

#[test]
fn progress_counts_each_completion_once() {
    let mut p = ProgressTracker::new(3);
    assert!(!p.is_complete());
    p.record_completion(true);
    p.record_completion(false);
    assert_eq!(p.done(), 2);
    assert!(!p.is_complete());
    p.record_completion(true);
    assert_eq!(p.done(), 3);
    assert_eq!(p.failed(), 1);
    assert!(p.is_complete());
}

#[test]
fn one_failure_leaves_other_outcomes_untouched() {
    // A single failed retrieval neither blocks completion nor is counted
    // against any other task.
    let all_good = summarize_batch(&vec![true, true, true]);
    let one_bad = summarize_batch(&vec![true, false, true]);
    assert_eq!(all_good.done(), one_bad.done());
    assert_eq!(all_good.total(), one_bad.total());
    assert_eq!(one_bad.failed(), 1);
}

#[test]
fn empty_batch_is_complete_at_once() {
    let p = summarize_batch(&Vec::new());
    assert_eq!(p.total(), 0);
    assert_eq!(p.done(), 0);
    assert!(p.is_complete());
}
