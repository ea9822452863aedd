use pixfetch::CandidateFormat;
use pixfetch::ProbeOutcome;
use pixfetch::candidate_url;
use pixfetch::check_probe;
use pixfetch::default_formats;
use pixfetch::resolve;
use pixfetch::resolve_batch;
use pixfetch::select_format;

fn response(ct: &str) -> ProbeOutcome {
    ProbeOutcome::Response { content_type: Some(ct.as_bytes().to_vec()) }
}

fn no_content_type() -> ProbeOutcome {
    ProbeOutcome::Response { content_type: None }
}

#[test]
fn default_formats_prefer_png() {
    let formats = default_formats();
    assert_eq!(formats.len(), 2);
    assert_eq!(formats[0].extension, b"png".to_vec());
    assert_eq!(formats[0].content_type_prefix, b"image/png".to_vec());
    assert_eq!(formats[1].extension, b"jpg".to_vec());
    assert_eq!(formats[1].content_type_prefix, b"image/jpeg".to_vec());
}

#[test]
fn candidate_url_follows_template() {
    let url = candidate_url(
        &b"https://i.pximg.net/img-original/img/".to_vec(),
        &b"2024/01/01/00/00/00/111".to_vec(),
        &b"png".to_vec(),
    );
    assert_eq!(
        url,
        b"https://i.pximg.net/img-original/img/2024/01/01/00/00/00/111_p0.png".to_vec()
    );
}

#[test]
fn probe_matches_on_content_type_prefix() {
    let formats = default_formats();
    assert!(check_probe(&formats[0], &response("image/png")));
    assert!(check_probe(&formats[0], &response("image/png; charset=binary")));
    assert!(!check_probe(&formats[0], &response("image/jpeg")));
    assert!(!check_probe(&formats[0], &response("image/pn")));
    assert!(!check_probe(&formats[0], &no_content_type()));
    assert!(!check_probe(&formats[0], &ProbeOutcome::Failed));
}

#[test]
fn tie_break_always_picks_higher_priority_format() {
    let formats = default_formats();
    // Both candidates would succeed: the PNG (priority 0) must win.
    let probes = vec![response("image/png"), response("image/jpeg")];
    assert_eq!(select_format(&formats, &probes), Some(0));
}

#[test]
fn lower_priority_format_wins_only_alone() {
    let formats = default_formats();
    let probes = vec![ProbeOutcome::Failed, response("image/jpeg")];
    assert_eq!(select_format(&formats, &probes), Some(1));
}

#[test]
fn no_match_resolves_to_nothing() {
    let formats = default_formats();
    let probes = vec![response("text/html"), no_content_type()];
    assert_eq!(select_format(&formats, &probes), None);
    let r = resolve(
        &b"https://host/".to_vec(),
        &b"2024/01/01/00/00/00/111".to_vec(),
        &formats,
        &probes,
    );
    assert!(r.is_none());
}

#[test]
fn resolve_builds_the_matched_candidate_url() {
    let formats = default_formats();
    let probes = vec![ProbeOutcome::Failed, response("image/jpeg")];
    let r = resolve(
        &b"https://i.pximg.net/img-original/img/".to_vec(),
        &b"2024/01/01/00/00/00/222".to_vec(),
        &formats,
        &probes,
    )
    .unwrap();
    assert_eq!(r.identifier, b"2024/01/01/00/00/00/222".to_vec());
    assert_eq!(r.format_index, 1);
    assert_eq!(
        r.url,
        b"https://i.pximg.net/img-original/img/2024/01/01/00/00/00/222_p0.jpg".to_vec()
    );
}

#[test]
fn batch_scenario_png_and_jpg() {
    // Upstream has a PNG for the first identifier and only a JPEG for the
    // second: both resolve, one per format, nothing unmatched.
    let formats = default_formats();
    let base = b"https://i.pximg.net/img-original/img/".to_vec();
    let ids = vec![b"2024/01/01/00/00/00/111".to_vec(), b"2024/01/01/00/00/00/222".to_vec()];
    let probes = vec![
        vec![response("image/png"), ProbeOutcome::Failed],
        vec![response("text/html"), response("image/jpeg")],
    ];
    let (resolved, report) = resolve_batch(&base, &formats, &ids, &probes);
    assert_eq!(resolved.len(), 2);
    assert_eq!(
        resolved[0].url,
        b"https://i.pximg.net/img-original/img/2024/01/01/00/00/00/111_p0.png".to_vec()
    );
    assert_eq!(
        resolved[1].url,
        b"https://i.pximg.net/img-original/img/2024/01/01/00/00/00/222_p0.jpg".to_vec()
    );
    assert_eq!(report.format_counts, vec![1, 1]);
    assert!(report.unmatched.is_empty());
}

#[test]
fn unresolvable_identifier_reported_exactly_once() {
    let formats = default_formats();
    let base = b"https://host/".to_vec();
    let ids = vec![
        b"2024/01/01/00/00/00/111".to_vec(),
        b"2024/01/01/00/00/00/222".to_vec(),
        b"2024/01/01/00/00/00/333".to_vec(),
    ];
    let probes = vec![
        vec![response("image/png"), ProbeOutcome::Failed],
        vec![ProbeOutcome::Failed, ProbeOutcome::Failed],
        vec![ProbeOutcome::Failed, response("image/jpeg")],
    ];
    let (resolved, report) = resolve_batch(&base, &formats, &ids, &probes);
    assert_eq!(resolved.len(), 2);
    let wanted = b"2024/01/01/00/00/00/222".to_vec();
    let occurrences = report.unmatched.iter().filter(|u| **u == wanted).count();
    assert_eq!(occurrences, 1);
    assert!(resolved.iter().all(|a| a.identifier != wanted));
    assert_eq!(report.format_counts, vec![1, 1]);
}

#[test]
fn probe_failures_count_as_misses() {
    let formats = default_formats();
    let base = b"https://host/".to_vec();
    let ids = vec![b"2024/01/01/00/00/00/444".to_vec()];
    let probes = vec![vec![ProbeOutcome::Failed, ProbeOutcome::Failed]];
    let (resolved, report) = resolve_batch(&base, &formats, &ids, &probes);
    assert!(resolved.is_empty());
    assert_eq!(report.unmatched, vec![b"2024/01/01/00/00/00/444".to_vec()]);
    assert_eq!(report.format_counts, vec![0, 0]);
}
