//! Resolution of an identifier to the one existing upstream variant.
//!
//! Each identifier may exist upstream in one of several candidate
//! formats, tried in a fixed priority order (lossless first). For each
//! candidate the caller issues a lightweight existence probe against the
//! candidate's URL and hands the outcome back; a candidate matches when
//! the probe answered and declared a content type beginning with the
//! candidate's expected prefix. The first matching candidate wins, and
//! an identifier with no matching candidate is unresolved. A failed or
//! malformed probe counts the same as a candidate that does not exist.
use crate::bytes::push_bytes;
use crate::bytes::starts_with;
use crate::bytes::starts_with_bytes;
use crate::bytes::subvec;
use vstd::prelude::*;

verus! {

/// One candidate upstream variant: a file extension and the content-type
/// prefix a probe must declare for it.
pub struct CandidateFormat {
    /// The extension appended to the probe URL.
    pub extension: Vec<u8>,
    /// The declared content type must begin with this.
    pub content_type_prefix: Vec<u8>,
}

/// What one existence probe came back with: a response carrying the
/// declared content type, if any, or no response at all (network error,
/// timeout).
pub enum ProbeOutcome {
    /// The probe answered; the declared content type, if one was sent.
    Response { content_type: Option<Vec<u8>> },
    /// The probe failed outright.
    Failed,
}

/// An identifier resolved to its concrete upstream location.
pub struct ResolvedAsset {
    /// The identifier that was resolved.
    pub identifier: Vec<u8>,
    /// The URL of the variant that exists upstream.
    pub url: Vec<u8>,
    /// Which candidate format matched, as an index into the candidate list.
    pub format_index: usize,
}

/// The probe for this candidate succeeded: it answered with a content
/// type that begins with the candidate's expected prefix.
pub open spec fn probe_matches(format: CandidateFormat, probe: ProbeOutcome) -> bool {
    match probe {
        ProbeOutcome::Response { content_type } => match content_type {
            Option::Some(ct) => starts_with(ct@, format.content_type_prefix@),
            Option::None => false,
        },
        ProbeOutcome::Failed => false,
    }
}

/// The first candidate at or after `k` whose probe matches, or -1.
pub open spec fn first_match_from(
    formats: Seq<CandidateFormat>,
    probes: Seq<ProbeOutcome>,
    k: int,
) -> int
    decreases formats.len() - k,
{
    if !(0 <= k < formats.len() && k < probes.len()) {
        -1
    } else if probe_matches(formats[k], probes[k]) {
        k
    } else {
        first_match_from(formats, probes, k + 1)
    }
}

/// What `first_match_from` returns is a matching candidate with no
/// earlier match; a negative result means no candidate matched.
pub proof fn lemma_first_match_props(
    formats: Seq<CandidateFormat>,
    probes: Seq<ProbeOutcome>,
    k: int,
)
    requires
        probes.len() == formats.len(),
        0 <= k,
    ensures
        first_match_from(formats, probes, k) >= 0 ==> k <= first_match_from(formats, probes, k)
            < formats.len() && probe_matches(
            formats[first_match_from(formats, probes, k)],
            probes[first_match_from(formats, probes, k)],
        ) && (forall|m: int|
            k <= m < first_match_from(formats, probes, k) ==> !probe_matches(
                formats[m],
                probes[m],
            )),
        first_match_from(formats, probes, k) < 0 ==> forall|m: int|
            k <= m < formats.len() ==> !probe_matches(formats[m], probes[m]),
    decreases formats.len() - k,
{
    if k < formats.len() && !probe_matches(formats[k], probes[k]) {
        lemma_first_match_props(formats, probes, k + 1);
    }
}

/// Tie-break determinism: whenever the probe for a candidate matches,
/// what is resolved is that candidate or one of strictly higher
/// priority — a lower-priority candidate is never picked, however its
/// own probe answered.
pub proof fn lemma_format_tie_break(
    formats: Seq<CandidateFormat>,
    probes: Seq<ProbeOutcome>,
    j: int,
)
    requires
        probes.len() == formats.len(),
        0 <= j < formats.len(),
        probe_matches(formats[j], probes[j]),
    ensures
        0 <= first_match_from(formats, probes, 0) <= j,
{
    lemma_first_match_props(formats, probes, 0);
    if first_match_from(formats, probes, 0) < 0 {
        assert(!probe_matches(formats[j], probes[j]));
    } else if first_match_from(formats, probes, 0) > j {
        assert(!probe_matches(formats[j], probes[j]));
    }
}

/// Whether this candidate's probe succeeded.
pub fn check_probe(format: &CandidateFormat, probe: &ProbeOutcome) -> (r: bool)
    ensures
        r == probe_matches(*format, *probe),
{
    match probe {
        ProbeOutcome::Response { content_type } => match content_type {
            Option::Some(ct) => starts_with_bytes(ct, &format.content_type_prefix),
            Option::None => false,
        },
        ProbeOutcome::Failed => false,
    }
}

/// The probe-URL suffix between identifier and extension (the ASCII of
/// `_p0.`).
pub open spec fn page_suffix() -> Seq<u8> {
    seq![95u8, 112u8, 48u8, 46u8]
}

/// The URL probed for one candidate: base path, identifier, page suffix,
/// extension.
pub open spec fn candidate_url_spec(base: Seq<u8>, id: Seq<u8>, ext: Seq<u8>) -> Seq<u8> {
    base + id + page_suffix() + ext
}

/// Builds the probe URL for one candidate format.
pub fn candidate_url(base: &Vec<u8>, id: &Vec<u8>, ext: &Vec<u8>) -> (r: Vec<u8>)
    ensures
        r@ == candidate_url_spec(base@, id@, ext@),
{
    let mut r = subvec(base, 0, base.len());
    proof {
        assert(base@.subrange(0, base@.len() as int) =~= base@);
    }
    push_bytes(&mut r, id);
    r.push(95u8);
    r.push(112u8);
    r.push(48u8);
    r.push(46u8);
    push_bytes(&mut r, ext);
    proof {
        assert(r@ =~= candidate_url_spec(base@, id@, ext@));
    }
    r
}

/// Picks the winning candidate from the probe outcomes: the first, in
/// priority order, whose probe matched, or none when no probe did.
pub fn select_format(formats: &Vec<CandidateFormat>, probes: &Vec<ProbeOutcome>) -> (r: Option<
    usize,
>)
    requires
        probes@.len() == formats@.len(),
    ensures
        match r {
            Option::Some(k) => first_match_from(formats@, probes@, 0) == k,
            Option::None => first_match_from(formats@, probes@, 0) == -1,
        },
{
    let n = formats.len();
    let mut k: usize = 0;
    while k < n
        invariant
            n == formats@.len(),
            n == probes@.len(),
            k <= n,
            first_match_from(formats@, probes@, 0) == first_match_from(formats@, probes@, k as int),
        decreases n - k,
    {
        if check_probe(&formats[k], &probes[k]) {
            assert(first_match_from(formats@, probes@, k as int) == k);
            return Some(k);
        }
        assert(first_match_from(formats@, probes@, k as int) == first_match_from(
            formats@,
            probes@,
            k + 1 as int,
        ));
        k = k + 1;
    }
    assert(first_match_from(formats@, probes@, k as int) == -1);
    None
}

/// Resolves one identifier from the outcomes of its candidate probes,
/// one outcome per candidate in priority order: the asset of the first
/// matching candidate, with that candidate's URL, or nothing when no
/// candidate matched.
pub fn resolve(
    base: &Vec<u8>,
    identifier: &Vec<u8>,
    formats: &Vec<CandidateFormat>,
    probes: &Vec<ProbeOutcome>,
) -> (r: Option<ResolvedAsset>)
    requires
        probes@.len() == formats@.len(),
    ensures
        match r {
            Option::Some(a) => {
                let k = first_match_from(formats@, probes@, 0);
                &&& 0 <= k < formats@.len()
                &&& a.format_index == k
                &&& a.identifier@ == identifier@
                &&& a.url@ == candidate_url_spec(base@, identifier@, formats@[k].extension@)
            },
            Option::None => first_match_from(formats@, probes@, 0) == -1,
        },
{
    proof {
        lemma_first_match_props(formats@, probes@, 0);
    }
    match select_format(formats, probes) {
        Option::Some(k) => {
            let url = candidate_url(base, identifier, &formats[k].extension);
            let id = subvec(identifier, 0, identifier.len());
            proof {
                assert(identifier@.subrange(0, identifier@.len() as int) =~= identifier@);
            }
            Some(ResolvedAsset { identifier: id, url, format_index: k })
        },
        Option::None => None,
    }
}

/// The candidate list the pipeline uses: PNG (content type `image/png`)
/// first as the lossless preference, JPEG (content type `image/jpeg`,
/// extension `jpg`) second.
pub fn default_formats() -> (r: Vec<CandidateFormat>)
    ensures
        r@.len() == 2,
        r@[0].extension@ == png_extension(),
        r@[0].content_type_prefix@ == png_content_type(),
        r@[1].extension@ == jpg_extension(),
        r@[1].content_type_prefix@ == jpg_content_type(),
{
    let png = CandidateFormat {
        extension: vec![112u8, 110u8, 103u8],
        content_type_prefix: vec![105u8, 109u8, 97u8, 103u8, 101u8, 47u8, 112u8, 110u8, 103u8],
    };
    let jpg = CandidateFormat {
        extension: vec![106u8, 112u8, 103u8],
        content_type_prefix: vec![
            105u8,
            109u8,
            97u8,
            103u8,
            101u8,
            47u8,
            106u8,
            112u8,
            101u8,
            103u8,
        ],
    };
    let mut r: Vec<CandidateFormat> = Vec::new();
    proof {
        assert(png.extension@ =~= png_extension());
        assert(png.content_type_prefix@ =~= png_content_type());
        assert(jpg.extension@ =~= jpg_extension());
        assert(jpg.content_type_prefix@ =~= jpg_content_type());
    }
    r.push(png);
    r.push(jpg);
    r
}

/// The ASCII of `png`.
pub open spec fn png_extension() -> Seq<u8> {
    seq![112u8, 110u8, 103u8]
}

/// The ASCII of `jpg`.
pub open spec fn jpg_extension() -> Seq<u8> {
    seq![106u8, 112u8, 103u8]
}

/// The ASCII of `image/png`.
pub open spec fn png_content_type() -> Seq<u8> {
    seq![105u8, 109u8, 97u8, 103u8, 101u8, 47u8, 112u8, 110u8, 103u8]
}

/// The ASCII of `image/jpeg`.
pub open spec fn jpg_content_type() -> Seq<u8> {
    seq![105u8, 109u8, 97u8, 103u8, 101u8, 47u8, 106u8, 112u8, 101u8, 103u8]
}

} // verus!
