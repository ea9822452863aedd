//! Aggregation of a whole resolution batch into counters and lists.
//!
//! Many resolver tasks run concurrently and complete in arbitrary order;
//! their results are merged one at a time into a single report — a
//! success counter per candidate format plus the list of identifiers no
//! candidate matched. The per-result update functions say exactly which
//! counter moves, so merging can never lose an increment, and
//! `resolve_batch` gives the whole batch's outcome as one function of
//! the probe outcomes.
use crate::bytes::clone_bytes;
use crate::resolve::CandidateFormat;
use crate::resolve::ProbeOutcome;
use crate::resolve::ResolvedAsset;
use crate::resolve::candidate_url_spec;
use crate::resolve::first_match_from;
use crate::resolve::resolve;
use vstd::prelude::*;

verus! {

/// The merged outcome of a resolution batch.
pub struct OutcomeReport {
    /// How many identifiers resolved to each candidate format.
    pub format_counts: Vec<usize>,
    /// The identifiers no candidate matched, in merge order.
    pub unmatched: Vec<Vec<u8>>,
}

impl OutcomeReport {
    /// A fresh report for a candidate list of `n_formats` entries.
    pub fn new(n_formats: usize) -> (r: OutcomeReport)
        ensures
            r.format_counts@.len() == n_formats,
            forall|k: int| 0 <= k < n_formats ==> r.format_counts@[k] == 0,
            r.unmatched@.len() == 0,
    {
        let mut counts: Vec<usize> = Vec::new();
        let mut i: usize = 0;
        while i < n_formats
            invariant
                i <= n_formats,
                counts@.len() == i,
                forall|k: int| 0 <= k < i ==> counts@[k] == 0,
            decreases n_formats - i,
        {
            counts.push(0);
            i = i + 1;
        }
        OutcomeReport { format_counts: counts, unmatched: Vec::new() }
    }

    /// Merges one resolved identifier: exactly the matched format's
    /// counter advances, by exactly one.
    pub fn record_match(&mut self, k: usize)
        requires
            k < old(self).format_counts@.len(),
            old(self).format_counts@[k as int] < usize::MAX,
        ensures
            final(self).format_counts@ == old(self).format_counts@.update(
                k as int,
                (old(self).format_counts@[k as int] + 1) as usize,
            ),
            final(self).unmatched == old(self).unmatched,
    {
        let c = self.format_counts[k];
        self.format_counts.set(k, c + 1);
    }

    /// Merges one unresolved identifier: it is appended to the unmatched
    /// list and no counter moves.
    pub fn record_unmatched(&mut self, id: Vec<u8>)
        ensures
            final(self).format_counts == old(self).format_counts,
            final(self).unmatched@ == old(self).unmatched@.push(id),
    {
        self.unmatched.push(id);
    }
}

/// How many of the first `n` identifiers resolve to candidate `k`.
pub open spec fn match_count_upto(
    formats: Seq<CandidateFormat>,
    probess: Seq<Seq<ProbeOutcome>>,
    k: int,
    n: int,
) -> nat
    decreases n,
{
    if n <= 0 {
        0
    } else {
        match_count_upto(formats, probess, k, n - 1) + if first_match_from(
            formats,
            probess[n - 1],
            0,
        ) == k {
            1nat
        } else {
            0nat
        }
    }
}

/// The first `n` identifiers that no candidate matched, in batch order.
pub open spec fn unresolved_upto(
    ids: Seq<Seq<u8>>,
    formats: Seq<CandidateFormat>,
    probess: Seq<Seq<ProbeOutcome>>,
    n: int,
) -> Seq<Seq<u8>>
    decreases n,
{
    if n <= 0 {
        seq![]
    } else {
        let rest = unresolved_upto(ids, formats, probess, n - 1);
        if first_match_from(formats, probess[n - 1], 0) < 0 {
            rest.push(ids[n - 1])
        } else {
            rest
        }
    }
}

/// The assets of the first `n` identifiers that resolved, in batch
/// order, each as (identifier, URL, matched format).
pub open spec fn resolved_upto(
    base: Seq<u8>,
    ids: Seq<Seq<u8>>,
    formats: Seq<CandidateFormat>,
    probess: Seq<Seq<ProbeOutcome>>,
    n: int,
) -> Seq<(Seq<u8>, Seq<u8>, int)>
    decreases n,
{
    if n <= 0 {
        seq![]
    } else {
        let rest = resolved_upto(base, ids, formats, probess, n - 1);
        let k = first_match_from(formats, probess[n - 1], 0);
        if k >= 0 {
            rest.push(
                (ids[n - 1], candidate_url_spec(base, ids[n - 1], formats[k].extension@), k),
            )
        } else {
            rest
        }
    }
}

/// The abstract value of a resolved asset.
pub open spec fn asset_view(a: ResolvedAsset) -> (Seq<u8>, Seq<u8>, int) {
    (a.identifier@, a.url@, a.format_index as int)
}

/// Resolves a whole batch: one probe-outcome list per identifier, one
/// outcome per candidate in priority order. Returns the resolved assets
/// in batch order together with the merged report: per-format counters
/// and the unmatched identifiers. No identifier is dropped — each either
/// yields an asset or stands in the unmatched list.
pub fn resolve_batch(
    base: &Vec<u8>,
    formats: &Vec<CandidateFormat>,
    ids: &Vec<Vec<u8>>,
    probes: &Vec<Vec<ProbeOutcome>>,
) -> (r: (Vec<ResolvedAsset>, OutcomeReport))
    requires
        probes@.len() == ids@.len(),
        forall|i: int| 0 <= i < probes@.len() ==> (#[trigger] probes@[i])@.len() == formats@.len(),
    ensures
        r.1.format_counts@.len() == formats@.len(),
        forall|k: int|
            0 <= k < formats@.len() ==> r.1.format_counts@[k] == match_count_upto(
                formats@,
                probes@.map_values(|v: Vec<ProbeOutcome>| v@),
                k,
                ids@.len() as int,
            ),
        r.1.unmatched@.map_values(|v: Vec<u8>| v@) == unresolved_upto(
            ids@.map_values(|v: Vec<u8>| v@),
            formats@,
            probes@.map_values(|v: Vec<ProbeOutcome>| v@),
            ids@.len() as int,
        ),
        r.0@.map_values(|a: ResolvedAsset| asset_view(a)) == resolved_upto(
            base@,
            ids@.map_values(|v: Vec<u8>| v@),
            formats@,
            probes@.map_values(|v: Vec<ProbeOutcome>| v@),
            ids@.len() as int,
        ),
{
    let ghost iv = ids@.map_values(|v: Vec<u8>| v@);
    let ghost pv = probes@.map_values(|v: Vec<ProbeOutcome>| v@);
    let n = ids.len();
    let mut report = OutcomeReport::new(formats.len());
    let mut resolved: Vec<ResolvedAsset> = Vec::new();
    let mut i: usize = 0;
    while i < n
        invariant
            n == ids@.len(),
            n == probes@.len(),
            iv == ids@.map_values(|v: Vec<u8>| v@),
            pv == probes@.map_values(|v: Vec<ProbeOutcome>| v@),
            forall|t: int| 0 <= t < n ==> (#[trigger] probes@[t])@.len() == formats@.len(),
            i <= n,
            report.format_counts@.len() == formats@.len(),
            forall|k: int| 0 <= k < formats@.len() ==> #[trigger] report.format_counts@[k] <= i,
            forall|k: int|
                0 <= k < formats@.len() ==> #[trigger] report.format_counts@[k]
                    == match_count_upto(formats@, pv, k, i as int),
            report.unmatched@.map_values(|v: Vec<u8>| v@) == unresolved_upto(
                iv,
                formats@,
                pv,
                i as int,
            ),
            resolved@.map_values(|a: ResolvedAsset| asset_view(a)) == resolved_upto(
                base@,
                iv,
                formats@,
                pv,
                i as int,
            ),
        decreases n - i,
    {
        let ghost pre_counts = report.format_counts@;
        let ghost pre_unmatched = report.unmatched@.map_values(|v: Vec<u8>| v@);
        let ghost pre_resolved = resolved@.map_values(|a: ResolvedAsset| asset_view(a));
        proof {
            assert(pv[i as int] == probes@[i as int]@);
            assert(iv[i as int] == ids@[i as int]@);
        }
        match resolve(base, &ids[i], formats, &probes[i]) {
            Option::Some(a) => {
                let k = a.format_index;
                assert(first_match_from(formats@, pv[i as int], 0) == k);
                report.record_match(k);
                resolved.push(a);
                proof {
                    assert(resolved@.map_values(|x: ResolvedAsset| asset_view(x))
                        =~= pre_resolved.push(asset_view(a)));
                    assert forall|k2: int| 0 <= k2 < formats@.len() implies #[trigger] report
                        .format_counts@[k2] == match_count_upto(formats@, pv, k2, i + 1) by {
                        if k2 == k {
                            assert(report.format_counts@[k2] == pre_counts[k2] + 1);
                        } else {
                            assert(report.format_counts@[k2] == pre_counts[k2]);
                        }
                    }
                }
            },
            Option::None => {
                assert(first_match_from(formats@, pv[i as int], 0) == -1);
                let id = clone_bytes(&ids[i]);
                report.record_unmatched(id);
                proof {
                    assert(report.unmatched@.map_values(|v: Vec<u8>| v@) =~= pre_unmatched.push(
                        iv[i as int],
                    ));
                    assert(forall|k2: int|
                        0 <= k2 < formats@.len() ==> #[trigger] report.format_counts@[k2]
                            == match_count_upto(formats@, pv, k2, i + 1));
                }
            },
        }
        i = i + 1;
    }
    (resolved, report)
}

/// `x` is one of the first `n` identifiers and no candidate matched it.
pub open spec fn is_unmatched_of(
    ids: Seq<Seq<u8>>,
    formats: Seq<CandidateFormat>,
    probess: Seq<Seq<ProbeOutcome>>,
    n: int,
    x: Seq<u8>,
) -> bool {
    exists|j: int|
        0 <= j < n && #[trigger] ids[j] == x && first_match_from(formats, probess[j], 0) < 0
}

/// `x` is one of the first `n` identifiers and some candidate matched it.
pub open spec fn is_matched_of(
    ids: Seq<Seq<u8>>,
    formats: Seq<CandidateFormat>,
    probess: Seq<Seq<ProbeOutcome>>,
    n: int,
    x: Seq<u8>,
) -> bool {
    exists|j: int|
        0 <= j < n && #[trigger] ids[j] == x && first_match_from(formats, probess[j], 0) >= 0
}

/// Shape of a batch's lists for any prefix: every unmatched entry is an
/// unresolved prefix identifier, every unresolved prefix identifier is an
/// unmatched entry, the unmatched entries are pairwise distinct when the
/// identifiers are, and every resolved entry carries a prefix identifier
/// whose probes matched.
proof fn lemma_batch_shape(
    base: Seq<u8>,
    ids: Seq<Seq<u8>>,
    formats: Seq<CandidateFormat>,
    probess: Seq<Seq<ProbeOutcome>>,
    n: int,
)
    requires
        probess.len() == ids.len(),
        forall|a: int, b: int| 0 <= a < b < ids.len() ==> ids[a] != ids[b],
        0 <= n <= ids.len(),
    ensures
        forall|m: int|
            0 <= m < unresolved_upto(ids, formats, probess, n).len() ==> is_unmatched_of(
                ids,
                formats,
                probess,
                n,
                #[trigger] unresolved_upto(ids, formats, probess, n)[m],
            ),
        forall|j: int|
            0 <= j < n && first_match_from(formats, #[trigger] probess[j], 0) < 0
                ==> unresolved_upto(ids, formats, probess, n).contains(ids[j]),
        forall|a: int, b: int|
            0 <= a < b < unresolved_upto(ids, formats, probess, n).len()
                ==> unresolved_upto(ids, formats, probess, n)[a] != unresolved_upto(
                ids,
                formats,
                probess,
                n,
            )[b],
        forall|m: int|
            0 <= m < resolved_upto(base, ids, formats, probess, n).len() ==> is_matched_of(
                ids,
                formats,
                probess,
                n,
                (#[trigger] resolved_upto(base, ids, formats, probess, n)[m]).0,
            ),
    decreases n,
{
    if n > 0 {
        lemma_batch_shape(base, ids, formats, probess, n - 1);
        let u0 = unresolved_upto(ids, formats, probess, n - 1);
        let r0 = resolved_upto(base, ids, formats, probess, n - 1);
        let u = unresolved_upto(ids, formats, probess, n);
        let r = resolved_upto(base, ids, formats, probess, n);
        assert forall|m: int| 0 <= m < u.len() implies is_unmatched_of(
            ids,
            formats,
            probess,
            n,
            #[trigger] u[m],
        ) by {
            if m < u0.len() {
                assert(u[m] == u0[m]);
                assert(is_unmatched_of(ids, formats, probess, n - 1, u0[m]));
                let j = choose|j: int|
                    0 <= j < n - 1 && #[trigger] ids[j] == u0[m] && first_match_from(
                        formats,
                        probess[j],
                        0,
                    ) < 0;
                assert(0 <= j < n && ids[j] == u[m] && first_match_from(formats, probess[j], 0)
                    < 0);
            } else {
                assert(first_match_from(formats, probess[n - 1], 0) < 0);
                assert(u == u0.push(ids[n - 1]));
                assert(u[m] == ids[n - 1]);
                assert(0 <= n - 1 < n && ids[n - 1] == u[m] && first_match_from(
                    formats,
                    probess[n - 1],
                    0,
                ) < 0);
            }
        }
        assert forall|j: int|
            0 <= j < n && first_match_from(formats, #[trigger] probess[j], 0) < 0 implies u
            .contains(ids[j]) by {
            if j == n - 1 {
                assert(u == u0.push(ids[n - 1]));
                assert(u[u.len() - 1] == ids[j]);
            } else {
                assert(u0.contains(ids[j]));
                let m = choose|m: int| 0 <= m < u0.len() && u0[m] == ids[j];
                assert(u[m] == ids[j]);
            }
        }
        assert forall|a: int, b: int| 0 <= a < b < u.len() implies u[a] != u[b] by {
            assert(u[a] == u0[a]);
            if b < u0.len() {
                assert(u[b] == u0[b]);
                assert(u0[a] != u0[b]);
            } else {
                assert(first_match_from(formats, probess[n - 1], 0) < 0);
                assert(u == u0.push(ids[n - 1]));
                assert(u[b] == ids[n - 1]);
                assert(is_unmatched_of(ids, formats, probess, n - 1, u0[a]));
                let j = choose|j: int|
                    0 <= j < n - 1 && #[trigger] ids[j] == u0[a] && first_match_from(
                        formats,
                        probess[j],
                        0,
                    ) < 0;
                assert(ids[j] != ids[n - 1]);
            }
        }
        assert forall|m: int| 0 <= m < r.len() implies is_matched_of(
            ids,
            formats,
            probess,
            n,
            (#[trigger] r[m]).0,
        ) by {
            if m < r0.len() {
                assert(r[m] == r0[m]);
                assert(is_matched_of(ids, formats, probess, n - 1, r0[m].0));
                let j = choose|j: int|
                    0 <= j < n - 1 && #[trigger] ids[j] == r0[m].0 && first_match_from(
                        formats,
                        probess[j],
                        0,
                    ) >= 0;
                assert(0 <= j < n && ids[j] == r[m].0 && first_match_from(formats, probess[j], 0)
                    >= 0);
            } else {
                assert(first_match_from(formats, probess[n - 1], 0) >= 0);
                assert(r[m].0 == ids[n - 1]);
                assert(0 <= n - 1 < n && ids[n - 1] == r[m].0 && first_match_from(
                    formats,
                    probess[n - 1],
                    0,
                ) >= 0);
            }
        }
    }
}

/// Unresolvable identifier handling: in a batch of distinct identifiers,
/// one that no candidate probe matched is excluded from the resolved
/// assets — so from the retrieval phase — and stands in the unmatched
/// report exactly once.
pub proof fn lemma_unmatched_exactly_once(
    base: Seq<u8>,
    ids: Seq<Seq<u8>>,
    formats: Seq<CandidateFormat>,
    probess: Seq<Seq<ProbeOutcome>>,
    i: int,
)
    requires
        probess.len() == ids.len(),
        forall|a: int, b: int| 0 <= a < b < ids.len() ==> ids[a] != ids[b],
        0 <= i < ids.len(),
        first_match_from(formats, probess[i], 0) < 0,
    ensures
        unresolved_upto(ids, formats, probess, ids.len() as int).contains(ids[i]),
        forall|a: int, b: int|
            0 <= a < b < unresolved_upto(ids, formats, probess, ids.len() as int).len()
                ==> unresolved_upto(ids, formats, probess, ids.len() as int)[a]
                != unresolved_upto(ids, formats, probess, ids.len() as int)[b],
        forall|m: int|
            0 <= m < resolved_upto(base, ids, formats, probess, ids.len() as int).len()
                ==> (#[trigger] resolved_upto(base, ids, formats, probess, ids.len() as int)[m]).0
                != ids[i],
{
    let n = ids.len() as int;
    lemma_batch_shape(base, ids, formats, probess, n);
    let u = unresolved_upto(ids, formats, probess, n);
    let r = resolved_upto(base, ids, formats, probess, n);
    assert(u.contains(ids[i]));
    assert forall|m: int| 0 <= m < r.len() implies (#[trigger] r[m]).0 != ids[i] by {
        assert(is_matched_of(ids, formats, probess, n, r[m].0));
        let j = choose|j: int|
            0 <= j < n && #[trigger] ids[j] == r[m].0 && first_match_from(formats, probess[j], 0)
                >= 0;
        if r[m].0 == ids[i] {
            if j < i {
                assert(ids[j] != ids[i]);
            } else if j > i {
                assert(ids[i] != ids[j]);
            }
        }
    }
}

} // verus!
