//! Extraction of asset identifiers from page image URLs.
//!
//! An identifier is the date-stamped token that upstream embeds in every
//! asset URL: a slash, four digits, then five further groups of two
//! digits and one final run of digits, all separated by slashes
//! (`/2024/01/01/00/00/00/111`). The extractor finds the leftmost such
//! token in a URL and returns it without its leading slash. Profile
//! images carry a marker substring and are skipped by the enumeration
//! pass.
use crate::bytes::clone_bytes;
use crate::bytes::contains_bytes;
use crate::bytes::contains_pat;
use crate::bytes::subvec;
use crate::dedup::DedupStore;
use crate::dedup::valid_identifier;
use vstd::prelude::*;

verus! {

/// The path separator inside an identifier.
pub const SLASH: u8 = 47;

/// An ASCII decimal digit.
pub open spec fn is_digit(b: u8) -> bool {
    48 <= b && b <= 57
}

/// A date-stamped identifier begins at position `i` of `s`: a slash,
/// four digits, five groups of a slash and two digits, then a slash and
/// at least one digit.
pub open spec fn stamp_at(s: Seq<u8>, i: int) -> bool {
    &&& 0 <= i
    &&& i + 22 <= s.len()
    &&& s[i] == SLASH
    &&& is_digit(s[i + 1])
    &&& is_digit(s[i + 2])
    &&& is_digit(s[i + 3])
    &&& is_digit(s[i + 4])
    &&& s[i + 5] == SLASH
    &&& is_digit(s[i + 6])
    &&& is_digit(s[i + 7])
    &&& s[i + 8] == SLASH
    &&& is_digit(s[i + 9])
    &&& is_digit(s[i + 10])
    &&& s[i + 11] == SLASH
    &&& is_digit(s[i + 12])
    &&& is_digit(s[i + 13])
    &&& s[i + 14] == SLASH
    &&& is_digit(s[i + 15])
    &&& is_digit(s[i + 16])
    &&& s[i + 17] == SLASH
    &&& is_digit(s[i + 18])
    &&& is_digit(s[i + 19])
    &&& s[i + 20] == SLASH
    &&& is_digit(s[i + 21])
}

/// The first position at or after `i` where a stamp begins, or -1.
pub open spec fn first_stamp_from(s: Seq<u8>, i: int) -> int
    decreases s.len() - i,
{
    if !(0 <= i && i + 22 <= s.len()) {
        -1
    } else if stamp_at(s, i) {
        i
    } else {
        first_stamp_from(s, i + 1)
    }
}

/// End of the run of digits that starts at `j`: the first position at or
/// after `j` holding no digit.
pub open spec fn digit_run_end(s: Seq<u8>, j: int) -> int
    decreases s.len() - j,
{
    if !(0 <= j < s.len()) {
        j
    } else if is_digit(s[j]) {
        digit_run_end(s, j + 1)
    } else {
        j
    }
}

/// `s` holds a date-stamped identifier somewhere.
pub open spec fn has_stamp(s: Seq<u8>) -> bool {
    first_stamp_from(s, 0) >= 0
}

/// The identifier captured from `s`: everything of the leftmost stamp
/// after its leading slash, the final digit run taken whole.
pub open spec fn captured_id(s: Seq<u8>) -> Seq<u8> {
    let i = first_stamp_from(s, 0);
    s.subrange(i + 1, digit_run_end(s, i + 21))
}

/// Whether a stamp begins at position `i` of `v`.
fn stamp_check(v: &Vec<u8>, i: usize) -> (r: bool)
    requires
        i <= v@.len(),
    ensures
        r == stamp_at(v@, i as int),
{
    if v.len() - i < 22 {
        return false;
    }
    v[i] == SLASH && is_digit_at(v, i + 1) && is_digit_at(v, i + 2) && is_digit_at(v, i + 3)
        && is_digit_at(v, i + 4) && v[i + 5] == SLASH && is_digit_at(v, i + 6) && is_digit_at(
        v,
        i + 7,
    ) && v[i + 8] == SLASH && is_digit_at(v, i + 9) && is_digit_at(v, i + 10) && v[i + 11] == SLASH
        && is_digit_at(v, i + 12) && is_digit_at(v, i + 13) && v[i + 14] == SLASH && is_digit_at(
        v,
        i + 15,
    ) && is_digit_at(v, i + 16) && v[i + 17] == SLASH && is_digit_at(v, i + 18) && is_digit_at(
        v,
        i + 19,
    ) && v[i + 20] == SLASH && is_digit_at(v, i + 21)
}

/// Whether the byte at `i` is a decimal digit.
fn is_digit_at(v: &Vec<u8>, i: usize) -> (r: bool)
    requires
        i < v@.len(),
    ensures
        r == is_digit(v@[i as int]),
{
    48 <= v[i] && v[i] <= 57
}

/// Finds the leftmost date-stamped identifier in `url`, if any, and
/// returns it without its leading slash; the trailing digit run is taken
/// in full. Every extracted identifier is valid for the dedup store.
pub fn extract_identifier(url: &Vec<u8>) -> (r: Option<Vec<u8>>)
    ensures
        match r {
            Some(v) => has_stamp(url@) && v@ == captured_id(url@) && valid_identifier(v@),
            None => !has_stamp(url@),
        },
{
    let n = url.len();
    let mut i: usize = 0;
    while 22 <= n - i
        invariant
            n == url@.len(),
            i <= n,
            first_stamp_from(url@, 0) == first_stamp_from(url@, i as int),
        decreases n - i,
    {
        if stamp_check(url, i) {
            assert(first_stamp_from(url@, i as int) == i);
            let mut e: usize = i + 21;
            while e < n && is_digit_at(url, e)
                invariant
                    n == url@.len(),
                    i + 21 <= e <= n,
                    digit_run_end(url@, i + 21) == digit_run_end(url@, e as int),
                    forall|j: int| i + 21 <= j < e ==> is_digit(url@[j]),
                decreases n - e,
            {
                e = e + 1;
            }
            assert(digit_run_end(url@, e as int) == e);
            let cap = subvec(url, i + 1, e);
            proof {
                assert(stamp_at(url@, i as int));
                assert forall|j: int| 0 <= j < cap@.len() implies cap@[j] != crate::dedup::NEWLINE by {
                    let p = i + 1 + j;
                    if p < i + 21 {
                        assert(url@[p] == SLASH || is_digit(url@[p]));
                    } else {
                        assert(is_digit(url@[p]));
                    }
                }
            }
            return Some(cap);
        }
        proof {
            assert(first_stamp_from(url@, i as int) == first_stamp_from(url@, i + 1 as int));
        }
        i = i + 1;
    }
    assert(first_stamp_from(url@, i as int) == -1);
    None
}

/// The substring that marks a profile image, which enumeration skips.
pub open spec fn profile_marker() -> Seq<u8> {
    seq![117u8, 115u8, 101u8, 114u8, 45u8, 112u8, 114u8, 111u8, 102u8, 105u8, 108u8, 101u8]
}

/// The marker bytes (the ASCII of `user-profile`).
pub fn profile_marker_bytes() -> (r: Vec<u8>)
    ensures
        r@ == profile_marker(),
{
    let r: Vec<u8> = vec![117u8, 115u8, 101u8, 114u8, 45u8, 112u8, 114u8, 111u8, 102u8, 105u8, 108u8, 101u8];
    proof {
        assert(r@ =~= profile_marker());
    }
    r
}

/// What one page image source contributes to enumeration: its extracted
/// identifier, unless the source is absent, marks a profile image, or
/// holds no stamp.
pub open spec fn page_candidate(src: Option<Seq<u8>>) -> Option<Seq<u8>> {
    match src {
        Option::Some(u) => if contains_pat(u, profile_marker()) {
            Option::None
        } else if has_stamp(u) {
            Option::Some(captured_id(u))
        } else {
            Option::None
        },
        Option::None => Option::None,
    }
}

/// Folds one page of image sources into a seen-set and an output list:
/// each candidate identifier not yet seen is added to both, in source
/// order; everything else leaves them unchanged.
pub open spec fn enumerate_ids(
    seen: Set<Seq<u8>>,
    acc: Seq<Seq<u8>>,
    srcs: Seq<Option<Seq<u8>>>,
) -> (Set<Seq<u8>>, Seq<Seq<u8>>)
    decreases srcs.len(),
{
    if srcs.len() == 0 {
        (seen, acc)
    } else {
        let stepped = match page_candidate(srcs[0]) {
            Option::Some(c) => if seen.contains(c) {
                (seen, acc)
            } else {
                (seen.insert(c), acc.push(c))
            },
            Option::None => (seen, acc),
        };
        enumerate_ids(stepped.0, stepped.1, srcs.drop_first())
    }
}

/// One enumeration pass: every image source whose identifier is new is
/// recorded in the dedup store and appended to `matched`, each exactly
/// once, in source order.
pub fn collect_new_ids(
    store: &mut DedupStore,
    matched: &mut Vec<Vec<u8>>,
    srcs: &Vec<Option<Vec<u8>>>,
)
    requires
        old(store).wf(),
    ensures
        final(store).wf(),
        (final(store).id_set(), final(matched)@.map_values(|v: Vec<u8>| v@)) == enumerate_ids(
            old(store).id_set(),
            old(matched)@.map_values(|v: Vec<u8>| v@),
            srcs@.map_values(|v: Option<Vec<u8>>| option_view(v)),
        ),
{
    let marker = profile_marker_bytes();
    let n = srcs.len();
    let ghost srcs_view = srcs@.map_values(|v: Option<Vec<u8>>| option_view(v));
    proof {
        assert(srcs_view.subrange(0, n as int) =~= srcs_view);
    }
    let mut i: usize = 0;
    while i < n
        invariant
            n == srcs@.len(),
            i <= n,
            marker@ == profile_marker(),
            srcs_view == srcs@.map_values(|v: Option<Vec<u8>>| option_view(v)),
            store.wf(),
            enumerate_ids(
                old(store).id_set(),
                old(matched)@.map_values(|v: Vec<u8>| v@),
                srcs_view,
            ) == enumerate_ids(
                store.id_set(),
                matched@.map_values(|v: Vec<u8>| v@),
                srcs_view.subrange(i as int, n as int),
            ),
        decreases n - i,
    {
        let ghost pre_set = store.id_set();
        let ghost pre_acc = matched@.map_values(|v: Vec<u8>| v@);
        let ghost suffix = srcs_view.subrange(i as int, n as int);
        proof {
            assert(suffix[0] == option_view(srcs@[i as int]));
        }
        match &srcs[i] {
            Option::Some(url) => {
                if !contains_bytes(url, &marker) {
                    match extract_identifier(url) {
                        Option::Some(id) => {
                            assert(page_candidate(suffix[0]) == Option::Some(id@));
                            if !store.contains(&id) {
                                let id2 = clone_bytes(&id);
                                store.insert(id);
                                matched.push(id2);
                                proof {
                                    assert(matched@.map_values(|v: Vec<u8>| v@) =~= pre_acc.push(
                                        id2@,
                                    ));
                                }
                            }
                        },
                        Option::None => {
                            assert(page_candidate(suffix[0]) == Option::None::<Seq<u8>>);
                        },
                    }
                } else {
                    assert(page_candidate(suffix[0]) == Option::None::<Seq<u8>>);
                }
            },
            Option::None => {
                assert(page_candidate(suffix[0]) == Option::None::<Seq<u8>>);
            },
        }
        proof {
            assert(suffix.drop_first() =~= srcs_view.subrange(i + 1 as int, n as int));
            assert(enumerate_ids(pre_set, pre_acc, suffix) == enumerate_ids(
                store.id_set(),
                matched@.map_values(|v: Vec<u8>| v@),
                srcs_view.subrange(i + 1 as int, n as int),
            ));
        }
        i = i + 1;
    }
    proof {
        assert(srcs_view.subrange(n as int, n as int) =~= Seq::<Option<Seq<u8>>>::empty());
    }
}

/// Enumeration never removes anything from the seen-set.
proof fn lemma_enum_monotone(seen: Set<Seq<u8>>, acc: Seq<Seq<u8>>, srcs: Seq<Option<Seq<u8>>>)
    ensures
        seen.subset_of(enumerate_ids(seen, acc, srcs).0),
    decreases srcs.len(),
{
    if srcs.len() > 0 {
        let stepped = match page_candidate(srcs[0]) {
            Option::Some(c) => if seen.contains(c) {
                (seen, acc)
            } else {
                (seen.insert(c), acc.push(c))
            },
            Option::None => (seen, acc),
        };
        lemma_enum_monotone(stepped.0, stepped.1, srcs.drop_first());
    }
}

/// After one enumeration pass, every candidate identifier of the pass is
/// in the seen-set.
proof fn lemma_enum_covers(
    seen: Set<Seq<u8>>,
    acc: Seq<Seq<u8>>,
    srcs: Seq<Option<Seq<u8>>>,
    k: int,
)
    requires
        0 <= k < srcs.len(),
    ensures
        match page_candidate(srcs[k]) {
            Option::Some(c) => enumerate_ids(seen, acc, srcs).0.contains(c),
            Option::None => true,
        },
    decreases srcs.len(),
{
    let stepped = match page_candidate(srcs[0]) {
        Option::Some(c) => if seen.contains(c) {
            (seen, acc)
        } else {
            (seen.insert(c), acc.push(c))
        },
        Option::None => (seen, acc),
    };
    if k == 0 {
        match page_candidate(srcs[0]) {
            Option::Some(c) => {
                assert(stepped.0.contains(c));
                lemma_enum_monotone(stepped.0, stepped.1, srcs.drop_first());
            },
            Option::None => {},
        }
    } else {
        lemma_enum_covers(stepped.0, stepped.1, srcs.drop_first(), k - 1);
        assert(srcs.drop_first()[k - 1] == srcs[k]);
    }
}

/// A pass whose candidates are all already seen changes nothing.
proof fn lemma_enum_stable(seen: Set<Seq<u8>>, acc: Seq<Seq<u8>>, srcs: Seq<Option<Seq<u8>>>)
    requires
        forall|k: int|
            0 <= k < srcs.len() ==> match page_candidate(#[trigger] srcs[k]) {
                Option::Some(c) => seen.contains(c),
                Option::None => true,
            },
    ensures
        enumerate_ids(seen, acc, srcs) == (seen, acc),
    decreases srcs.len(),
{
    if srcs.len() > 0 {
        assert(match page_candidate(srcs[0]) {
            Option::Some(c) => seen.contains(c),
            Option::None => true,
        });
        assert(forall|k: int|
            0 <= k < srcs.drop_first().len() ==> srcs.drop_first()[k] == srcs[k + 1]);
        lemma_enum_stable(seen, acc, srcs.drop_first());
    }
}

/// No duplicate enumeration: running the enumeration pass a second time
/// over the same page sources adds no identifier to the seen-set and
/// nothing to the output list.
pub proof fn lemma_no_duplicate_enumeration(
    seen: Set<Seq<u8>>,
    acc: Seq<Seq<u8>>,
    srcs: Seq<Option<Seq<u8>>>,
)
    ensures
        ({
            let once = enumerate_ids(seen, acc, srcs);
            enumerate_ids(once.0, once.1, srcs) == once
        }),
{
    let once = enumerate_ids(seen, acc, srcs);
    assert forall|k: int| 0 <= k < srcs.len() implies match page_candidate(#[trigger] srcs[k]) {
        Option::Some(c) => once.0.contains(c),
        Option::None => true,
    } by {
        lemma_enum_covers(seen, acc, srcs, k);
    }
    lemma_enum_stable(once.0, once.1, srcs);
}

/// The view of an optional byte vector.
pub open spec fn option_view(v: Option<Vec<u8>>) -> Option<Seq<u8>> {
    match v {
        Option::Some(u) => Option::Some(u@),
        Option::None => Option::None,
    }
}

} // verus!
