//! The persisted set of previously seen identifiers.
//!
//! The store is kept on disk as line-delimited text, one identifier per
//! line, and rewritten whole on every persist. The library owns the pure
//! half of that lifecycle: `parse` turns file contents into a store,
//! `serialize` turns a store back into file contents, and membership and
//! insertion keep the set free of duplicates. Reading and writing the file
//! itself is the caller's business.
use crate::bytes::bytes_eq;
use crate::bytes::push_bytes;
use crate::bytes::subvec;
use vstd::prelude::*;

verus! {

/// The line separator of the persisted form.
pub const NEWLINE: u8 = 10;

/// What may stand in the store: a nonempty token with no line separator
/// in it, so that the line-delimited persisted form is unambiguous.
pub open spec fn valid_identifier(s: Seq<u8>) -> bool {
    s.len() > 0 && forall|i: int| 0 <= i < s.len() ==> s[i] != NEWLINE
}

/// Index of the first line separator in `s`, or -1 if there is none.
pub open spec fn first_nl(s: Seq<u8>) -> int
    decreases s.len(),
{
    if s.len() == 0 {
        -1
    } else if s[0] == NEWLINE {
        0
    } else {
        let r = first_nl(s.drop_first());
        if r < 0 {
            -1
        } else {
            r + 1
        }
    }
}

/// The nonempty segments of `s` between line separators, in order.
pub open spec fn line_split(s: Seq<u8>) -> Seq<Seq<u8>>
    decreases s.len(),
{
    let i = first_nl(s);
    if !(0 <= i < s.len()) {
        if s.len() == 0 {
            seq![]
        } else {
            seq![s]
        }
    } else {
        let head = s.subrange(0, i);
        let rest = line_split(s.subrange(i + 1, s.len() as int));
        if head.len() == 0 {
            rest
        } else {
            seq![head] + rest
        }
    }
}

/// The persisted form of a list of identifiers: the identifiers joined by
/// single line separators.
pub open spec fn join_ids(ids: Seq<Seq<u8>>) -> Seq<u8>
    decreases ids.len(),
{
    if ids.len() == 0 {
        seq![]
    } else if ids.len() == 1 {
        ids[0]
    } else {
        ids[0] + seq![NEWLINE] + join_ids(ids.drop_first())
    }
}

/// `first_nl` finds the leftmost line separator: what it returns is in
/// bounds, is a separator, and nothing before it is one; a negative
/// result means `s` holds no separator at all.
pub proof fn lemma_first_nl(s: Seq<u8>)
    ensures
        first_nl(s) >= 0 ==> 0 <= first_nl(s) < s.len() && s[first_nl(s)] == NEWLINE && (forall|
            j: int,
        |
            0 <= j < first_nl(s) ==> s[j] != NEWLINE),
        first_nl(s) < 0 ==> forall|j: int| 0 <= j < s.len() ==> s[j] != NEWLINE,
    decreases s.len(),
{
    if s.len() == 0 {
    } else if s[0] == NEWLINE {
    } else {
        lemma_first_nl(s.drop_first());
        assert(forall|j: int| 1 <= j < s.len() ==> s[j] == s.drop_first()[j - 1]);
    }
}

/// The position just before a separator, with none earlier, pins
/// `first_nl` down exactly.
pub proof fn lemma_first_nl_at(s: Seq<u8>, k: int)
    requires
        0 <= k < s.len(),
        s[k] == NEWLINE,
        forall|j: int| 0 <= j < k ==> s[j] != NEWLINE,
    ensures
        first_nl(s) == k,
{
    lemma_first_nl(s);
    if first_nl(s) < 0 {
        assert(s[k] != NEWLINE);
    } else {
        if first_nl(s) < k {
            assert(s[first_nl(s)] != NEWLINE);
        }
        if first_nl(s) > k {
            assert(s[k] != NEWLINE);
        }
    }
}

/// A sequence without separators has no `first_nl`.
pub proof fn lemma_first_nl_none(s: Seq<u8>)
    requires
        forall|j: int| 0 <= j < s.len() ==> s[j] != NEWLINE,
    ensures
        first_nl(s) < 0,
{
    lemma_first_nl(s);
    if first_nl(s) >= 0 {
        assert(s[first_nl(s)] != NEWLINE);
    }
}

/// The in-memory dedup set: every identifier ever enumerated, each held
/// once.
pub struct DedupStore {
    /// The identifiers, in insertion order.
    pub entries: Vec<Vec<u8>>,
}

impl DedupStore {
    /// The identifiers as a sequence of byte sequences.
    pub open spec fn id_seq(self) -> Seq<Seq<u8>> {
        self.entries@.map_values(|v: Vec<u8>| v@)
    }

    /// The identifiers as a set: the store's abstract value.
    pub open spec fn id_set(self) -> Set<Seq<u8>> {
        self.id_seq().to_set()
    }

    /// Every entry is a valid identifier and no identifier is held twice.
    pub open spec fn wf(self) -> bool {
        &&& forall|i: int| 0 <= i < self.id_seq().len() ==> valid_identifier(#[trigger] self.id_seq()[i])
        &&& forall|i: int, j: int|
            0 <= i < j < self.id_seq().len() ==> self.id_seq()[i] != self.id_seq()[j]
    }

    /// An empty store.
    pub fn new() -> (r: DedupStore)
        ensures
            r.wf(),
            r.id_seq() =~= Seq::<Seq<u8>>::empty(),
            r.id_set() =~= Set::<Seq<u8>>::empty(),
    {
        let r = DedupStore { entries: Vec::new() };
        proof {
            assert(r.id_seq() =~= Seq::<Seq<u8>>::empty());
        }
        r
    }

    /// How many identifiers the store holds.
    pub fn len(&self) -> (r: usize)
        ensures
            r == self.id_seq().len(),
    {
        self.entries.len()
    }

    /// Whether `id` has been seen before.
    pub fn contains(&self, id: &Vec<u8>) -> (r: bool)
        ensures
            r == self.id_set().contains(id@),
    {
        let n = self.entries.len();
        let mut i: usize = 0;
        while i < n
            invariant
                n == self.entries@.len(),
                i <= n,
                forall|j: int| 0 <= j < i ==> self.id_seq()[j] != id@,
            decreases n - i,
        {
            if bytes_eq(&self.entries[i], id) {
                proof {
                    assert(self.id_seq()[i as int] == id@);
                    assert(self.id_seq().contains(id@));
                }
                return true;
            }
            i = i + 1;
        }
        proof {
            if self.id_set().contains(id@) {
                let k = choose|k: int| 0 <= k < self.id_seq().len() && self.id_seq()[k] == id@;
                assert(self.id_seq()[k] != id@);
            }
        }
        false
    }

    /// Inserts an identifier not seen before.
    pub fn insert(&mut self, id: Vec<u8>)
        requires
            old(self).wf(),
            valid_identifier(id@),
            !old(self).id_set().contains(id@),
        ensures
            final(self).wf(),
            final(self).id_seq() == old(self).id_seq().push(id@),
            final(self).id_set() == old(self).id_set().insert(id@),
    {
        proof {
            if old(self).id_seq().contains(id@) {
                assert(old(self).id_set().contains(id@));
            }
        }
        self.entries.push(id);
        proof {
            assert(self.id_seq() =~= old(self).id_seq().push(id@));
            assert forall|x: Seq<u8>|
                self.id_set().contains(x) == old(self).id_set().insert(id@).contains(x) by {
                if self.id_seq().contains(x) {
                    let k = choose|k: int|
                        0 <= k < self.id_seq().len() && self.id_seq()[k] == x;
                    if k < old(self).id_seq().len() {
                        assert(old(self).id_seq()[k] == x);
                        assert(old(self).id_seq().contains(x));
                    }
                }
                if old(self).id_seq().contains(x) {
                    let k = choose|k: int|
                        0 <= k < old(self).id_seq().len() && old(self).id_seq()[k] == x;
                    assert(self.id_seq()[k] == x);
                    assert(self.id_seq().contains(x));
                }
                if x == id@ {
                    assert(self.id_seq()[old(self).id_seq().len() as int] == x);
                    assert(self.id_seq().contains(x));
                }
            }
            assert(self.id_set() =~= old(self).id_set().insert(id@));
        }
    }
    /// The persisted form of the store: its identifiers, one per line.
    pub fn serialize(&self) -> (r: Vec<u8>)
        ensures
            r@ == join_ids(self.id_seq()),
    {
        let mut r: Vec<u8> = Vec::new();
        let n = self.entries.len();
        let mut i: usize = 0;
        while i < n
            invariant
                n == self.entries@.len(),
                i <= n,
                r@ == join_ids(self.id_seq().take(i as int)),
            decreases n - i,
        {
            if i > 0 {
                r.push(NEWLINE);
            }
            push_bytes(&mut r, &self.entries[i]);
            proof {
                let taken = self.id_seq().take(i as int);
                let taken1 = self.id_seq().take(i + 1 as int);
                assert(taken1 =~= taken.push(self.id_seq()[i as int]));
                if i == 0 {
                    assert(taken1 =~= seq![self.id_seq()[0]]);
                    assert(join_ids(taken1) == taken1[0]);
                    assert(r@ =~= self.id_seq()[0]);
                } else {
                    lemma_join_push(taken, self.id_seq()[i as int]);
                    assert(r@ =~= join_ids(taken) + seq![NEWLINE] + self.id_seq()[i as int]);
                }
            }
            i = i + 1;
        }
        proof {
            assert(self.id_seq().take(n as int) =~= self.id_seq());
        }
        r
    }

    /// Reads the persisted form back into a store: every nonempty line
    /// becomes an identifier, held once however often it occurs.
    pub fn parse(data: &Vec<u8>) -> (r: DedupStore)
        ensures
            r.wf(),
            r.id_set() == line_split(data@).to_set(),
    {
        let mut store = DedupStore::new();
        let n = data.len();
        proof {
            assert(data@.subrange(0, n as int) =~= data@);
            assert(line_split(data@).to_set() =~= store.id_set().union(
                line_split(data@.subrange(0, n as int)).to_set(),
            ));
        }
        let mut pos: usize = 0;
        while pos < n
            invariant
                n == data@.len(),
                pos <= n,
                store.wf(),
                line_split(data@).to_set() == store.id_set().union(
                    line_split(data@.subrange(pos as int, n as int)).to_set(),
                ),
            decreases n - pos,
        {
            let ghost old_set = store.id_set();
            let end = find_newline(data, pos);
            let seg = subvec(data, pos, end);
            let ghost suf = data@.subrange(pos as int, n as int);
            proof {
                if end < n {
                    assert(suf[end - pos] == NEWLINE);
                    assert(forall|j: int| 0 <= j < end - pos ==> suf[j] != NEWLINE);
                    lemma_first_nl_at(suf, end - pos);
                    assert(suf.subrange(0, end - pos) =~= seg@);
                    assert(suf.subrange(end - pos + 1, suf.len() as int) =~= data@.subrange(
                        end + 1,
                        n as int,
                    ));
                } else {
                    assert(forall|j: int| 0 <= j < suf.len() ==> suf[j] != NEWLINE);
                    lemma_first_nl_none(suf);
                }
            }
            if seg.len() > 0 {
                let already = store.contains(&seg);
                if !already {
                    store.insert(seg);
                }
            }
            proof {
                let i = first_nl(suf);
                if end < n {
                    let rest = line_split(data@.subrange(end + 1, n as int));
                    assert(line_split(suf) == if i == 0 {
                        rest
                    } else {
                        seq![suf.subrange(0, i)] + rest
                    });
                    if i > 0 {
                        lemma_cons_to_set(suf.subrange(0, i), rest);
                    }
                    assert(line_split(data@).to_set() =~= store.id_set().union(rest.to_set()));
                } else {
                    assert(line_split(suf) == if suf.len() == 0 {
                        Seq::<Seq<u8>>::empty()
                    } else {
                        seq![suf]
                    });
                    if suf.len() > 0 {
                        lemma_cons_to_set(suf, Seq::<Seq<u8>>::empty());
                        assert(seq![suf] + Seq::<Seq<u8>>::empty() =~= seq![suf]);
                        assert(Seq::<Seq<u8>>::empty().to_set() =~= Set::<Seq<u8>>::empty());
                        assert(line_split(suf).to_set() =~= Set::<Seq<u8>>::empty().insert(suf));
                        assert(seg@ == suf);
                    }
                    assert(line_split(data@.subrange(n as int, n as int)).to_set() =~= Set::<
                        Seq<u8>,
                    >::empty());
                    assert(line_split(data@).to_set() =~= store.id_set().union(
                        line_split(data@.subrange(n as int, n as int)).to_set(),
                    ));
                }
            }
            if end >= n {
                pos = n;
            } else {
                pos = end + 1;
            }
        }
        proof {
            assert(data@.subrange(n as int, n as int) =~= Seq::<u8>::empty());
            assert(line_split(Seq::<u8>::empty()) =~= Seq::<Seq<u8>>::empty());
            assert(line_split(data@).to_set() =~= store.id_set());
        }
        store
    }
}

/// Position of the first line separator at or after `from`, or the length
/// of `data` when the rest holds none.
fn find_newline(data: &Vec<u8>, from: usize) -> (r: usize)
    requires
        from <= data@.len(),
    ensures
        from <= r <= data@.len(),
        forall|j: int| from <= j < r ==> data@[j] != NEWLINE,
        r < data@.len() ==> data@[r as int] == NEWLINE,
{
    let n = data.len();
    let mut i: usize = from;
    while i < n
        invariant
            from <= i <= n,
            n == data@.len(),
            forall|j: int| from <= j < i ==> data@[j] != NEWLINE,
        decreases n - i,
    {
        if data[i] == NEWLINE {
            return i;
        }
        i = i + 1;
    }
    n
}

/// Joining one more identifier extends the persisted form by a separator
/// and that identifier.
proof fn lemma_join_push(ids: Seq<Seq<u8>>, e: Seq<u8>)
    requires
        ids.len() >= 1,
    ensures
        join_ids(ids.push(e)) == join_ids(ids) + seq![NEWLINE] + e,
    decreases ids.len(),
{
    if ids.len() == 1 {
        assert(ids.push(e).drop_first() =~= seq![e]);
        assert(join_ids(seq![e]) == e);
        assert(ids.push(e)[0] == ids[0]);
    } else {
        lemma_join_push(ids.drop_first(), e);
        assert(ids.push(e).drop_first() =~= ids.drop_first().push(e));
        assert((ids[0] + seq![NEWLINE] + (join_ids(ids.drop_first()) + seq![NEWLINE] + e)) =~= ((
        ids[0] + seq![NEWLINE] + join_ids(ids.drop_first())) + seq![NEWLINE] + e));
    }
}

/// The set of a sequence with one element put in front.
proof fn lemma_cons_to_set(h: Seq<u8>, rest: Seq<Seq<u8>>)
    ensures
        (seq![h] + rest).to_set() == rest.to_set().insert(h),
{
    let s = seq![h] + rest;
    assert forall|x: Seq<u8>| s.to_set().contains(x) == rest.to_set().insert(h).contains(x) by {
        if s.contains(x) {
            let k = choose|k: int| 0 <= k < s.len() && s[k] == x;
            if k == 0 {
                assert(x == h);
            } else {
                assert(rest[k - 1] == x);
                assert(rest.contains(x));
            }
        }
        if rest.contains(x) {
            let k = choose|k: int| 0 <= k < rest.len() && rest[k] == x;
            assert(s[k + 1] == x);
            assert(s.contains(x));
        }
        if x == h {
            assert(s[0] == x);
            assert(s.contains(x));
        }
    }
    assert((seq![h] + rest).to_set() =~= rest.to_set().insert(h));
}

/// Dedup round trip: persisting a list of valid identifiers and splitting
/// the persisted form back into lines returns exactly that list, so a
/// store that is persisted unchanged and reloaded holds the identical
/// identifier set.
pub proof fn lemma_dedup_round_trip(ids: Seq<Seq<u8>>)
    requires
        forall|i: int| 0 <= i < ids.len() ==> valid_identifier(#[trigger] ids[i]),
    ensures
        line_split(join_ids(ids)) == ids,
    decreases ids.len(),
{
    if ids.len() == 0 {
        assert(line_split(join_ids(ids)) =~= ids);
    } else if ids.len() == 1 {
        let s = ids[0];
        assert(valid_identifier(s));
        lemma_first_nl_none(s);
        assert(line_split(s) == seq![s]);
        assert(seq![s] =~= ids);
    } else {
        let s = join_ids(ids);
        let rest = ids.drop_first();
        let l0 = ids[0].len() as int;
        assert(valid_identifier(ids[0]));
        assert(s == ids[0] + seq![NEWLINE] + join_ids(rest));
        assert(s[l0] == NEWLINE);
        assert forall|j: int| 0 <= j < l0 implies s[j] != NEWLINE by {
            assert(s[j] == ids[0][j]);
        }
        lemma_first_nl_at(s, l0);
        assert(s.subrange(0, l0) =~= ids[0]);
        assert(s.subrange(l0 + 1, s.len() as int) =~= join_ids(rest));
        assert(forall|i: int| 0 <= i < rest.len() ==> rest[i] == ids[i + 1]);
        lemma_dedup_round_trip(rest);
        assert(line_split(s) == seq![ids[0]] + rest);
        assert(seq![ids[0]] + rest =~= ids);
    }
}

} // verus!
