//! Planning of the retrieval phase: one download task per resolved URL.
//!
//! The caller supplies a destination directory; each resolved URL gets a
//! sequential file name under it (`image0.png`, `image1.png`, ...), in
//! batch order. Directory titles taken from an external collaborator are
//! first cleansed of the characters a file system refuses.
use crate::bytes::clone_bytes;
use crate::bytes::push_bytes;
use vstd::prelude::*;

verus! {

/// The decimal digits of `n`, most significant first.
pub open spec fn dec_rep(n: nat) -> Seq<u8>
    decreases n,
{
    if n < 10 {
        seq![(48 + n) as u8]
    } else {
        dec_rep(n / 10).push((48 + n % 10) as u8)
    }
}

/// Renders `n` in decimal.
pub fn format_decimal(n: usize) -> (r: Vec<u8>)
    ensures
        r@ == dec_rep(n as nat),
{
    let mut acc: Vec<u8> = Vec::new();
    let mut cur: usize = n;
    proof {
        assert(dec_rep(n as nat) =~= dec_rep(cur as nat) + acc@.reverse());
    }
    while cur >= 10
        invariant
            dec_rep(n as nat) == dec_rep(cur as nat) + acc@.reverse(),
        decreases cur,
    {
        let d = (cur % 10) as u8;
        acc.push(48 + d);
        proof {
            assert(acc@.reverse() =~= seq![(48 + (cur as nat) % 10) as u8] + acc@.drop_last().reverse());
            assert(dec_rep(cur as nat) == dec_rep((cur as nat) / 10).push(
                (48 + (cur as nat) % 10) as u8,
            ));
            assert(dec_rep((cur as nat) / 10) + (seq![(48 + (cur as nat) % 10) as u8]
                + acc@.drop_last().reverse()) =~= (dec_rep((cur as nat) / 10).push(
                (48 + (cur as nat) % 10) as u8,
            )) + acc@.drop_last().reverse());
        }
        cur = cur / 10;
    }
    acc.push(48 + (cur as u8));
    proof {
        assert(dec_rep(cur as nat) == seq![(48 + cur as nat) as u8]);
        assert(acc@.reverse() =~= seq![(48 + cur as nat) as u8] + acc@.drop_last().reverse());
        assert(dec_rep(n as nat) =~= acc@.reverse());
    }
    let mut r: Vec<u8> = Vec::new();
    let len = acc.len();
    let mut i: usize = len;
    while i > 0
        invariant
            len == acc@.len(),
            i <= len,
            r@.len() == len - i,
            forall|j: int| 0 <= j < r@.len() ==> r@[j] == acc@[len - 1 - j],
        decreases i,
    {
        i = i - 1;
        r.push(acc[i]);
    }
    proof {
        assert(r@ =~= acc@.reverse());
    }
    r
}

/// One pending retrieval: where to fetch from and where to write.
pub struct DownloadTask {
    /// Destination path of the file to write.
    pub path: Vec<u8>,
    /// Source URL to fetch.
    pub url: Vec<u8>,
}

/// The ASCII of `/image`.
pub open spec fn image_stem() -> Seq<u8> {
    seq![47u8, 105u8, 109u8, 97u8, 103u8, 101u8]
}

/// The ASCII of `.png`.
pub open spec fn image_suffix() -> Seq<u8> {
    seq![46u8, 112u8, 110u8, 103u8]
}

/// The destination path of the task at position `idx`: the directory,
/// then `/image`, the position in decimal, and `.png`.
pub open spec fn task_path_spec(dir: Seq<u8>, idx: nat) -> Seq<u8> {
    dir + image_stem() + dec_rep(idx) + image_suffix()
}

/// Plans the retrieval batch: one task per URL, in order, each with the
/// sequential destination path for its position.
pub fn plan_downloads(dir: &Vec<u8>, urls: &Vec<Vec<u8>>) -> (r: Vec<DownloadTask>)
    ensures
        r@.len() == urls@.len(),
        forall|i: int|
            0 <= i < urls@.len() ==> (#[trigger] r@[i]).url@ == urls@[i]@ && r@[i].path@
                == task_path_spec(dir@, i as nat),
{
    let n = urls.len();
    let mut r: Vec<DownloadTask> = Vec::new();
    let mut i: usize = 0;
    while i < n
        invariant
            n == urls@.len(),
            i <= n,
            r@.len() == i,
            forall|j: int|
                0 <= j < i ==> (#[trigger] r@[j]).url@ == urls@[j]@ && r@[j].path@
                    == task_path_spec(dir@, j as nat),
        decreases n - i,
    {
        let mut path = clone_bytes(dir);
        path.push(47u8);
        path.push(105u8);
        path.push(109u8);
        path.push(97u8);
        path.push(103u8);
        path.push(101u8);
        let num = format_decimal(i);
        push_bytes(&mut path, &num);
        path.push(46u8);
        path.push(112u8);
        path.push(110u8);
        path.push(103u8);
        proof {
            assert(path@ =~= task_path_spec(dir@, i as nat));
        }
        let url = clone_bytes(&urls[i]);
        r.push(DownloadTask { path, url });
        i = i + 1;
    }
    r
}

/// A byte a file name may not hold (slash, colon, star, question mark,
/// double quote, less-than, greater-than, pipe).
pub open spec fn forbidden_in_name(b: u8) -> bool {
    b == 47 || b == 58 || b == 42 || b == 63 || b == 34 || b == 60 || b == 62 || b == 124
}

/// Cleanses a page title for use as a directory name: every byte a file
/// name may not hold becomes a dash, everything else stays.
pub fn sanitize_title(title: &Vec<u8>) -> (r: Vec<u8>)
    ensures
        r@.len() == title@.len(),
        forall|i: int|
            0 <= i < title@.len() ==> r@[i] == (if forbidden_in_name(title@[i]) {
                45u8
            } else {
                title@[i]
            }),
{
    let n = title.len();
    let mut r: Vec<u8> = Vec::new();
    let mut i: usize = 0;
    while i < n
        invariant
            n == title@.len(),
            i <= n,
            r@.len() == i,
            forall|j: int|
                0 <= j < i ==> r@[j] == (if forbidden_in_name(title@[j]) {
                    45u8
                } else {
                    title@[j]
                }),
        decreases n - i,
    {
        let b = title[i];
        if b == 47 || b == 58 || b == 42 || b == 63 || b == 34 || b == 60 || b == 62 || b == 124 {
            r.push(45u8);
        } else {
            r.push(b);
        }
        i = i + 1;
    }
    r
}

} // verus!
