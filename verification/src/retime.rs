//! Repairing out-of-range temporal references of a GOP and checking that
//! they then cover `0 .. frame count`.

use vstd::prelude::*;
use crate::index::{Frame, Gop, GopView, gops_view};

verus! {

/// The largest temporal reference in `s` other than `t`, or -1.
pub open spec fn max_tr_excluding(s: Seq<Frame>, t: u8) -> int
    decreases s.len(),
{
    if s.len() == 0 {
        -1
    } else {
        let m = max_tr_excluding(s.drop_last(), t);
        let x = s.last().temporal_reference;
        if x != t && x as int > m {
            x as int
        } else {
            m
        }
    }
}

/// The temporal reference frame `k` gets: its own when it is below the
/// frame count (taken modulo 256), else one more than the largest other
/// reference in the GOP; `None` when there is no other reference or it is 255.
pub open spec fn fixed_tr(frames: Seq<Frame>, k: int) -> Option<u8> {
    let t = frames[k].temporal_reference;
    if (t as int) < frames.len() % 256 {
        Some(t)
    } else {
        let m = max_tr_excluding(frames, t);
        if m < 0 || m >= 255 {
            None
        } else {
            Some((m + 1) as u8)
        }
    }
}

/// The frames with their temporal references repaired.
pub open spec fn retimed(frames: Seq<Frame>) -> Seq<Frame> {
    Seq::new(frames.len(), |k: int| Frame { temporal_reference: fixed_tr(frames, k).unwrap(), ..frames[k] })
}

/// Whether the repaired references of a GOP are acceptable: every frame
/// could be repaired, the count modulo 256 is not zero, the smallest
/// reference is 0 and the largest is that count less one.
pub open spec fn retime_ok(frames: Seq<Frame>) -> bool {
    let n = frames.len() % 256;
    let f = retimed(frames);
    &&& forall|k: int| 0 <= k < frames.len() ==> #[trigger] fixed_tr(frames, k) is Some
    &&& n != 0
    &&& exists|k: int| 0 <= k < f.len() && #[trigger] f[k].temporal_reference == 0
    &&& exists|k: int| 0 <= k < f.len() && #[trigger] f[k].temporal_reference == n - 1
    &&& forall|k: int| 0 <= k < f.len() ==> #[trigger] f[k].temporal_reference < n
}

/// The GOPs with their frames repaired, when all are acceptable.
pub open spec fn retime_gops(gops: Seq<GopView>) -> Option<Seq<GopView>> {
    if forall|i: int| 0 <= i < gops.len() ==> #[trigger] retime_ok(gops[i].frames) {
        Some(Seq::new(gops.len(), |i: int| GopView { frames: retimed(gops[i].frames), ..gops[i] }))
    } else {
        None
    }
}

/// The largest temporal reference other than `t`, or `None`.
fn exec_max_tr_excluding(frames: &Vec<Frame>, t: u8) -> (r: Option<u8>)
    ensures
        max_tr_excluding(frames@, t) < 0 ==> r is None,
        max_tr_excluding(frames@, t) >= 0 ==> r == Some(max_tr_excluding(frames@, t) as u8),
        max_tr_excluding(frames@, t) < 256,
{
    let mut m: Option<u8> = None;
    let mut i: usize = 0;
    while i < frames.len()
        invariant
            i <= frames@.len(),
            max_tr_excluding(frames@.subrange(0, i as int), t) < 256,
            max_tr_excluding(frames@.subrange(0, i as int), t) < 0 ==> m is None,
            max_tr_excluding(frames@.subrange(0, i as int), t) >= 0 ==> m == Some(
                max_tr_excluding(frames@.subrange(0, i as int), t) as u8,
            ),
        decreases frames@.len() - i,
    {
        let x = frames[i].temporal_reference;
        assert(frames@.subrange(0, i + 1).drop_last() =~= frames@.subrange(0, i as int));
        if x != t {
            match m {
                None => { m = Some(x); },
                Some(mm) => { if x > mm { m = Some(x); } },
            }
        }
        i = i + 1;
    }
    assert(frames@.subrange(0, frames@.len() as int) =~= frames@);
    m
}

/// Repairs the temporal references of a GOP in place (each repair looks at
/// the references as they were before any repair) and checks the result.
pub fn retime_gop(g: &mut Gop) -> (ok: bool)
    ensures
        ok == retime_ok(old(g).frames@),
        ok ==> final(g)@ == (GopView { frames: retimed(old(g).frames@), ..old(g)@ }),
        final(g).sequence_header == old(g).sequence_header,
        final(g).closed == old(g).closed,
        final(g).prog_sequence == old(g).prog_sequence,
        final(g).frames@.len() == old(g).frames@.len(),
{
    let ghost orig = g.frames@;
    let fcnt = g.frames.len();
    let n = #[verifier::truncate] (fcnt as u8);
    assert(n as int == fcnt as int % 256) by (bit_vector)
        requires n == fcnt as u8;
    let fclone = g.frames.clone();
    assert(fclone@ =~= orig);
    let mut k: usize = 0;
    while k < fcnt
        invariant
            fcnt == orig.len(),
            fclone@ == orig,
            n as int == orig.len() % 256,
            g.frames@.len() == fcnt,
            g.sequence_header == old(g).sequence_header,
            g.closed == old(g).closed,
            g.prog_sequence == old(g).prog_sequence,
            orig == old(g).frames@,
            k <= fcnt,
            forall|j: int| 0 <= j < k ==> #[trigger] fixed_tr(orig, j) is Some && g.frames@[j] == retimed(orig)[j],
            forall|j: int| k <= j < fcnt ==> #[trigger] g.frames@[j] == orig[j],
        decreases fcnt - k,
    {
        let mut a = g.frames[k];
        let currenttr = a.temporal_reference;
        if currenttr >= n {
            match exec_max_tr_excluding(&fclone, currenttr) {
                None => {
                    assert(fixed_tr(orig, k as int) is None);
                    return false;
                },
                Some(mm) => {
                    if mm == 255 {
                        assert(fixed_tr(orig, k as int) is None);
                        return false;
                    }
                    a.temporal_reference = mm + 1;
                },
            }
        }
        g.frames.set(k, a);
        k = k + 1;
    }
    let ghost f = retimed(orig);
    assert(g.frames@ =~= f);
    // the checks made on the repaired frames
    if n == 0 {
        return false;
    }
    let mut has_zero = false;
    let mut has_top = false;
    let mut i: usize = 0;
    while i < fcnt
        invariant
            fcnt == orig.len(),
            orig == old(g).frames@,
            f == retimed(orig),
            g.frames@ == f,
            g.sequence_header == old(g).sequence_header,
            g.closed == old(g).closed,
            g.prog_sequence == old(g).prog_sequence,
            f.len() == fcnt,
            n as int == orig.len() % 256,
            n > 0,
            i <= fcnt,
            forall|j: int| 0 <= j < fcnt ==> #[trigger] fixed_tr(orig, j) is Some,
            forall|j: int| 0 <= j < i ==> #[trigger] f[j].temporal_reference < n,
            has_zero == exists|j: int| 0 <= j < i && #[trigger] f[j].temporal_reference == 0,
            has_top == exists|j: int| 0 <= j < i && #[trigger] f[j].temporal_reference == n - 1,
        decreases fcnt - i,
    {
        let t = g.frames[i].temporal_reference;
        if t >= n {
            assert(!(f[i as int].temporal_reference < n));
            return false;
        }
        if t == 0 {
            has_zero = true;
        }
        if t == n - 1 {
            has_top = true;
        }
        i = i + 1;
    }
    has_zero && has_top
}

} // verus!
