//! Selecting VOBUs of an index by inclusive index ranges.

use vstd::prelude::*;
use crate::index::{IndexedVts, Vobu, VobuView};

verus! {

/// An inclusive range of VOBU indices.
pub type VobuRange = (u32, u32);

/// A VOBU together with its index in the title set.
#[derive(Debug)]
pub struct EVobu {
    pub i: usize,
    pub v: Vobu,
}

/// The VOBU indices that the ranges select, range after range, each in
/// ascending order.
pub open spec fn range_indices(lst: Seq<VobuRange>) -> Seq<int>
    decreases lst.len(),
{
    if lst.len() == 0 {
        Seq::empty()
    } else {
        let last = lst.last();
        range_indices(lst.drop_last()) + Seq::new((last.1 + 1 - last.0) as nat, |k: int| last.0 + k)
    }
}

/// Every range lies within `n` VOBUs.
pub open spec fn ranges_within(lst: Seq<VobuRange>, n: int) -> bool {
    forall|k: int| 0 <= k < lst.len() ==> #[trigger] lst[k].0 <= lst[k].1 + 1 <= n
}

/// The VOBU list that `VobuRanger` produces for the given indices.
pub open spec fn evobus_match(out: Seq<EVobu>, idx: Seq<int>, vobus: Seq<VobuView>) -> bool {
    &&& out.len() == idx.len()
    &&& forall|k: int| 0 <= k < out.len() ==> (#[trigger] out[k]).i == idx[k] && out[k].v@ == vobus[idx[k]]
}

pub struct VobuRanger {}

impl VobuRanger {
    /// The VOBUs of `vts` selected by the inclusive ranges in `lst`, in the
    /// order of the ranges, each with its index.
    pub fn from(lst: &[VobuRange], vts: &IndexedVts) -> (r: Vec<EVobu>)
        requires
            ranges_within(lst@, vts.vobus@.len() as int),
        ensures
            evobus_match(r@, range_indices(lst@), vts@.vobus),
    {
        let mut voburan: Vec<EVobu> = Vec::new();
        let mut j: usize = 0;
        while j < lst.len()
            invariant
                j <= lst@.len(),
                ranges_within(lst@, vts.vobus@.len() as int),
                evobus_match(voburan@, range_indices(lst@.subrange(0, j as int)), vts@.vobus),
            decreases lst@.len() - j,
        {
            let a0 = lst[j].0 as usize;
            let a1 = lst[j].1 as usize;
            assert(lst@[j as int].0 <= lst@[j as int].1 + 1 <= vts.vobus@.len());
            let ghost before = voburan@;
            let ghost prefix = lst@.subrange(0, j as int);
            let ghost next = lst@.subrange(0, j + 1);
            assert(next.drop_last() =~= prefix);
            assert(next.last() == lst@[j as int]);
            let n = vts.vobus.len();
            assert(a1 + 1 <= n);
            let end = a1 + 1;
            let mut k: usize = a0;
            while k < end
                invariant
                    end == a1 + 1,
                    a0 <= k <= end <= vts.vobus@.len(),
                    voburan@.len() == before.len() + (k - a0),
                    forall|t: int| 0 <= t < before.len() ==> voburan@[t] == before[t],
                    forall|t: int| before.len() <= t < voburan@.len() ==>
                        (#[trigger] voburan@[t]).i == a0 + (t - before.len()) && voburan@[t].v@ == vts@.vobus[a0 + (t - before.len())],
                decreases end - k,
            {
                let v = vts.vobus[k].clone();
                voburan.push(EVobu { i: k, v });
                k = k + 1;
            }
            proof {
                let idx = range_indices(next);
                assert(idx == range_indices(prefix) + Seq::new((lst@[j as int].1 + 1 - lst@[j as int].0) as nat, |q: int| lst@[j as int].0 + q));
                assert forall|t: int| 0 <= t < voburan@.len() implies (#[trigger] voburan@[t]).i == idx[t]
                    && voburan@[t].v@ == vts@.vobus[idx[t]] by {
                    if t < before.len() {
                        assert(voburan@[t] == before[t]);
                    }
                }
            }
            j = j + 1;
        }
        assert(lst@.subrange(0, lst@.len() as int) =~= lst@);
        voburan
    }

    /// Every VOBU of `vts`, in order, each with its index.
    pub fn full(vts: &IndexedVts) -> (r: Vec<EVobu>)
        requires
            0 < vts.vobus@.len() <= u32::MAX,
        ensures
            r@.len() == vts.vobus@.len(),
            forall|k: int| 0 <= k < r@.len() ==> (#[trigger] r@[k]).i == k && r@[k].v@ == vts@.vobus[k],
    {
        let last = vts.vobus.len() as u32 - 1;
        let lst = [(0u32, last)];
        let ghost l = lst@;
        assert(l.len() == 1 && l[0] == (0u32, last));
        assert(l.drop_last() =~= Seq::<VobuRange>::empty());
        assert(range_indices(l.drop_last()) =~= Seq::<int>::empty());
        assert(range_indices(l) =~= Seq::new(vts.vobus@.len(), |k: int| k));
        Self::from(&lst, vts)
    }
}

/// Selecting by the ranges of `a` followed by those of `b` selects the
/// indices that `a` selects followed by those that `b` selects.
pub proof fn lemma_range_indices_concat(a: Seq<VobuRange>, b: Seq<VobuRange>)
    ensures
        range_indices(a + b) == range_indices(a) + range_indices(b),
    decreases b.len(),
{
    if b.len() == 0 {
        assert(a + b =~= a);
        assert(range_indices(a) + range_indices(b) =~= range_indices(a));
    } else {
        let last = b.last();
        assert((a + b).drop_last() =~= a + b.drop_last());
        assert((a + b).last() == last);
        lemma_range_indices_concat(a, b.drop_last());
        let tail = Seq::new((last.1 + 1 - last.0) as nat, |k: int| last.0 + k);
        assert(range_indices(a) + range_indices(b.drop_last()) + tail =~= range_indices(a) + (range_indices(b.drop_last()) + tail));
    }
}

/// `VobuRanger::from` of the ranges of `a` followed by those of `b` gives
/// the VOBUs it gives for `a` followed by those it gives for `b`.
pub proof fn lemma_ranger_concat(
    a: Seq<VobuRange>,
    b: Seq<VobuRange>,
    vobus: Seq<VobuView>,
    out_a: Seq<EVobu>,
    out_b: Seq<EVobu>,
    out_ab: Seq<EVobu>,
)
    requires
        evobus_match(out_a, range_indices(a), vobus),
        evobus_match(out_b, range_indices(b), vobus),
        evobus_match(out_ab, range_indices(a + b), vobus),
    ensures
        out_ab.len() == out_a.len() + out_b.len(),
        forall|k: int| 0 <= k < out_ab.len() ==> (#[trigger] out_ab[k]).i == (out_a + out_b)[k].i
            && out_ab[k].v@ == (out_a + out_b)[k].v@,
{
    lemma_range_indices_concat(a, b);
    let ia = range_indices(a);
    let ib = range_indices(b);
    assert forall|k: int| 0 <= k < out_ab.len() implies (#[trigger] out_ab[k]).i == (out_a + out_b)[k].i
        && out_ab[k].v@ == (out_a + out_b)[k].v@ by {
        if k < out_a.len() {
            assert((ia + ib)[k] == ia[k]);
            assert((out_a + out_b)[k] == out_a[k]);
        } else {
            assert((ia + ib)[k] == ib[k - ia.len()]);
            assert((out_a + out_b)[k] == out_b[k - out_a.len()]);
        }
    }
}

} // verus!
