//! The bookkeeping of the VapourSynth filters: VOBU range arguments, the
//! address-map output, the sector table of the raw VOB clip, the frame
//! tables and info frame of the video clip, and what a video frame request
//! decodes.

use vstd::prelude::*;
use crate::index::{Frame, FrameType, Gop, GopView, IndexedVts, IndexedVtsView, Vobu, VobuView, gops_view, vobus_view};
use crate::vobu_range::{EVobu, VobuRange};

verus! {

/// The VOBU ranges of a `ranges` argument: consecutive (from, to) pairs,
/// each within `0 ..= n` and ordered.
pub open spec fn ranges_ok(ints: Seq<i64>, n: int) -> bool {
    &&& ints.len() % 2 == 0
    &&& forall|k: int| 0 <= k < ints.len() ==> 0 <= #[trigger] ints[k] <= n
    &&& forall|k: int| 0 <= k < ints.len() / 2 ==> #[trigger] ints[2 * k] <= ints[2 * k + 1]
}

/// The ranges a clip uses: the given pairs, or every VOBU when none are
/// given. `None` for an invalid argument: an odd count, a value outside
/// `0 ..= n`, a reversed pair, or no VOBU at all (counted modulo 2^32).
pub open spec fn parse_range_spec(ranges: Option<Seq<i64>>, n: int) -> Option<Seq<VobuRange>> {
    match ranges {
        Some(ints) => if ranges_ok(ints, n) {
            Some(Seq::new((ints.len() / 2) as nat, |k: int| ((ints[2 * k] as int % 0x1_0000_0000) as u32, (ints[2 * k + 1] as int % 0x1_0000_0000) as u32)))
        } else {
            None
        },
        None => if n % 0x1_0000_0000 == 0 {
            None
        } else {
            Some(seq![(0u32, (n % 0x1_0000_0000 - 1) as u32)])
        },
    }
}

/// The pairs of a `ranges` argument, when `ranges_ok` holds.
fn parse_pairs(ints: &[i64], n_vobus: usize) -> (r: Option<Vec<VobuRange>>)
    ensures
        r is None <==> !ranges_ok(ints@, n_vobus as int),
        r is Some ==> r.unwrap()@ == Seq::new((ints@.len() / 2) as nat, |k: int| ((ints@[2 * k] as int % 0x1_0000_0000) as u32, (ints@[2 * k + 1] as int % 0x1_0000_0000) as u32)),
{
    let len = ints.len();
    if len % 2 != 0 {
        return None;
    }
    let mut out: Vec<VobuRange> = Vec::new();
    let mut i: usize = 0;
    while i < len / 2
        invariant
            len == ints@.len(),
            len % 2 == 0,
            i <= len / 2,
            out@.len() == i,
            forall|k: int| 0 <= k < 2 * i ==> 0 <= #[trigger] ints@[k] <= n_vobus,
            forall|k: int| 0 <= k < i ==> #[trigger] ints@[2 * k] <= ints@[2 * k + 1],
            forall|k: int| 0 <= k < i ==> #[trigger] out@[k] == ((ints@[2 * k] as int % 0x1_0000_0000) as u32, (ints@[2 * k + 1] as int % 0x1_0000_0000) as u32),
        decreases len / 2 - i,
    {
        let from = ints[2 * i];
        let to = ints[2 * i + 1];
        if from < 0 || from as i128 > n_vobus as i128 || to < 0 || to as i128 > n_vobus as i128 {
            assert(!ranges_ok(ints@, n_vobus as int)) by {
                if from < 0 || from as int > n_vobus {
                    assert(!(0 <= ints@[2 * i as int] <= n_vobus));
                } else {
                    assert(!(0 <= ints@[2 * i + 1] <= n_vobus));
                }
            }
            return None;
        }
        if from > to {
            assert(!(ints@[2 * i as int] <= ints@[2 * i + 1]));
            return None;
        }
        let from32 = #[verifier::truncate] (from as u32);
        let to32 = #[verifier::truncate] (to as u32);
        assert(from32 as int == from as int % 0x1_0000_0000 && to32 as int == to as int % 0x1_0000_0000) by (bit_vector)
            requires from32 == from as u32, to32 == to as u32, from >= 0, to >= 0;
        out.push((from32, to32));
        i = i + 1;
    }
    assert forall|k: int| 0 <= k < len implies 0 <= #[trigger] ints@[k] <= n_vobus by {
        assert(k < 2 * i);
    }
    let ghost want = Seq::new((len / 2) as nat, |k: int| ((ints@[2 * k] as int % 0x1_0000_0000) as u32, (ints@[2 * k + 1] as int % 0x1_0000_0000) as u32));
    assert(out@ =~= want);
    Some(out)
}

/// The VOBU ranges of a clip, or `None` for an invalid argument.
fn parse_range_checked(ranges: Option<&[i64]>, n_vobus: usize) -> (r: Option<Vec<VobuRange>>)
    ensures
        r is None <==> parse_range_spec(match ranges { Some(s) => Some(s@), None => None }, n_vobus as int) is None,
        r is Some ==> r.unwrap()@ == parse_range_spec(match ranges { Some(s) => Some(s@), None => None }, n_vobus as int).unwrap(),
{
    match ranges {
        None => {
            let n32 = #[verifier::truncate] (n_vobus as u32);
            assert(n32 as int == n_vobus as int % 0x1_0000_0000) by (bit_vector)
                requires n32 == n_vobus as u32;
            if n32 == 0 {
                return None;
            }
            let mut v: Vec<VobuRange> = Vec::new();
            v.push((0, n32 - 1));
            assert(v@ =~= seq![(0u32, (n32 - 1) as u32)]);
            Some(v)
        },
        Some(ints) => parse_pairs(ints, n_vobus),
    }
}

/// Whether the optional `ranges` argument is valid for a title set of
/// `n_vobus` VOBUs, as `parse_range` needs.
pub fn range_arg_valid(ranges: Option<&[i64]>, n_vobus: usize) -> (r: bool)
    ensures
        r == parse_range_spec(match ranges { Some(s) => Some(s@), None => None }, n_vobus as int) is Some,
{
    parse_range_checked(ranges, n_vobus).is_some()
}

/// The VOBU ranges of a clip, from the optional `ranges` argument, for a
/// title set of `n_vobus` VOBUs: the given pairs, or every VOBU.
pub fn parse_range(ranges: Option<&[i64]>, n_vobus: usize) -> (r: Vec<VobuRange>)
    requires
        parse_range_spec(match ranges { Some(s) => Some(s@), None => None }, n_vobus as int) is Some,
    ensures
        r@ == parse_range_spec(match ranges { Some(s) => Some(s@), None => None }, n_vobus as int).unwrap(),
{
    parse_range_checked(ranges, n_vobus).unwrap()
}

/// The start sector of every VOBU, as the `Admap` filter returns them.
pub fn admap_of(vts: &IndexedVts) -> (r: Vec<i64>)
    ensures
        r@.len() == vts@.vobus.len(),
        forall|k: int| 0 <= k < r@.len() ==> r@[k] == vts@.vobus[k].sector_start as i64,
{
    let mut out: Vec<i64> = Vec::new();
    let mut i: usize = 0;
    while i < vts.vobus.len()
        invariant
            i <= vts.vobus@.len(),
            out@.len() == i,
            forall|k: int| 0 <= k < i ==> out@[k] == vts@.vobus[k].sector_start as i64,
        decreases vts.vobus@.len() - i,
    {
        out.push(vts.vobus[i].sector_start as i64);
        i = i + 1;
    }
    out
}

/// The sectors of selected VOBU `i` of the index: from its start sector to
/// the next VOBU's start (or the end of the title set for the last).
/// `None` when a VOBU index is out of range or the sectors go backwards.
pub open spec fn vobu_sectors(vts: IndexedVtsView, i: int) -> Option<(int, int)> {
    if i < 0 || i >= vts.vobus.len() {
        None
    } else {
        let start = vts.vobus[i].sector_start as int;
        let end = if i == vts.vobus.len() - 1 { vts.total_size_blocks as int } else { vts.vobus[i + 1].sector_start as int };
        if end < start { None } else { Some((start, end)) }
    }
}

/// The byte offset of each sector of the selected VOBUs, in order: the
/// frames of the raw VOB clip.
pub open spec fn seek_table_spec(vts: IndexedVtsView, sel: Seq<int>) -> Option<Seq<u64>>
    decreases sel.len(),
{
    if sel.len() == 0 {
        Some(Seq::empty())
    } else {
        match seek_table_spec(vts, sel.drop_last()) {
            None => None,
            Some(prev) => match vobu_sectors(vts, sel.last()) {
                None => None,
                Some((start, end)) => Some(prev + Seq::new((end - start) as nat, |a: int| ((start + a) * 2048) as u64)),
            },
        }
    }
}

/// A table that fails on a prefix of the selection fails on all of it.
proof fn lemma_seek_table_none(vts: IndexedVtsView, sel: Seq<int>, m: int)
    requires
        0 <= m <= sel.len(),
        seek_table_spec(vts, sel.subrange(0, m)) is None,
    ensures
        seek_table_spec(vts, sel) is None,
    decreases sel.len(),
{
    if m == sel.len() {
        assert(sel.subrange(0, m) =~= sel);
    } else {
        assert(sel.drop_last().subrange(0, m) =~= sel.subrange(0, m));
        lemma_seek_table_none(vts, sel.drop_last(), m);
    }
}

/// Law: every entry of the sector table of the raw VOB clip is the byte
/// offset of a whole sector.
pub proof fn lemma_seek_table_sectors(vts: IndexedVtsView, sel: Seq<int>)
    requires
        seek_table_spec(vts, sel) is Some,
    ensures
        forall|k: int| 0 <= k < seek_table_spec(vts, sel).unwrap().len()
            ==> (#[trigger] seek_table_spec(vts, sel).unwrap()[k]) % 2048 == 0,
    decreases sel.len(),
{
    if sel.len() > 0 {
        lemma_seek_table_sectors(vts, sel.drop_last());
        let prev = seek_table_spec(vts, sel.drop_last()).unwrap();
        let (start, end) = vobu_sectors(vts, sel.last()).unwrap();
        let more = Seq::new((end - start) as nat, |a: int| ((start + a) * 2048) as u64);
        let t = prev + more;
        assert forall|k: int| 0 <= k < t.len() implies (#[trigger] t[k]) % 2048 == 0 by {
            if k >= prev.len() {
                let a = k - prev.len();
                assert(t[k] == more[a]);
                assert(0 <= start + a < 0x1_0000_0000);
                assert(((start + a) * 2048) < 0x1_0000_0000_0000_0000) by (nonlinear_arith)
                    requires 0 <= start + a < 0x1_0000_0000;
                assert(((start + a) * 2048) % 2048 == 0) by (nonlinear_arith)
                    requires 0 <= start + a;
            } else {
                assert(t[k] == prev[k]);
            }
        }
    }
}

/// The VOBU indices of an `EVobu` list.
pub open spec fn evobu_indices(s: Seq<EVobu>) -> Seq<int> {
    s.map_values(|e: EVobu| e.i as int)
}

/// The sector table of the raw VOB clip, or `None`, as `seek_table_spec`
/// says.
fn seek_table_checked(vts: &IndexedVts, vobus: &Vec<EVobu>) -> (r: Option<Vec<u64>>)
    ensures
        match seek_table_spec(vts@, evobu_indices(vobus@)) {
            None => r is None,
            Some(t) => r is Some && r.unwrap()@ == t,
        },
{
    let ghost sel = evobu_indices(vobus@);
    let n = vts.vobus.len();
    let mut out: Vec<u64> = Vec::new();
    let mut k: usize = 0;
    assert(sel.subrange(0, 0) =~= Seq::<int>::empty());
    while k < vobus.len()
        invariant
            k <= vobus@.len(),
            sel == evobu_indices(vobus@),
            n == vts@.vobus.len(),
            seek_table_spec(vts@, sel.subrange(0, k as int)) == Some(out@),
        decreases vobus@.len() - k,
    {
        let i = vobus[k].i;
        assert(sel.subrange(0, k + 1).drop_last() =~= sel.subrange(0, k as int));
        assert(sel.subrange(0, k + 1).last() == i);
        if i >= n {
            proof {
                lemma_seek_table_none(vts@, sel, k + 1);
            }
            return None;
        }
        let start = vts.vobus[i].sector_start;
        let end = if i == n - 1 { vts.total_size_blocks } else { vts.vobus[i + 1].sector_start };
        if end < start {
            proof {
                lemma_seek_table_none(vts@, sel, k + 1);
            }
            return None;
        }
        let ghost before = out@;
        let mut a: u32 = 0;
        while a < end - start
            invariant
                start <= end,
                a <= end - start,
                out@.len() == before.len() + a,
                forall|t: int| 0 <= t < before.len() ==> out@[t] == before[t],
                forall|t: int| before.len() <= t < before.len() + a ==> #[trigger] out@[t] == ((start + (t - before.len())) * 2048) as u64,
            decreases end - start - a,
        {
            out.push((start + a) as u64 * 2048);
            a = a + 1;
        }
        assert(out@ =~= before + Seq::new((end - start) as nat, |t: int| ((start + t) * 2048) as u64));
        k = k + 1;
    }
    assert(sel.subrange(0, vobus@.len() as int) =~= sel);
    Some(out)
}

/// Whether every selected VOBU lies in the index and ends no earlier than
/// it starts: `seek_lookup_table` accepts exactly these selections.
pub fn seek_table_possible(vts: &IndexedVts, vobus: &Vec<EVobu>) -> (r: bool)
    ensures
        r == seek_table_spec(vts@, evobu_indices(vobus@)) is Some,
{
    seek_table_checked(vts, vobus).is_some()
}

/// The sector table of the raw VOB clip, as `seek_table_spec` says: the
/// byte offset of every sector of the selected VOBUs, in order.
pub fn seek_lookup_table(vts: &IndexedVts, vobus: &Vec<EVobu>) -> (r: Vec<u64>)
    requires
        seek_table_spec(vts@, evobu_indices(vobus@)) is Some,
    ensures
        r@ == seek_table_spec(vts@, evobu_indices(vobus@)).unwrap(),
{
    seek_table_checked(vts, vobus).unwrap()
}

/// The frames of a VOBU: those of all its GOPs.
pub open spec fn vobu_frames(v: VobuView) -> int
    decreases v.gops.len(),
{
    if v.gops.len() == 0 {
        0
    } else {
        vobu_frames(VobuView { gops: v.gops.drop_last(), ..v }) + v.gops.last().frames.len()
    }
}

/// The frames of the VOBUs before `i`.
pub open spec fn frames_before(vs: Seq<VobuView>, i: int) -> int
    decreases i,
{
    if i <= 0 {
        0
    } else {
        frames_before(vs, i - 1) + vobu_frames(vs[i - 1])
    }
}

/// For each frame of the clip, the VOBU it lies in.
pub open spec fn vobu_lookup_spec(vs: Seq<VobuView>, i: int) -> Seq<usize>
    decreases i,
{
    if i <= 0 {
        Seq::empty()
    } else {
        vobu_lookup_spec(vs, i - 1) + Seq::new(vobu_frames(vs[i - 1]) as nat, |t: int| (i - 1) as usize)
    }
}

/// The frame tables of the video clip.
pub struct FrameTables {
    /// For each frame, its VOBU.
    pub vobu_lookup: Vec<usize>,
    /// For each VOBU, the number of the clip's first frame in it.
    pub absolute_frame: Vec<u64>,
    pub num_frames: usize,
}

/// The frame tables of a clip of VOBUs; `None` if the frame count
/// overflows.
pub fn frame_tables(vobus: &Vec<Vobu>) -> (r: Option<FrameTables>)
    ensures
        r is Some ==> {
            let vs = vobus_view(vobus@);
            let t = r.unwrap();
            &&& t.num_frames == frames_before(vs, vs.len() as int)
            &&& t.vobu_lookup@ == vobu_lookup_spec(vs, vs.len() as int)
            &&& t.absolute_frame@.len() == vs.len()
            &&& forall|i: int| 0 <= i < vs.len() ==> t.absolute_frame@[i] == frames_before(vs, i)
        },
        r is None ==> frames_before(vobus_view(vobus@), vobus@.len() as int) > usize::MAX,
{
    let ghost vs = vobus_view(vobus@);
    let mut num_frames: usize = 0;
    let mut vobu_lookup: Vec<usize> = Vec::new();
    let mut absolute_frame: Vec<u64> = Vec::new();
    let mut i: usize = 0;
    while i < vobus.len()
        invariant
            i <= vobus@.len(),
            vs == vobus_view(vobus@),
            vs.len() == vobus@.len(),
            num_frames == frames_before(vs, i as int),
            vobu_lookup@ == vobu_lookup_spec(vs, i as int),
            absolute_frame@.len() == i,
            forall|t: int| 0 <= t < i ==> absolute_frame@[t] == frames_before(vs, t),
        decreases vobus@.len() - i,
    {
        absolute_frame.push(num_frames as u64);
        let a = &vobus[i];
        let ghost base = num_frames as int;
        let ghost lk0 = vobu_lookup@;
        let mut g: usize = 0;
        while g < a.gops.len()
            invariant
                g <= a.gops@.len(),
                i < vs.len(),
                vs.len() == vobus@.len(),
                vs == vobus_view(vobus@),
                a@ == vs[i as int],
                base == frames_before(vs, i as int),
                num_frames >= base,
                num_frames == base + vobu_frames(VobuView { gops: a@.gops.subrange(0, g as int), ..a@ }),
                vobu_lookup@ == lk0 + Seq::new((num_frames - base) as nat, |t: int| i),
            decreases a.gops@.len() - g,
        {
            let ghost vg = VobuView { gops: a@.gops.subrange(0, g + 1), ..a@ };
            assert(vg.gops.drop_last() =~= a@.gops.subrange(0, g as int));
            assert(VobuView { gops: vg.gops.drop_last(), ..vg } == VobuView { gops: a@.gops.subrange(0, g as int), ..a@ });
            assert(vg.gops.last() == a.gops@[g as int]@);
            let fl = a.gops[g].frames.len();
            assert(vobu_frames(vg) == vobu_frames(VobuView { gops: a@.gops.subrange(0, g as int), ..a@ }) + fl);
            if num_frames > usize::MAX - fl {
                proof {
                    lemma_frames_mono(vs, a@, i as int, g as int + 1);
                }
                return None;
            }
            let mut t: usize = 0;
            while t < fl
                invariant
                    t <= fl,
                    num_frames >= base,
                    vobu_lookup@ == lk0 + Seq::new((num_frames - base + t) as nat, |q: int| i),
                decreases fl - t,
            {
                let ghost old_lk = vobu_lookup@;
                vobu_lookup.push(i);
                assert(old_lk.push(i) =~= lk0 + Seq::new((num_frames - base + t + 1) as nat, |q: int| i));
                t = t + 1;
            }
            num_frames = num_frames + fl;
            g = g + 1;
        }
        assert(a@.gops.subrange(0, a@.gops.len() as int) =~= a@.gops);
        assert(VobuView { gops: a@.gops, ..a@ } == a@);
        assert(vobu_lookup@ =~= vobu_lookup_spec(vs, i + 1));
        i = i + 1;
    }
    Some(FrameTables { vobu_lookup, absolute_frame, num_frames })
}

/// Frame counts are not negative.
proof fn lemma_vobu_frames_nonneg(v: VobuView)
    ensures
        vobu_frames(v) >= 0,
    decreases v.gops.len(),
{
    if v.gops.len() > 0 {
        lemma_vobu_frames_nonneg(VobuView { gops: v.gops.drop_last(), ..v });
    }
}

/// The frames of the first `g` GOPs of a VOBU are at most all its frames.
proof fn lemma_vobu_frames_prefix(v: VobuView, g: int)
    requires
        0 <= g <= v.gops.len(),
    ensures
        vobu_frames(VobuView { gops: v.gops.subrange(0, g), ..v }) <= vobu_frames(v),
    decreases v.gops.len() - g,
{
    if g == v.gops.len() {
        assert(v.gops.subrange(0, g) =~= v.gops);
        assert(VobuView { gops: v.gops.subrange(0, g), ..v } == v);
    } else {
        lemma_vobu_frames_prefix(v, g + 1);
        let w = VobuView { gops: v.gops.subrange(0, g + 1), ..v };
        assert(w.gops.drop_last() =~= v.gops.subrange(0, g));
        assert(VobuView { gops: w.gops.drop_last(), ..w } == VobuView { gops: v.gops.subrange(0, g), ..v });
    }
}

/// `frames_before` grows with the index.
proof fn lemma_frames_before_mono(vs: Seq<VobuView>, i: int, j: int)
    requires
        0 <= i <= j,
    ensures
        frames_before(vs, i) <= frames_before(vs, j),
    decreases j - i,
{
    if i < j {
        lemma_frames_before_mono(vs, i, j - 1);
        lemma_vobu_frames_nonneg(vs[j - 1]);
    }
}

/// Frame counts only grow along the clip.
proof fn lemma_frames_mono(vs: Seq<VobuView>, v: VobuView, i: int, g: int)
    requires
        0 <= i < vs.len(),
        v == vs[i],
        0 <= g <= v.gops.len(),
    ensures
        frames_before(vs, i) + vobu_frames(VobuView { gops: v.gops.subrange(0, g), ..v }) <= frames_before(vs, vs.len() as int),
{
    lemma_vobu_frames_prefix(v, g);
    lemma_frames_before_mono(vs, i + 1, vs.len() as int);
}

/// The lookup table has one entry per frame.
proof fn lemma_vobu_lookup_len(vs: Seq<VobuView>, i: int)
    requires
        0 <= i,
    ensures
        vobu_lookup_spec(vs, i).len() == frames_before(vs, i),
    decreases i,
{
    if i > 0 {
        lemma_vobu_lookup_len(vs, i - 1);
        lemma_vobu_frames_nonneg(vs[i - 1]);
    }
}

proof fn lemma_vobu_lookup_prefix(vs: Seq<VobuView>, i: int, f: int)
    requires
        0 <= i <= usize::MAX + 1,
        0 <= f < frames_before(vs, i),
    ensures
        0 <= vobu_lookup_spec(vs, i)[f] < i,
        frames_before(vs, vobu_lookup_spec(vs, i)[f] as int) <= f < frames_before(vs, vobu_lookup_spec(vs, i)[f] + 1),
    decreases i,
{
    if i > 0 {
        lemma_vobu_lookup_len(vs, i - 1);
        lemma_vobu_frames_nonneg(vs[i - 1]);
        if f < frames_before(vs, i - 1) {
            lemma_vobu_lookup_prefix(vs, i - 1, f);
        } else {
            assert(vobu_lookup_spec(vs, i)[f] == (i - 1) as usize);
        }
    }
}

/// Frame `f` of a clip lies in the VOBU that the lookup table gives for
/// it: at or after that VOBU's first frame, and before the next VOBU's.
pub proof fn lemma_vobu_lookup_brackets(vs: Seq<VobuView>, f: int)
    requires
        vs.len() <= usize::MAX,
        0 <= f < frames_before(vs, vs.len() as int),
    ensures
        vobu_lookup_spec(vs, vs.len() as int).len() == frames_before(vs, vs.len() as int),
        0 <= vobu_lookup_spec(vs, vs.len() as int)[f] < vs.len(),
        frames_before(vs, vobu_lookup_spec(vs, vs.len() as int)[f] as int) <= f,
        f < frames_before(vs, vobu_lookup_spec(vs, vs.len() as int)[f] + 1),
{
    lemma_vobu_lookup_len(vs, vs.len() as int);
    lemma_vobu_lookup_prefix(vs, vs.len() as int, f);
}

/// The frames of `s` with temporal reference `t`, in order.
pub open spec fn frames_with_tr(s: Seq<Frame>, t: int) -> Seq<Frame>
    decreases s.len(),
{
    if s.len() == 0 {
        Seq::empty()
    } else {
        frames_with_tr(s.drop_last(), t) + if s.last().temporal_reference as int == t { seq![s.last()] } else { Seq::empty() }
    }
}

/// The frames of `s` with temporal references below `t`, ordered by
/// temporal reference and, among equal ones, as in `s`.
pub open spec fn sorted_below(s: Seq<Frame>, t: int) -> Seq<Frame>
    decreases t,
{
    if t <= 0 {
        Seq::empty()
    } else {
        sorted_below(s, t - 1) + frames_with_tr(s, t - 1)
    }
}

/// `s` stably sorted by temporal reference, as `sort_by` on it does.
pub open spec fn sorted_by_tr(s: Seq<Frame>) -> Seq<Frame> {
    sorted_below(s, 256)
}

/// The frames of `s` with temporal reference below `t`, in order.
pub open spec fn frames_below(s: Seq<Frame>, t: int) -> Seq<Frame>
    decreases s.len(),
{
    if s.len() == 0 {
        Seq::empty()
    } else {
        frames_below(s.drop_last(), t) + if (s.last().temporal_reference as int) < t { seq![s.last()] } else { Seq::empty() }
    }
}

proof fn lemma_with_tr_all(s: Seq<Frame>, t: int)
    ensures
        forall|k: int| 0 <= k < frames_with_tr(s, t).len() ==> #[trigger] frames_with_tr(s, t)[k].temporal_reference == t,
    decreases s.len(),
{
    if s.len() > 0 {
        lemma_with_tr_all(s.drop_last(), t);
    }
}

proof fn lemma_sorted_below_sorted(s: Seq<Frame>, t: int)
    ensures
        forall|k: int| 0 <= k < sorted_below(s, t).len() ==> #[trigger] sorted_below(s, t)[k].temporal_reference < t,
        forall|i: int, j: int| 0 <= i <= j < sorted_below(s, t).len()
            ==> sorted_below(s, t)[i].temporal_reference <= sorted_below(s, t)[j].temporal_reference,
    decreases t,
{
    if t > 0 {
        lemma_sorted_below_sorted(s, t - 1);
        lemma_with_tr_all(s, t - 1);
        let a = sorted_below(s, t - 1);
        let b = frames_with_tr(s, t - 1);
        assert(sorted_below(s, t) == a + b);
        assert forall|k: int| 0 <= k < (a + b).len() implies #[trigger] (a + b)[k].temporal_reference < t by {
            if k >= a.len() {
                assert((a + b)[k] == b[k - a.len()]);
            }
        }
        assert forall|i: int, j: int| 0 <= i <= j < (a + b).len()
            implies (a + b)[i].temporal_reference <= (a + b)[j].temporal_reference by {
            if j >= a.len() {
                assert((a + b)[j] == b[j - a.len()]);
                if i >= a.len() {
                    assert((a + b)[i] == b[i - a.len()]);
                } else {
                    assert((a + b)[i] == a[i]);
                }
            } else {
                assert((a + b)[i] == a[i]);
                assert((a + b)[j] == a[j]);
            }
        }
    }
}

/// Sorting by temporal reference gives frames in non-decreasing order of
/// temporal reference.
pub proof fn lemma_sorted_by_tr_sorted(s: Seq<Frame>)
    ensures
        forall|i: int, j: int| 0 <= i <= j < sorted_by_tr(s).len()
            ==> sorted_by_tr(s)[i].temporal_reference <= sorted_by_tr(s)[j].temporal_reference,
{
    lemma_sorted_below_sorted(s, 256);
}

proof fn lemma_below_split(s: Seq<Frame>, t: int)
    ensures
        frames_below(s, t + 1).to_multiset() =~= frames_below(s, t).to_multiset().add(frames_with_tr(s, t).to_multiset()),
    decreases s.len(),
{
    broadcast use vstd::seq_lib::group_to_multiset_ensures;
    broadcast use vstd::multiset::group_multiset_axioms;
    if s.len() == 0 {
        assert(frames_below(s, t + 1) =~= s);
        assert(frames_below(s, t) =~= s);
        assert(frames_with_tr(s, t) =~= s);
        assert(s.to_multiset().len() == 0);
    } else {
        let d = s.drop_last();
        let x = s.last();
        lemma_below_split(d, t);
        if (x.temporal_reference as int) < t {
            assert(frames_below(s, t + 1) =~= frames_below(d, t + 1).push(x));
            assert(frames_below(s, t) =~= frames_below(d, t).push(x));
            assert(frames_with_tr(s, t) =~= frames_with_tr(d, t));
        } else if x.temporal_reference as int == t {
            assert(frames_below(s, t + 1) =~= frames_below(d, t + 1).push(x));
            assert(frames_below(s, t) =~= frames_below(d, t));
            assert(frames_with_tr(s, t) =~= frames_with_tr(d, t).push(x));
        } else {
            assert(frames_below(s, t + 1) =~= frames_below(d, t + 1));
            assert(frames_below(s, t) =~= frames_below(d, t));
            assert(frames_with_tr(s, t) =~= frames_with_tr(d, t));
        }
    }
}

proof fn lemma_below_none(s: Seq<Frame>)
    ensures
        frames_below(s, 0) =~= Seq::<Frame>::empty(),
    decreases s.len(),
{
    if s.len() > 0 {
        lemma_below_none(s.drop_last());
    }
}

proof fn lemma_below_every(s: Seq<Frame>)
    ensures
        frames_below(s, 256) =~= s,
    decreases s.len(),
{
    if s.len() > 0 {
        lemma_below_every(s.drop_last());
        assert(s.drop_last() + seq![s.last()] =~= s);
    }
}

proof fn lemma_sorted_below_multiset(s: Seq<Frame>, t: int)
    requires
        t >= 0,
    ensures
        sorted_below(s, t).to_multiset() =~= frames_below(s, t).to_multiset(),
    decreases t,
{
    broadcast use vstd::seq_lib::lemma_multiset_commutative;
    if t == 0 {
        lemma_below_none(s);
        assert(sorted_below(s, 0) =~= Seq::<Frame>::empty());
    } else {
        lemma_sorted_below_multiset(s, t - 1);
        lemma_below_split(s, t - 1);
    }
}

/// Sorting by temporal reference keeps every frame, as often as it occurs.
pub proof fn lemma_sorted_by_tr_permutes(s: Seq<Frame>)
    ensures
        sorted_by_tr(s).to_multiset() =~= s.to_multiset(),
{
    lemma_sorted_below_multiset(s, 256);
    lemma_below_every(s);
}

/// Sorts frames by temporal reference, keeping the order of equal ones.
pub fn sort_by_temporal_reference(frames: &Vec<Frame>) -> (r: Vec<Frame>)
    ensures
        r@ == sorted_by_tr(frames@),
{
    let mut out: Vec<Frame> = Vec::new();
    let mut t: u16 = 0;
    while t < 256
        invariant
            t <= 256,
            out@ == sorted_below(frames@, t as int),
        decreases 256 - t,
    {
        let ghost before = out@;
        let mut i: usize = 0;
        while i < frames.len()
            invariant
                t < 256,
                i <= frames@.len(),
                out@ == before + frames_with_tr(frames@.subrange(0, i as int), t as int),
            decreases frames@.len() - i,
        {
            assert(frames@.subrange(0, i + 1).drop_last() =~= frames@.subrange(0, i as int));
            let f = frames[i];
            if f.temporal_reference as u16 == t {
                out.push(f);
            }
            assert(out@ =~= before + frames_with_tr(frames@.subrange(0, i + 1), t as int));
            i = i + 1;
        }
        assert(frames@.subrange(0, frames@.len() as int) =~= frames@);
        t = t + 1;
    }
    out
}

/// The status byte of a frame in the info frame: top field first (1),
/// repeat first field (2), progressive frame (4), progressive sequence (8).
pub open spec fn status_byte(f: Frame, prog_sequence: bool) -> int {
    (if f.tff { 1int } else { 0 }) + (if f.rff { 2int } else { 0 }) + (if f.prog { 4int } else { 0 })
        + (if prog_sequence { 8int } else { 0 })
}

/// The info frame entry of a frame: status byte, VOB number (big-endian)
/// and cell number.
pub open spec fn frame_entry(f: Frame, prog_sequence: bool, vc: crate::index::VobCell) -> Seq<u8> {
    seq![status_byte(f, prog_sequence) as u8, (vc.vob as int / 256) as u8, (vc.vob as int % 256) as u8, vc.cell]
}

/// The entries of the frames `s` of a GOP.
pub open spec fn frames_entries(s: Seq<Frame>, prog_sequence: bool, vc: crate::index::VobCell) -> Seq<u8>
    decreases s.len(),
{
    if s.len() == 0 {
        Seq::empty()
    } else {
        frames_entries(s.drop_last(), prog_sequence, vc) + frame_entry(s.last(), prog_sequence, vc)
    }
}

/// The entries of the GOPs of a VOBU, each GOP's frames in display order.
pub open spec fn gops_entries(gops: Seq<GopView>, vc: crate::index::VobCell) -> Seq<u8>
    decreases gops.len(),
{
    if gops.len() == 0 {
        Seq::empty()
    } else {
        gops_entries(gops.drop_last(), vc) + frames_entries(sorted_by_tr(gops.last().frames), gops.last().prog_sequence, vc)
    }
}

/// The bytes of the info frame of a clip: four per frame, VOBU by VOBU.
pub open spec fn info_bytes(vs: Seq<VobuView>) -> Seq<u8>
    decreases vs.len(),
{
    if vs.len() == 0 {
        Seq::empty()
    } else {
        info_bytes(vs.drop_last()) + gops_entries(vs.last().gops, vs.last().vobcell)
    }
}

/// The info frame entry of a frame.
fn frame_entry_bytes(f: &Frame, prog_sequence: bool, vc: crate::index::VobCell) -> (r: [u8; 4])
    ensures
        r@ == frame_entry(*f, prog_sequence, vc),
{
    let mut status: u8 = 0;
    if f.tff {
        status = status + 1;
    }
    if f.rff {
        status = status + 2;
    }
    if f.prog {
        status = status + 4;
    }
    if prog_sequence {
        status = status + 8;
    }
    let vob0 = (vc.vob >> 8) as u8;
    let vob1 = (vc.vob & 0xFF) as u8;
    let vob = vc.vob;
    assert(vob0 as int == vob as int / 256 && vob1 as int == vob as int % 256) by (bit_vector)
        requires vob0 == (vob >> 8) as u8, vob1 == (vob & 0xFF) as u8;
    let r = [status, vob0, vob1, vc.cell];
    assert(r@ =~= frame_entry(*f, prog_sequence, vc));
    r
}

/// The bytes of the info frame, as `info_bytes` says.
pub fn info_frame_bytes(vobus: &Vec<Vobu>) -> (r: Vec<u8>)
    ensures
        r@ == info_bytes(vobus_view(vobus@)),
{
    let ghost vs = vobus_view(vobus@);
    let mut dada: Vec<u8> = Vec::new();
    let mut k: usize = 0;
    while k < vobus.len()
        invariant
            k <= vobus@.len(),
            vs == vobus_view(vobus@),
            vs.len() == vobus@.len(),
            dada@ == info_bytes(vs.subrange(0, k as int)),
        decreases vobus@.len() - k,
    {
        let a = &vobus[k];
        let ghost d0 = dada@;
        assert(vs.subrange(0, k + 1).drop_last() =~= vs.subrange(0, k as int));
        assert(vs.subrange(0, k + 1).last() == a@);
        let mut g: usize = 0;
        while g < a.gops.len()
            invariant
                g <= a.gops@.len(),
                a@.gops == gops_view(a.gops@),
                dada@ == d0 + gops_entries(a@.gops.subrange(0, g as int), a.vobcell),
            decreases a.gops@.len() - g,
        {
            let gg = &a.gops[g];
            assert(a@.gops.subrange(0, g + 1).drop_last() =~= a@.gops.subrange(0, g as int));
            assert(a@.gops.subrange(0, g + 1).last() == gg@);
            let frames = sort_by_temporal_reference(&gg.frames);
            let ghost d1 = dada@;
            let mut f: usize = 0;
            while f < frames.len()
                invariant
                    f <= frames@.len(),
                    dada@ == d1 + frames_entries(frames@.subrange(0, f as int), gg.prog_sequence, a.vobcell),
                decreases frames@.len() - f,
            {
                assert(frames@.subrange(0, f + 1).drop_last() =~= frames@.subrange(0, f as int));
                let e = frame_entry_bytes(&frames[f], gg.prog_sequence, a.vobcell);
                let ghost d2 = dada@;
                dada.push(e[0]);
                dada.push(e[1]);
                dada.push(e[2]);
                dada.push(e[3]);
                assert(dada@ =~= d2 + e@);
                assert(dada@ =~= d1 + frames_entries(frames@.subrange(0, f + 1), gg.prog_sequence, a.vobcell));
                f = f + 1;
            }
            assert(frames@.subrange(0, frames@.len() as int) =~= frames@);
            assert(dada@ =~= d0 + gops_entries(a@.gops.subrange(0, g + 1), a.vobcell));
            g = g + 1;
        }
        assert(a@.gops.subrange(0, a@.gops.len() as int) =~= a@.gops);
        assert(dada@ =~= info_bytes(vs.subrange(0, k + 1)));
        k = k + 1;
    }
    assert(vs.subrange(0, vs.len() as int) =~= vs);
    dada
}

/// What the decoder is fed after a VOBU's video.
#[derive(Debug, Clone, Copy, PartialEq, Eq)]
pub enum SeqTail {
    /// Nothing: the video ends with a sequence end code.
    Nothing,
    /// `00 00 01 B7`, a sequence end code: the clip's last VOBU.
    SequenceEnd,
    /// `00 00 01 B3`, a sequence header start code: another VOBU follows.
    SequenceHeader,
}

/// How a video frame request is decoded.
#[derive(Debug, Clone, Copy, PartialEq, Eq)]
pub struct DecodePlan {
    /// The VOBU that holds the frame.
    pub target_vobu: usize,
    /// Whether it is the clip's last VOBU.
    pub last_vobu: bool,
    /// Whether the previous VOBU is decoded first (its first GOP is open
    /// and the previous VOBU was not the last one decoded).
    pub decode_previous: bool,
    /// An open first GOP that has no previous VOBU to decode from.
    pub non_closed_gop_but_rebuf: bool,
    pub tail: SeqTail,
}

/// A `usize` read as the `i32` of its low 32 bits.
pub open spec fn usize_as_i32(x: int) -> int {
    let low = x % 0x1_0000_0000;
    if low > i32::MAX { low - 0x1_0000_0000 } else { low }
}

/// The plan for frame `n` of a clip with these VOBUs and frame table, when
/// VOBU `last_decoded` was decoded last. `None` when the request cannot be served:
/// `n` outside the frame table, a table entry outside the VOBUs, a VOBU
/// without GOPs.
pub open spec fn decode_plan_spec(vs: Seq<VobuView>, lookup: Seq<usize>, n: int, last_decoded: int) -> Option<DecodePlan> {
    if n < 0 || n >= lookup.len() || lookup[n] >= vs.len() || vs[lookup[n] as int].gops.len() == 0
        || usize_as_i32(lookup[n] as int) - 1 < i32::MIN {
        None
    } else {
        let t = lookup[n] as int;
        let v = vs[t];
        let rebuf = !(v.gops[0].closed || usize_as_i32(last_decoded) == usize_as_i32(t) - 1);
        let last = t == vs.len() - 1;
        Some(DecodePlan {
            target_vobu: t as usize,
            last_vobu: last,
            decode_previous: rebuf && t >= 1,
            non_closed_gop_but_rebuf: rebuf && !(t >= 1),
            tail: if v.mpeg2_has_seq_end { SeqTail::Nothing } else if last { SeqTail::SequenceEnd } else { SeqTail::SequenceHeader },
        })
    }
}

/// Law: the VOBU that a request for frame `n` decodes, with the tables of
/// `frame_tables`, is the one holding frame `n`: the frame lies between
/// that VOBU's first frame and the next VOBU's, and the display position
/// sought in it is the frame's offset from its first frame (modulo 256).
pub proof fn lemma_plan_targets_frame(vs: Seq<VobuView>, n: int, last_decoded: int)
    requires
        vs.len() <= usize::MAX,
        decode_plan_spec(vs, vobu_lookup_spec(vs, vs.len() as int), n, last_decoded) is Some,
    ensures
        ({
            let t = decode_plan_spec(vs, vobu_lookup_spec(vs, vs.len() as int), n, last_decoded).unwrap().target_vobu as int;
            &&& frames_before(vs, t) <= n < frames_before(vs, t + 1)
            &&& wanted_spec(n, frames_before(vs, t)) == Some(((n - frames_before(vs, t)) % 256) as u8)
        }),
{
    lemma_vobu_lookup_len(vs, vs.len() as int);
    lemma_vobu_lookup_brackets(vs, n);
    lemma_frames_before_mono(vs, 0, vobu_lookup_spec(vs, vs.len() as int)[n] as int);
}

/// The low 32 bits of a `usize` as an `i32`.
fn low_i32(x: usize) -> (r: i32)
    ensures
        r as int == usize_as_i32(x as int),
{
    let r = #[verifier::truncate] (x as i32);
    assert(r as int == usize_as_i32(x as int)) by (bit_vector)
        requires r == x as i32;
    r
}

/// How frame `n` is decoded, or `None`, as `decode_plan_spec` says.
fn decode_plan_checked(vobus: &Vec<Vobu>, vobu_lookup: &Vec<usize>, n: i32, last_decoded_vobu: usize) -> (r: Option<DecodePlan>)
    ensures
        r == decode_plan_spec(vobus_view(vobus@), vobu_lookup@, n as int, last_decoded_vobu as int),
{
    let ghost vs = vobus_view(vobus@);
    if n < 0 || n as usize >= vobu_lookup.len() {
        return None;
    }
    let t = vobu_lookup[n as usize];
    if t >= vobus.len() {
        return None;
    }
    let v = &vobus[t];
    assert(v@ == vs[t as int]);
    if v.gops.len() == 0 {
        return None;
    }
    assert(v@.gops[0] == v.gops@[0]@);
    let ti = low_i32(t);
    if ti == i32::MIN {
        return None;
    }
    let li = low_i32(last_decoded_vobu);
    let rebuf = !(v.gops[0].closed || li == ti - 1);
    let last = t == vobus.len() - 1;
    let tail = if v.mpeg2_has_seq_end {
        SeqTail::Nothing
    } else if last {
        SeqTail::SequenceEnd
    } else {
        SeqTail::SequenceHeader
    };
    Some(DecodePlan {
        target_vobu: t,
        last_vobu: last,
        decode_previous: rebuf && t >= 1,
        non_closed_gop_but_rebuf: rebuf && !(t >= 1),
        tail,
    })
}

/// Whether frame `n` can be decoded: it is in the frame table, its VOBU
/// exists and holds a GOP. `decode_plan` serves exactly these requests.
pub fn decode_plan_possible(vobus: &Vec<Vobu>, vobu_lookup: &Vec<usize>, n: i32) -> (r: bool)
    ensures
        forall|l: int| r == #[trigger] decode_plan_spec(vobus_view(vobus@), vobu_lookup@, n as int, l) is Some,
{
    decode_plan_checked(vobus, vobu_lookup, n, 0).is_some()
}

/// How frame `n` is decoded when VOBU `last_decoded_vobu` was decoded
/// last, as `decode_plan_spec` says, for a frame that can be decoded.
pub fn decode_plan(vobus: &Vec<Vobu>, vobu_lookup: &Vec<usize>, n: i32, last_decoded_vobu: usize) -> (r: DecodePlan)
    requires
        decode_plan_spec(vobus_view(vobus@), vobu_lookup@, n as int, last_decoded_vobu as int) is Some,
    ensures
        r == decode_plan_spec(vobus_view(vobus@), vobu_lookup@, n as int, last_decoded_vobu as int).unwrap(),
{
    decode_plan_checked(vobus, vobu_lookup, n, last_decoded_vobu).unwrap()
}

/// The display positions, within a VOBU, of its frames in decode order:
/// each frame's temporal reference plus the offset of its GOP, and the
/// offset after the last GOP. A GOP's offset is the previous one plus the
/// previous GOP's frame count modulo 256. `None` when a position or an
/// offset passes 255.
pub open spec fn display_positions_spec(gops: Seq<GopView>) -> Option<(Seq<u8>, int)>
    decreases gops.len(),
{
    if gops.len() == 0 {
        Some((Seq::empty(), 0))
    } else {
        match display_positions_spec(gops.drop_last()) {
            None => None,
            Some((prev, offset)) => {
                let fr = gops.last().frames;
                if exists|k: int| 0 <= k < fr.len() && #[trigger] fr[k].temporal_reference + offset > 255 {
                    None
                } else if offset + fr.len() % 256 > 255 {
                    None
                } else {
                    Some((prev + Seq::new(fr.len(), |k: int| (fr[k].temporal_reference + offset) as u8), offset + fr.len() % 256))
                }
            },
        }
    }
}

/// The display positions of a VOBU's frames, or `None`, as
/// `display_positions_spec` says.
fn positions_checked(vobu: &Vobu) -> (r: Option<Vec<u8>>)
    ensures
        r is None <==> display_positions_spec(vobu@.gops) is None,
        r is Some ==> r.unwrap()@ == display_positions_spec(vobu@.gops).unwrap().0,
{
    let ghost gv = vobu@.gops;
    let mut out: Vec<u8> = Vec::new();
    let mut offset: u8 = 0;
    let mut g: usize = 0;
    assert(gv.subrange(0, 0) =~= Seq::<GopView>::empty());
    while g < vobu.gops.len()
        invariant
            g <= vobu.gops@.len(),
            gv == gops_view(vobu.gops@),
            gv == vobu@.gops,
            gv.len() == vobu.gops@.len(),
            display_positions_spec(gv.subrange(0, g as int)) == Some((out@, offset as int)),
        decreases vobu.gops@.len() - g,
    {
        let frames = &vobu.gops[g].frames;
        let ghost sub = gv.subrange(0, g + 1);
        assert(sub.drop_last() =~= gv.subrange(0, g as int));
        assert(sub.last() == vobu.gops@[g as int]@);
        let ghost before = out@;
        let mut k: usize = 0;
        while k < frames.len()
            invariant
                k <= frames@.len(),
                g < gv.len(),
                gv == vobu@.gops,
                gv.len() == vobu.gops@.len(),
                sub == gv.subrange(0, g + 1),
                sub.drop_last() == gv.subrange(0, g as int),
                sub.last().frames == frames@,
                display_positions_spec(gv.subrange(0, g as int)) == Some((before, offset as int)),
                out@.len() == before.len() + k,
                forall|q: int| 0 <= q < before.len() ==> out@[q] == before[q],
                forall|q: int| 0 <= q < k ==> #[trigger] frames@[q].temporal_reference + offset <= 255,
                forall|q: int| 0 <= q < k ==> out@[before.len() + q] == (frames@[q].temporal_reference + offset) as u8,
            decreases frames@.len() - k,
        {
            let tr = frames[k].temporal_reference;
            if tr > 255 - offset {
                assert(sub.last().frames[k as int].temporal_reference + offset > 255);
                assert(display_positions_spec(sub) is None);
                proof {
                    lemma_display_none_extends(gv, g as int + 1);
                }
                return None;
            }
            out.push(tr + offset);
            k = k + 1;
        }
        assert(out@ =~= before + Seq::new(frames@.len(), |q: int| (frames@[q].temporal_reference + offset) as u8));
        let fl = frames.len();
        let fl8 = #[verifier::truncate] (fl as u8);
        assert(fl8 as int == fl as int % 256) by (bit_vector)
            requires fl8 == fl as u8;
        if fl8 > 255 - offset {
            assert(display_positions_spec(sub) is None);
            proof {
                lemma_display_none_extends(gv, g as int + 1);
            }
            return None;
        }
        offset = offset + fl8;
        g = g + 1;
    }
    assert(gv.subrange(0, gv.len() as int) =~= gv);
    Some(out)
}

/// Whether the display positions of a VOBU's frames stay within a byte:
/// `display_positions` accepts exactly these VOBUs.
pub fn display_positions_possible(vobu: &Vobu) -> (r: bool)
    ensures
        r == display_positions_spec(vobu@.gops) is Some,
{
    positions_checked(vobu).is_some()
}

/// The display positions of a VOBU's frames in decode order, as
/// `display_positions_spec` says.
pub fn display_positions(vobu: &Vobu) -> (r: Vec<u8>)
    requires
        display_positions_spec(vobu@.gops) is Some,
    ensures
        r@ == display_positions_spec(vobu@.gops).unwrap().0,
{
    positions_checked(vobu).unwrap()
}

/// The temporal references of a GOP's frames are below its frame count,
/// each used once.
pub open spec fn trs_distinct_below(frames: Seq<Frame>) -> bool {
    &&& forall|k: int| 0 <= k < frames.len() ==> (#[trigger] frames[k].temporal_reference) < frames.len()
    &&& forall|i: int, j: int| 0 <= i < j < frames.len()
        ==> #[trigger] frames[i].temporal_reference != #[trigger] frames[j].temporal_reference
}

/// Law: when each GOP of a VOBU (of fewer than 256 frames) numbers its
/// frames for display `0 .. n` each once, the display positions of the
/// VOBU's decoded pictures number them `0 .. total` each once: every
/// frame of the VOBU is found among its decoded pictures, exactly once.
pub proof fn lemma_display_positions_distinct(gops: Seq<GopView>)
    requires
        forall|g: int| 0 <= g < gops.len() ==> (#[trigger] gops[g]).frames.len() < 256 && trs_distinct_below(gops[g].frames),
        display_positions_spec(gops) is Some,
    ensures
        ({
            let (pos, off) = display_positions_spec(gops).unwrap();
            &&& pos.len() == off
            &&& forall|k: int| 0 <= k < pos.len() ==> (#[trigger] pos[k]) < off
            &&& forall|i: int, j: int| 0 <= i < j < pos.len() ==> #[trigger] pos[i] != #[trigger] pos[j]
        }),
    decreases gops.len(),
{
    if gops.len() > 0 {
        let d = gops.drop_last();
        assert forall|g: int| 0 <= g < d.len() implies (#[trigger] d[g]).frames.len() < 256 && trs_distinct_below(d[g].frames) by {
            assert(d[g] == gops[g]);
        }
        lemma_display_positions_distinct(d);
        let (prev, off) = display_positions_spec(d).unwrap();
        let fr = gops.last().frames;
        assert(fr.len() < 256 && trs_distinct_below(fr)) by {
            assert(gops[gops.len() - 1] == gops.last());
        }
        let new = Seq::new(fr.len(), |k: int| (fr[k].temporal_reference + off) as u8);
        let pos = prev + new;
        assert(!(exists|k: int| 0 <= k < fr.len() && #[trigger] fr[k].temporal_reference + off > 255));
        assert(display_positions_spec(gops) == Some((pos, off + fr.len() % 256)));
        assert(fr.len() % 256 == fr.len());
        assert forall|k: int| 0 <= k < new.len() implies (#[trigger] new[k]) == fr[k].temporal_reference + off by {
            assert(fr[k].temporal_reference + off <= 255);
        }
        assert forall|k: int| 0 <= k < pos.len() implies (#[trigger] pos[k]) < off + fr.len() by {
            if k >= prev.len() {
                assert(pos[k] == new[k - prev.len()]);
                assert(fr[k - prev.len()].temporal_reference < fr.len());
            } else {
                assert(pos[k] == prev[k]);
            }
        }
        assert forall|i: int, j: int| 0 <= i < j < pos.len() implies #[trigger] pos[i] != #[trigger] pos[j] by {
            if j < prev.len() {
                assert(pos[i] == prev[i] && pos[j] == prev[j]);
            } else if i < prev.len() {
                assert(pos[i] == prev[i]);
                assert(pos[j] == new[j - prev.len()]);
            } else {
                assert(pos[i] == new[i - prev.len()]);
                assert(pos[j] == new[j - prev.len()]);
                assert(fr[i - prev.len()].temporal_reference != fr[j - prev.len()].temporal_reference);
            }
        }
    }
}

/// Positions that fail on a prefix of the GOPs fail on all of them.
proof fn lemma_display_none_extends(gv: Seq<GopView>, m: int)
    ensures
        0 <= m <= gv.len() && display_positions_spec(gv.subrange(0, m)) is None ==> display_positions_spec(gv) is None,
    decreases gv.len(),
{
    if 0 <= m <= gv.len() && display_positions_spec(gv.subrange(0, m)) is None {
        if m == gv.len() {
            assert(gv.subrange(0, m) =~= gv);
        } else {
            assert(gv.drop_last().subrange(0, m) =~= gv.subrange(0, m));
            lemma_display_none_extends(gv.drop_last(), m);
        }
    }
}

/// The display position frame `n` of the clip has in its VOBU, whose first
/// frame is frame `first`: `n - first` modulo 256. `None` when `n` comes
/// before `first`.
pub open spec fn wanted_spec(n: int, first: int) -> Option<u8> {
    if n < 0 || n < first {
        None
    } else {
        Some(((n - first) % 256) as u8)
    }
}

/// The display position frame `n` of the clip has in its VOBU, whose
/// first frame `first` is no later, as `wanted_spec` says.
pub fn wanted_position(n: i32, first: u64) -> (r: u8)
    requires
        0 <= n,
        first <= n,
    ensures
        wanted_spec(n as int, first as int) == Some(r),
{
    let d = n as u64 - first;
    let r = #[verifier::truncate] (d as u8);
    assert(r as int == d as int % 256) by (bit_vector)
        requires r == d as u8;
    r
}

/// Whether the frame decoded in slot `slice_idx` of a GOP is blanked: only
/// for an open GOP without a previous VOBU, and then when it is displayed
/// before the GOP's leading frame, which must be an I frame.
pub fn blank_frame(frames: &Vec<Frame>, slice_idx: usize, non_closed_gop_but_rebuf: bool) -> (r: bool)
    requires
        non_closed_gop_but_rebuf ==> frames@.len() > 0 && frames@[0].frametype == FrameType::I && slice_idx < frames@.len(),
    ensures
        r == (non_closed_gop_but_rebuf
            && frames@[slice_idx as int].temporal_reference < frames@[0].temporal_reference),
{
    if !non_closed_gop_but_rebuf {
        return false;
    }
    frames[slice_idx].temporal_reference < frames[0].temporal_reference
}

/// The key under which a decoded frame at display position `pos` of a VOBU
/// whose first frame is `first` is cached: `first` (as `i32`, from its low
/// 32 bits) plus `pos`; `None` on `i32` overflow.
pub open spec fn cache_key_spec(first: int, pos: int) -> Option<i32> {
    let low = first % 0x1_0000_0000;
    let f = if low > i32::MAX { low - 0x1_0000_0000 } else { low };
    if f + pos > i32::MAX {
        None
    } else {
        Some((f + pos) as i32)
    }
}

/// Whether the frame number of display position `pos` of a VOBU starting
/// at frame `first` fits in `i32`, as `cache_key` needs.
pub fn cache_key_fits(first: u64, pos: u8) -> (r: bool)
    ensures
        r == cache_key_spec(first as int, pos as int) is Some,
{
    let f = low_i32_of_u64(first);
    f <= i32::MAX - pos as i32
}

/// The key of a decoded frame, as `cache_key_spec` says.
pub fn cache_key(first: u64, pos: u8) -> (r: i32)
    requires
        cache_key_spec(first as int, pos as int) is Some,
    ensures
        cache_key_spec(first as int, pos as int) == Some(r),
{
    let f = low_i32_of_u64(first);
    f + pos as i32
}

/// The low 32 bits of a `u64` as an `i32`.
fn low_i32_of_u64(first: u64) -> (f: i32)
    ensures
        f as int == (if first as int % 0x1_0000_0000 > i32::MAX { first as int % 0x1_0000_0000 - 0x1_0000_0000 } else { first as int % 0x1_0000_0000 }),
{
    let f = #[verifier::truncate] (first as i32);
    assert(f as int == (if first as int % 0x1_0000_0000 > i32::MAX { first as int % 0x1_0000_0000 - 0x1_0000_0000 } else { first as int % 0x1_0000_0000 })) by (bit_vector)
        requires f == first as i32;
    f
}

/// Law: a decoded frame at display position `pos` of a VOBU starting at
/// frame `first` is cached under the number of the frame it is, so that
/// the request for that frame number picks exactly this position.
pub proof fn lemma_cache_key_is_request(first: u64, pos: u8)
    requires
        first + pos <= i32::MAX,
    ensures
        cache_key_spec(first as int, pos as int) == Some((first + pos) as i32),
        wanted_spec(first + pos, first as int) == Some(pos),
{
    assert((pos as int) % 256 == pos as int);
}

/// What becomes of a picture the decoder produced for a request: it is the
/// requested frame, or it is kept in the frame cache under its frame
/// number.
#[derive(Debug, Clone, Copy, PartialEq, Eq)]
pub enum FramePlace {
    Answer,
    Cache(i32),
}

/// Where the picture at display position `pos` of a VOBU starting at frame
/// `first` goes, when the request wants display position `wanted`: `None`
/// where its frame number leaves `i32`.
pub open spec fn place_spec(pos: u8, wanted: u8, first: int) -> Option<FramePlace> {
    if wanted == pos {
        Some(FramePlace::Answer)
    } else {
        match cache_key_spec(first, pos as int) {
            Some(k) => Some(FramePlace::Cache(k)),
            None => None,
        }
    }
}

/// Where the picture decoded `decode_index`-th goes, with `positions` the
/// display positions of the VOBU's decoded pictures, as `place_spec` says;
/// a picture to be cached must have a frame number in `i32`.
pub fn place_decoded(positions: &Vec<u8>, decode_index: u8, wanted: u8, first: u64) -> (r: FramePlace)
    requires
        (decode_index as int) < positions@.len(),
        place_spec(positions@[decode_index as int], wanted, first as int) is Some,
    ensures
        place_spec(positions@[decode_index as int], wanted, first as int) == Some(r),
{
    let pos = positions[decode_index as usize];
    if wanted == pos {
        FramePlace::Answer
    } else {
        FramePlace::Cache(cache_key(first, pos))
    }
}

/// Law: when the display positions of a VOBU's decoded pictures are
/// distinct, at most one of them answers a request; every other one is
/// cached under its own frame number, no two under the same.
pub proof fn lemma_one_answer(positions: Seq<u8>, wanted: u8, first: u64, i: int, j: int)
    requires
        forall|a: int, b: int| 0 <= a < b < positions.len() ==> #[trigger] positions[a] != #[trigger] positions[b],
        0 <= i < j < positions.len(),
    ensures
        !(place_spec(positions[i], wanted, first as int) == Some(FramePlace::Answer)
            && place_spec(positions[j], wanted, first as int) == Some(FramePlace::Answer)),
        forall|ki: i32, kj: i32| place_spec(positions[i], wanted, first as int) == Some(FramePlace::Cache(ki))
            && place_spec(positions[j], wanted, first as int) == Some(FramePlace::Cache(kj)) ==> ki != kj,
{
    let a = positions[i] as int;
    let b = positions[j] as int;
    assert(a != b);
    let low = first as int % 0x1_0000_0000;
    let f = if low > i32::MAX { low - 0x1_0000_0000 } else { low };
    if f + a <= i32::MAX && f + b <= i32::MAX {
        assert(i32::MIN <= f + a && i32::MIN <= f + b);
        assert((f + a) as i32 as int == f + a);
        assert((f + b) as i32 as int == f + b);
        assert(cache_key_spec(first as int, a) == Some((f + a) as i32));
        assert(cache_key_spec(first as int, b) == Some((f + b) as i32));
    }
}

/// How many frames the frame cache may hold: once a request leaves it
/// with this many or more, it is emptied.
pub const FRAME_CACHE_LIMIT: usize = 80;

/// Whether a frame cache holding `len` frames is emptied after a request.
pub fn cache_needs_clear(len: usize) -> (r: bool)
    ensures
        r == (len >= FRAME_CACHE_LIMIT),
{
    len >= FRAME_CACHE_LIMIT
}

/// Colour primaries of a video frame.
#[derive(Debug, Clone, Copy, PartialEq, Eq)]
pub enum ColorPrimaries {
    Bt709,
    Bt470M,
    Bt470Bg,
    St170M,
    St240M,
    Unspecified,
}

/// Transfer characteristics of a video frame.
#[derive(Debug, Clone, Copy, PartialEq, Eq)]
pub enum TransferCharacteristics {
    Bt709,
    Bt470M,
    Bt470Bg,
    Bt601,
    St240M,
    Linear,
    Unspecified,
}

/// Matrix coefficients of a video frame.
#[derive(Debug, Clone, Copy, PartialEq, Eq)]
pub enum MatrixCoefficients {
    Bt709,
    Fcc,
    Bt470Bg,
    St170M,
    St240M,
    Unspecified,
}

/// The primaries an MPEG-2 `colour_primaries` code stands for; codes that
/// are forbidden, reserved or unspecified give `Unspecified`.
pub fn color_primaries(code: u8) -> (r: ColorPrimaries)
    ensures
        code == 1 ==> r == ColorPrimaries::Bt709,
        code == 4 ==> r == ColorPrimaries::Bt470M,
        code == 5 ==> r == ColorPrimaries::Bt470Bg,
        code == 6 ==> r == ColorPrimaries::St170M,
        code == 7 ==> r == ColorPrimaries::St240M,
        !(code == 1 || 4 <= code <= 7) ==> r == ColorPrimaries::Unspecified,
{
    match code {
        1 => ColorPrimaries::Bt709,
        4 => ColorPrimaries::Bt470M,
        5 => ColorPrimaries::Bt470Bg,
        6 => ColorPrimaries::St170M,
        7 => ColorPrimaries::St240M,
        _ => ColorPrimaries::Unspecified,
    }
}

/// The transfer an MPEG-2 `transfer_characteristics` code stands for
/// (6, SMPTE 170M, is BT.601).
pub fn transfer_characteristics(code: u8) -> (r: TransferCharacteristics)
    ensures
        code == 1 ==> r == TransferCharacteristics::Bt709,
        code == 4 ==> r == TransferCharacteristics::Bt470M,
        code == 5 ==> r == TransferCharacteristics::Bt470Bg,
        code == 6 ==> r == TransferCharacteristics::Bt601,
        code == 7 ==> r == TransferCharacteristics::St240M,
        code == 8 ==> r == TransferCharacteristics::Linear,
        !(code == 1 || 4 <= code <= 8) ==> r == TransferCharacteristics::Unspecified,
{
    match code {
        1 => TransferCharacteristics::Bt709,
        4 => TransferCharacteristics::Bt470M,
        5 => TransferCharacteristics::Bt470Bg,
        6 => TransferCharacteristics::Bt601,
        7 => TransferCharacteristics::St240M,
        8 => TransferCharacteristics::Linear,
        _ => TransferCharacteristics::Unspecified,
    }
}

/// The matrix an MPEG-2 `matrix_coefficients` code stands for.
pub fn matrix_coefficients(code: u8) -> (r: MatrixCoefficients)
    ensures
        code == 1 ==> r == MatrixCoefficients::Bt709,
        code == 4 ==> r == MatrixCoefficients::Fcc,
        code == 5 ==> r == MatrixCoefficients::Bt470Bg,
        code == 6 ==> r == MatrixCoefficients::St170M,
        code == 7 ==> r == MatrixCoefficients::St240M,
        !(code == 1 || 4 <= code <= 7) ==> r == MatrixCoefficients::Unspecified,
{
    match code {
        1 => MatrixCoefficients::Bt709,
        4 => MatrixCoefficients::Fcc,
        5 => MatrixCoefficients::Bt470Bg,
        6 => MatrixCoefficients::St170M,
        7 => MatrixCoefficients::St240M,
        _ => MatrixCoefficients::Unspecified,
    }
}

/// Field order of a frame.
#[derive(Debug, Clone, Copy, PartialEq, Eq)]
pub enum FieldBased {
    Progressive,
    Bottom,
    Top,
}

/// A progressive frame is progressive; an interlaced one is top or bottom
/// field first.
pub fn field_based(tff: bool, prog: bool) -> (r: FieldBased)
    ensures
        prog ==> r == FieldBased::Progressive,
        !prog && tff ==> r == FieldBased::Top,
        !prog && !tff ==> r == FieldBased::Bottom,
{
    if !prog {
        if tff { FieldBased::Top } else { FieldBased::Bottom }
    } else {
        FieldBased::Progressive
    }
}

/// The sample aspect ratio a frame is tagged with: none unless the
/// sequence gives a pixel size; then the ratio libmpeg2 guessed from it,
/// or, where it guessed none, the pixel size itself.
pub fn sar_choice(pixel_width: u32, pixel_height: u32, guessed: Option<(u32, u32)>) -> (r: Option<(u32, u32)>)
    ensures
        r == if pixel_width > 0 && pixel_height > 0 {
            Some(match guessed {
                Some(g) => g,
                None => (pixel_width, pixel_height),
            })
        } else {
            None
        },
{
    if pixel_width > 0 && pixel_height > 0 {
        match guessed {
            Some(g) => Some(g),
            None => Some((pixel_width, pixel_height)),
        }
    } else {
        None
    }
}

} // verus!
