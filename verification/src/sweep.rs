//! LDS packets gathered into sweeps, and a sweep gathered into angular bins.
use vstd::prelude::*;

use crate::lds::{LdsFrame, LdsScanner, LDS_SAMPLES};

verus! {

/// A start angle that falls by more than this many u16 units begins a new sweep.
pub const FSA_WRAP: i32 = 8192;

/// More bins than this are no scan.
pub const MAX_BINS: usize = 4096;

/// One return of a sweep: the raw angle, in units of `LDS_ANGLE_FULL` to the circle, and the
/// distance in mm.
#[derive(Debug, Clone, Copy, PartialEq, Eq)]
pub struct SweepPoint {
    pub angle: u16,
    pub dist_mm: u16,
}

/// The returns among the first `n` samples of a packet.
pub open spec fn returns_of(f: LdsFrame, n: int) -> Seq<SweepPoint>
    decreases n,
{
    if n <= 0 {
        Seq::empty()
    } else {
        let s = f.samples[n - 1];
        let front = returns_of(f, n - 1);
        if s.valid && s.dist_mm != 0 {
            front.push(SweepPoint { angle: f.angle_of(n - 1) as u16, dist_mm: s.dist_mm })
        } else {
            front
        }
    }
}

/// Whether a packet that starts at `fsa` begins a new sweep.
pub open spec fn begins_sweep(prev_fsa: Option<u16>, fsa: u16) -> bool {
    match prev_fsa {
        Some(pf) => pf - fsa > FSA_WRAP,
        None => false,
    }
}

/// The points gathered once the packet `f` has come.
pub open spec fn gathered(pts: Seq<SweepPoint>, prev_fsa: Option<u16>, f: LdsFrame) -> Seq<
    SweepPoint,
> {
    if begins_sweep(prev_fsa, f.fsa) {
        returns_of(f, 8)
    } else {
        pts + returns_of(f, 8)
    }
}

/// The sweep that the packet `f` ends, if it ends one that has any points.
pub open spec fn ended(pts: Seq<SweepPoint>, prev_fsa: Option<u16>, f: LdsFrame) -> Option<
    Seq<SweepPoint>,
> {
    if begins_sweep(prev_fsa, f.fsa) && pts.len() > 0 {
        Some(pts)
    } else {
        None
    }
}

/// Accumulates LDS packets into arc sweeps. Push each decoded frame; the points of a full
/// sweep are returned when the arc restarts (`fsa` jumps backwards).
pub struct Sweep {
    pub pts: Vec<SweepPoint>,
    pub prev_fsa: Option<u16>,
}

impl Sweep {
    pub fn new() -> (s: Self)
        ensures
            s.pts@ == Seq::<SweepPoint>::empty(),
            s.prev_fsa is None,
    {
        Sweep { pts: Vec::with_capacity(256), prev_fsa: None }
    }

    /// The points of the sweep that this packet ends, if it ends one that has any.
    pub fn push(&mut self, f: &LdsFrame) -> (done: Option<Vec<SweepPoint>>)
        ensures
            final(self).prev_fsa == Some(f.fsa),
            final(self).pts@ == gathered(old(self).pts@, old(self).prev_fsa, *f),
            (match done {
                Some(points) => Some(points@),
                None => None,
            }) == ended(old(self).pts@, old(self).prev_fsa, *f),
    {
        let mut done: Option<Vec<SweepPoint>> = None;
        if let Some(pf) = self.prev_fsa {
            if (pf as i32 - f.fsa as i32) > FSA_WRAP {
                let mut points: Vec<SweepPoint> = Vec::with_capacity(256);
                std::mem::swap(&mut points, &mut self.pts);
                if points.len() > 0 {
                    done = Some(points);
                }
            }
        }
        self.prev_fsa = Some(f.fsa);
        let ghost start = self.pts@;
        assert(start =~= start + returns_of(*f, 0));
        for k in 0..LDS_SAMPLES
            invariant
                self.prev_fsa == Some(f.fsa),
                self.pts@ == start + returns_of(*f, k as int),
        {
            let s = f.samples[k];
            let ghost front = returns_of(*f, k as int);
            if s.valid && s.dist_mm != 0 {
                assert(f.span() * (k as int % 0x1_0000_0000) <= u32::MAX) by (nonlinear_arith)
                    requires
                        0 <= f.span() < 0x1_0000,
                        0 <= k < 8,
                ;
                let p = SweepPoint { angle: f.sample_angle(k), dist_mm: s.dist_mm };
                self.pts.push(p);
                assert(self.pts@ =~= start + front.push(p));
            }
        }
        assert(Seq::<SweepPoint>::empty() + returns_of(*f, 8) =~= returns_of(*f, 8));
        done
    }
}

/// The points gathered, and the start angle of the last packet, once all of `frames` have come.
pub open spec fn gathered_from(
    pts: Seq<SweepPoint>,
    prev_fsa: Option<u16>,
    frames: Seq<LdsFrame>,
) -> (Seq<SweepPoint>, Option<u16>)
    decreases frames.len(),
{
    if frames.len() == 0 {
        (pts, prev_fsa)
    } else {
        let (p, f) = gathered_from(pts, prev_fsa, frames.drop_last());
        (gathered(p, f, frames.last()), Some(frames.last().fsa))
    }
}

/// The sweeps that `frames` end, in order.
pub open spec fn sweeps_in(
    pts: Seq<SweepPoint>,
    prev_fsa: Option<u16>,
    frames: Seq<LdsFrame>,
) -> Seq<Seq<SweepPoint>>
    decreases frames.len(),
{
    if frames.len() == 0 {
        Seq::empty()
    } else {
        let front = sweeps_in(pts, prev_fsa, frames.drop_last());
        let (p, f) = gathered_from(pts, prev_fsa, frames.drop_last());
        match ended(p, f, frames.last()) {
            Some(sweep) => front.push(sweep),
            None => front,
        }
    }
}

/// Sweeps by their points.
pub open spec fn points_of(sweeps: Seq<Vec<SweepPoint>>) -> Seq<Seq<SweepPoint>> {
    sweeps.map_values(|v: Vec<SweepPoint>| v@)
}

/// Reads the LDS stream into sweeps.
pub struct LdsReader {
    pub scanner: LdsScanner,
    pub sweep: Sweep,
}

impl LdsReader {
    pub fn new() -> (r: Self)
        ensures
            r.scanner@ == Seq::<u8>::empty(),
            r.sweep.pts@ == Seq::<SweepPoint>::empty(),
            r.sweep.prev_fsa is None,
    {
        LdsReader { scanner: LdsScanner::new(), sweep: Sweep::new() }
    }

    /// Take in the next bytes of the stream, and say which sweeps they end.
    pub fn receive(&mut self, bytes: &[u8]) -> (out: Vec<Vec<SweepPoint>>)
        ensures
            final(self).scanner@ == crate::lds::lds_scan(old(self).scanner@, bytes@),
            (final(self).sweep.pts@, final(self).sweep.prev_fsa) == gathered_from(
                old(self).sweep.pts@,
                old(self).sweep.prev_fsa,
                crate::lds::frames_in(old(self).scanner@, bytes@),
            ),
            points_of(out@) == sweeps_in(
                old(self).sweep.pts@,
                old(self).sweep.prev_fsa,
                crate::lds::frames_in(old(self).scanner@, bytes@),
            ),
    {
        let mut out: Vec<Vec<SweepPoint>> = Vec::new();
        let ghost start = self.scanner@;
        let ghost pts = self.sweep.pts@;
        let ghost prev = self.sweep.prev_fsa;
        assert(bytes@.take(0) =~= Seq::<u8>::empty());
        assert(points_of(out@) =~= Seq::<Seq<SweepPoint>>::empty());
        for i in 0..bytes.len()
            invariant
                start == old(self).scanner@,
                pts == old(self).sweep.pts@,
                prev == old(self).sweep.prev_fsa,
                self.scanner@ == crate::lds::lds_scan(start, bytes@.take(i as int)),
                (self.sweep.pts@, self.sweep.prev_fsa) == gathered_from(
                    pts,
                    prev,
                    crate::lds::frames_in(start, bytes@.take(i as int)),
                ),
                points_of(out@) == sweeps_in(
                    pts,
                    prev,
                    crate::lds::frames_in(start, bytes@.take(i as int)),
                ),
        {
            let b: u8 = bytes[i];
            let ghost frames = crate::lds::frames_in(start, bytes@.take(i as int));
            proof {
                assert(bytes@.take(i + 1) =~= bytes@.take(i as int).push(b));
                crate::lds::lemma_lds_one_more(start, bytes@.take(i as int), b);
            }
            if let Some(f) = self.scanner.push(b) {
                assert(frames.push(f).drop_last() =~= frames);
                let ghost before = points_of(out@);
                if let Some(points) = self.sweep.push(&f) {
                    out.push(points);
                    assert(points_of(out@) =~= before.push(points@));
                }
            }
        }
        assert(bytes@.take(bytes@.len() as int) =~= bytes@);
        out
    }
}

/// The points of `sweeps`, one sweep after the other.
pub open spec fn joined(sweeps: Seq<Seq<SweepPoint>>) -> Seq<SweepPoint>
    decreases sweeps.len(),
{
    if sweeps.len() == 0 {
        Seq::empty()
    } else {
        joined(sweeps.drop_last()) + sweeps.last()
    }
}

/// The returns of all of `frames`, in order.
pub open spec fn all_returns(frames: Seq<LdsFrame>) -> Seq<SweepPoint>
    decreases frames.len(),
{
    if frames.len() == 0 {
        Seq::empty()
    } else {
        all_returns(frames.drop_last()) + returns_of(frames.last(), 8)
    }
}

/// No return is lost or repeated, wherever the sweeps are cut: the sweeps that were ended and
/// the points still gathered are all that came in, in order.
pub proof fn law_sweeps_keep_every_return(
    pts: Seq<SweepPoint>,
    prev_fsa: Option<u16>,
    frames: Seq<LdsFrame>,
)
    ensures
        joined(sweeps_in(pts, prev_fsa, frames)) + gathered_from(pts, prev_fsa, frames).0 == pts
            + all_returns(frames),
    decreases frames.len(),
{
    let sweeps = sweeps_in(pts, prev_fsa, frames);
    let (now, _) = gathered_from(pts, prev_fsa, frames);
    if frames.len() > 0 {
        let front = frames.drop_last();
        law_sweeps_keep_every_return(pts, prev_fsa, front);
        let before = sweeps_in(pts, prev_fsa, front);
        let (p, f) = gathered_from(pts, prev_fsa, front);
        if let Some(sweep) = ended(p, f, frames.last()) {
            assert(before.push(sweep).drop_last() =~= before);
        }
        let last = returns_of(frames.last(), 8);
        assert(joined(sweeps) + now =~= joined(before) + p + last);
        assert(joined(sweeps) + now =~= pts + all_returns(frames));
    } else {
        assert(joined(sweeps) + now =~= pts + all_returns(frames));
    }
}

/// The bin that a point given for bin `i` falls into: the last one where `i` is too large.
pub open spec fn bin_index(i: usize, n: int) -> int {
    if i < n {
        i as int
    } else {
        n - 1
    }
}

/// `d` is the nearest distance among the points of bin `i`, or there are none.
pub open spec fn is_nearest(points: Seq<(usize, u16)>, n: int, i: int, d: Option<u16>) -> bool {
    match d {
        Some(m) => {
            &&& exists|j: int|
                0 <= j < points.len() && bin_index(#[trigger] points[j].0, n) == i && points[j].1
                    == m
            &&& forall|j: int|
                0 <= j < points.len() && bin_index(#[trigger] points[j].0, n) == i ==> m
                    <= points[j].1
        },
        None => forall|j: int|
            0 <= j < points.len() ==> bin_index(#[trigger] points[j].0, n) != i,
    }
}

/// The nearest return of each of `n` angular bins, from `(bin, distance)` pairs. `None` where
/// there is no point, no bin, or more bins than a scan can have.
pub fn nearest_per_bin(points: &[(usize, u16)], n: usize) -> (r: Option<Vec<Option<u16>>>)
    ensures
        r is Some <==> points@.len() > 0 && 0 < n <= MAX_BINS,
        r matches Some(ranges) ==> {
            &&& ranges@.len() == n
            &&& forall|i: int| 0 <= i < n ==> is_nearest(points@, n as int, i, #[trigger] ranges@[i])
        },
{
    if points.len() == 0 || n == 0 || n > MAX_BINS {
        return None;
    }
    let mut ranges: Vec<Option<u16>> = Vec::with_capacity(n);
    for k in 0..n
        invariant
            ranges@.len() == k,
            forall|i: int| 0 <= i < k ==> ranges@[i] is None,
    {
        ranges.push(None);
    }
    for k in 0..points.len()
        invariant
            n > 0,
            ranges@.len() == n,
            forall|i: int|
                0 <= i < n ==> is_nearest(
                    points@.take(k as int),
                    n as int,
                    i,
                    #[trigger] ranges@[i],
                ),
    {
        let (bin, d): (usize, u16) = points[k];
        let i: usize = if bin < n {
            bin
        } else {
            n - 1
        };
        let ghost before = ranges@;
        let nearer: bool = match ranges[i] {
            Some(m) => d < m,
            None => true,
        };
        if nearer {
            ranges.set(i, Some(d));
        }
        proof {
            let seen = points@.take(k as int);
            let now = points@.take(k + 1);
            assert(now =~= seen.push((bin, d)));
            assert forall|x: int| 0 <= x < n implies is_nearest(
                now,
                n as int,
                x,
                #[trigger] ranges@[x],
            ) by {
                assert(is_nearest(seen, n as int, x, before[x]));
                assert(forall|j: int| 0 <= j < seen.len() ==> now[j] == seen[j]);
                assert(now[k as int] == (bin, d));
                if let Some(m) = before[x] {
                    let j = choose|j: int|
                        0 <= j < seen.len() && bin_index(#[trigger] seen[j].0, n as int) == x
                            && seen[j].1 == m;
                    assert(now[j] == seen[j]);
                }
            }
        }
    }
    assert(points@.take(points@.len() as int) =~= points@);
    Some(ranges)
}

/// A sweep ends with a packet that starts more than 8192 units before the last one: the points
/// gathered so far are then given out, if there are any, and gathering starts over. Any other
/// packet adds its points.
pub proof fn law_sweep_ends_where_the_angle_falls(
    pts: Seq<SweepPoint>,
    prev_fsa: Option<u16>,
    f: LdsFrame,
)
    ensures
        prev_fsa matches Some(last) && last - f.fsa > 8192 ==> {
            &&& gathered(pts, prev_fsa, f) == returns_of(f, 8)
            &&& pts.len() > 0 ==> ended(pts, prev_fsa, f) == Some(pts)
            &&& pts.len() == 0 ==> ended(pts, prev_fsa, f) is None
        },
        !(prev_fsa matches Some(last) && last - f.fsa > 8192) ==> {
            &&& gathered(pts, prev_fsa, f) == pts + returns_of(f, 8)
            &&& ended(pts, prev_fsa, f) is None
        },
{
}

/// Each valid sample with a distance gives one point, at its own angle and distance, and no
/// other sample gives one; the points stand in the order of the samples.
pub proof fn law_each_return_gives_a_point(f: LdsFrame, k: int)
    requires
        0 <= k < 8,
    ensures
        returns_of(f, 0) == Seq::<SweepPoint>::empty(),
        f.samples[k].valid && f.samples[k].dist_mm != 0 ==> returns_of(f, k + 1) == returns_of(
            f,
            k,
        ).push(SweepPoint { angle: f.angle_of(k) as u16, dist_mm: f.samples[k].dist_mm }),
        !(f.samples[k].valid && f.samples[k].dist_mm != 0) ==> returns_of(f, k + 1) == returns_of(
            f,
            k,
        ),
        0 <= f.angle_of(k) < 65536,
{
}

/// A bin beyond the last one counts as the last one.
pub proof fn law_points_beyond_the_bins_fall_into_the_last(i: usize, n: int)
    requires
        0 < n,
    ensures
        i < n ==> bin_index(i, n) == i,
        i >= n ==> bin_index(i, n) == n - 1,
{
}

/// Packets are gathered one after the other: what a stream of them ends is what its first part
/// ends, and then what its second part ends with what was gathered of the first.
pub proof fn law_packets_are_gathered_in_order(
    pts: Seq<SweepPoint>,
    prev_fsa: Option<u16>,
    a: Seq<LdsFrame>,
    b: Seq<LdsFrame>,
    f: LdsFrame,
)
    ensures
        ({
            let (p, last) = gathered_from(pts, prev_fsa, a);
            &&& gathered_from(pts, prev_fsa, a + b) == gathered_from(p, last, b)
            &&& sweeps_in(pts, prev_fsa, a + b) == sweeps_in(pts, prev_fsa, a) + sweeps_in(
                p,
                last,
                b,
            )
        }),
        gathered_from(pts, prev_fsa, seq![f]) == (gathered(pts, prev_fsa, f), Some(f.fsa)),
        ended(pts, prev_fsa, f) matches Some(sweep) ==> sweeps_in(pts, prev_fsa, seq![f]) == seq![
            sweep,
        ],
        ended(pts, prev_fsa, f) is None ==> sweeps_in(pts, prev_fsa, seq![f]) == Seq::<
            Seq<SweepPoint>,
        >::empty(),
    decreases b.len(),
{
    let one = seq![f];
    assert(one.drop_last() =~= Seq::<LdsFrame>::empty());
    assert(gathered_from(pts, prev_fsa, Seq::empty()) == (pts, prev_fsa));
    assert(sweeps_in(pts, prev_fsa, Seq::empty()) == Seq::<Seq<SweepPoint>>::empty());
    if let Some(sweep) = ended(pts, prev_fsa, f) {
        assert(sweeps_in(pts, prev_fsa, one) =~= seq![sweep]);
    }
    let (p, last) = gathered_from(pts, prev_fsa, a);
    if b.len() == 0 {
        assert(a + b =~= a);
        assert(sweeps_in(pts, prev_fsa, a) + sweeps_in(p, last, b) =~= sweeps_in(pts, prev_fsa, a));
    } else {
        law_packets_are_gathered_in_order(pts, prev_fsa, a, b.drop_last(), f);
        assert((a + b).drop_last() =~= a + b.drop_last());
        assert((a + b).last() == b.last());
        assert(sweeps_in(pts, prev_fsa, a + b) =~= sweeps_in(pts, prev_fsa, a) + sweeps_in(
            p,
            last,
            b,
        ));
    }
}

/// What one more point does to the nearest distance of a bin: it counts in its own bin alone,
/// where it is the first or nearer than the nearest so far. A bin without points has none, and
/// no bin has two.
pub proof fn law_one_more_point_in_a_bin(
    points: Seq<(usize, u16)>,
    n: int,
    i: int,
    near: Option<u16>,
    bin: usize,
    d: u16,
    other: Option<u16>,
)
    requires
        0 <= i < n,
        is_nearest(points, n, i, near),
    ensures
        ({
            let more = points.push((bin, d));
            let own = bin == i || (bin >= n && i == n - 1);
            &&& is_nearest(Seq::empty(), n, i, None)
            &&& is_nearest(points, n, i, other) ==> other == near
            &&& !own ==> is_nearest(more, n, i, near)
            &&& own ==> (near matches Some(m) ==> m <= d ==> is_nearest(more, n, i, near))
            &&& own ==> (near matches Some(m) ==> d < m ==> is_nearest(more, n, i, Some(d)))
            &&& own && near is None ==> is_nearest(more, n, i, Some(d))
        }),
{
    let more = points.push((bin, d));
    let k = points.len() as int;
    assert(more[k] == (bin, d));
    assert(forall|j: int| 0 <= j < k ==> more[j] == points[j]);
    if let Some(m) = near {
        let j = choose|j: int|
            0 <= j < points.len() && bin_index(#[trigger] points[j].0, n) == i && points[j].1 == m;
        assert(bin_index(points[j].0, n) == i && points[j].1 == m);
        assert(bin_index(more[j].0, n) == i && more[j].1 == m);
    }
    assert(bin_index(more[k].0, n) == bin_index(bin, n));
}

/// What a packet or bytes of the stream do is what the laws on sweeps speak of.
pub proof fn law_receive_gathers_every_packet(f: LdsFrame, bytes: &[u8])
    ensures
        forall|s: &mut Sweep, done: Option<Vec<SweepPoint>>| #[trigger]
            call_ensures(Sweep::push, (s, &f), done) ==> {
                &&& final(s).prev_fsa == Some(f.fsa)
                &&& final(s).pts@ == gathered(s.pts@, s.prev_fsa, f)
                &&& ended(s.pts@, s.prev_fsa, f) is None ==> done is None
                &&& (ended(s.pts@, s.prev_fsa, f) matches Some(sweep) ==> (done matches Some(v)
                    && v@ == sweep))
            },
        forall|rx: &mut LdsReader, out: Vec<Vec<SweepPoint>>| #[trigger]
            call_ensures(LdsReader::receive, (rx, bytes), out) ==> {
                let frames = crate::lds::frames_in(rx.scanner@, bytes@);
                let sweeps = sweeps_in(rx.sweep.pts@, rx.sweep.prev_fsa, frames);
                &&& final(rx).scanner@ == crate::lds::lds_scan(rx.scanner@, bytes@)
                &&& (final(rx).sweep.pts@, final(rx).sweep.prev_fsa) == gathered_from(
                    rx.sweep.pts@,
                    rx.sweep.prev_fsa,
                    frames,
                )
                &&& out@.len() == sweeps.len()
                &&& forall|i: int| 0 <= i < out@.len() ==> (#[trigger] out@[i])@ == sweeps[i]
            },
{
    assert forall|rx: &mut LdsReader, out: Vec<Vec<SweepPoint>>| #[trigger]
        call_ensures(LdsReader::receive, (rx, bytes), out) implies {
        let sweeps = sweeps_in(
            rx.sweep.pts@,
            rx.sweep.prev_fsa,
            crate::lds::frames_in(rx.scanner@, bytes@),
        );
        &&& out@.len() == sweeps.len()
        &&& forall|i: int| 0 <= i < out@.len() ==> (#[trigger] out@[i])@ == sweeps[i]
    } by {
        let sweeps = sweeps_in(
            rx.sweep.pts@,
            rx.sweep.prev_fsa,
            crate::lds::frames_in(rx.scanner@, bytes@),
        );
        assert forall|i: int| 0 <= i < out@.len() implies (#[trigger] out@[i])@ == sweeps[i] by {
            assert(points_of(out@)[i] == out@[i]@);
        }
    }
}

/// The scan has one entry per bin, for 1 to 4096 bins and where there are points. A bin holds
/// the distance of one of its points, and none of them is nearer; points beyond the bins count
/// in the last one. It is empty where it has none.
pub proof fn law_scan_holds_the_nearest(
    points: &[(usize, u16)],
    n: usize,
    r: Option<Vec<Option<u16>>>,
    j: int,
)
    requires
        call_ensures(nearest_per_bin, (points, n), r),
        0 <= j < points@.len(),
    ensures
        r is Some <==> 0 < n <= 4096,
        r matches Some(ranges) ==> {
            let bin: int = if points@[j].0 < n {
                points@[j].0 as int
            } else {
                n - 1
            };
            &&& ranges@.len() == n
            &&& ranges@[bin] matches Some(m) && m <= points@[j].1
            &&& forall|i: int|
                0 <= i < n ==> (#[trigger] ranges@[i] matches Some(m) ==> exists|k: int|
                    0 <= k < points@.len() && #[trigger] points@[k].1 == m && (points@[k].0 == i
                        || (points@[k].0 >= n && i == n - 1)))
        },
{
    if let Some(ranges) = r {
        let bin = bin_index(points@[j].0, n as int);
        assert(is_nearest(points@, n as int, bin, ranges@[bin]));
        assert forall|i: int| 0 <= i < n implies (#[trigger] ranges@[i] matches Some(m)
            ==> exists|k: int|
            0 <= k < points@.len() && #[trigger] points@[k].1 == m && (points@[k].0 == i || (
            points@[k].0 >= n && i == n - 1))) by {
            assert(is_nearest(points@, n as int, i, ranges@[i]));
            if let Some(m) = ranges@[i] {
                let k = choose|k: int|
                    0 <= k < points@.len() && bin_index(#[trigger] points@[k].0, n as int) == i
                        && points@[k].1 == m;
                assert(points@[k].1 == m);
            }
        }
    }
}

/// A reader starts with nothing gathered.
pub proof fn law_reader_starts_empty(r: LdsReader, s: Sweep)
    requires
        call_ensures(LdsReader::new, (), r),
        call_ensures(Sweep::new, (), s),
    ensures
        r.scanner@.len() == 0 && r.sweep.pts@.len() == 0 && r.sweep.prev_fsa is None,
        s.pts@.len() == 0 && s.prev_fsa is None,
{
}

} // verus!
