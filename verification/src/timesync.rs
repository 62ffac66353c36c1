//! Clock sync over SNTP.
//!
//! ROS 2 rejects transforms whose time is off by a second or so, and the robot's clock boots
//! seconds off and drifts. Before the DDS participant exists the clock may be stepped; after
//! that it is only slewed, which never moves it backward. Times here are in nanoseconds.
use vstd::prelude::*;

verus! {

/// Seconds between the NTP epoch (1900) and the Unix epoch (1970).
pub const NTP_UNIX_DELTA: u32 = 2_208_988_800;

/// Length of an NTP packet.
pub const NTP_LEN: usize = 48;

/// Nanoseconds in a second.
pub const NS_PER_S: i128 = 1_000_000_000;

/// An offset beyond this is not believed.
pub const MAX_OFFSET_NS: i128 = 3_600_000_000_000;

/// An offset beyond this is stepped at startup.
pub const STEP_THRESHOLD_NS: i128 = 20_000_000;

/// The request: leap indicator 0, version 3, client mode, and zeros.
pub fn ntp_request() -> (r: [u8; NTP_LEN])
    ensures
        r@[0] == 0x1b,
        forall|i: int| 1 <= i < NTP_LEN ==> r@[i] == 0,
{
    let mut r: [u8; NTP_LEN] = [0u8; NTP_LEN];
    r[0] = 0x1b;
    r
}

/// The big-endian number at `o`.
pub open spec fn be32(p: Seq<u8>, o: int) -> int {
    p[o] * 0x100_0000 + p[o + 1] * 0x1_0000 + p[o + 2] * 0x100 + p[o + 3]
}

/// A timestamp at `o`, seconds since 1900 and then their fraction in units of 2^-32, as
/// nanoseconds since 1970, rounded down.
pub open spec fn stamp_ns(p: Seq<u8>, o: int) -> int {
    (be32(p, o) - NTP_UNIX_DELTA) * NS_PER_S + be32(p, o + 4) * NS_PER_S / 0x1_0000_0000
}

/// Whether a timestamp lies after 1970. A server that is not synchronised sends none that
/// does.
pub open spec fn is_synced(p: Seq<u8>, o: int) -> bool {
    be32(p, o) > NTP_UNIX_DELTA || (be32(p, o) == NTP_UNIX_DELTA && be32(p, o + 4) > 0)
}

/// When the server got the request and when it sent the reply.
#[derive(Debug, Clone, Copy, PartialEq, Eq)]
pub struct NtpReply {
    pub received_ns: i64,
    pub sent_ns: i64,
}

fn u32be(p: &[u8], o: usize) -> (r: u32)
    requires
        o <= 44,
        p@.len() >= NTP_LEN,
    ensures
        r == be32(p@, o as int),
{
    let (a, b, c, d): (u8, u8, u8, u8) = (p[o], p[o + 1], p[o + 2], p[o + 3]);
    a as u32 * 0x100_0000 + b as u32 * 0x1_0000 + c as u32 * 0x100 + d as u32
}

fn stamp(p: &[u8], o: usize) -> (r: Option<i64>)
    requires
        o <= 40,
        p@.len() >= NTP_LEN,
    ensures
        r is Some <==> is_synced(p@, o as int),
        r matches Some(ns) ==> ns == stamp_ns(p@, o as int),
{
    let sec: u32 = u32be(p, o);
    let frac: u32 = u32be(p, o + 4);
    if sec < NTP_UNIX_DELTA || (sec == NTP_UNIX_DELTA && frac == 0) {
        return None;
    }
    let whole: u64 = (sec - NTP_UNIX_DELTA) as u64 * 1_000_000_000;
    let part: u64 = frac as u64 * 1_000_000_000 / 0x1_0000_0000;
    Some((whole + part) as i64)
}

/// Read a reply. `None` where it is cut short, or comes from a server that is not
/// synchronised.
pub fn parse_reply(p: &[u8]) -> (r: Option<NtpReply>)
    ensures
        r is Some <==> p@.len() >= NTP_LEN && is_synced(p@, 32) && is_synced(p@, 40),
        r matches Some(reply) ==> {
            &&& reply.received_ns == stamp_ns(p@, 32)
            &&& reply.sent_ns == stamp_ns(p@, 40)
        },
{
    if p.len() < NTP_LEN {
        return None;
    }
    match (stamp(p, 32), stamp(p, 40)) {
        (Some(received_ns), Some(sent_ns)) => Some(NtpReply { received_ns, sent_ns }),
        _ => None,
    }
}

/// The quotient rounded toward zero.
pub open spec fn truncated(a: int, b: int) -> int {
    if a >= 0 {
        a / b
    } else {
        -((-a) / b)
    }
}

/// How far our clock is behind (positive) or ahead, from when we sent the request (`t1`), when
/// the server got it (`t2`), when it sent the reply (`t3`) and when we got that (`t4`).
pub open spec fn offset_of(t1: int, t2: int, t3: int, t4: int) -> int {
    truncated((t2 - t1) + (t3 - t4), 2)
}

/// The clock offset that a reply shows: positive is behind. `sent_at` and `got_at` are when
/// the request was sent and the reply received, by our clock.
pub fn offset_ns(sent_at: u64, reply: &NtpReply, got_at: u64) -> (r: i128)
    ensures
        r == offset_of(
            sent_at as int,
            reply.received_ns as int,
            reply.sent_ns as int,
            got_at as int,
        ),
{
    let sum: i128 = (reply.received_ns as i128 - sent_at as i128) + (reply.sent_ns as i128
        - got_at as i128);
    sum / 2
}

/// The offsets in ascending order.
pub open spec fn ascending(offs: Seq<i128>) -> Seq<i128> {
    offs.sort_by(|a: i128, b: i128| a <= b)
}

/// The median of the offsets that came in, the upper one of two; `None` where none did.
pub fn median(offs: &[i128]) -> (r: Option<i128>)
    ensures
        r == (if offs@.len() == 0 {
            None
        } else {
            Some(ascending(offs@)[offs@.len() as int / 2])
        }),
{
    if offs.len() == 0 {
        return None;
    }
    let mut sorted: Vec<i128> = Vec::with_capacity(offs.len());
    assert(sorted@ =~= offs@.take(0));
    for i in 0..offs.len()
        invariant
            sorted@.len() == i,
            sorted@.to_multiset() == offs@.take(i as int).to_multiset(),
            forall|a: int, b: int| 0 <= a < b < sorted@.len() ==> sorted@[a] <= sorted@[b],
    {
        let x: i128 = offs[i];
        let mut k: usize = i;
        while k > 0 && sorted[k - 1] > x
            invariant
                k <= i,
                sorted@.len() == i,
                forall|a: int, b: int| 0 <= a < b < sorted@.len() ==> sorted@[a] <= sorted@[b],
                forall|a: int| k <= a < i ==> sorted@[a] > x,
            decreases k,
        {
            k -= 1;
        }
        let ghost before = sorted@;
        sorted.insert(k, x);
        proof {
            vstd::seq_lib::to_multiset_insert(before, k as int, x);
            vstd::seq_lib::to_multiset_build(offs@.take(i as int), x);
            assert(offs@.take(i + 1) =~= offs@.take(i as int).push(x));
        }
    }
    proof {
        let leq = |a: i128, b: i128| a <= b;
        assert(offs@.take(offs@.len() as int) =~= offs@);
        assert(vstd::relations::total_ordering(leq));
        offs@.lemma_sort_by_ensures(leq);
        assert(vstd::relations::sorted_by(sorted@, leq));
        vstd::seq_lib::lemma_sorted_unique(sorted@, offs@.sort_by(leq), leq);
    }
    Some(sorted[offs.len() / 2])
}

/// The distance of an offset from zero.
pub open spec fn distance(off: int) -> int {
    if off >= 0 {
        off
    } else {
        -off
    }
}

/// What to do about the clock at startup.
#[derive(Debug, Clone, Copy, PartialEq, Eq)]
pub enum StartupSync {
    /// The offset is absurd; leave the clock.
    Ignore,
    /// Step the clock by the offset.
    Step,
    /// The clock is close enough.
    Keep,
    /// No server answered; leave the clock.
    NoReply,
}

/// What to do at startup about the offset that was found, if one was: step where it is off by
/// more than `STEP_THRESHOLD_NS`, but not by more than an hour.
pub fn initial_step(sample: Option<i128>) -> (r: StartupSync)
    ensures
        sample is None <==> r == StartupSync::NoReply,
        sample matches Some(off) ==> {
            &&& r == StartupSync::Ignore <==> distance(off as int) > MAX_OFFSET_NS
            &&& r == StartupSync::Step <==> STEP_THRESHOLD_NS < distance(off as int)
                <= MAX_OFFSET_NS
            &&& r == StartupSync::Keep <==> distance(off as int) <= STEP_THRESHOLD_NS
        },
{
    match sample {
        None => StartupSync::NoReply,
        Some(off) => if off > MAX_OFFSET_NS || off < -MAX_OFFSET_NS {
            StartupSync::Ignore
        } else if off > STEP_THRESHOLD_NS || off < -STEP_THRESHOLD_NS {
            StartupSync::Step
        } else {
            StartupSync::Keep
        },
    }
}

/// Whether a later offset is slewed: an absurd one is not.
pub fn slews(off: i128) -> (r: bool)
    ensures
        r == (distance(off as int) <= MAX_OFFSET_NS),
{
    -MAX_OFFSET_NS <= off && off <= MAX_OFFSET_NS
}

/// Seconds and microseconds of a time or of a signed difference, both rounded toward zero.
pub fn timeval(ns: i128) -> (r: (i64, i64))
    requires
        i64::MIN <= truncated(ns as int, NS_PER_S as int) <= i64::MAX,
    ensures
        r.0 == truncated(ns as int, NS_PER_S as int),
        r.1 == truncated(ns - r.0 * NS_PER_S, 1000),
{
    let sec: i128 = ns / NS_PER_S;
    assert(-1_000_000_000 < ns - sec * NS_PER_S < 1_000_000_000);
    let usec: i128 = (ns - sec * NS_PER_S) / 1000;
    (sec as i64, usec as i64)
}

/// A server that is ahead of us by `d`, over a way that takes as long there as back, shows
/// the offset `d` exactly, however long the way is and the server takes. Ways that differ by
/// `u` shift it by half of that.
pub proof fn law_offset_compensates_the_way(t1: int, way: int, d: int, busy: int, u: int)
    ensures
        ({
            let t2 = t1 + way + d;
            let t3 = t2 + busy;
            let t4 = t3 - d + way + u;
            &&& u == 0 ==> offset_of(t1, t2, t3, t4) == d
            &&& -1 <= 2 * (offset_of(t1, t2, t3, t4) - d) + u <= 1
        }),
{
}

/// Seconds and microseconds make up the time again, to the microsecond.
pub proof fn law_timeval_keeps_the_time(ns: int)
    ensures
        ({
            let sec = truncated(ns, NS_PER_S as int);
            let usec = truncated(ns - sec * NS_PER_S, 1000);
            &&& sec * 1_000_000 + usec == truncated(ns, 1000)
            &&& distance(usec) < 1_000_000
            &&& ns >= 0 ==> sec >= 0 && usec >= 0
            &&& ns <= 0 ==> sec <= 0 && usec <= 0
        }),
{
}

/// The median is one of the offsets, with at most half of them on either side.
pub proof fn law_median_is_in_the_middle(offs: Seq<i128>)
    requires
        offs.len() > 0,
    ensures
        ({
            let s = ascending(offs);
            let m = s[offs.len() as int / 2];
            &&& s.to_multiset() == offs.to_multiset()
            &&& s.len() == offs.len()
            &&& offs.contains(m)
            &&& forall|i: int| 0 <= i < offs.len() / 2 ==> #[trigger] s[i] <= m
            &&& forall|i: int| offs.len() / 2 <= i < offs.len() ==> m <= #[trigger] s[i]
        }),
{
    let leq = |a: i128, b: i128| a <= b;
    assert(vstd::relations::total_ordering(leq));
    offs.lemma_sort_by_ensures(leq);
    let s = ascending(offs);
    let k = offs.len() as int / 2;
    vstd::seq_lib::to_multiset_len(offs);
    vstd::seq_lib::to_multiset_len(s);
    assert(s.contains(s[k]));
    assert forall|i: int| 0 <= i < k implies #[trigger] s[i] <= s[k] by {
        assert(leq(s[i], s[k]));
    }
    assert forall|i: int| k <= i < offs.len() implies s[k] <= #[trigger] s[i] by {
        if k < i {
            assert(leq(s[k], s[i]));
        }
    }
}

/// A timestamp is 32 bits of seconds since 1900 and 32 bits of their fraction, high byte first.
/// It is taken as the whole nanoseconds since 1970, 2208988800 seconds later, that it holds, and
/// counts only where it lies after 1970.
pub proof fn law_timestamps_count_from_1970(p: Seq<u8>, o: int)
    requires
        0 <= o <= p.len() - 8,
    ensures
        ({
            let sec = 16777216 * p[o] + 65536 * p[o + 1] + 256 * p[o + 2] + p[o + 3];
            let frac = 16777216 * p[o + 4] + 65536 * p[o + 5] + 256 * p[o + 6] + p[o + 7];
            let part = stamp_ns(p, o) - (sec - 2_208_988_800) * 1_000_000_000;
            &&& 4_294_967_296 * part <= 1_000_000_000 * frac < 4_294_967_296 * (part + 1)
            &&& is_synced(p, o) <==> 4_294_967_296 * (sec - 2_208_988_800) + frac > 0
        }),
{
}

/// Rounding toward zero gives the largest quotient that the dividend reaches, with its sign.
pub proof fn law_rounding_toward_zero(a: int, b: int)
    requires
        b > 0,
    ensures
        a >= 0 ==> truncated(a, b) >= 0 && truncated(a, b) * b <= a < (truncated(a, b) + 1) * b,
        truncated(-a, b) == -truncated(a, b),
{
    if a >= 0 {
        assert(a / b >= 0 && (a / b) * b <= a < (a / b + 1) * b) by (nonlinear_arith)
            requires
                a >= 0,
                b > 0,
        ;
    }
}

/// The offset is half of what the two ways show together, without its fraction.
pub proof fn law_offset_is_the_mean_of_both_ways(t1: int, t2: int, t3: int, t4: int)
    ensures
        ({
            let both = (t2 - t1) + (t3 - t4);
            let off = offset_of(t1, t2, t3, t4);
            &&& both >= 0 ==> 2 * off <= both <= 2 * off + 1
            &&& both <= 0 ==> 2 * off - 1 <= both <= 2 * off
        }),
{
}

/// The limits are an hour and 20 ms, either way.
pub proof fn law_limits_of_the_offset(off: int)
    ensures
        distance(off) <= MAX_OFFSET_NS <==> -3_600_000_000_000 <= off <= 3_600_000_000_000,
        distance(off) <= STEP_THRESHOLD_NS <==> -20_000_000 <= off <= 20_000_000,
        MAX_OFFSET_NS == 3600 * NS_PER_S,
        50 * STEP_THRESHOLD_NS == NS_PER_S,
        NS_PER_S == 1_000_000_000,
        NTP_LEN == 48,
{
}

/// The request is 48 bytes: `1b` and zeros. A reply holds the two timestamps at bytes 32 and 40,
/// and is read where it is as long and both count.
pub proof fn law_request_and_reply(p: &[u8], q: [u8; 48], r: Option<NtpReply>, i: int)
    requires
        call_ensures(ntp_request, (), q),
        call_ensures(parse_reply, (p,), r),
        1 <= i < 48,
    ensures
        q[0] == 0x1b,
        q[i] == 0,
        r is Some <==> p@.len() >= 48 && is_synced(p@, 32) && is_synced(p@, 40),
        r matches Some(reply) ==> reply.received_ns == stamp_ns(p@, 32) && reply.sent_ns
            == stamp_ns(p@, 40),
{
    assert(q@[i] == q[i]);
    assert(q@[0] == q[0]);
}

/// What is done about an offset: at startup it is stepped beyond 20 ms and up to an hour, and
/// left alone beyond that; later it is slewed up to an hour.
pub proof fn law_what_is_done_about_an_offset(
    off: i128,
    r: StartupSync,
    none: StartupSync,
    slewed: bool,
)
    requires
        call_ensures(initial_step, (Some(off),), r),
        call_ensures(initial_step, (None,), none),
        call_ensures(slews, (off,), slewed),
    ensures
        none == StartupSync::NoReply,
        -20_000_000 <= off <= 20_000_000 ==> r == StartupSync::Keep,
        20_000_000 < off <= 3_600_000_000_000 ==> r == StartupSync::Step,
        -3_600_000_000_000 <= off < -20_000_000 ==> r == StartupSync::Step,
        off > 3_600_000_000_000 || off < -3_600_000_000_000 ==> r == StartupSync::Ignore,
        slewed <==> -3_600_000_000_000 <= off <= 3_600_000_000_000,
{
}

/// The offset that is computed is half of what both ways show, without its fraction.
pub proof fn law_offset_from_a_reply(sent_at: u64, reply: NtpReply, got_at: u64, r: i128)
    requires
        call_ensures(offset_ns, (sent_at, &reply, got_at), r),
    ensures
        ({
            let both = (reply.received_ns - sent_at) + (reply.sent_ns - got_at);
            &&& both >= 0 ==> 2 * r <= both <= 2 * r + 1
            &&& both <= 0 ==> 2 * r - 1 <= both <= 2 * r
        }),
{
}

/// Seconds and microseconds of a time: both have its sign, the microseconds are less than a
/// second, and less than a microsecond is lost.
pub proof fn law_timeval_splits_the_time(ns: i128, r: (i64, i64))
    requires
        call_ensures(timeval, (ns,), r),
    ensures
        -1_000_000 < r.1 < 1_000_000,
        ns >= 0 ==> r.0 >= 0 && r.1 >= 0 && 0 <= ns - 1_000_000_000 * r.0 - 1000 * r.1 < 1000,
        ns <= 0 ==> r.0 <= 0 && r.1 <= 0 && -1000 < ns - 1_000_000_000 * r.0 - 1000 * r.1 <= 0,
{
}

/// The median is an offset that came in; where they are put in order, it stands behind half of
/// them, rounded down.
pub proof fn law_median_of_what_came_in(offs: &[i128], r: Option<i128>)
    requires
        call_ensures(median, (offs,), r),
    ensures
        r is None <==> offs@.len() == 0,
        r matches Some(m) ==> {
            &&& offs@.contains(m)
            &&& exists|s: Seq<i128>| #[trigger]
                s.to_multiset() == offs@.to_multiset() && s.len() == offs@.len() && s[offs@.len()
                    as int / 2] == m && (forall|i: int, j: int|
                    0 <= i <= j < s.len() ==> s[i] <= s[j])
        },
{
    if offs@.len() > 0 {
        law_median_is_in_the_middle(offs@);
        let leq = |a: i128, b: i128| a <= b;
        assert(vstd::relations::total_ordering(leq));
        offs@.lemma_sort_by_ensures(leq);
        let s = ascending(offs@);
        assert forall|i: int, j: int| 0 <= i <= j < s.len() implies s[i] <= s[j] by {
            if i < j {
                assert(leq(s[i], s[j]));
            }
        }
        assert(s.to_multiset() == offs@.to_multiset() && s[offs@.len() as int / 2] == r->0);
    }
}

} // verus!
