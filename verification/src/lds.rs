//! LDS/LIDAR protocol (`/dev/ttyS3`): fixed-length 40-byte packets, little-endian.
//!
//! ```text
//! off  size  field
//!  0    2    55 aa            sync (constant)
//!  2    1    03               packet type (constant)
//!  3    1    08               sample count (constant)
//!  4    2    u16  speed       turret rotation speed, raw units
//!  6    2    u16  fsa         start angle of this packet's 8 samples
//!  8   24    8x {u16 dist, u8 quality}
//! 32    2    u16  lsa         end angle of this packet's 8 samples
//! 34    2    u16  checksum    scheme unknown
//! 36    2    u16  counter     likely a timestamp tick
//! 38    2    u16  aux         purpose unknown
//! ```
//!
//! Within a packet the 8 samples are spread linearly from `fsa` to `lsa`. A distance whose
//! top bit is set marks an invalid / no-return sample.
use vstd::prelude::*;

use crate::bytes::u16le;

verus! {

pub const LDS_SYNC0: u8 = 0x55;

pub const LDS_SYNC1: u8 = 0xAA;

pub const LDS_TYPE: u8 = 0x03;

/// Samples per packet.
pub const LDS_SAMPLES: usize = 8;

/// Total packet length in bytes.
pub const LDS_FRAME_LEN: usize = 40;

/// Full-circle value of the u16 angle fields: one turret revolution spans about this many
/// units.
pub const LDS_ANGLE_FULL: u32 = 22580;

/// Distance bit that marks an invalid / no-return sample.
pub const LDS_DIST_INVALID: u16 = 0x8000;

/// One range measurement.
#[derive(Debug, Clone, Copy, Default)]
pub struct LdsSample {
    /// Distance in mm (0 when `!valid`).
    pub dist_mm: u16,
    /// Signal quality/intensity.
    pub quality: u8,
    /// True when the sensor reported a real echo (top distance bit clear).
    pub valid: bool,
}

/// A decoded 40-byte LDS packet: 8 samples over the arc `[fsa, lsa]`.
#[derive(Debug, Clone, Copy)]
pub struct LdsFrame {
    /// Turret rotation speed, raw units.
    pub speed: u16,
    /// Start angle.
    pub fsa: u16,
    /// End angle.
    pub lsa: u16,
    pub samples: [LdsSample; LDS_SAMPLES],
    /// Per-packet checksum-like field; scheme unknown.
    pub checksum: u16,
    /// Monotonic counter / likely timestamp tick.
    pub counter: u16,
    /// Trailing field, purpose unknown.
    pub aux: u16,
}

/// The packet starts with `55 aa 03 08`.
pub open spec fn has_header(f: Seq<u8>) -> bool {
    &&& f.len() >= 4
    &&& f[0] == LDS_SYNC0
    &&& f[1] == LDS_SYNC1
    &&& f[2] == LDS_TYPE
    &&& f[3] == LDS_SAMPLES
}

/// Sample `k` of the packet `f`.
pub open spec fn sample_of(f: Seq<u8>, k: int) -> LdsSample {
    let raw = crate::bytes::u16_at(f, 8 + 3 * k);
    let valid = raw < LDS_DIST_INVALID;
    LdsSample {
        dist_mm: if valid {
            raw
        } else {
            0
        },
        quality: f[8 + 3 * k + 2],
        valid,
    }
}

impl LdsFrame {
    /// What the packet `f` says.
    pub open spec fn at(f: Seq<u8>) -> LdsFrame {
        LdsFrame {
            speed: crate::bytes::u16_at(f, 4),
            fsa: crate::bytes::u16_at(f, 6),
            lsa: crate::bytes::u16_at(f, 32),
            samples: [
                sample_of(f, 0),
                sample_of(f, 1),
                sample_of(f, 2),
                sample_of(f, 3),
                sample_of(f, 4),
                sample_of(f, 5),
                sample_of(f, 6),
                sample_of(f, 7),
            ],
            checksum: crate::bytes::u16_at(f, 34),
            counter: crate::bytes::u16_at(f, 36),
            aux: crate::bytes::u16_at(f, 38),
        }
    }

    /// The angular span, modulo the u16 range.
    pub open spec fn span(self) -> int {
        (self.lsa - self.fsa) % 0x1_0000
    }

    /// The angle of sample `k`, modulo the u16 range.
    pub open spec fn angle_of(self, k: int) -> int {
        (self.fsa + self.span() * k / 8) % 0x1_0000
    }

    /// Parse a full 40-byte packet. Returns `None` if the length or the `55 aa 03 08` header
    /// is wrong.
    pub fn parse(f: &[u8]) -> (r: Option<Self>)
        ensures
            r == (if f@.len() == LDS_FRAME_LEN && has_header(f@) {
                Some(LdsFrame::at(f@))
            } else {
                None
            }),
    {
        if f.len() != LDS_FRAME_LEN || f[0] != LDS_SYNC0 || f[1] != LDS_SYNC1 || f[2] != LDS_TYPE
            || f[3] != LDS_SAMPLES as u8 {
            return None;
        }
        let mut samples: [LdsSample; LDS_SAMPLES] = [LdsSample {
            dist_mm: 0,
            quality: 0,
            valid: false,
        };LDS_SAMPLES];
        for k in 0..LDS_SAMPLES
            invariant
                f@.len() >= LDS_FRAME_LEN,
                forall|j: int| 0 <= j < k ==> samples@[j] == sample_of(f@, j),
        {
            let o: usize = 8 + 3 * k;
            let raw: u16 = u16le(f, o);
            assert((raw & 0x8000 == 0) == (raw < 0x8000)) by (bit_vector);
            let valid: bool = raw & LDS_DIST_INVALID == 0;
            samples[k] = LdsSample {
                dist_mm: if valid {
                    raw
                } else {
                    0
                },
                quality: f[o + 2],
                valid,
            };
        }
        assert(samples =~= LdsFrame::at(f@).samples);
        Some(
            LdsFrame {
                speed: u16le(f, 4),
                fsa: u16le(f, 6),
                lsa: u16le(f, 32),
                samples,
                checksum: u16le(f, 34),
                counter: u16le(f, 36),
                aux: u16le(f, 38),
            },
        )
    }

    /// Angular span of this packet's samples, in u16 units (handles wrap).
    pub fn arc(&self) -> (r: u16)
        ensures
            r == self.span(),
    {
        self.lsa.wrapping_sub(self.fsa)
    }

    /// Angle of sample `k` (0..LDS_SAMPLES), linearly interpolated between `fsa` and `lsa`.
    /// An index is taken modulo 2^32.
    pub fn sample_angle(&self, k: usize) -> (r: u16)
        requires
            self.span() * (k as int % 0x1_0000_0000) <= u32::MAX,
        ensures
            r == self.angle_of(k as int % 0x1_0000_0000),
    {
        let n: u32 = k as u32;
        assert(n == k as u64 % 0x1_0000_0000) by {
            let wide = k as u64;
            assert(wide as u32 == wide % 0x1_0000_0000) by (bit_vector);
        }
        let step: u32 = (self.arc() as u32 * n) / LDS_SAMPLES as u32;
        assert(step as u16 == step % 0x1_0000) by (bit_vector);
        self.fsa.wrapping_add(step as u16)
    }
}

/// Whether `b` can stand at position `i` of a packet: only the header is checked.
pub open spec fn fits_at(i: int, b: u8) -> bool {
    if i == 0 {
        b == LDS_SYNC0
    } else if i == 1 {
        b == LDS_SYNC1
    } else if i == 2 {
        b == LDS_TYPE
    } else if i == 3 {
        b == LDS_SAMPLES
    } else {
        true
    }
}

/// A packet so far: shorter than a whole one, and its header bytes are right.
pub open spec fn is_partial(got: Seq<u8>) -> bool {
    &&& got.len() < LDS_FRAME_LEN
    &&& forall|i: int| 0 <= i < got.len() ==> #[trigger] fits_at(i, got[i])
}

/// The packet so far after one more byte. A byte that does not fit drops what was gathered,
/// and may itself begin the next packet.
pub open spec fn lds_step(got: Seq<u8>, b: u8) -> Seq<u8> {
    if !fits_at(got.len() as int, b) {
        if b == LDS_SYNC0 {
            seq![b]
        } else {
            Seq::empty()
        }
    } else if got.len() + 1 == LDS_FRAME_LEN {
        Seq::empty()
    } else {
        got.push(b)
    }
}

/// The frame that is complete with the byte `b`, if one is.
pub open spec fn lds_output(got: Seq<u8>, b: u8) -> Option<LdsFrame> {
    if got.len() + 1 == LDS_FRAME_LEN {
        Some(LdsFrame::at(got.push(b)))
    } else {
        None
    }
}

/// The packet so far after all of `bytes`.
pub open spec fn lds_scan(got: Seq<u8>, bytes: Seq<u8>) -> Seq<u8>
    decreases bytes.len(),
{
    if bytes.len() == 0 {
        got
    } else {
        lds_scan(lds_step(got, bytes.first()), bytes.drop_first())
    }
}

/// The frames that are completed by `bytes`, in order.
pub open spec fn frames_in(got: Seq<u8>, bytes: Seq<u8>) -> Seq<LdsFrame>
    decreases bytes.len(),
{
    if bytes.len() == 0 {
        Seq::empty()
    } else {
        let rest = frames_in(lds_step(got, bytes.first()), bytes.drop_first());
        match lds_output(got, bytes.first()) {
            Some(f) => seq![f] + rest,
            None => rest,
        }
    }
}

/// Byte-fed de-framer for the LDS stream. Push raw bytes; get an `LdsFrame` each time a
/// `55 aa 03 08` header plus 40 total bytes have arrived. Keys only on the header and the
/// fixed length, and resyncs on the next header byte after any mismatch.
pub struct LdsScanner {
    buf: [u8; LDS_FRAME_LEN],
    idx: usize,
}

impl View for LdsScanner {
    type V = Seq<u8>;

    closed spec fn view(&self) -> Seq<u8> {
        self.buf@.take(self.idx as int)
    }
}

impl Default for LdsScanner {
    fn default() -> (s: Self)
        ensures
            s@ == Seq::<u8>::empty(),
    {
        LdsScanner::new()
    }
}

impl LdsScanner {
    #[verifier::type_invariant]
    spec fn wf(&self) -> bool {
        &&& self.idx < LDS_FRAME_LEN
        &&& forall|i: int| 0 <= i < self.idx ==> #[trigger] fits_at(i, self.buf@[i])
    }

    pub fn new() -> (s: Self)
        ensures
            s@ == Seq::<u8>::empty(),
    {
        let s = LdsScanner { buf: [0u8; LDS_FRAME_LEN], idx: 0 };
        assert(s@ =~= Seq::<u8>::empty());
        s
    }

    /// Feed one byte; returns a decoded frame once 40 bytes have accumulated behind a valid
    /// header.
    pub fn push(&mut self, b: u8) -> (r: Option<LdsFrame>)
        ensures
            is_partial(old(self)@),
            is_partial(final(self)@),
            final(self)@ == lds_step(old(self)@, b),
            r == lds_output(old(self)@, b),
    {
        proof {
            use_type_invariant(&*self);
        }
        // Validate the 4-byte header as it streams in; anything else is free.
        let header_ok: bool = match self.idx {
            0 => b == LDS_SYNC0,
            1 => b == LDS_SYNC1,
            2 => b == LDS_TYPE,
            3 => b == LDS_SAMPLES as u8,
            _ => true,
        };
        if !header_ok {
            // Resync: this byte might itself be a fresh sync0.
            self.idx = 0;
            if b == LDS_SYNC0 {
                self.buf[0] = b;
                self.idx = 1;
            }
            assert(self@ =~= lds_step(old(self)@, b));
            return None;
        }
        let i: usize = self.idx;
        self.buf[i] = b;
        if i + 1 == LDS_FRAME_LEN {
            self.idx = 0;
            assert(self.buf@ =~= old(self)@.push(b));
            assert(self@ =~= Seq::<u8>::empty());
            assert(fits_at(0, self.buf@[0]) && fits_at(1, self.buf@[1]) && fits_at(2, self.buf@[2])
                && fits_at(3, self.buf@[3]));
            return LdsFrame::parse(&self.buf);
        }
        self.idx = i + 1;
        assert(self@ =~= old(self)@.push(b));
        None
    }
}

// ---------------------------------------------------------------------------------------
// What the LDS link guarantees as a whole
// ---------------------------------------------------------------------------------------
/// A whole packet with the right header.
pub open spec fn is_packet(f: Seq<u8>) -> bool {
    f.len() == LDS_FRAME_LEN && has_header(f)
}

proof fn lemma_rest_of_packet(f: Seq<u8>, i: int)
    requires
        is_packet(f),
        0 <= i < LDS_FRAME_LEN,
    ensures
        lds_scan(f.take(i), f.skip(i)) == Seq::<u8>::empty(),
        frames_in(f.take(i), f.skip(i)) == seq![LdsFrame::at(f)],
    decreases LDS_FRAME_LEN - i,
{
    let got = f.take(i);
    let rest = f.skip(i);
    assert(rest.first() == f[i]);
    assert(fits_at(i, f[i]));
    assert(rest.drop_first() =~= f.skip(i + 1));
    assert(got.push(f[i]) =~= f.take(i + 1));
    if i + 1 == LDS_FRAME_LEN {
        assert(f.take(i + 1) =~= f);
        let nothing = Seq::<u8>::empty();
        assert(rest.drop_first() =~= nothing);
        assert(lds_scan(nothing, nothing) == nothing);
        assert(frames_in(nothing, nothing) == Seq::<LdsFrame>::empty());
        assert(frames_in(got, rest) =~= seq![LdsFrame::at(f)]);
    } else {
        lemma_rest_of_packet(f, i + 1);
    }
}

/// A packet that comes while no header is complete is decoded, once, at its last byte.
pub proof fn law_packet_is_found(got: Seq<u8>, f: Seq<u8>)
    requires
        got.len() < 4,
        is_packet(f),
    ensures
        lds_scan(got, f) == Seq::<u8>::empty(),
        frames_in(got, f) == seq![LdsFrame::at(f)],
{
    lemma_rest_of_packet(f, 1);
    assert(f.drop_first() =~= f.skip(1));
    assert(f.take(1) =~= seq![f[0]]);
    assert(got.len() == 0 ==> got.push(f[0]) =~= seq![f[0]]);
}

/// It does not matter how a stream is cut into pieces: what is read from `a` and then from
/// `b` is what is read from both at once.
pub proof fn law_stream_may_come_in_pieces(got: Seq<u8>, a: Seq<u8>, b: Seq<u8>)
    ensures
        lds_scan(got, a + b) == lds_scan(lds_scan(got, a), b),
        frames_in(got, a + b) == frames_in(got, a) + frames_in(lds_scan(got, a), b),
    decreases a.len(),
{
    if a.len() == 0 {
        assert(a + b =~= b);
        assert(frames_in(got, a + b) =~= frames_in(got, a) + frames_in(got, b));
    } else {
        assert((a + b).drop_first() =~= a.drop_first() + b);
        law_stream_may_come_in_pieces(lds_step(got, a.first()), a.drop_first(), b);
        assert(frames_in(got, a + b) =~= frames_in(got, a) + frames_in(lds_scan(got, a), b));
    }
}

/// What one more byte adds to a stream.
pub proof fn lemma_lds_one_more(got: Seq<u8>, bytes: Seq<u8>, b: u8)
    ensures
        lds_scan(got, bytes.push(b)) == lds_step(lds_scan(got, bytes), b),
        frames_in(got, bytes.push(b)) == (match lds_output(lds_scan(got, bytes), b) {
            Some(f) => frames_in(got, bytes).push(f),
            None => frames_in(got, bytes),
        }),
{
    assert(bytes.push(b) =~= bytes + seq![b]);
    law_stream_may_come_in_pieces(got, bytes, seq![b]);
    let now = lds_scan(got, bytes);
    let rest = seq![b].drop_first();
    assert(rest.len() == 0);
    assert(lds_scan(lds_step(now, b), rest) == lds_step(now, b));
    assert(frames_in(lds_step(now, b), rest) == Seq::<LdsFrame>::empty());
    match lds_output(now, b) {
        Some(f) => {
            assert(frames_in(now, seq![b]) =~= seq![f]);
            assert(frames_in(got, bytes) + seq![f] =~= frames_in(got, bytes).push(f));
        },
        None => {
            assert(frames_in(got, bytes) + Seq::<LdsFrame>::empty() =~= frames_in(got, bytes));
        },
    }
}

/// Between packets, bytes without a sync byte are skipped.
pub proof fn law_bytes_without_sync_are_skipped(noise: Seq<u8>)
    requires
        !noise.contains(LDS_SYNC0),
    ensures
        lds_scan(Seq::empty(), noise) == Seq::<u8>::empty(),
        frames_in(Seq::empty(), noise) == Seq::<LdsFrame>::empty(),
    decreases noise.len(),
{
    if noise.len() > 0 {
        assert(noise[0] != LDS_SYNC0);
        assert forall|i: int| 0 <= i < noise.drop_first().len() implies noise.drop_first()[i]
            != LDS_SYNC0 by {
            assert(noise.drop_first()[i] == noise[i + 1]);
        }
        law_bytes_without_sync_are_skipped(noise.drop_first());
    }
}

/// The bytes of `packets`, one after the other.
pub open spec fn packet_bytes(packets: Seq<Seq<u8>>) -> Seq<u8>
    decreases packets.len(),
{
    if packets.len() == 0 {
        Seq::empty()
    } else {
        packet_bytes(packets.drop_last()) + packets.last()
    }
}

/// A stream of packets is decoded packet by packet, in order.
pub proof fn law_stream_is_decoded(packets: Seq<Seq<u8>>)
    requires
        forall|i: int| 0 <= i < packets.len() ==> is_packet(#[trigger] packets[i]),
    ensures
        lds_scan(Seq::empty(), packet_bytes(packets)) == Seq::<u8>::empty(),
        frames_in(Seq::empty(), packet_bytes(packets)) == packets.map_values(
            |f: Seq<u8>| LdsFrame::at(f),
        ),
    decreases packets.len(),
{
    let decode = |f: Seq<u8>| LdsFrame::at(f);
    if packets.len() == 0 {
        assert(packets.map_values(decode) =~= Seq::<LdsFrame>::empty());
    } else {
        let front = packets.drop_last();
        assert forall|i: int| 0 <= i < front.len() implies is_packet(#[trigger] front[i]) by {
            assert(front[i] == packets[i]);
        }
        law_stream_is_decoded(front);
        law_packet_is_found(Seq::empty(), packets.last());
        law_stream_may_come_in_pieces(Seq::empty(), packet_bytes(front), packets.last());
        assert(packets.map_values(decode) =~= front.map_values(decode) + seq![
            LdsFrame::at(packets.last()),
        ]);
    }
}

proof fn lemma_turn_by(start: int, turn: int)
    requires
        0 <= start < 0x1_0000,
        0 <= turn < 0x1_0000,
    ensures
        ((start + turn) % 0x1_0000 - start) % 0x1_0000 == turn,
{
    if start + turn < 0x1_0000 {
        assert((start + turn) % 0x1_0000 == start + turn);
    } else {
        assert((start + turn) % 0x1_0000 == start + turn - 0x1_0000);
    }
}

/// The samples of a packet start at `fsa`, would reach `lsa` with the sample after the last,
/// and lie in between in order.
pub proof fn law_samples_spread_over_the_arc(f: LdsFrame, j: int, k: int)
    requires
        0 <= j <= k <= LDS_SAMPLES,
    ensures
        f.angle_of(0) == f.fsa,
        f.angle_of(8) == f.lsa,
        0 <= (f.angle_of(j) - f.fsa) % 0x1_0000 <= (f.angle_of(k) - f.fsa) % 0x1_0000 <= f.span(),
{
    let span = f.span();
    let turn_j = span * j / 8;
    let turn_k = span * k / 8;
    assert(0 <= turn_j <= turn_k <= span) by (nonlinear_arith)
        requires
            0 <= j <= k <= 8,
            0 <= span,
            turn_j == span * j / 8,
            turn_k == span * k / 8,
    ;
    lemma_turn_by(f.fsa as int, turn_j);
    lemma_turn_by(f.fsa as int, turn_k);
    assert(span * 0 / 8 == 0);
    assert(span * 8 / 8 == span);
    assert((f.fsa + span) % 0x1_0000 == f.lsa);
}

/// What is a packet: 40 bytes that start with `55 aa 03 08`.
pub proof fn law_packet_shape(f: Seq<u8>)
    ensures
        is_packet(f) <==> f.len() == 40 && f[0] == 0x55 && f[1] == 0xaa && f[2] == 0x03 && f[3]
            == 0x08,
        f.len() >= 4 ==> (has_header(f) <==> f[0] == 0x55 && f[1] == 0xaa && f[2] == 0x03 && f[3]
            == 0x08),
        LDS_SAMPLES == 8 && LDS_FRAME_LEN == 40 && LDS_ANGLE_FULL == 22580,
{
}

/// Where the fields of a packet stand. The distance of a sample is its 16-bit word unchanged,
/// low byte first, as long as that is below `0x8000`; from there on the sample is no return.
pub proof fn law_packet_layout(f: Seq<u8>, k: int)
    requires
        f.len() >= 40,
        0 <= k < 8,
    ensures
        ({
            let frame = LdsFrame::at(f);
            let word = f[8 + 3 * k] + 256 * f[9 + 3 * k];
            &&& frame.speed == f[4] + 256 * f[5]
            &&& frame.fsa == f[6] + 256 * f[7]
            &&& frame.lsa == f[32] + 256 * f[33]
            &&& frame.checksum == f[34] + 256 * f[35]
            &&& frame.counter == f[36] + 256 * f[37]
            &&& frame.aux == f[38] + 256 * f[39]
            &&& word < 0x8000 ==> frame.samples[k].valid && frame.samples[k].dist_mm == word
            &&& word >= 0x8000 ==> !frame.samples[k].valid && frame.samples[k].dist_mm == 0
            &&& frame.samples[k].quality == f[10 + 3 * k]
        }),
{
    let samples = LdsFrame::at(f).samples;
    assert(samples@[k] == sample_of(f, k)) by {
        assert(samples@ =~= Seq::new(8, |i: int| sample_of(f, i)));
    }
}

/// The same for any index: sample `k` has turned by `q`, the whole units in `k` eighths of the
/// way.
pub proof fn law_sample_turns_by_whole_units(f: LdsFrame, k: int, q: int)
    requires
        k >= 0,
        8 * q <= (f.lsa - f.fsa) % 65536 * k < 8 * q + 8,
    ensures
        0 <= f.angle_of(k) < 65536,
        (f.angle_of(k) - f.fsa - q) % 65536 == 0,
{
    assert(f.span() * k / 8 == q);
}

/// What one byte does to a packet so far. The first four bytes must be `55 aa 03 08`; a byte that
/// is not the one expected drops what was gathered, and a `55` among these begins anew. From the
/// fifth on any byte is taken, and the fortieth completes the packet.
pub proof fn law_bytes_of_a_packet(got: Seq<u8>, b: u8)
    requires
        is_partial(got),
    ensures
        ({
            let n = got.len();
            let next = lds_step(got, b);
            let expected: int = if n == 0 {
                0x55
            } else if n == 1 {
                0xaa
            } else if n == 2 {
                0x03
            } else {
                0x08
            };
            &&& n < 40
            &&& n >= 1 ==> got[0] == 0x55
            &&& n >= 2 ==> got[1] == 0xaa
            &&& n >= 3 ==> got[2] == 0x03
            &&& n >= 4 ==> got[3] == 0x08
            &&& n < 4 && b == expected ==> next == got.push(b)
            &&& n < 4 && b != expected && b == 0x55 ==> next == seq![0x55u8]
            &&& n < 4 && b != expected && b != 0x55 ==> next == Seq::<u8>::empty()
            &&& 4 <= n < 39 ==> next == got.push(b)
            &&& n == 39 ==> next == Seq::<u8>::empty() && lds_output(got, b) == Some(
                LdsFrame::at(got.push(b)),
            )
            &&& n < 39 ==> lds_output(got, b) is None
        }),
{
    let n = got.len();
    assert(n >= 1 ==> fits_at(0, got[0]));
    assert(n >= 2 ==> fits_at(1, got[1]));
    assert(n >= 3 ==> fits_at(2, got[2]));
    assert(n >= 4 ==> fits_at(3, got[3]));
}

/// Sample `k` stands `k` eighths of the way from `fsa` to `lsa`, rounded down to whole units,
/// and angles wrap at 65536.
pub proof fn law_sample_stands_at_its_eighth(f: LdsFrame, k: int)
    requires
        0 <= k <= 8,
    ensures
        ({
            let way = (f.lsa - f.fsa) % 65536;
            let turn = (f.angle_of(k) - f.fsa) % 65536;
            &&& 0 <= f.angle_of(k) < 65536
            &&& 8 * turn <= way * k < 8 * turn + 8
        }),
{
    let way = f.span();
    let turn = way * k / 8;
    assert(0 <= turn <= way) by (nonlinear_arith)
        requires
            0 <= k <= 8,
            0 <= way,
            turn == way * k / 8,
    ;
    lemma_turn_by(f.fsa as int, turn);
}

/// What `LdsFrame::parse` gives for 40 bytes that start with `55 aa 03 08`, and for no others:
/// the distance of sample `k` is its 16-bit word, low byte first, below `0x8000`, and the sample
/// is no return from there on.
pub proof fn law_parse_reads_every_sample(f: &[u8], r: Option<LdsFrame>, k: int)
    requires
        call_ensures(LdsFrame::parse, (f,), r),
        0 <= k < 8,
    ensures
        r is Some <==> f@.len() == 40 && f@[0] == 0x55 && f@[1] == 0xaa && f@[2] == 0x03 && f@[3]
            == 0x08,
        r matches Some(frame) ==> {
            let word = f@[8 + 3 * k] + 256 * f@[9 + 3 * k];
            &&& word < 0x8000 ==> frame.samples[k].valid && frame.samples[k].dist_mm == word
            &&& word >= 0x8000 ==> !frame.samples[k].valid && frame.samples[k].dist_mm == 0
            &&& frame.samples[k].quality == f@[10 + 3 * k]
            &&& frame.speed == f@[4] + 256 * f@[5]
            &&& frame.fsa == f@[6] + 256 * f@[7]
            &&& frame.lsa == f@[32] + 256 * f@[33]
            &&& frame.checksum == f@[34] + 256 * f@[35]
            &&& frame.counter == f@[36] + 256 * f@[37]
            &&& frame.aux == f@[38] + 256 * f@[39]
        },
{
    if f@.len() == 40 {
        law_packet_layout(f@, k);
    }
    law_packet_shape(f@);
}

/// `sample_angle` gives the angle that is `k` eighths of `arc` on from `fsa`, in whole units.
pub proof fn law_sample_angle_is_interpolated(f: LdsFrame, k: usize, arc: u16, angle: u16)
    requires
        call_ensures(LdsFrame::arc, (&f,), arc),
        call_ensures(LdsFrame::sample_angle, (&f, k), angle),
        k <= 8,
    ensures
        (f.fsa + arc) % 65536 == f.lsa,
        ({
            let turn = (angle - f.fsa) % 65536;
            8 * turn <= arc * k < 8 * turn + 8
        }),
{
    law_sample_stands_at_its_eighth(f, k as int);
}

/// What one push does is what the law on the bytes of a packet says.
pub proof fn law_push_takes_one_byte(b: u8)
    ensures
        forall|s: &mut LdsScanner, r: Option<LdsFrame>| #[trigger]
            call_ensures(LdsScanner::push, (s, b), r) ==> {
                &&& is_partial(s@)
                &&& final(s)@ == lds_step(s@, b)
                &&& r == lds_output(s@, b)
            },
{
}

} // verus!
