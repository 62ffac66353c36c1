//! Framing of the MCU link (`/dev/ttyS4`).
//!
//! A packet on the wire is delimited by `<` .. `>`. Inside it, `?` escapes the next byte
//! verbatim, so a literal `<`, `>` or `?` is preceded by `?`. The unescaped body is
//! `[len][type][payload][crc16]`: `len` is the payload length, and the checksum is
//! CRC-16/Modbus over everything before it, stored high byte first.
use vstd::prelude::*;

use crate::crc::crc16_modbus;

verus! {

pub const START: u8 = 0x3c;

pub const END: u8 = 0x3e;

pub const ESCAPE: u8 = 0x3f;

/// Largest unescaped body that is accepted (`len` is a `u8`, so a payload has at most 255
/// bytes, and the overhead is 4).
pub const MAX_BODY: usize = 260;

// ---------------------------------------------------------------------------------------
// What the wire looks like
// ---------------------------------------------------------------------------------------
/// One of the three bytes that carry framing.
pub open spec fn is_delimiter(b: u8) -> bool {
    b == START || b == END || b == ESCAPE
}

/// A body byte as it stands on the wire.
pub open spec fn escape_byte(b: u8) -> Seq<u8> {
    if is_delimiter(b) {
        seq![ESCAPE, b]
    } else {
        seq![b]
    }
}

/// A body as it stands on the wire, without its delimiters.
pub open spec fn escaped(body: Seq<u8>) -> Seq<u8>
    decreases body.len(),
{
    if body.len() == 0 {
        Seq::empty()
    } else {
        escaped(body.drop_last()) + escape_byte(body.last())
    }
}

/// The packet that carries `body`.
pub open spec fn wire(body: Seq<u8>) -> Seq<u8> {
    seq![START] + escaped(body) + seq![END]
}

/// The checksummed part of a body: length, type and payload.
pub open spec fn body_head(typ: u8, payload: Seq<u8>) -> Seq<u8> {
    seq![payload.len() as u8, typ] + payload
}

/// `data` followed by its checksum.
pub open spec fn with_crc(data: Seq<u8>) -> Seq<u8> {
    let crc = crate::crc::crc16(data);
    data + seq![(crc / 256) as u8, (crc % 256) as u8]
}

/// The body of a message.
pub open spec fn body_of(typ: u8, payload: Seq<u8>) -> Seq<u8> {
    with_crc(body_head(typ, payload))
}

/// The packet of a message.
pub open spec fn frame_wire(typ: u8, payload: Seq<u8>) -> Seq<u8> {
    wire(body_of(typ, payload))
}

// ---------------------------------------------------------------------------------------
// De-framing
// ---------------------------------------------------------------------------------------
/// What a de-framer knows about the packet that is coming in.
pub enum ScanState {
    /// Outside any packet.
    Idle,
    /// Inside a packet, with the body bytes so far.
    Body(Seq<u8>),
    /// As `Body`, and the next byte is taken verbatim.
    Escaped(Seq<u8>),
}

/// `b` joins the body, or the packet is dropped because the body is full.
pub open spec fn scan_append(body: Seq<u8>, b: u8) -> ScanState {
    if body.len() < MAX_BODY {
        ScanState::Body(body.push(b))
    } else {
        ScanState::Idle
    }
}

/// The state after one more byte off the wire.
pub open spec fn scan_step(s: ScanState, b: u8) -> ScanState {
    match s {
        ScanState::Idle => if b == START {
            ScanState::Body(Seq::empty())
        } else {
            ScanState::Idle
        },
        ScanState::Escaped(body) => scan_append(body, b),
        ScanState::Body(body) => if b == ESCAPE {
            ScanState::Escaped(body)
        } else if b == START {
            ScanState::Body(Seq::empty())
        } else if b == END {
            ScanState::Idle
        } else {
            scan_append(body, b)
        },
    }
}

/// The body that is complete with the byte `b`, if one is.
pub open spec fn scan_output(s: ScanState, b: u8) -> Option<Seq<u8>> {
    match s {
        ScanState::Body(body) if b == END => Some(body),
        _ => None,
    }
}

/// Whether the byte `b` finds the body full.
pub open spec fn scan_overflows(s: ScanState, b: u8) -> bool {
    match s {
        ScanState::Idle => false,
        ScanState::Escaped(body) => body.len() >= MAX_BODY,
        ScanState::Body(body) => !is_delimiter(b) && body.len() >= MAX_BODY,
    }
}

/// The state after all of `bytes`.
pub open spec fn scan_all(s: ScanState, bytes: Seq<u8>) -> ScanState
    decreases bytes.len(),
{
    if bytes.len() == 0 {
        s
    } else {
        scan_all(scan_step(s, bytes.first()), bytes.drop_first())
    }
}

/// The bodies that are completed by `bytes`, in order.
pub open spec fn bodies_in(s: ScanState, bytes: Seq<u8>) -> Seq<Seq<u8>>
    decreases bytes.len(),
{
    if bytes.len() == 0 {
        Seq::empty()
    } else {
        let rest = bodies_in(scan_step(s, bytes.first()), bytes.drop_first());
        match scan_output(s, bytes.first()) {
            Some(body) => seq![body] + rest,
            None => rest,
        }
    }
}

/// The bytes behind an optional slice.
pub open spec fn bytes_of(r: Option<&[u8]>) -> Option<Seq<u8>> {
    match r {
        Some(body) => Some(body@),
        None => None,
    }
}

/// Stateful de-framer. Push bytes off the wire one at a time; when a full `<..>` packet has
/// been seen, `push` returns its unescaped body (`[len][type][payload][crc16]`). No
/// allocation; the returned slice borrows an internal buffer and is valid until the next
/// `push`.
pub struct FrameScanner {
    buf: [u8; MAX_BODY],
    idx: usize,
    in_frame: bool,
    escape: bool,
    /// Bodies dropped because they exceeded `MAX_BODY` (diagnostic).
    pub overflows: u32,
}

impl View for FrameScanner {
    type V = ScanState;

    closed spec fn view(&self) -> ScanState {
        if !self.in_frame {
            ScanState::Idle
        } else if self.escape {
            ScanState::Escaped(self.buf@.take(self.idx as int))
        } else {
            ScanState::Body(self.buf@.take(self.idx as int))
        }
    }
}

impl Default for FrameScanner {
    fn default() -> (s: Self)
        ensures
            s.wf(),
            s@ == ScanState::Idle,
            s.dropped() == 0,
    {
        FrameScanner::new()
    }
}

impl FrameScanner {
    /// The buffered body fits the buffer.
    pub closed spec fn wf(&self) -> bool {
        self.idx <= MAX_BODY
    }

    /// The count in `overflows`.
    pub closed spec fn dropped(&self) -> u32 {
        self.overflows
    }

    pub fn new() -> (s: Self)
        ensures
            s.wf(),
            s@ == ScanState::Idle,
            s.dropped() == 0,
    {
        FrameScanner {
            buf: [0u8; MAX_BODY],
            idx: 0,
            in_frame: false,
            escape: false,
            overflows: 0,
        }
    }

    /// Feed one byte. Returns the unescaped body once a packet completes.
    pub fn push(&mut self, b: u8) -> (r: Option<&[u8]>)
        requires
            old(self).wf(),
        ensures
            final(self).wf(),
            final(self)@ == scan_step(old(self)@, b),
            bytes_of(r) == scan_output(old(self)@, b),
            final(self).dropped() == (if scan_overflows(old(self)@, b) {
                old(self).dropped().wrapping_add(1)
            } else {
                old(self).dropped()
            }),
    {
        if !self.in_frame {
            if b == START {
                self.in_frame = true;
                self.escape = false;
                self.idx = 0;
                assert(self.buf@.take(0) =~= Seq::<u8>::empty());
            }
            return None;
        }
        if self.escape {
            self.escape = false;
            self.append(b);
            return None;
        }
        if b == ESCAPE {
            self.escape = true;
            None
        } else if b == START {
            // resync: a new start inside a frame restarts it
            self.idx = 0;
            self.escape = false;
            assert(self.buf@.take(0) =~= Seq::<u8>::empty());
            None
        } else if b == END {
            self.in_frame = false;
            assert(self.buf@.subrange(0, self.idx as int) =~= self.buf@.take(self.idx as int));
            Some(&self.buf[0..self.idx])
        } else {
            self.append(b);
            None
        }
    }

    fn append(&mut self, b: u8)
        requires
            old(self).wf(),
            old(self)@ is Body,
        ensures
            final(self).wf(),
            final(self)@ == scan_append(old(self)@->Body_0, b),
            final(self).dropped() == (if old(self)@->Body_0.len() >= MAX_BODY {
                old(self).dropped().wrapping_add(1)
            } else {
                old(self).dropped()
            }),
    {
        if self.idx >= MAX_BODY {
            self.overflows = self.overflows.wrapping_add(1);
            self.in_frame = false;
            return;
        }
        self.buf[self.idx] = b;
        self.idx += 1;
        assert(self.buf@.take(self.idx as int) =~= old(self).buf@.take(old(self).idx as int).push(
            b,
        ));
    }
}

// ---------------------------------------------------------------------------------------
// Body -> (type, payload) with CRC check
// ---------------------------------------------------------------------------------------
#[derive(Debug, Clone, Copy, PartialEq, Eq)]
pub enum FrameError {
    TooShort,
    Crc { received: u16, computed: u16 },
}

/// The checksum that a body carries: its last two bytes, high byte first.
pub open spec fn received_crc(body: Seq<u8>) -> u16 {
    (body[body.len() - 2] * 256 + body[body.len() - 1]) as u16
}

/// The bytes between the type and the checksum, cut to the declared length where there are
/// more of them.
pub open spec fn body_payload(body: Seq<u8>) -> Seq<u8> {
    let available = body.subrange(2, body.len() - 2);
    if body[0] <= available.len() {
        available.take(body[0] as int)
    } else {
        available
    }
}

/// What a body says.
pub open spec fn parsed_body(body: Seq<u8>) -> Result<(u8, Seq<u8>), FrameError> {
    if body.len() < 4 {
        Err(FrameError::TooShort)
    } else {
        let received = received_crc(body);
        let computed = crate::crc::crc16(body.take(body.len() - 2));
        if received != computed {
            Err(FrameError::Crc { received, computed })
        } else {
            Ok((body[1], body_payload(body)))
        }
    }
}

/// A parse result over the bytes of its payload.
pub open spec fn message_of(r: Result<(u8, &[u8]), FrameError>) -> Result<
    (u8, Seq<u8>),
    FrameError,
> {
    match r {
        Ok((typ, payload)) => Ok((typ, payload@)),
        Err(e) => Err(e),
    }
}

/// Split an unescaped body into `(type, payload)`, verifying the CRC.
pub fn parse_body(body: &[u8]) -> (r: Result<(u8, &[u8]), FrameError>)
    ensures
        message_of(r) == parsed_body(body@),
{
    let n: usize = body.len();
    if n < 4 {
        return Err(FrameError::TooShort);
    }
    let len: usize = body[0] as usize;
    let typ: u8 = body[1];
    let hi: u8 = body[n - 2];
    let lo: u8 = body[n - 1];
    let received: u16 = ((hi as u16) << 8) | lo as u16;
    assert(((hi as u16) << 8) | lo as u16 == hi * 256 + lo) by (bit_vector);
    assert(body@.subrange(0, n - 2) =~= body@.take(n - 2));
    let computed: u16 = crc16_modbus(&body[0..n - 2]);
    if received != computed {
        return Err(FrameError::Crc { received, computed });
    }
    // payload is between type and crc, clamped to the declared length
    let payload = &body[2..n - 2];
    if len <= payload.len() {
        assert(payload@.subrange(0, len as int) =~= payload@.take(len as int));
        Ok((typ, &payload[0..len]))
    } else {
        Ok((typ, payload))
    }
}

// ---------------------------------------------------------------------------------------
// Encoding
// ---------------------------------------------------------------------------------------
proof fn lemma_escaped_split(body: Seq<u8>, i: int)
    requires
        0 <= i <= body.len(),
    ensures
        escaped(body) == escaped(body.take(i)) + escaped(body.skip(i)),
    decreases body.len() - i,
{
    if i == body.len() {
        assert(body.take(i) =~= body);
        assert(body.skip(i) =~= Seq::<u8>::empty());
        assert(escaped(body) =~= escaped(body.take(i)) + escaped(body.skip(i)));
    } else {
        let rest = body.skip(i);
        lemma_escaped_split(body.drop_last(), i);
        assert(body.drop_last().take(i) =~= body.take(i));
        assert(body.drop_last().skip(i) =~= rest.drop_last());
        assert(rest.last() == body.last());
        assert(escaped(body) =~= escaped(body.take(i)) + escaped(rest));
    }
}

/// Write `byte` at `*w` and advance, or say that there is no room.
fn put(byte: u8, out: &mut [u8], w: &mut usize) -> (ok: bool)
    requires
        *old(w) <= old(out)@.len(),
    ensures
        ok == (*old(w) < old(out)@.len()),
        ok ==> *final(w) == *old(w) + 1 && final(out)@ == old(out)@.update(*old(w) as int, byte),
        !ok ==> *final(w) == *old(w) && final(out)@ == old(out)@,
{
    if *w >= out.len() {
        return false;
    }
    out[*w] = byte;
    *w += 1;
    true
}

/// `written` replaces the front of `before`, as far as there is room.
pub open spec fn overwrite(before: Seq<u8>, written: Seq<u8>) -> Seq<u8> {
    if written.len() <= before.len() {
        written + before.skip(written.len() as int)
    } else {
        written.take(before.len() as int)
    }
}

/// Encode `[type][payload]` into a full escaped `<..>` wire frame in `out`.
/// Returns the number of bytes written, or `None` if `out` is too small or the payload is
/// too long. Where `out` is too small it is left holding the front of the frame.
pub fn encode_frame(typ: u8, payload: &[u8], out: &mut [u8]) -> (r: Option<usize>)
    ensures
        payload@.len() > 255 ==> r is None && final(out)@ == old(out)@,
        payload@.len() <= 255 ==> {
            let frame = frame_wire(typ, payload@);
            &&& final(out)@ == overwrite(old(out)@, frame)
            &&& r == (if frame.len() <= old(out)@.len() {
                Some(frame.len() as usize)
            } else {
                None
            })
        },
{
    if payload.len() > 255 {
        return None;
    }
    // inner = [len][type][payload][crc_hi][crc_lo]
    let mut inner: [u8; MAX_BODY] = [0u8; MAX_BODY];
    inner[0] = payload.len() as u8;
    inner[1] = typ;
    let mut n: usize = 2;
    for i in 0..payload.len()
        invariant
            payload@.len() <= 255,
            n == i + 2,
            inner@.take(n as int) == seq![payload@.len() as u8, typ] + payload@.take(i as int),
    {
        let ghost done = inner@.take(n as int);
        inner[n] = payload[i];
        n += 1;
        assert(inner@.take(n as int) =~= done.push(payload@[i as int]));
        assert(payload@.take(i + 1) =~= payload@.take(i as int).push(payload@[i as int]));
        assert(inner@.take(n as int) =~= seq![payload@.len() as u8, typ] + payload@.take(i + 1));
    }
    let ghost head = body_head(typ, payload@);
    assert(payload@.take(payload@.len() as int) =~= payload@);
    assert(inner@.subrange(0, n as int) =~= head);
    let crc: u16 = crc16_modbus(&inner[0..n]);
    assert((crc >> 8) as u8 == crc / 256 && (crc & 0xff) as u8 == crc % 256) by (bit_vector);
    inner[n] = (crc >> 8) as u8;
    inner[n + 1] = (crc & 0xff) as u8;
    n += 2;
    let ghost body = body_of(typ, payload@);
    assert(inner@.take(n as int) =~= body);

    // wrap + escape
    let ghost before = out@;
    let ghost frame = wire(body);
    let mut w: usize = 0;
    if !put(START, out, &mut w) {
        assert(out@ =~= overwrite(before, frame));
        return None;
    }
    for i in 0..n
        invariant
            n <= MAX_BODY,
            body == inner@.take(n as int),
            payload@.len() <= 255,
            frame == frame_wire(typ, payload@),
            frame == wire(body),
            before == old(out)@,
            out@.len() == before.len(),
            w <= out@.len(),
            out@.take(w as int) =~= seq![START] + escaped(body.take(i as int)),
            forall|j: int| w <= j < before.len() ==> out@[j] == before[j],
    {
        let b: u8 = inner[i as usize];
        let ghost done = seq![START] + escaped(body.take(i as int));
        proof {
            assert(b == body[i as int]);
            assert(body.take(i + 1).drop_last() =~= body.take(i as int));
            assert(body.take(i + 1).last() == b);
            lemma_escaped_split(body, i + 1);
            assert(frame =~= done + escape_byte(b) + escaped(body.skip(i + 1)) + seq![END]);
        }
        if b == START || b == END || b == ESCAPE {
            if !put(ESCAPE, out, &mut w) {
                assert(out@ =~= frame.take(before.len() as int));
                return None;
            }
        }
        if !put(b, out, &mut w) {
            assert(out@ =~= frame.take(before.len() as int));
            return None;
        }
        assert(out@.take(w as int) =~= done + escape_byte(b));
    }
    assert(body.take(n as int) =~= body);
    if !put(END, out, &mut w) {
        assert(out@ =~= frame.take(before.len() as int));
        return None;
    }
    assert(out@.take(w as int) =~= frame);
    assert(out@.skip(w as int) =~= before.skip(w as int));
    assert(out@ =~= out@.take(w as int) + out@.skip(w as int));
    Some(w)
}

// ---------------------------------------------------------------------------------------
// What the framing guarantees as a whole
// ---------------------------------------------------------------------------------------
/// It does not matter how a stream is cut into pieces: what is read from `a` and then from
/// `b` is what is read from both at once.
pub proof fn law_stream_may_come_in_pieces(s: ScanState, a: Seq<u8>, b: Seq<u8>)
    ensures
        scan_all(s, a + b) == scan_all(scan_all(s, a), b),
        bodies_in(s, a + b) == bodies_in(s, a) + bodies_in(scan_all(s, a), b),
    decreases a.len(),
{
    if a.len() == 0 {
        assert(a + b =~= b);
        assert(bodies_in(s, a + b) =~= bodies_in(s, a) + bodies_in(s, b));
    } else {
        let next = scan_step(s, a.first());
        assert((a + b).drop_first() =~= a.drop_first() + b);
        law_stream_may_come_in_pieces(next, a.drop_first(), b);
        assert(bodies_in(s, a + b) =~= bodies_in(s, a) + bodies_in(scan_all(s, a), b));
    }
}

proof fn lemma_scan_one(s: ScanState, b: u8)
    ensures
        scan_all(s, seq![b]) == scan_step(s, b),
        bodies_in(s, seq![b]) == (match scan_output(s, b) {
            Some(body) => seq![body],
            None => Seq::empty(),
        }),
{
    let rest = seq![b].drop_first();
    assert(rest.len() == 0);
    assert(scan_all(scan_step(s, b), rest) == scan_step(s, b));
    assert(bodies_in(scan_step(s, b), rest) == Seq::<Seq<u8>>::empty());
    match scan_output(s, b) {
        Some(body) => {
            assert(bodies_in(s, seq![b]) =~= seq![body]);
        },
        None => {},
    }
}

/// What one more byte adds to a stream.
pub proof fn lemma_scan_one_more(s: ScanState, bytes: Seq<u8>, b: u8)
    ensures
        scan_all(s, bytes.push(b)) == scan_step(scan_all(s, bytes), b),
        bodies_in(s, bytes.push(b)) == (match scan_output(scan_all(s, bytes), b) {
            Some(body) => bodies_in(s, bytes).push(body),
            None => bodies_in(s, bytes),
        }),
{
    assert(bytes.push(b) =~= bytes + seq![b]);
    law_stream_may_come_in_pieces(s, bytes, seq![b]);
    lemma_scan_one(scan_all(s, bytes), b);
    match scan_output(scan_all(s, bytes), b) {
        Some(body) => {
            assert(bodies_in(s, bytes) + seq![body] =~= bodies_in(s, bytes).push(body));
        },
        None => {
            assert(bodies_in(s, bytes) + Seq::<Seq<u8>>::empty() =~= bodies_in(s, bytes));
        },
    }
}

proof fn lemma_scan_escaped(body: Seq<u8>)
    requires
        body.len() <= MAX_BODY,
    ensures
        scan_all(ScanState::Body(Seq::empty()), escaped(body)) == ScanState::Body(body),
        bodies_in(ScanState::Body(Seq::empty()), escaped(body)) == Seq::<Seq<u8>>::empty(),
    decreases body.len(),
{
    let start = ScanState::Body(Seq::empty());
    if body.len() == 0 {
        assert(body =~= Seq::<u8>::empty());
    } else {
        let front = body.drop_last();
        let b = body.last();
        lemma_scan_escaped(front);
        law_stream_may_come_in_pieces(start, escaped(front), escape_byte(b));
        assert(front.push(b) =~= body);
        let s = ScanState::Body(front);
        if is_delimiter(b) {
            assert(escape_byte(b) =~= seq![ESCAPE] + seq![b]);
            law_stream_may_come_in_pieces(s, seq![ESCAPE], seq![b]);
            lemma_scan_one(s, ESCAPE);
            lemma_scan_one(ScanState::Escaped(front), b);
        } else {
            lemma_scan_one(s, b);
        }
        assert(bodies_in(start, escaped(body)) =~= Seq::<Seq<u8>>::empty());
    }
}

/// A packet is read back as the one body it carries, and leaves the de-framer outside any
/// packet. It does not matter what came before, short of a pending escape: a start byte
/// inside a packet restarts it.
pub proof fn law_packet_carries_its_body(s: ScanState, body: Seq<u8>)
    requires
        body.len() <= MAX_BODY,
        s !is Escaped,
    ensures
        scan_all(s, wire(body)) == ScanState::Idle,
        bodies_in(s, wire(body)) == seq![body],
{
    let start = ScanState::Body(Seq::empty());
    lemma_scan_one(s, START);
    lemma_scan_escaped(body);
    lemma_scan_one(ScanState::Body(body), END);
    law_stream_may_come_in_pieces(s, seq![START], escaped(body));
    law_stream_may_come_in_pieces(s, seq![START] + escaped(body), seq![END]);
    assert(scan_all(s, seq![START]) == start);
    assert(bodies_in(s, wire(body)) =~= seq![body]);
}

/// Bytes between packets are skipped.
pub proof fn law_noise_between_packets_is_skipped(noise: Seq<u8>)
    requires
        !noise.contains(START),
    ensures
        scan_all(ScanState::Idle, noise) == ScanState::Idle,
        bodies_in(ScanState::Idle, noise) == Seq::<Seq<u8>>::empty(),
    decreases noise.len(),
{
    if noise.len() > 0 {
        assert(noise[0] != START);
        assert forall|i: int| 0 <= i < noise.drop_first().len() implies noise.drop_first()[i]
            != START by {
            assert(noise.drop_first()[i] == noise[i + 1]);
        }
        law_noise_between_packets_is_skipped(noise.drop_first());
    }
}

/// The packets of `bodies`, one after the other.
pub open spec fn wires(bodies: Seq<Seq<u8>>) -> Seq<u8>
    decreases bodies.len(),
{
    if bodies.len() == 0 {
        Seq::empty()
    } else {
        wires(bodies.drop_last()) + wire(bodies.last())
    }
}

/// A stream of packets is read back as its bodies, each once and in order.
pub proof fn law_stream_is_read_back(s: ScanState, bodies: Seq<Seq<u8>>)
    requires
        s !is Escaped,
        forall|i: int| 0 <= i < bodies.len() ==> (#[trigger] bodies[i]).len() <= MAX_BODY,
    ensures
        bodies_in(s, wires(bodies)) == bodies,
        scan_all(s, wires(bodies)) !is Escaped,
    decreases bodies.len(),
{
    if bodies.len() == 0 {
        assert(bodies =~= Seq::<Seq<u8>>::empty());
    } else {
        let front = bodies.drop_last();
        assert forall|i: int| 0 <= i < front.len() implies (#[trigger] front[i]).len()
            <= MAX_BODY by {
            assert(front[i] == bodies[i]);
        }
        law_stream_is_read_back(s, front);
        law_packet_carries_its_body(scan_all(s, wires(front)), bodies.last());
        law_stream_may_come_in_pieces(s, wires(front), wire(bodies.last()));
        assert(bodies =~= front + seq![bodies.last()]);
    }
}

/// The body of a message says its type and payload.
pub proof fn law_body_says_its_message(typ: u8, payload: Seq<u8>)
    requires
        payload.len() <= 255,
    ensures
        body_of(typ, payload).len() == payload.len() + 4,
        parsed_body(body_of(typ, payload)) == Ok::<(u8, Seq<u8>), FrameError>((typ, payload)),
{
    let head = body_head(typ, payload);
    let body = body_of(typ, payload);
    let crc = crate::crc::crc16(head);
    assert(body.take(body.len() - 2) =~= head);
    assert(received_crc(body) == crc) by {
        assert(crc == (crc / 256) * 256 + crc % 256);
    }
    assert(body.subrange(2, body.len() - 2) =~= payload);
    assert(payload.take(payload.len() as int) =~= payload);
}

/// What `encode_frame` writes is read back by `FrameScanner` and `parse_body` as the same
/// type and payload.
pub proof fn law_message_survives_the_wire(s: ScanState, typ: u8, payload: Seq<u8>)
    requires
        payload.len() <= 255,
        s !is Escaped,
    ensures
        bodies_in(s, frame_wire(typ, payload)) == seq![body_of(typ, payload)],
        parsed_body(body_of(typ, payload)) == Ok::<(u8, Seq<u8>), FrameError>((typ, payload)),
{
    law_body_says_its_message(typ, payload);
    law_packet_carries_its_body(s, body_of(typ, payload));
}

/// A body that was accepted is rejected by its checksum once any one byte of it, the
/// checksum included, is changed.
pub proof fn law_one_changed_byte_is_rejected(body: Seq<u8>, k: int, b: u8)
    requires
        parsed_body(body) is Ok,
        0 <= k < body.len(),
        b != body[k],
    ensures
        parsed_body(body.update(k, b)) matches Err(FrameError::Crc { .. }),
{
    let n = body.len();
    let changed = body.update(k, b);
    let head = body.take(n - 2);
    if k < n - 2 {
        assert(changed.take(n - 2) =~= head.update(k, b));
        crate::crc::law_crc_detects_one_changed_byte(head, k, b);
    } else {
        assert(changed.take(n - 2) =~= head);
    }
}

proof fn lemma_escaped_len(body: Seq<u8>)
    ensures
        body.len() <= escaped(body).len() <= 2 * body.len(),
    decreases body.len(),
{
    if body.len() > 0 {
        lemma_escaped_len(body.drop_last());
    }
}

/// A packet is at most twice as long as its body, and its delimiters.
pub proof fn law_packet_length(typ: u8, payload: Seq<u8>)
    ensures
        payload.len() + 6 <= frame_wire(typ, payload).len() <= 2 * payload.len() + 10,
{
    lemma_escaped_len(body_of(typ, payload));
}

/// Where the parts of a body stand: the payload length, the type, the payload, and the checksum
/// of all that with its high byte first.
pub proof fn law_body_layout(typ: u8, payload: Seq<u8>)
    requires
        payload.len() <= 255,
    ensures
        ({
            let body = body_of(typ, payload);
            let n = payload.len() as int;
            &&& body.len() == n + 4
            &&& body[0] == n
            &&& body[1] == typ
            &&& body.subrange(2, n + 2) == payload
            &&& 256 * body[n + 2] + body[n + 3] == crate::crc::crc16(body.take(n + 2))
        }),
{
    let head = body_head(typ, payload);
    let body = body_of(typ, payload);
    assert(body.take(payload.len() as int + 2) =~= head);
    assert(body.subrange(2, payload.len() as int + 2) =~= payload);
}

/// How a body is wrapped: `3c`, the bytes of the body, `3e`. Each of the three bytes `3c`, `3e`
/// and `3f` in the body has a `3f` before it, and no other byte is changed or added.
pub proof fn law_body_is_escaped_byte_by_byte(body: Seq<u8>, b: u8)
    ensures
        wire(body) == seq![0x3cu8] + escaped(body) + seq![0x3eu8],
        escaped(Seq::empty()) == Seq::<u8>::empty(),
        b == 0x3c || b == 0x3e || b == 0x3f ==> escaped(body.push(b)) == escaped(body).push(
            0x3f,
        ).push(b),
        b != 0x3c && b != 0x3e && b != 0x3f ==> escaped(body.push(b)) == escaped(body).push(b),
{
    assert(body.push(b).drop_last() =~= body);
    assert(body.push(b).last() == b);
    assert(escaped(body.push(b)) =~= escaped(body) + escape_byte(b));
}

/// What one byte off the wire does. Outside a packet only `3c` counts. Inside, `3c` starts over,
/// `3e` ends the packet and gives its body, and `3f` takes the next byte, whatever it is, into
/// the body; any other byte joins it at once. The byte that would make a body longer than 260
/// bytes drops the packet.
pub proof fn law_bytes_off_the_wire(body: Seq<u8>, b: u8)
    ensures
        ({
            let idle = ScanState::Idle;
            let inside = ScanState::Body(body);
            let escaped = ScanState::Escaped(body);
            let fresh = ScanState::Body(Seq::empty());
            &&& b == 0x3c ==> scan_step(idle, b) == fresh && scan_step(inside, b) == fresh
            &&& b != 0x3c ==> scan_step(idle, b) == idle
            &&& b == 0x3e ==> scan_step(inside, b) == idle && scan_output(inside, b) == Some(body)
            &&& b != 0x3e ==> scan_output(inside, b) is None
            &&& b == 0x3f ==> scan_step(inside, b) == escaped
            &&& scan_output(idle, b) is None && scan_output(escaped, b) is None
            &&& body.len() < 260 ==> {
                &&& scan_step(escaped, b) == ScanState::Body(body.push(b))
                &&& b != 0x3c && b != 0x3e && b != 0x3f ==> scan_step(inside, b)
                    == ScanState::Body(body.push(b))
            }
            &&& body.len() >= 260 ==> {
                &&& scan_step(escaped, b) == idle
                &&& b != 0x3c && b != 0x3e && b != 0x3f ==> scan_step(inside, b) == idle
            }
            &&& !scan_overflows(idle, b)
            &&& scan_overflows(escaped, b) <==> body.len() >= 260
            &&& scan_overflows(inside, b) <==> body.len() >= 260 && b != 0x3c && b != 0x3e && b
                != 0x3f
        }),
{
}

/// A body is a message if and only if it has at least four bytes and the last two, high byte
/// first, are the checksum of the others. Its type is the second byte, and its payload are the
/// bytes from the third on, as many as the first byte says and the checksum leaves.
pub proof fn law_body_is_accepted_by_its_checksum(body: Seq<u8>)
    ensures
        ({
            let n = body.len() as int;
            let carried = 256 * body[n - 2] + body[n - 1];
            let computed = crate::crc::crc16(body.take(n - 2));
            let len: int = if body[0] <= n - 4 {
                body[0] as int
            } else {
                n - 4
            };
            &&& n < 4 ==> parsed_body(body) == Err::<(u8, Seq<u8>), FrameError>(
                FrameError::TooShort,
            )
            &&& n >= 4 && carried == computed ==> (parsed_body(body) matches Ok((typ, payload))
                && typ == body[1] && payload == body.subrange(2, 2 + len))
            &&& n >= 4 && carried != computed ==> (parsed_body(body) matches Err(
                FrameError::Crc { received: r, computed: c },
            ) && r == carried && c == computed)
        }),
{
    let n = body.len() as int;
    if n >= 4 {
        let available = body.subrange(2, n - 2);
        if body[0] <= n - 4 {
            assert(available.take(body[0] as int) =~= body.subrange(2, 2 + body[0]));
        } else {
            assert(available =~= body.subrange(2, 2 + (n - 4)));
        }
    }
}

/// What is written stands at the front, as far as there is room, and what is behind it stays.
pub proof fn law_overwrite_keeps_the_rest(before: Seq<u8>, written: Seq<u8>, i: int)
    requires
        0 <= i < before.len(),
    ensures
        overwrite(before, written).len() == before.len(),
        i < written.len() ==> overwrite(before, written)[i] == written[i],
        i >= written.len() ==> overwrite(before, written)[i] == before[i],
{
}

/// What is encoded into a buffer with room for it is read back as the same message by pushing the
/// bytes, whatever came before, and parsing the body; what is behind it in the buffer stays.
/// Without the room, or with more than 255 payload bytes, the answer is `None`.
pub proof fn law_encoded_message_is_read_back(typ: u8, payload: &[u8], s: ScanState)
    requires
        s !is Escaped,
    ensures
        forall|out: &mut [u8], r: Option<usize>| #[trigger]
            call_ensures(encode_frame, (typ, payload, out), r) ==> {
                &&& final(out)@.len() == out@.len()
                &&& payload@.len() > 255 ==> r is None && final(out)@ == out@
                &&& payload@.len() <= 255 ==> final(out)@ == overwrite(
                    out@,
                    frame_wire(typ, payload@),
                )
                &&& (r matches Some(n) ==> {
                    &&& n <= out@.len()
                    &&& final(out)@.take(n as int) == frame_wire(typ, payload@)
                    &&& final(out)@.skip(n as int) == out@.skip(n as int)
                    &&& bodies_in(s, final(out)@.take(n as int)) == seq![body_of(typ, payload@)]
                    &&& parsed_body(body_of(typ, payload@)) == Ok::<(u8, Seq<u8>), FrameError>(
                        (typ, payload@),
                    )
                })
                &&& payload@.len() <= 255 ==> (r is Some <==> frame_wire(typ, payload@).len()
                    <= out@.len())
            },
{
    assert forall|out: &mut [u8], r: Option<usize>| #[trigger]
        call_ensures(encode_frame, (typ, payload, out), r) implies {
        &&& final(out)@.len() == out@.len()
        &&& (r matches Some(n) ==> {
            &&& n <= out@.len()
            &&& final(out)@.take(n as int) == frame_wire(typ, payload@)
            &&& final(out)@.skip(n as int) == out@.skip(n as int)
            &&& bodies_in(s, final(out)@.take(n as int)) == seq![body_of(typ, payload@)]
        })
    } by {
        if let Some(n) = r {
            law_message_survives_the_wire(s, typ, payload@);
            law_packet_length(typ, payload@);
            assert(n == frame_wire(typ, payload@).len());
            assert(final(out)@.take(n as int) =~= frame_wire(typ, payload@));
            assert(final(out)@.skip(n as int) =~= out@.skip(n as int));
        }
    }
    if payload@.len() <= 255 {
        law_body_says_its_message(typ, payload@);
    }
}

/// What parsing a body gives: an error for fewer than four bytes or a checksum that differs, else
/// the second byte as the type and the bytes from the third on as the payload.
pub proof fn law_parse_body_checks_the_sum(body: &[u8], r: Result<(u8, &[u8]), FrameError>)
    requires
        call_ensures(parse_body, (body,), r),
    ensures
        ({
            let n = body@.len() as int;
            let carried = 256 * body@[n - 2] + body@[n - 1];
            let computed = crate::crc::crc16(body@.take(n - 2));
            let len: int = if body@[0] <= n - 4 {
                body@[0] as int
            } else {
                n - 4
            };
            &&& n < 4 ==> (r matches Err(e) && e is TooShort)
            &&& n >= 4 && carried == computed ==> (r matches Ok((typ, payload)) && typ == body@[1]
                && payload@ == body@.subrange(2, 2 + len))
            &&& n >= 4 && carried != computed ==> (r matches Err(FrameError::Crc {
                received: a,
                computed: b,
            }) && a == carried && b == computed)
        }),
{
    law_body_is_accepted_by_its_checksum(body@);
}

/// What one push does is what the law on bytes off the wire says; each overflow is counted once.
pub proof fn law_push_takes_one_byte(b: u8)
    ensures
        forall|s: &mut FrameScanner, r: Option<&[u8]>| #[trigger]
            call_ensures(FrameScanner::push, (s, b), r) ==> {
                &&& final(s)@ == scan_step(s@, b)
                &&& scan_output(s@, b) is None ==> r is None
                &&& (scan_output(s@, b) matches Some(body) ==> (r matches Some(slice) && slice@
                    == body))
                &&& scan_overflows(s@, b) && s.dropped() < u32::MAX ==> final(s).dropped()
                    == s.dropped() + 1
                &&& !scan_overflows(s@, b) ==> final(s).dropped() == s.dropped()
            },
{
}

} // verus!
