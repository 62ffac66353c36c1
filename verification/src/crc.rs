//! CRC-16/Modbus, the checksum of the MCU link.
use vstd::prelude::*;

verus! {

/// One shift of the reflected CRC register (polynomial `0xA001`).
pub open spec fn crc_bit(crc: u16) -> u16 {
    if crc & 1 != 0 {
        (crc >> 1) ^ 0xA001
    } else {
        crc >> 1
    }
}

/// `n` shifts of the register.
pub open spec fn crc_bits(crc: u16, n: nat) -> u16
    decreases n,
{
    if n == 0 {
        crc
    } else {
        crc_bit(crc_bits(crc, (n - 1) as nat))
    }
}

/// The register after one more byte: the byte enters the low half, then eight shifts.
pub open spec fn crc_byte(crc: u16, b: u8) -> u16 {
    crc_bits(crc ^ (b as u16), 8)
}

/// The register after the bytes `data`, starting from `init`.
pub open spec fn crc_from(init: u16, data: Seq<u8>) -> u16
    decreases data.len(),
{
    if data.len() == 0 {
        init
    } else {
        crc_byte(crc_from(init, data.drop_last()), data.last())
    }
}

/// CRC-16/Modbus of `data`: the register starts from all ones.
pub open spec fn crc16(data: Seq<u8>) -> u16 {
    crc_from(0xFFFF, data)
}

/// CRC-16/Modbus (poly 0xA001, init 0xFFFF) over `data`.
pub fn crc16_modbus(data: &[u8]) -> (crc: u16)
    ensures
        crc == crc16(data@),
{
    let mut crc: u16 = 0xFFFF;
    for i in 0..data.len()
        invariant
            crc == crc16(data@.take(i as int)),
    {
        let b: u8 = data[i];
        proof {
            assert(data@.take(i + 1).drop_last() =~= data@.take(i as int));
        }
        let ghost start = crc;
        crc = crc ^ (b as u16);
        for n in 0..8u8
            invariant
                crc == crc_bits(start ^ (b as u16), n as nat),
        {
            if crc & 1 != 0 {
                crc = (crc >> 1) ^ 0xA001;
            } else {
                crc = crc >> 1;
            }
        }
    }
    proof {
        assert(data@.take(data@.len() as int) =~= data@);
    }
    crc
}

proof fn lemma_crc_bits_injective(x: u16, y: u16, n: nat)
    requires
        crc_bits(x, n) == crc_bits(y, n),
    ensures
        x == y,
    decreases n,
{
    if n > 0 {
        let p = crc_bits(x, (n - 1) as nat);
        let q = crc_bits(y, (n - 1) as nat);
        assert((if p & 1 != 0 {
            (p >> 1) ^ 0xA001
        } else {
            p >> 1
        }) == (if q & 1 != 0 {
            (q >> 1) ^ 0xA001
        } else {
            q >> 1
        }) ==> p == q) by (bit_vector);
        lemma_crc_bits_injective(x, y, (n - 1) as nat);
    }
}

/// A single changed byte always changes the checksum.
pub proof fn law_crc_detects_one_changed_byte(data: Seq<u8>, k: int, b: u8)
    requires
        0 <= k < data.len(),
        b != data[k],
    ensures
        crc16(data.update(k, b)) != crc16(data),
    decreases data.len(),
{
    let changed = data.update(k, b);
    let front = data.drop_last();
    let c = crc16(changed.drop_last());
    let d = crc16(front);
    let x = changed.last();
    let y = data.last();
    if crc16(changed) == crc16(data) {
        lemma_crc_bits_injective(c ^ (x as u16), d ^ (y as u16), 8);
        if k == data.len() - 1 {
            assert(changed.drop_last() =~= front);
            assert(c ^ (x as u16) == c ^ (y as u16) ==> x == y) by (bit_vector);
        } else {
            assert(changed.drop_last() =~= front.update(k, b));
            law_crc_detects_one_changed_byte(front, k, b);
            assert(c ^ (x as u16) == d ^ (x as u16) ==> c == d) by (bit_vector);
        }
    }
}

// ---------------------------------------------------------------------------------------
// What the checksum is
// ---------------------------------------------------------------------------------------
/// Whether an odd number of the bits of `x` are set.
pub open spec fn odd_parity(x: u8) -> bool {
    (x ^ (x >> 1) ^ (x >> 2) ^ (x >> 3) ^ (x >> 4) ^ (x >> 5) ^ (x >> 6) ^ (x >> 7)) & 1 == 1
}

proof fn lemma_crc_byte(crc: u16, b: u8)
    ensures
        ({
            let x = (crc ^ (b as u16)) as u8;
            crc_byte(crc, b) == (crc >> 8) ^ ((x as u16) << 6) ^ ((x as u16) << 7) ^ (
            if odd_parity(x) {
                0xC001u16
            } else {
                0u16
            })
        }),
{
    let x0 = crc ^ (b as u16);
    let x1 = crc_bits(x0, 1);
    let x2 = crc_bits(x0, 2);
    let x3 = crc_bits(x0, 3);
    let x4 = crc_bits(x0, 4);
    let x5 = crc_bits(x0, 5);
    let x6 = crc_bits(x0, 6);
    let x7 = crc_bits(x0, 7);
    let x8 = crc_bits(x0, 8);
    assert(crc_bits(x0, 0) == x0);
    assert(x8 == (crc >> 8) ^ ((x0 as u8 as u16) << 6) ^ ((x0 as u8 as u16) << 7) ^ (if odd_parity(
        x0 as u8,
    ) {
        0xC001u16
    } else {
        0u16
    })) by (bit_vector)
        requires
            x0 == crc ^ (b as u16),
            x1 == (if x0 & 1 != 0 { (x0 >> 1) ^ 0xA001 } else { x0 >> 1 }),
            x2 == (if x1 & 1 != 0 { (x1 >> 1) ^ 0xA001 } else { x1 >> 1 }),
            x3 == (if x2 & 1 != 0 { (x2 >> 1) ^ 0xA001 } else { x2 >> 1 }),
            x4 == (if x3 & 1 != 0 { (x3 >> 1) ^ 0xA001 } else { x3 >> 1 }),
            x5 == (if x4 & 1 != 0 { (x4 >> 1) ^ 0xA001 } else { x4 >> 1 }),
            x6 == (if x5 & 1 != 0 { (x5 >> 1) ^ 0xA001 } else { x5 >> 1 }),
            x7 == (if x6 & 1 != 0 { (x6 >> 1) ^ 0xA001 } else { x6 >> 1 }),
            x8 == (if x7 & 1 != 0 { (x7 >> 1) ^ 0xA001 } else { x7 >> 1 }),
    ;
}

/// The checksum of nothing is all ones, and at every length the checksum of `data` followed by
/// a byte comes from the checksum of `data` and the byte alone: with `x` the byte xor the low
/// half, it is the high half, `x` shifted by 6 and by 7, and `0xC001` where `x` has odd parity,
/// all xored.
pub proof fn law_each_byte_steps_the_checksum(data: Seq<u8>, b: u8)
    ensures
        crc16(Seq::empty()) == 0xFFFF,
        ({
            let crc = crc16(data);
            let x = (crc ^ (b as u16)) as u8;
            crc16(data.push(b)) == (crc >> 8) ^ ((x as u16) << 6) ^ ((x as u16) << 7) ^ (
            if odd_parity(x) {
                0xC001u16
            } else {
                0u16
            })
        }),
{
    assert(data.push(b).drop_last() =~= data);
    lemma_crc_byte(crc16(data), b);
}

/// A checksum that is appended low byte first leaves no remainder, at every length.
pub proof fn law_checksum_divides_out(data: Seq<u8>)
    ensures
        crc16(data.push((crc16(data) % 256) as u8).push((crc16(data) / 256) as u8)) == 0,
{
    let crc = crc16(data);
    let lo = (crc % 256) as u8;
    let hi = (crc / 256) as u8;
    let mid = crc16(data.push(lo));
    law_each_byte_steps_the_checksum(data, lo);
    law_each_byte_steps_the_checksum(data.push(lo), hi);
    let x = (crc ^ (lo as u16)) as u8;
    let y = (mid ^ (hi as u16)) as u8;
    assert(mid == crc >> 8 && x == 0 && y == 0 && mid >> 8 == 0) by (bit_vector)
        requires
            lo == crc % 256,
            hi == crc / 256,
            x == (crc ^ (lo as u16)) as u8,
            mid == (crc >> 8) ^ ((x as u16) << 6) ^ ((x as u16) << 7) ^ (if odd_parity(x) {
                0xC001u16
            } else {
                0u16
            }),
            y == (mid ^ (hi as u16)) as u8,
    ;
    assert((0u16 ^ ((0u8 as u16) << 6) ^ ((0u8 as u16) << 7) ^ (if odd_parity(0u8) {
        0xC001u16
    } else {
        0u16
    })) == 0) by (bit_vector);
}

// The checksum as a remainder of polynomials over the two-element field. A polynomial is the
// sequence of its coefficients, the highest first; bytes are sent low bit first.
/// The bits of `data` in the order in which they are sent.
pub open spec fn bits_of(data: Seq<u8>) -> Seq<bool> {
    Seq::new(8 * data.len(), |i: int| (data[i / 8] >> ((i % 8) as u8)) & 1 == 1)
}

/// Coefficient `i` of a polynomial, which is 0 outside of it.
pub open spec fn coef(p: Seq<bool>, i: int) -> bool {
    0 <= i < p.len() && p[i]
}

/// Coefficient `i` of what is divided: the message times x^16, its first 16 coefficients
/// inverted, which is what the initial all ones amount to.
pub open spec fn dividend(msg: Seq<bool>, i: int) -> bool {
    coef(msg, i) != (0 <= i < 16)
}

/// Coefficient `i` of `q` times x^16 + x^15 + x^2 + 1.
pub open spec fn times_modbus(q: Seq<bool>, i: int) -> bool {
    (coef(q, i) != coef(q, i - 1)) != (coef(q, i - 14) != coef(q, i - 16))
}

/// `r`, its low bit the coefficient of x^15, is the remainder of the message under
/// x^16 + x^15 + x^2 + 1 (`0x8005`), with the quotient `q`.
pub open spec fn is_remainder(msg: Seq<bool>, q: Seq<bool>, r: u16) -> bool {
    &&& q.len() == msg.len()
    &&& forall|i: int|
        0 <= i < msg.len() + 16 ==> #[trigger] dividend(msg, i) == (times_modbus(q, i) != (i
            >= msg.len() && (r >> ((i - msg.len()) as u16)) & 1 == 1))
}

proof fn lemma_divide_one_bit(msg: Seq<bool>, q: Seq<bool>, r: u16, m: bool)
    requires
        is_remainder(msg, q, r),
    ensures
        ({
            let t = (r & 1 == 1) != m;
            is_remainder(
                msg.push(m),
                q.push(t),
                if t {
                    (r >> 1) ^ 0xA001
                } else {
                    r >> 1
                },
            )
        }),
{
    let n = msg.len() as int;
    let t = (r & 1 == 1) != m;
    let next = if t {
        (r >> 1) ^ 0xA001
    } else {
        r >> 1
    };
    let msg2 = msg.push(m);
    let q2 = q.push(t);
    assert forall|i: int| 0 <= i < n + 17 implies #[trigger] dividend(msg2, i) == (times_modbus(
        q2,
        i,
    ) != (i >= n + 1 && (next >> ((i - (n + 1)) as u16)) & 1 == 1)) by {
        assert(forall|k: int| k != n ==> #[trigger] coef(q2, k) == coef(q, k));
        assert(coef(q2, n) == t && !coef(q, n));
        if i < n + 16 {
            assert(dividend(msg, i) == (times_modbus(q, i) != (i >= n && (r >> ((i - n) as u16)) & 1
                == 1)));
        }
        let j = (i - n) as u16;
        assert((r >> 0u16) & 1 == r & 1 && ((r >> 1) >> 15u16) & 1 == 0 && (((r >> 1) ^ 0xA001)
            >> 15u16) & 1 == 1) by (bit_vector);
        if i == n {
            assert(j == 0);
        } else if n < i < n + 16 {
            let k = (j - 1) as u16;
            assert((((r >> 1) >> k) & 1 == 1) == ((r >> j) & 1 == 1) && ((((r >> 1) ^ 0xA001) >> k)
                & 1 == 1) == (((r >> j) & 1 == 1) != (j == 1 || j == 14))) by (bit_vector)
                requires
                    1 <= j <= 15,
                    k == j - 1,
            ;
        }
    }
}

/// The bits of `b` that are still to be divided after `k` of them, xored into the register.
proof fn lemma_divide_bits(msg: Seq<bool>, q: Seq<bool>, r: u16, b: u8, k: nat) -> (q2: Seq<bool>)
    requires
        is_remainder(msg, q, r),
        k <= 8,
    ensures
        is_remainder(
            msg + Seq::new(k, |i: int| (b >> (i as u8)) & 1 == 1),
            q2,
            crc_bits(r ^ (b as u16), k) ^ ((b as u16) >> (k as u16)),
        ),
    decreases k,
{
    if k == 0 {
        assert(msg + Seq::new(0, |i: int| (b >> (i as u8)) & 1 == 1) =~= msg);
        assert((r ^ (b as u16)) ^ ((b as u16) >> 0u16) == r) by (bit_vector);
        q
    } else {
        let j = (k - 1) as nat;
        let before = lemma_divide_bits(msg, q, r, b, j);
        let s = crc_bits(r ^ (b as u16), j);
        let n = j as u16;
        let reg = s ^ ((b as u16) >> n);
        let m = (b >> (j as u8)) & 1 == 1;
        let t = (reg & 1 == 1) != m;
        let front = msg + Seq::new(j, |i: int| (b >> (i as u8)) & 1 == 1);
        lemma_divide_one_bit(front, before, reg, m);
        assert(front.push(m) =~= msg + Seq::new(k, |i: int| (b >> (i as u8)) & 1 == 1));
        let nb = j as u8;
        let n1 = k as u16;
        assert(((s & 1 != 0) == ((reg & 1 == 1) != ((b >> nb) & 1 == 1))) && ((s >> 1) ^ ((b as u16)
            >> n1) == reg >> 1) && (((s >> 1) ^ 0xA001) ^ ((b as u16) >> n1) == (reg >> 1)
            ^ 0xA001)) by (bit_vector)
            requires
                reg == s ^ ((b as u16) >> n),
                n < 8,
                n1 == n + 1,
                nb as u16 == n,
        ;
        before.push(t)
    }
}

/// The checksum of a message is its remainder under the Modbus polynomial `0x8005`, whatever
/// its length.
pub proof fn law_checksum_is_a_remainder(data: Seq<u8>)
    ensures
        exists|q: Seq<bool>| is_remainder(bits_of(data), q, crc16(data)),
    decreases data.len(),
{
    if data.len() == 0 {
        let q = Seq::<bool>::empty();
        assert forall|i: int| 0 <= i < 16 implies #[trigger] dividend(bits_of(data), i) == (
        times_modbus(q, i) != ((0xFFFFu16 >> (i as u16)) & 1 == 1)) by {
            let k = i as u16;
            assert((0xFFFFu16 >> k) & 1 == 1) by (bit_vector)
                requires
                    k < 16,
            ;
        }
        assert(is_remainder(bits_of(data), q, crc16(data)));
    } else {
        let front = data.drop_last();
        let b = data.last();
        law_checksum_is_a_remainder(front);
        let q = choose|q: Seq<bool>| is_remainder(bits_of(front), q, crc16(front));
        let q2 = lemma_divide_bits(bits_of(front), q, crc16(front), b, 8);
        assert((b as u16) >> 8u16 == 0 && crc16(data) ^ 0 == crc16(data)) by {
            let c = crc16(data);
            assert((b as u16) >> 8u16 == 0 && c ^ 0 == c) by (bit_vector);
        }
        assert(bits_of(data) =~= bits_of(front) + Seq::new(
            8,
            |i: int| (b >> (i as u8)) & 1 == 1,
        ));
    }
}

/// What `crc16_modbus` gives for a message is its remainder under the Modbus polynomial, for a
/// message of any length.
pub proof fn law_crc16_modbus_gives_the_remainder(data: &[u8], crc: u16)
    requires
        call_ensures(crc16_modbus, (data,), crc),
    ensures
        exists|q: Seq<bool>| is_remainder(bits_of(data@), q, crc),
{
    law_checksum_is_a_remainder(data@);
}

} // verus!
