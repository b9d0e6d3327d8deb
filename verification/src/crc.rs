//! CRC16/ARC, as DSMR telegrams carry it.

use vstd::prelude::*;

verus! {

/// One step of the shift register (reflected polynomial 0xA001).
pub open spec fn shifted(crc: u16) -> u16 {
    if crc & 1 != 0 {
        (crc >> 1) ^ 0xA001
    } else {
        crc >> 1
    }
}

/// `count` steps of the shift register.
pub open spec fn shifted_by(crc: u16, count: nat) -> u16
    decreases count,
{
    if count == 0 {
        crc
    } else {
        shifted(shifted_by(crc, (count - 1) as nat))
    }
}

/// The register after another byte.
pub open spec fn fed(crc: u16, byte: u8) -> u16 {
    shifted_by(crc ^ (byte as u16), 8)
}

/// The register after `data`, from the register `crc` before it.
pub open spec fn fed_all(crc: u16, data: Seq<u8>) -> u16
    decreases data.len(),
{
    if data.len() == 0 {
        crc
    } else {
        fed(fed_all(crc, data.drop_last()), data.last())
    }
}

/// The CRC of `data`: the register starts at zero and is not complemented.
pub open spec fn crc16(data: Seq<u8>) -> u16 {
    fed_all(0, data)
}

/// CRC16/ARC (poly 0xA001, init 0x0000, no final xor), as used by DSMR.
pub fn crc16_arc(data: &[u8]) -> (r: u16)
    ensures
        r == crc16(data@),
{
    let mut crc: u16 = 0;
    let mut i: usize = 0;
    while i < data.len()
        invariant
            i <= data@.len(),
            crc == fed_all(0, data@.take(i as int)),
        decreases data@.len() - i,
    {
        let ghost before = crc;
        let byte: u8 = data[i];
        crc = crc ^ byte as u16;
        let ghost mixed = crc;
        let mut k: u32 = 0;
        while k < 8
            invariant
                k <= 8,
                crc == shifted_by(mixed, k as nat),
            decreases 8 - k,
        {
            if crc & 1 != 0 {
                crc = (crc >> 1) ^ 0xA001;
            } else {
                crc = crc >> 1;
            }
            k = k + 1;
        }
        proof {
            let t = data@.take(i as int + 1);
            assert(t.drop_last() == data@.take(i as int));
            assert(t.last() == byte);
        }
        i = i + 1;
    }
    assert(data@.take(i as int) == data@);
    crc
}

proof fn lemma_shifted_injective(a: u16, b: u16)
    requires
        shifted(a) == shifted(b),
    ensures
        a == b,
{
    let sa: u16 = if a & 1 != 0 { (a >> 1) ^ 0xA001 } else { a >> 1 };
    let sb: u16 = if b & 1 != 0 { (b >> 1) ^ 0xA001 } else { b >> 1 };
    assert(a == b) by (bit_vector)
        requires
            sa == sb,
            sa == (if a & 1 != 0 { (a >> 1) ^ 0xA001 } else { a >> 1 }),
            sb == (if b & 1 != 0 { (b >> 1) ^ 0xA001 } else { b >> 1 }),
    ;
}

proof fn lemma_shifted_by_injective(a: u16, b: u16, count: nat)
    requires
        shifted_by(a, count) == shifted_by(b, count),
    ensures
        a == b,
    decreases count,
{
    if count > 0 {
        let c = (count - 1) as nat;
        lemma_shifted_injective(shifted_by(a, c), shifted_by(b, c));
        lemma_shifted_by_injective(a, b, c);
    }
}

proof fn lemma_xor_cancels(a: u16, b: u16, x: u16)
    requires
        a ^ x == b ^ x,
    ensures
        a == b,
{
    assert(a == b) by (bit_vector)
        requires
            a ^ x == b ^ x,
    ;
}

/// Different registers stay different, whatever follows.
proof fn lemma_fed_all_injective(a: u16, b: u16, data: Seq<u8>)
    requires
        fed_all(a, data) == fed_all(b, data),
    ensures
        a == b,
    decreases data.len(),
{
    if data.len() > 0 {
        let rest = data.drop_last();
        let x = fed_all(a, rest);
        let y = fed_all(b, rest);
        let byte = data.last() as u16;
        lemma_shifted_by_injective(x ^ byte, y ^ byte, 8);
        lemma_xor_cancels(x, y, byte);
        lemma_fed_all_injective(a, b, rest);
    }
}

proof fn lemma_fed_all_concat(crc: u16, a: Seq<u8>, b: Seq<u8>)
    ensures
        fed_all(crc, a + b) == fed_all(fed_all(crc, a), b),
    decreases b.len(),
{
    if b.len() == 0 {
        assert(a + b == a);
    } else {
        assert((a + b).drop_last() == a + b.drop_last());
        lemma_fed_all_concat(crc, a, b.drop_last());
    }
}

/// High bits move down without feedback for eight steps.
proof fn lemma_high_byte(x: u16, high: u16)
    requires
        high < 256,
    ensures
        shifted_by(x ^ (high << 8), 8) == shifted_by(x, 8) ^ high,
{
    let h0 = high << 8;
    let h1 = h0 >> 1;
    let h2 = h1 >> 1;
    let h3 = h2 >> 1;
    let h4 = h3 >> 1;
    let h5 = h4 >> 1;
    let h6 = h5 >> 1;
    let h7 = h6 >> 1;
    let h8 = h7 >> 1;
    assert(h0 & 1 == 0 && h1 & 1 == 0 && h2 & 1 == 0 && h3 & 1 == 0 && h4 & 1 == 0 && h5 & 1 == 0
        && h6 & 1 == 0 && h7 & 1 == 0 && h8 == high) by (bit_vector)
        requires
            high < 256,
            h0 == high << 8,
            h1 == h0 >> 1,
            h2 == h1 >> 1,
            h3 == h2 >> 1,
            h4 == h3 >> 1,
            h5 == h4 >> 1,
            h6 == h5 >> 1,
            h7 == h6 >> 1,
            h8 == h7 >> 1,
    ;
    reveal_with_fuel(shifted_by, 9);
    lemma_high_step(x, h0);
    lemma_high_step(shifted_by(x, 1), h1);
    lemma_high_step(shifted_by(x, 2), h2);
    lemma_high_step(shifted_by(x, 3), h3);
    lemma_high_step(shifted_by(x, 4), h4);
    lemma_high_step(shifted_by(x, 5), h5);
    lemma_high_step(shifted_by(x, 6), h6);
    lemma_high_step(shifted_by(x, 7), h7);
}

proof fn lemma_high_step(x: u16, h: u16)
    ensures
        h & 1 == 0 ==> shifted(x ^ h) == shifted(x) ^ (h >> 1),
{
    assert(h & 1 == 0 ==> (if (x ^ h) & 1 != 0 {
        ((x ^ h) >> 1) ^ 0xA001
    } else {
        (x ^ h) >> 1
    }) == (if x & 1 != 0 {
        (x >> 1) ^ 0xA001
    } else {
        x >> 1
    }) ^ (h >> 1)) by (bit_vector);
}

/// Two bytes in a row act on the register as one word.
proof fn lemma_fed_twice(crc: u16, a: u8, b: u8)
    ensures
        fed(fed(crc, a), b) == shifted_by(shifted_by(crc ^ (a as u16) ^ ((b as u16) << 8), 8), 8),
{
    lemma_high_byte(crc ^ (a as u16), b as u16);
}

/// A change within two neighbouring bytes changes the CRC, whatever surrounds
/// them.
pub proof fn law_short_bursts_are_detected(
    before: Seq<u8>,
    old_pair: Seq<u8>,
    new_pair: Seq<u8>,
    after: Seq<u8>,
)
    requires
        old_pair.len() == new_pair.len() <= 2,
        old_pair != new_pair,
    ensures
        crc16(before + old_pair + after) != crc16(before + new_pair + after),
{
    let c = crc16(before);
    lemma_fed_all_concat(0, before + old_pair, after);
    lemma_fed_all_concat(0, before + new_pair, after);
    lemma_fed_all_concat(0, before, old_pair);
    lemma_fed_all_concat(0, before, new_pair);
    if crc16(before + old_pair + after) == crc16(before + new_pair + after) {
        lemma_fed_all_injective(fed_all(c, old_pair), fed_all(c, new_pair), after);
        reveal_with_fuel(fed_all, 3);
        if old_pair.len() == 1 {
            let x = old_pair[0];
            let y = new_pair[0];
            assert(old_pair.drop_last() == Seq::<u8>::empty());
            assert(new_pair.drop_last() == Seq::<u8>::empty());
            lemma_shifted_by_injective(c ^ (x as u16), c ^ (y as u16), 8);
            assert(x == y) by (bit_vector)
                requires
                    c ^ (x as u16) == c ^ (y as u16),
            ;
            assert(old_pair == new_pair);
        } else if old_pair.len() == 2 {
            let x = old_pair[0];
            let y = new_pair[0];
            let u = old_pair[1];
            let v = new_pair[1];
            assert(old_pair.drop_last().drop_last() == Seq::<u8>::empty());
            assert(new_pair.drop_last().drop_last() == Seq::<u8>::empty());
            lemma_fed_twice(c, x, u);
            lemma_fed_twice(c, y, v);
            let p = c ^ (x as u16) ^ ((u as u16) << 8);
            let q = c ^ (y as u16) ^ ((v as u16) << 8);
            lemma_shifted_by_injective(shifted_by(p, 8), shifted_by(q, 8), 8);
            lemma_shifted_by_injective(p, q, 8);
            assert(x == y && u == v) by (bit_vector)
                requires
                    c ^ (x as u16) ^ ((u as u16) << 8) == c ^ (y as u16) ^ ((v as u16) << 8),
            ;
            assert(old_pair == new_pair);
        } else {
            assert(old_pair == new_pair);
        }
    }
}

/// The CRC of a single byte, written as the sum (without carries) of what its
/// bits contribute.
pub open spec fn byte_crc(byte: u8) -> u16 {
    (if byte & 1 != 0 { 0xC0C1u16 } else { 0 }) ^ (if byte & 2 != 0 { 0xC181u16 } else { 0 }) ^ (
    if byte & 4 != 0 { 0xC301u16 } else { 0 }) ^ (if byte & 8 != 0 { 0xC601u16 } else { 0 }) ^ (
    if byte & 16 != 0 { 0xCC01u16 } else { 0 }) ^ (if byte & 32 != 0 { 0xD801u16 } else { 0 }) ^ (
    if byte & 64 != 0 { 0xF001u16 } else { 0 }) ^ (if byte & 128 != 0 { 0xA001u16 } else { 0 })
}

/// A byte shifted out of the register feeds back what it would contribute alone.
proof fn lemma_low_byte(c: u16)
    ensures
        shifted_by(c, 8) == (c >> 8) ^ byte_crc((c & 0xFF) as u8),
{
    reveal_with_fuel(shifted_by, 9);
    let c1: u16 = if c & 1 != 0 { (c >> 1) ^ 0xA001 } else { c >> 1 };
    let c2: u16 = if c1 & 1 != 0 { (c1 >> 1) ^ 0xA001 } else { c1 >> 1 };
    let c3: u16 = if c2 & 1 != 0 { (c2 >> 1) ^ 0xA001 } else { c2 >> 1 };
    let c4: u16 = if c3 & 1 != 0 { (c3 >> 1) ^ 0xA001 } else { c3 >> 1 };
    let c5: u16 = if c4 & 1 != 0 { (c4 >> 1) ^ 0xA001 } else { c4 >> 1 };
    let c6: u16 = if c5 & 1 != 0 { (c5 >> 1) ^ 0xA001 } else { c5 >> 1 };
    let c7: u16 = if c6 & 1 != 0 { (c6 >> 1) ^ 0xA001 } else { c6 >> 1 };
    let c8: u16 = if c7 & 1 != 0 { (c7 >> 1) ^ 0xA001 } else { c7 >> 1 };
    assert(c8 == (c >> 8) ^ byte_crc((c & 0xFF) as u8)) by (bit_vector)
        requires
            c1 == (if c & 1 != 0 { (c >> 1) ^ 0xA001 } else { c >> 1 }),
            c2 == (if c1 & 1 != 0 { (c1 >> 1) ^ 0xA001 } else { c1 >> 1 }),
            c3 == (if c2 & 1 != 0 { (c2 >> 1) ^ 0xA001 } else { c2 >> 1 }),
            c4 == (if c3 & 1 != 0 { (c3 >> 1) ^ 0xA001 } else { c3 >> 1 }),
            c5 == (if c4 & 1 != 0 { (c4 >> 1) ^ 0xA001 } else { c4 >> 1 }),
            c6 == (if c5 & 1 != 0 { (c5 >> 1) ^ 0xA001 } else { c5 >> 1 }),
            c7 == (if c6 & 1 != 0 { (c6 >> 1) ^ 0xA001 } else { c6 >> 1 }),
            c8 == (if c7 & 1 != 0 { (c7 >> 1) ^ 0xA001 } else { c7 >> 1 }),
    ;
}

/// The CRC of data and one more byte: the low byte of the CRC meets the new byte,
/// and what they contribute together meets the high byte. The CRC of nothing is
/// zero.
pub proof fn law_next_byte(data: Seq<u8>, byte: u8)
    ensures
        crc16(Seq::<u8>::empty()) == 0,
        crc16(data.push(byte)) == (crc16(data) >> 8) ^ byte_crc(
            ((crc16(data) & 0xFF) ^ (byte as u16)) as u8,
        ),
{
    let c = crc16(data);
    let x = c ^ (byte as u16);
    assert(data.push(byte).drop_last() == data);
    assert(data.push(byte).last() == byte);
    lemma_low_byte(x);
    assert(x >> 8 == c >> 8 && (x & 0xFF) as u8 == ((c & 0xFF) ^ (byte as u16)) as u8)
        by (bit_vector)
        requires
            x == c ^ (byte as u16),
    ;
}

/// Data followed by its own CRC, the low byte first, has the CRC zero.
pub proof fn law_appended_crc_cancels(data: Seq<u8>)
    ensures
        crc16(data.push((crc16(data) & 0xFF) as u8).push((crc16(data) >> 8) as u8)) == 0,
{
    let c = crc16(data);
    let low = (c & 0xFF) as u8;
    let high = (c >> 8) as u8;
    let d = crc16(data.push(low));
    law_next_byte(data, low);
    law_next_byte(data.push(low), high);
    assert(byte_crc(0) == 0u16) by (bit_vector);
    assert(((c & 0xFF) ^ (low as u16)) as u8 == 0u8) by (bit_vector)
        requires
            low == (c & 0xFF) as u8,
    ;
    assert((c >> 8) ^ 0u16 == c >> 8) by (bit_vector);
    assert(d == c >> 8);
    assert(((d & 0xFF) ^ (high as u16)) as u8 == 0u8 && (d >> 8) ^ 0u16 == 0) by (bit_vector)
        requires
            d == c >> 8,
            high == (c >> 8) as u8,
    ;
}

} // verus!
