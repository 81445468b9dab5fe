//! LCRC / CRC16 of the PCIe data link layer: the formulas of the PCIe Base
//! Spec (04C11DB7 / 100B, initial value all ones, result inverted and bit
//! reversed).
use vstd::prelude::*;

verus! {

/// The low `width` bits set.
pub open spec fn crc_mask(width: u32) -> u64 {
    if width >= 64 {
        u64::MAX
    } else {
        ((1u64 << width) - 1) as u64
    }
}

/// One input bit shifted into the register (most significant bit first).
pub open spec fn crc_bit(crc: u64, bit: u64, poly: u64, width: u32) -> u64 {
    let fb = ((crc >> ((width - 1) as u32)) & 1) ^ bit;
    let c = (crc << 1u64) & crc_mask(width);
    if fb == 1 {
        c ^ poly
    } else {
        c
    }
}

/// The register after the first `n` bits of `b`, most significant bit first.
pub open spec fn crc_byte_bits(crc: u64, b: u8, n: nat, poly: u64, width: u32) -> u64
    decreases n,
{
    if n == 0 {
        crc
    } else {
        crc_bit(
            crc_byte_bits(crc, b, (n - 1) as nat, poly, width),
            ((b >> ((8 - n) as u8)) & 1) as u64,
            poly,
            width,
        )
    }
}

/// The register after all bytes of `data`.
pub open spec fn crc_bytes(data: Seq<u8>, poly: u64, width: u32, init: u64) -> u64
    decreases data.len(),
{
    if data.len() == 0 {
        init
    } else {
        crc_byte_bits(crc_bytes(data.drop_last(), poly, width, init), data.last(), 8, poly, width)
    }
}

/// A `width`-bit CRC with polynomial `poly` over `data`, without final
/// inversion or reflection.
pub open spec fn crc_spec(data: Seq<u8>, poly: u64, width: u32, init: u64) -> u64 {
    crc_bytes(data, poly, width, init) & crc_mask(width)
}

/// The low `n` bits of `v` reversed into the top of a `width`-bit field.
pub open spec fn reflect_bits(v: u64, width: u32, n: nat) -> u64
    decreases n,
{
    if n == 0 {
        0
    } else {
        let i = (n - 1) as u32;
        let r = reflect_bits(v, width, (n - 1) as nat);
        if v & (1u64 << i) != 0 {
            r | (1u64 << ((width - 1 - i) as u32))
        } else {
            r
        }
    }
}

/// The low `width` bits of `v` in reverse order.
pub open spec fn reflect_spec(v: u64, width: u32) -> u64 {
    reflect_bits(v, width, width as nat)
}

pub fn crc_generic(data: &[u8], poly: u64, width: u32, init: u64) -> (r: u64)
    requires
        1 <= width <= 64,
    ensures
        r == crc_spec(data@, poly, width, init),
{
    let mask = if width == 64 {
        u64::MAX
    } else {
        assert((1u64 << width) >= 1) by (bit_vector)
            requires
                width < 64,
        ;
        (1u64 << width) - 1
    };
    let mut crc = init;
    let mut j: usize = 0;
    while j < data.len()
        invariant
            1 <= width <= 64,
            mask == crc_mask(width),
            j <= data.len(),
            crc == crc_bytes(data@.take(j as int), poly, width, init),
        decreases data.len() - j,
    {
        let b = data[j];
        let ghost start = crc;
        let mut i: u32 = 8;
        while i > 0
            invariant
                1 <= width <= 64,
                mask == crc_mask(width),
                i <= 8,
                crc == crc_byte_bits(start, b, (8 - i) as nat, poly, width),
            decreases i,
        {
            i -= 1;
            let bit = ((b >> i) & 1) as u64;
            let fb = ((crc >> (width - 1)) & 1) ^ bit;
            crc = (crc << 1u64) & mask;
            if fb == 1 {
                crc ^= poly;
            }
        }
        proof {
            assert(data@.take(j + 1).drop_last() =~= data@.take(j as int));
        }
        j += 1;
    }
    assert(data@.take(data.len() as int) =~= data@);
    crc & mask
}

pub fn reflect(v: u64, width: u32) -> (r: u64)
    requires
        width <= 64,
    ensures
        r == reflect_spec(v, width),
{
    let mut r: u64 = 0;
    let mut i: u32 = 0;
    while i < width
        invariant
            i <= width <= 64,
            r == reflect_bits(v, width, i as nat),
        decreases width - i,
    {
        if v & (1u64 << i) != 0 {
            r |= 1u64 << (width - 1 - i);
        }
        i += 1;
    }
    r
}

/// The LCRC of a TLP (sequence number and TLP bytes).
pub open spec fn lcrc32_spec(data: Seq<u8>) -> u32 {
    reflect_spec(!crc_spec(data, 0x04C1_1DB7, 32, 0xFFFF_FFFF) & 0xFFFF_FFFF, 32) as u32
}

/// The CRC16 of a DLLP.
pub open spec fn dllp_crc16_spec(data: Seq<u8>) -> u16 {
    reflect_spec(!crc_spec(data, 0x100B, 16, 0xFFFF) & 0xFFFF, 16) as u16
}

pub fn lcrc32(data: &[u8]) -> (r: u32)
    ensures
        r == lcrc32_spec(data@),
{
    let c = crc_generic(data, 0x04C1_1DB7, 32, 0xFFFF_FFFF);
    reflect(!c & 0xFFFF_FFFF, 32) as u32
}

pub fn dllp_crc16(data: &[u8]) -> (r: u16)
    ensures
        r == dllp_crc16_spec(data@),
{
    let c = crc_generic(data, 0x100B, 16, 0xFFFF);
    reflect(!c & 0xFFFF, 16) as u16
}

proof fn lemma_reflect_bound(v: u64, width: u32, n: nat)
    requires
        1 <= width <= 32,
        n <= width,
    ensures
        reflect_bits(v, width, n) < (1u64 << width),
    decreases n,
{
    if n > 0 {
        lemma_reflect_bound(v, width, (n - 1) as nat);
        let i = (n - 1) as u32;
        let r = reflect_bits(v, width, (n - 1) as nat);
        assert((r | (1u64 << ((width - 1 - i) as u32))) < (1u64 << width)) by (bit_vector)
            requires
                1 <= width <= 32,
                i < width,
                r < (1u64 << width),
        ;
    }
    assert((1u64 << width) >= 1) by (bit_vector)
        requires
            1 <= width <= 32,
    ;
}

/// The CRC16 of a DLLP is the plain CRC (polynomial 100B, initial value all
/// ones) complemented within its 16 bits and then bit-reversed.
pub proof fn lemma_dllp_crc16_inverted(data: Seq<u8>)
    ensures
        crc_spec(data, 0x100B, 16, 0xFFFF) <= 0xFFFF,
        dllp_crc16_spec(data) as u64 == reflect_spec((0xFFFF - crc_spec(data, 0x100B, 16, 0xFFFF)) as u64, 16),
{
    let raw = crc_bytes(data, 0x100B, 16, 0xFFFF);
    assert(crc_mask(16) == 0xFFFF) by (bit_vector);
    let c = raw & 0xFFFF;
    assert(c <= 0xFFFF && (!c & 0xFFFF) == 0xFFFF - c) by (bit_vector)
        requires
            c == raw & 0xFFFF,
    ;
    lemma_reflect_bound(!c & 0xFFFF, 16, 16);
    assert((1u64 << 16u32) == 0x10000) by (bit_vector);
}

/// The LCRC of a TLP is the plain CRC (polynomial 04C11DB7, initial value
/// all ones) complemented within its 32 bits and then bit-reversed.
pub proof fn lemma_lcrc32_inverted(data: Seq<u8>)
    ensures
        crc_spec(data, 0x04C1_1DB7, 32, 0xFFFF_FFFF) <= 0xFFFF_FFFF,
        lcrc32_spec(data) as u64 == reflect_spec(
            (0xFFFF_FFFF - crc_spec(data, 0x04C1_1DB7, 32, 0xFFFF_FFFF)) as u64,
            32,
        ),
{
    let raw = crc_bytes(data, 0x04C1_1DB7, 32, 0xFFFF_FFFF);
    assert(crc_mask(32) == 0xFFFF_FFFF) by (bit_vector);
    let c = raw & 0xFFFF_FFFF;
    assert(c <= 0xFFFF_FFFF && (!c & 0xFFFF_FFFF) == 0xFFFF_FFFF - c) by (bit_vector)
        requires
            c == raw & 0xFFFF_FFFF,
    ;
    lemma_reflect_bound(!c & 0xFFFF_FFFF, 32, 32);
    assert((1u64 << 32u32) == 0x1_0000_0000) by (bit_vector);
}

} // verus!
