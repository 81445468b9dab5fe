//! Gen1/Gen2 扰码 LFSR: X^16+X^5+X^4+X^3+1, Galois 左移, 反馈掩码 0x39,
//! 输出取 D15 (移位前), 字节 LSB 先。复位后对 D0.0 输出 FF 17 C0 14 B2 E7 02 82 ...
use vstd::prelude::*;

verus! {

use super::describe::{K_COM, K_SKP};

/// The scrambler's registers.
pub struct ScramblerState {
    pub lfsr: u16,
    /// Data symbols of a training sequence still to pass unscrambled.
    pub in_ts: u8,
}

pub struct Scrambler {
    lfsr: u16,
    in_ts: u8,
}

impl View for Scrambler {
    type V = ScramblerState;

    closed spec fn view(&self) -> ScramblerState {
        ScramblerState { lfsr: self.lfsr, in_ts: self.in_ts }
    }
}

/// The state after a reset.
pub open spec fn scrambler_reset() -> ScramblerState {
    ScramblerState { lfsr: 0xFFFF, in_ts: 0 }
}

/// One shift of the LFSR.
pub open spec fn lfsr_step(l: u16) -> u16 {
    let s = (l << 1u16) as u16;
    if (l >> 15u16) & 1 == 1 {
        s ^ 0x39
    } else {
        s
    }
}

/// The LFSR after `n` shifts.
pub open spec fn lfsr_after(l: u16, n: nat) -> u16
    decreases n,
{
    if n == 0 {
        l
    } else {
        lfsr_step(lfsr_after(l, (n - 1) as nat))
    }
}

/// The first `n` output bits (bit 15 before each shift), least significant first.
pub open spec fn mask_bits(l: u16, n: nat) -> u8
    decreases n,
{
    if n == 0 {
        0
    } else {
        mask_bits(l, (n - 1) as nat) | ((((lfsr_after(l, (n - 1) as nat) >> 15u16) & 1) as u8) << ((n
            - 1) as u8))
    }
}

/// One byte of scrambling mask, and the LFSR after it.
pub open spec fn advance(l: u16) -> (u16, u8) {
    (lfsr_after(l, 8), mask_bits(l, 8))
}

/// One symbol through the descrambler: the new state and the output byte.
/// COM resets the LFSR (and, when data follows, starts a training sequence
/// whose 15 data symbols pass unscrambled); SKP leaves it alone; other
/// control symbols advance it; data symbols advance it and are XORed with
/// the mask unless inside a training sequence.
pub open spec fn process_spec(st: ScramblerState, byte: u8, k: bool, next_is_d: bool) -> (ScramblerState, u8) {
    if k {
        if byte == K_COM {
            (ScramblerState { lfsr: 0xFFFF, in_ts: if next_is_d { 15 } else { 0 } }, byte)
        } else if byte == K_SKP {
            (st, byte)
        } else {
            (ScramblerState { lfsr: advance(st.lfsr).0, ..st }, byte)
        }
    } else {
        let (l, mask) = advance(st.lfsr);
        if st.in_ts > 0 {
            (ScramblerState { lfsr: l, in_ts: (st.in_ts - 1) as u8 }, byte)
        } else {
            (ScramblerState { lfsr: l, in_ts: st.in_ts }, byte ^ mask)
        }
    }
}

impl Scrambler {
    pub fn new() -> (r: Self)
        ensures
            r@ == scrambler_reset(),
    {
        Self { lfsr: 0xFFFF, in_ts: 0 }
    }

    pub fn advance_byte(&mut self) -> (out: u8)
        ensures
            final(self)@.lfsr == advance(old(self)@.lfsr).0,
            final(self)@.in_ts == old(self)@.in_ts,
            out == advance(old(self)@.lfsr).1,
    {
        let ghost l0 = self.lfsr;
        let mut out = 0u8;
        let mut i: u8 = 0;
        while i < 8
            invariant
                i <= 8,
                self.lfsr == lfsr_after(l0, i as nat),
                out == mask_bits(l0, i as nat),
                self.in_ts == old(self).in_ts,
            decreases 8 - i,
        {
            let msb = (self.lfsr >> 15u16) & 1;
            out |= (msb as u8) << i;
            self.lfsr = self.lfsr << 1u16;
            if msb == 1 {
                self.lfsr ^= 0x39;
            }
            i += 1;
        }
        out
    }

    /// 处理一个符号, 返回解扰后的字节
    pub fn process(&mut self, byte: u8, k: bool, next_is_d: bool) -> (r: u8)
        ensures
            (final(self)@, r) == process_spec(old(self)@, byte, k, next_is_d),
    {
        if k {
            if byte == K_COM {
                self.lfsr = 0xFFFF;
                self.in_ts = if next_is_d { 15 } else { 0 };
                return byte;
            }
            if byte == K_SKP {
                return byte;
            }
            self.advance_byte();
            return byte;
        }
        let mask = self.advance_byte();
        if self.in_ts > 0 {
            self.in_ts -= 1;
            return byte;
        }
        byte ^ mask
    }
}

/// Descrambling is its own inverse: two scramblers in the same state, one
/// fed the other's output, return the original byte and end in the same state.
pub proof fn lemma_scramble_roundtrip(st: ScramblerState, byte: u8, k: bool, next_is_d: bool)
    ensures
        ({
            let (st1, once) = process_spec(st, byte, k, next_is_d);
            let (st2, twice) = process_spec(st, once, k, next_is_d);
            st1 == st2 && twice == byte
        }),
{
    let mask = advance(st.lfsr).1;
    assert((byte ^ mask) ^ mask == byte) by (bit_vector);
}

} // verus!
