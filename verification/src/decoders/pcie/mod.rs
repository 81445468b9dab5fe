//! PCIe 物理层 / 数据链路层 / 事务层解码 (单 lane, 8b/10b, Gen1/Gen2)。
//!
//! 输出两条信号:
//! * 符号信号 — 每个 10 位符号: `K28.5 COM`, `D10.2 0x4A`, 未能解码的写 `ERR`
//! * 帧信号 — 帧级解析: `STP` / `SEQ 1` / `MWr32 len=1 tag=3 addr=0xF0001000` / `DATA DEADBEEF`
//!   / `LCRC ok` / `END` / `DLLP Ack seq=1` / `COM` `SKP` 等; 逻辑空闲 (D0.0) 显示空
//!
//! This module starts from the recovered bit stream (one level per unit
//! interval, with its start time): it searches the K28.5 comma for symbol
//! alignment, looks the symbols up in the 8b/10b table, descrambles, frames
//! STP/SDP/END/COM and describes TLPs and DLLPs. LCRC / CRC16 are checked and
//! marked ok / BAD.
use vstd::prelude::*;
use super::{Segment, SegmentView, bits_value, seg, seg_views};
use crate::sorting::{sort_by_key, sort_by_key_exec, lemma_sort_map};
use crate::text::{dec_chars, hex_pad, push_char, push_dec, push_hex, push_str};
use code8b10b::{DecodeTable, build_decode_table, decode_table};
use crc::{dllp_crc16, dllp_crc16_spec, lcrc32, lcrc32_spec};
use describe::{
    K_EDB, K_END, K_SDP, K_STP, be_value, be_bytes, describe_dllp, describe_dllp_spec, describe_tlp,
    describe_tlp_spec, k_name, k_name_spec,
};
use scrambler::{Scrambler, ScramblerState, process_spec, scrambler_reset};

pub mod code8b10b;
pub mod crc;
pub mod params;
pub mod describe;
pub mod scrambler;

verus! {

/// The comma K28.5 sent with negative running disparity ("0011111010").
pub open spec fn comma_neg() -> nat {
    0b0011111010
}

/// The comma K28.5 sent with positive running disparity ("1100000101").
pub open spec fn comma_pos() -> nat {
    0b1100000101
}

/// The 10-bit code starting at bit `i`.
pub open spec fn code_at(levels: Seq<bool>, i: int) -> nat {
    bits_value(levels.subrange(i, i + 10))
}

/// The first position at or after `i` where the code `pat` starts.
pub open spec fn find_from(levels: Seq<bool>, pat: nat, i: nat) -> Option<nat>
    decreases levels.len() - i,
{
    if i + 10 > levels.len() {
        None
    } else if code_at(levels, i as int) == pat {
        Some(i)
    } else {
        find_from(levels, pat, i + 1)
    }
}

/// 找 comma (K28.5) 确定符号边界, 返回偏移 0..10: the first occurrence of the
/// negative-disparity comma decides; the positive one only if there is none.
pub open spec fn alignment(levels: Seq<bool>) -> Option<nat> {
    match find_from(levels, comma_neg(), 0) {
        Some(p) => Some(p % 10),
        None => match find_from(levels, comma_pos(), 0) {
            Some(p) => Some(p % 10),
            None => None,
        },
    }
}

/// A symbol read from the line: start time, byte, control flag, and whether
/// its code was valid.
#[derive(Clone, Copy, Debug)]
pub struct Symbol {
    pub time: u64,
    pub byte: u8,
    pub k: bool,
    pub ok: bool,
}

/// Number of whole symbols after the alignment offset.
pub open spec fn symbol_count(len: nat, offset: nat) -> nat {
    if len >= offset {
        ((len - offset) as nat / 10) as nat
    } else {
        0
    }
}

/// The `j`-th symbol after the alignment offset, looked up in the table.
pub open spec fn raw_symbol(levels: Seq<bool>, times: Seq<u64>, offset: nat, j: int) -> Symbol {
    let i = offset + 10 * j;
    match decode_table()[code_at(levels, i) as int] {
        Some((b, k)) => Symbol { time: times[i], byte: b, k, ok: true },
        None => Symbol { time: times[i], byte: 0, k: false, ok: false },
    }
}

pub open spec fn raw_symbols(levels: Seq<bool>, times: Seq<u64>, offset: nat) -> Seq<Symbol> {
    Seq::new(symbol_count(levels.len(), offset), |j: int| raw_symbol(levels, times, offset, j))
}

/// `Kx.y` / `Dx.y` name of a symbol.
pub open spec fn sym_name(b: u8, k: bool) -> Seq<char> {
    seq![if k { 'K' } else { 'D' }] + dec_chars((b % 32) as nat) + "."@ + dec_chars((b / 32) as nat)
}

/// State of the symbol pass: descrambler, symbol segments, descrambled symbols.
pub struct SymState {
    pub scr: ScramblerState,
    pub out: Seq<SegmentView>,
    pub symbols: Seq<Symbol>,
}

/// The symbol pass over the first `n` raw symbols. An invalid code resets the
/// descrambler; a data symbol followed by a data symbol matters to COM.
pub open spec fn sym_run(raw: Seq<Symbol>, descramble: bool, n: nat) -> SymState
    decreases n,
{
    if n == 0 {
        SymState { scr: scrambler_reset(), out: Seq::empty(), symbols: Seq::empty() }
    } else {
        let st = sym_run(raw, descramble, (n - 1) as nat);
        let idx = n - 1;
        let r = raw[idx];
        if !r.ok {
            SymState {
                scr: scrambler_reset(),
                out: st.out.push(seg(r.time, "ERR"@)),
                symbols: st.symbols.push(Symbol { time: r.time, byte: 0, k: false, ok: false }),
            }
        } else {
            let next_is_d = idx + 1 < raw.len() && raw[idx + 1].ok && !raw[idx + 1].k;
            let (scr, data) = if descramble {
                process_spec(st.scr, r.byte, r.k, next_is_d)
            } else {
                (st.scr, r.byte)
            };
            let name = sym_name(r.byte, r.k);
            let text = if r.k {
                name + " "@ + k_name_spec(r.byte)
            } else if data != r.byte {
                name + " 0x"@ + hex_pad(r.byte as nat, 2) + ">0x"@ + hex_pad(data as nat, 2)
            } else {
                name + " 0x"@ + hex_pad(r.byte as nat, 2)
            };
            SymState {
                scr,
                out: st.out.push(seg(r.time, text)),
                symbols: st.symbols.push(Symbol { time: r.time, byte: data, k: r.k, ok: true }),
            }
        }
    }
}

/// Where the framer is.
#[derive(Debug, Clone, Copy, PartialEq, Eq)]
pub enum Frame {
    Idle,
    Os,
    Tlp,
    Dllp,
}

/// Upper-case hexadecimal of each byte, two digits each.
pub open spec fn hex_bytes(data: Seq<u8>) -> Seq<char>
    decreases data.len(),
{
    if data.len() == 0 {
        Seq::empty()
    } else {
        hex_bytes(data.drop_last()) + hex_pad(data.last() as nat, 2)
    }
}

/// The bytes of a buffer of (time, byte) pairs.
pub open spec fn buf_bytes(buf: Seq<(u64, u8)>) -> Seq<u8> {
    buf.map_values(|e: (u64, u8)| e.1)
}

/// Segments for a TLP between STP and END: sequence number, header, data
/// (the first 16 bytes, then `…`), and the LCRC check.
pub open spec fn finish_tlp_spec(buf: Seq<(u64, u8)>) -> Seq<SegmentView> {
    let n = buf.len();
    if n < 2 + 12 + 4 {
        if n > 0 {
            seq![seg(buf[0].0, "TLP too short ("@ + dec_chars(n) + " bytes)"@)]
        } else {
            Seq::empty()
        }
    } else {
        let bytes = buf_bytes(buf);
        let seqn = (bytes[0] % 16) as nat * 256 + bytes[1] as nat;
        let body = bytes.subrange(2, n - 4);
        let (text, hdr_len) = describe_tlp_spec(body);
        let data = body.skip(if hdr_len < body.len() { hdr_len as int } else { body.len() as int });
        let hex = hex_bytes(data);
        let shown = if hex.len() > 32 { hex.take(32) + "…"@ } else { hex };
        let data_segs = if data.len() > 0 {
            seq![seg(buf[2 + hdr_len as int].0, "DATA "@ + shown)]
        } else {
            Seq::empty()
        };
        let crc_pos = n - 4;
        let got = be_value(bytes.subrange(crc_pos, n as int));
        let want = lcrc32_spec(bytes.take(crc_pos));
        let crc_text = if got == want {
            "LCRC 0x"@ + hex_pad(got, 8) + " ok"@
        } else {
            "LCRC 0x"@ + hex_pad(got, 8) + " BAD (calc 0x"@ + hex_pad(want as nat, 8) + ")"@
        };
        seq![seg(buf[0].0, "SEQ "@ + dec_chars(seqn)), seg(buf[2].0, text)] + data_segs + seq![
            seg(buf[crc_pos].0, crc_text),
        ]
    }
}

/// Segments for a DLLP between SDP and END: its description and the CRC16 check.
pub open spec fn finish_dllp_spec(buf: Seq<(u64, u8)>) -> Seq<SegmentView> {
    let n = buf.len();
    if n < 6 {
        if n > 0 {
            seq![seg(buf[0].0, "DLLP too short ("@ + dec_chars(n) + " bytes)"@)]
        } else {
            Seq::empty()
        }
    } else {
        let bytes = buf_bytes(buf);
        let got = bytes[4] as nat * 256 + bytes[5] as nat;
        let want = dllp_crc16_spec(bytes.take(4));
        let crc_text = if got == want {
            "CRC16 0x"@ + hex_pad(got, 4) + " ok"@
        } else {
            "CRC16 0x"@ + hex_pad(got, 4) + " BAD (calc 0x"@ + hex_pad(want as nat, 4) + ")"@
        };
        seq![seg(buf[0].0, describe_dllp_spec(bytes.take(4))), seg(buf[4].0, crc_text)]
    }
}

/// State of the framer.
pub struct FrameState {
    pub frame: Frame,
    pub buf: Seq<(u64, u8)>,
    pub idle_pending: bool,
    pub out: Seq<SegmentView>,
}

/// One descrambled symbol applied to the framer.
pub open spec fn frame_step(st: FrameState, s: Symbol) -> FrameState {
    let t = s.time;
    let b = s.byte;
    if !s.ok {
        FrameState { out: st.out.push(seg(t, "ERR"@)), frame: Frame::Idle, buf: Seq::empty(), ..st }
    } else if st.frame == Frame::Idle || st.frame == Frame::Os {
        if s.k {
            if b == K_STP {
                FrameState { frame: Frame::Tlp, buf: Seq::empty(), out: st.out.push(seg(t, "STP"@)), idle_pending: false }
            } else if b == K_SDP {
                FrameState { frame: Frame::Dllp, buf: Seq::empty(), out: st.out.push(seg(t, "SDP"@)), idle_pending: false }
            } else {
                FrameState { frame: Frame::Os, out: st.out.push(seg(t, k_name_spec(b))), idle_pending: false, ..st }
            }
        } else if b == 0 {
            // 逻辑空闲
            if st.frame == Frame::Os || !st.idle_pending {
                FrameState { out: st.out.push(seg(t, Seq::empty())), idle_pending: true, frame: Frame::Idle, ..st }
            } else {
                FrameState { frame: Frame::Idle, ..st }
            }
        } else {
            // 有序集里的数据符号 (如 TS1/TS2 的 D 码)
            FrameState { out: st.out.push(seg(t, "D 0x"@ + hex_pad(b as nat, 2))), frame: Frame::Os, ..st }
        }
    } else {
        if s.k && (b == K_END || b == K_EDB) {
            let finished = if st.frame == Frame::Tlp { finish_tlp_spec(st.buf) } else { finish_dllp_spec(st.buf) };
            let end_text = if b == K_END { "END"@ } else { "EDB (nullified)"@ };
            FrameState {
                out: (st.out + finished).push(seg(t, end_text)),
                frame: Frame::Idle,
                idle_pending: false,
                buf: Seq::empty(),
            }
        } else if s.k {
            FrameState {
                out: st.out.push(seg(t, "unexpected "@ + k_name_spec(b))),
                frame: Frame::Idle,
                buf: Seq::empty(),
                ..st
            }
        } else {
            FrameState { buf: st.buf.push((t, b)), ..st }
        }
    }
}

pub open spec fn frame_run(symbols: Seq<Symbol>) -> FrameState
    decreases symbols.len(),
{
    if symbols.len() == 0 {
        FrameState { frame: Frame::Idle, buf: Seq::empty(), idle_pending: false, out: seq![seg(0, Seq::empty())] }
    } else {
        frame_step(frame_run(symbols.drop_last()), symbols.last())
    }
}

/// The symbol signal and the (time-sorted) frame signal decoded from the
/// recovered bits: `levels[i]` is the level of the bit starting at
/// `times[i]`, and `end_time` is where the last bit ends.
pub open spec fn pcie_decode_spec(levels: Seq<bool>, times: Seq<u64>, end_time: u64, descramble: bool) -> (
    Seq<SegmentView>,
    Seq<SegmentView>,
) {
    let init = seq![seg(0, Seq::empty())];
    match alignment(levels) {
        None => (init.push(seg(0, "no comma (K28.5) found"@)), init),
        Some(off) => {
            let raw = raw_symbols(levels, times, off);
            let st = sym_run(raw, descramble, raw.len());
            ((init + st.out).push(seg(end_time, Seq::empty())), sort_by_key(frame_run(st.symbols).out))
        },
    }
}

fn code_at_exec(levels: &Vec<bool>, i: usize) -> (r: u16)
    requires
        i + 10 <= levels.len(),
    ensures
        r == code_at(levels@, i as int),
        r < 1024,
{
    let mut v: u16 = 0;
    let mut j: usize = 0;
    while j < 10
        invariant
            j <= 10,
            i + 10 <= levels.len(),
            v == bits_value(levels@.subrange(i as int, i + j)),
            v < pow2(j as nat),
        decreases 10 - j,
    {
        proof {
            assert(levels@.subrange(i as int, i + j + 1).drop_last() =~= levels@.subrange(i as int, i + j));
            lemma_pow2(j as nat);
        }
        v = v * 2 + if levels[i + j] { 1u16 } else { 0u16 };
        j += 1;
    }
    proof {
        lemma_pow2(9);
    }
    v
}

spec fn pow2(n: nat) -> nat
    decreases n,
{
    if n == 0 {
        1
    } else {
        2 * pow2((n - 1) as nat)
    }
}

proof fn lemma_pow2(n: nat)
    requires
        n < 10,
    ensures
        pow2(n + 1) == 2 * pow2(n),
        pow2(n) <= 512,
{
    assert(pow2(0) == 1);
    assert(pow2(1) == 2);
    assert(pow2(2) == 4);
    assert(pow2(3) == 8);
    assert(pow2(4) == 16);
    assert(pow2(5) == 32);
    assert(pow2(6) == 64);
    assert(pow2(7) == 128);
    assert(pow2(8) == 256);
    assert(pow2(9) == 512);
}

fn find_pattern(levels: &Vec<bool>, pat: u16) -> (r: Option<usize>)
    ensures
        match (r, find_from(levels@, pat as nat, 0)) {
            (Some(a), Some(b)) => a == b,
            (None, None) => true,
            _ => false,
        },
{
    let mut i: usize = 0;
    while levels.len() >= 10 && i <= levels.len() - 10
        invariant
            find_from(levels@, pat as nat, 0) == find_from(levels@, pat as nat, i as nat),
        decreases levels.len() - i,
    {
        if code_at_exec(levels, i) == pat {
            return Some(i);
        }
        i += 1;
    }
    None
}

/// 找 comma (K28.5) 确定符号边界, 返回偏移 0..10
pub fn find_alignment(levels: &Vec<bool>) -> (r: Option<usize>)
    ensures
        match (r, alignment(levels@)) {
            (Some(a), Some(b)) => a == b,
            (None, None) => true,
            _ => false,
        },
{
    match find_pattern(levels, 0b0011111010) {
        Some(pos) => Some(pos % 10),
        None => match find_pattern(levels, 0b1100000101) {
            Some(pos) => Some(pos % 10),
            None => None,
        },
    }
}

fn sym_name_exec(b: u8, k: bool) -> (r: String)
    ensures
        r@ == sym_name(b, k),
{
    let mut s = String::new();
    push_char(&mut s, if k { 'K' } else { 'D' });
    push_dec(&mut s, (b % 32) as u64);
    push_str(&mut s, ".");
    push_dec(&mut s, (b / 32) as u64);
    s
}

fn read_symbols(levels: &Vec<bool>, times: &Vec<u64>, offset: usize, table: &DecodeTable) -> (r: Vec<Symbol>)
    requires
        levels.len() == times.len(),
        table@ == decode_table(),
        table@.len() == 1024,
    ensures
        r@ == raw_symbols(levels@, times@, offset as nat),
{
    let mut raw: Vec<Symbol> = Vec::new();
    let mut i = offset;
    let mut j: usize = 0;
    let ghost count = symbol_count(levels.len() as nat, offset as nat);
    while i <= levels.len() && levels.len() - i >= 10
        invariant
            levels.len() == times.len(),
            table@ == decode_table(),
            table@.len() == 1024,
            i == offset + 10 * j,
            count == symbol_count(levels.len() as nat, offset as nat),
            j <= count,
            raw@ == raw_symbols(levels@, times@, offset as nat).take(j as int),
        decreases levels.len() + 10 - i,
    {
        let code = code_at_exec(levels, i);
        let t = times[i];
        let s = match table.lookup(code) {
            Some((b, k)) => Symbol { time: t, byte: b, k, ok: true },
            None => Symbol { time: t, byte: 0, k: false, ok: false },
        };
        raw.push(s);
        i += 10;
        j += 1;
        assert(raw@ =~= raw_symbols(levels@, times@, offset as nat).take(j as int));
    }
    assert(j == count);
    assert(raw@ =~= raw_symbols(levels@, times@, offset as nat));
    raw
}

fn hex_bytes_exec(data: &[u8], s: &mut String)
    ensures
        final(s)@ == old(s)@ + hex_bytes(data@),
{
    let ghost start = s@;
    let mut i: usize = 0;
    while i < data.len()
        invariant
            i <= data.len(),
            s@ == start + hex_bytes(data@.take(i as int)),
        decreases data.len() - i,
    {
        proof {
            assert(data@.take(i + 1).drop_last() =~= data@.take(i as int));
        }
        push_hex(s, data[i] as u64, 2);
        i += 1;
        assert(s@ =~= start + hex_bytes(data@.take(i as int)));
    }
    assert(data@.take(data.len() as int) =~= data@);
}

proof fn lemma_hex_bytes_len(d: Seq<u8>)
    ensures
        hex_bytes(d).len() == 2 * d.len(),
    decreases d.len(),
{
    if d.len() > 0 {
        lemma_hex_bytes_len(d.drop_last());
        crate::text::lemma_hex_pad_byte(d.last());
    }
}

proof fn lemma_hex_bytes_prefix(d: Seq<u8>, n: int)
    requires
        0 <= n <= d.len(),
    ensures
        hex_bytes(d).take(2 * n) == hex_bytes(d.take(n)),
    decreases d.len() - n,
{
    lemma_hex_bytes_len(d);
    lemma_hex_bytes_len(d.take(n));
    if n < d.len() {
        lemma_hex_bytes_prefix(d.drop_last(), n);
        assert(d.drop_last().take(n) =~= d.take(n));
        lemma_hex_bytes_len(d.drop_last());
        assert(hex_bytes(d).take(2 * n) =~= hex_bytes(d.drop_last()).take(2 * n));
    } else {
        assert(d.take(n) =~= d);
        assert(hex_bytes(d).take(2 * n) =~= hex_bytes(d));
    }
}

fn finish_tlp(buf: &Vec<(u64, u8)>, out: &mut Vec<Segment>)
    ensures
        seg_views(final(out)@) == seg_views(old(out)@) + finish_tlp_spec(buf@),
{
    let n = buf.len();
    if n < 2 + 12 + 4 {
        if n > 0 {
            let mut s = String::new();
            push_str(&mut s, "TLP too short (");
            push_dec(&mut s, n as u64);
            push_str(&mut s, " bytes)");
            out.push(Segment { time: buf[0].0, text: s });
        }
        assert(seg_views(out@) =~= seg_views(old(out)@) + finish_tlp_spec(buf@));
        return;
    }
    let mut bytes: Vec<u8> = Vec::new();
    let mut i: usize = 0;
    while i < n
        invariant
            n == buf.len(),
            i <= n,
            bytes@ == buf_bytes(buf@.take(i as int)),
        decreases n - i,
    {
        bytes.push(buf[i].1);
        i += 1;
        assert(bytes@ =~= buf_bytes(buf@.take(i as int)));
    }
    assert(buf@.take(n as int) =~= buf@);
    let ghost bv = bytes@;
    let seqn = ((bytes[0] % 16) as u64) * 256 + bytes[1] as u64;
    let mut s1 = String::new();
    push_str(&mut s1, "SEQ ");
    push_dec(&mut s1, seqn);
    out.push(Segment { time: buf[0].0, text: s1 });
    let body = vstd::slice::slice_subrange(bytes.as_slice(), 2, n - 4);
    let (text, hdr_len) = describe_tlp(body);
    out.push(Segment { time: buf[2].0, text });
    let data_start = if hdr_len < body.len() { hdr_len } else { body.len() };
    let data = vstd::slice::slice_subrange(body, data_start, body.len());
    if data.len() > 0 {
        let mut s3 = String::new();
        push_str(&mut s3, "DATA ");
        proof {
            lemma_hex_bytes_len(data@);
        }
        if data.len() > 16 {
            hex_bytes_exec(vstd::slice::slice_subrange(data, 0, 16), &mut s3);
            push_str(&mut s3, "…");
            proof {
                lemma_hex_bytes_prefix(data@, 16);
                assert(data@.subrange(0, 16) =~= data@.take(16));
            }
        } else {
            hex_bytes_exec(data, &mut s3);
        }
        let ghost shown = if hex_bytes(data@).len() > 32 { hex_bytes(data@).take(32) + "…"@ } else { hex_bytes(data@) };
        assert(s3@ =~= "DATA "@ + shown);
        out.push(Segment { time: buf[2 + hdr_len].0, text: s3 });
    }
    let crc_pos = n - 4;
    let got = be_bytes(bytes.as_slice(), crc_pos, 4);
    let want = lcrc32(vstd::slice::slice_subrange(bytes.as_slice(), 0, crc_pos));
    let mut s4 = String::new();
    push_str(&mut s4, "LCRC 0x");
    push_hex(&mut s4, got, 8);
    if got == want as u64 {
        push_str(&mut s4, " ok");
    } else {
        push_str(&mut s4, " BAD (calc 0x");
        push_hex(&mut s4, want as u64, 8);
        push_str(&mut s4, ")");
    }
    out.push(Segment { time: buf[crc_pos].0, text: s4 });
    proof {
        assert(bv.subrange(0, crc_pos as int) =~= bv.take(crc_pos as int));
        assert(body@ =~= bv.subrange(2, n - 4));
    }
    assert(seg_views(out@) =~= seg_views(old(out)@) + finish_tlp_spec(buf@));
}

fn finish_dllp(buf: &Vec<(u64, u8)>, out: &mut Vec<Segment>)
    ensures
        seg_views(final(out)@) == seg_views(old(out)@) + finish_dllp_spec(buf@),
{
    let n = buf.len();
    if n < 6 {
        if n > 0 {
            let mut s = String::new();
            push_str(&mut s, "DLLP too short (");
            push_dec(&mut s, n as u64);
            push_str(&mut s, " bytes)");
            out.push(Segment { time: buf[0].0, text: s });
        }
        assert(seg_views(out@) =~= seg_views(old(out)@) + finish_dllp_spec(buf@));
        return;
    }
    let mut bytes: Vec<u8> = Vec::new();
    let mut i: usize = 0;
    while i < n
        invariant
            n == buf.len(),
            i <= n,
            bytes@ == buf_bytes(buf@.take(i as int)),
        decreases n - i,
    {
        bytes.push(buf[i].1);
        i += 1;
        assert(bytes@ =~= buf_bytes(buf@.take(i as int)));
    }
    assert(buf@.take(n as int) =~= buf@);
    let head = vstd::slice::slice_subrange(bytes.as_slice(), 0, 4);
    assert(head@ =~= bytes@.take(4));
    out.push(Segment { time: buf[0].0, text: describe_dllp(head) });
    let got = (bytes[4] as u64) * 256 + bytes[5] as u64;
    let want = dllp_crc16(head);
    let mut s = String::new();
    push_str(&mut s, "CRC16 0x");
    push_hex(&mut s, got, 4);
    if got == want as u64 {
        push_str(&mut s, " ok");
    } else {
        push_str(&mut s, " BAD (calc 0x");
        push_hex(&mut s, want as u64, 4);
        push_str(&mut s, ")");
    }
    out.push(Segment { time: buf[4].0, text: s });
    assert(seg_views(out@) =~= seg_views(old(out)@) + finish_dllp_spec(buf@));
}

struct Framer {
    frame: Frame,
    buf: Vec<(u64, u8)>,
    idle_pending: bool,
    out: Vec<Segment>,
}

impl View for Framer {
    type V = FrameState;

    closed spec fn view(&self) -> FrameState {
        FrameState { frame: self.frame, buf: self.buf@, idle_pending: self.idle_pending, out: seg_views(self.out@) }
    }
}

impl Framer {
    fn step(&mut self, s: Symbol)
        ensures
            final(self)@ == frame_step(old(self)@, s),
    {
        let t = s.time;
        let b = s.byte;
        let k = s.k;
        if !s.ok {
            self.out.push(Segment { time: t, text: String::from_str("ERR") });
            self.frame = Frame::Idle;
            self.buf.clear();
            assert(self@.out =~= frame_step(old(self)@, s).out);
            assert(self@.buf =~= frame_step(old(self)@, s).buf);
            return;
        }
        match self.frame {
            Frame::Idle | Frame::Os => {
                if k {
                    if b == K_STP {
                        self.frame = Frame::Tlp;
                        self.buf.clear();
                        self.out.push(Segment { time: t, text: String::from_str("STP") });
                    } else if b == K_SDP {
                        self.frame = Frame::Dllp;
                        self.buf.clear();
                        self.out.push(Segment { time: t, text: String::from_str("SDP") });
                    } else {
                        self.frame = Frame::Os;
                        self.out.push(Segment { time: t, text: String::from_str(k_name(b)) });
                    }
                    self.idle_pending = false;
                } else if b == 0x00 {
                    let was_os = match self.frame {
                        Frame::Os => true,
                        _ => false,
                    };
                    if was_os || !self.idle_pending {
                        self.out.push(Segment { time: t, text: String::new() });
                        self.idle_pending = true;
                    }
                    self.frame = Frame::Idle;
                } else {
                    let mut text = String::new();
                    push_str(&mut text, "D 0x");
                    push_hex(&mut text, b as u64, 2);
                    self.out.push(Segment { time: t, text });
                    self.frame = Frame::Os;
                }
            },
            Frame::Tlp | Frame::Dllp => {
                if k && (b == K_END || b == K_EDB) {
                    let is_tlp = match self.frame {
                        Frame::Tlp => true,
                        _ => false,
                    };
                    if is_tlp {
                        finish_tlp(&self.buf, &mut self.out);
                    } else {
                        finish_dllp(&self.buf, &mut self.out);
                    }
                    let text = if b == K_END {
                        String::from_str("END")
                    } else {
                        String::from_str("EDB (nullified)")
                    };
                    self.out.push(Segment { time: t, text });
                    self.frame = Frame::Idle;
                    self.idle_pending = false;
                    self.buf.clear();
                } else if k {
                    let mut text = String::new();
                    push_str(&mut text, "unexpected ");
                    push_str(&mut text, k_name(b));
                    self.out.push(Segment { time: t, text });
                    self.frame = Frame::Idle;
                    self.buf.clear();
                } else {
                    self.buf.push((t, b));
                }
            },
        }
        assert(self@.out =~= frame_step(old(self)@, s).out);
        assert(self@.buf =~= frame_step(old(self)@, s).buf);
    }
}

/// Decodes the recovered bits of one lane: `levels[i]` is the level of the
/// bit starting at `times[i]`, `end_time` where the last bit ends. Returns
/// the symbol signal and the frame signal.
pub fn decode_recovered(levels: &Vec<bool>, times: &Vec<u64>, end_time: u64, descramble: bool) -> (r: (
    Vec<Segment>,
    Vec<Segment>,
))
    requires
        levels.len() == times.len(),
    ensures
        (seg_views(r.0@), seg_views(r.1@)) == pcie_decode_spec(levels@, times@, end_time, descramble),
{
    let table = build_decode_table();
    let mut sym_out: Vec<Segment> = Vec::new();
    sym_out.push(Segment { time: 0, text: String::new() });
    let mut pkt_out: Vec<Segment> = Vec::new();
    pkt_out.push(Segment { time: 0, text: String::new() });
    let ghost init = seq![seg(0, Seq::<char>::empty())];
    assert(seg_views(pkt_out@) =~= init);
    let offset = match find_alignment(levels) {
        Some(o) => o,
        None => {
            sym_out.push(Segment { time: 0, text: String::from_str("no comma (K28.5) found") });
            assert(seg_views(sym_out@) =~= init.push(seg(0, "no comma (K28.5) found"@)));
            return (sym_out, pkt_out);
        },
    };
    // 先查表得到线上符号 (时间, 字节, 是K, 有效)
    let raw = read_symbols(levels, times, offset, &table);
    let ghost rv = raw@;
    // 解扰, 生成符号信号
    let mut scr = Scrambler::new();
    let mut symbols: Vec<Symbol> = Vec::new();
    let mut idx: usize = 0;
    while idx < raw.len()
        invariant
            rv == raw@,
            idx <= raw.len(),
            scr@ == sym_run(rv, descramble, idx as nat).scr,
            seg_views(sym_out@) == init + sym_run(rv, descramble, idx as nat).out,
            symbols@ == sym_run(rv, descramble, idx as nat).symbols,
        decreases raw.len() - idx,
    {
        let r = raw[idx];
        let t = r.time;
        let ghost prev_out = seg_views(sym_out@);
        let ghost st0 = sym_run(rv, descramble, idx as nat);
        let ghost st1 = sym_run(rv, descramble, (idx + 1) as nat);
        assert(r == rv[idx as int]);
        if !r.ok {
            sym_out.push(Segment { time: t, text: String::from_str("ERR") });
            symbols.push(Symbol { time: t, byte: 0, k: false, ok: false });
            scr = Scrambler::new();
        } else {
            let b = r.byte;
            let k = r.k;
            let name = sym_name_exec(b, k);
            let next_is_d = idx + 1 < raw.len() && raw[idx + 1].ok && !raw[idx + 1].k;
            let data = if descramble {
                scr.process(b, k, next_is_d)
            } else {
                b
            };
            let mut text = name;
            if k {
                push_str(&mut text, " ");
                push_str(&mut text, k_name(b));
            } else if data != b {
                push_str(&mut text, " 0x");
                push_hex(&mut text, b as u64, 2);
                push_str(&mut text, ">0x");
                push_hex(&mut text, data as u64, 2);
            } else {
                push_str(&mut text, " 0x");
                push_hex(&mut text, b as u64, 2);
            }
            proof {
                let st = sym_run(rv, descramble, idx as nat);
                let (scr2, data2) = if descramble {
                    process_spec(st.scr, b, k, next_is_d)
                } else {
                    (st.scr, b)
                };
                assert(data2 == data);
                let nm = sym_name(b, k);
                let tx = if k {
                    nm + " "@ + k_name_spec(b)
                } else if data2 != b {
                    nm + " 0x"@ + hex_pad(b as nat, 2) + ">0x"@ + hex_pad(data2 as nat, 2)
                } else {
                    nm + " 0x"@ + hex_pad(b as nat, 2)
                };
                assert(text@ =~= tx);
            }
            sym_out.push(Segment { time: t, text });
            symbols.push(Symbol { time: t, byte: data, k, ok: true });
        }
        assert(st1.out.len() == st0.out.len() + 1);
        assert(st1.out.drop_last() =~= st0.out);
        assert(seg_views(sym_out@).last() == st1.out.last());
        assert(seg_views(sym_out@).drop_last() =~= prev_out);
        assert(st1.out =~= st0.out.push(st1.out.last()));
        assert(init + st1.out =~= (init + st0.out).push(st1.out.last()));
        assert(seg_views(sym_out@) =~= prev_out.push(st1.out.last()));
        assert(seg_views(sym_out@) =~= init + st1.out);
        idx += 1;
        assert(seg_views(sym_out@) =~= init + sym_run(rv, descramble, idx as nat).out);
        assert(symbols@ =~= sym_run(rv, descramble, idx as nat).symbols);
    }
    sym_out.push(Segment { time: end_time, text: String::new() });
    assert(seg_views(sym_out@) =~= (init + sym_run(rv, descramble, rv.len()).out).push(seg(end_time, Seq::empty())));

    // 帧解析
    let ghost sv = symbols@;
    let mut fr = Framer { frame: Frame::Idle, buf: Vec::new(), idle_pending: false, out: pkt_out };
    assert(fr@ == frame_run(sv.take(0))) by {
        assert(fr@.buf =~= Seq::<(u64, u8)>::empty());
    }
    let mut j: usize = 0;
    while j < symbols.len()
        invariant
            sv == symbols@,
            j <= symbols.len(),
            fr@ == frame_run(sv.take(j as int)),
        decreases symbols.len() - j,
    {
        proof {
            assert(sv.take(j + 1).drop_last() =~= sv.take(j as int));
        }
        fr.step(symbols[j]);
        j += 1;
    }
    assert(sv.take(symbols.len() as int) =~= sv);
    let pkt = sort_by_key_exec(fr.out);
    proof {
        lemma_sort_map(fr.out@, |x: Segment| x@);
    }
    (sym_out, pkt)
}

} // verus!
