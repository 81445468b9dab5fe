//! SPI 解码器。
//!
//! 输入顺序: `SCLK, MOSI, [MISO], [CS]` (不存在的用空 trace 占位)。
//! 参数: `mode 0..3` (CPOL/CPHA), `bits N` (默认 8), `lsb` (LSB 先, 默认 MSB 先),
//! `cs_high` (片选高有效, 默认低有效)。
//! 输出: 每个字一个段, 文本形如 `M:0xA5 S:0x3C` (只有 MOSI 时为 `0xA5`)。
//! 有 CS 时只在片选有效期间解码, 片选无效时清空位计数; 没有 CS 时连续按 N 位分组。
use vstd::prelude::*;
use super::{BitTrace, Segment, SegmentView, seg, seg_views};
use crate::sorting::{Keyed, SpecKeyed, sort_by_key, sort_by_key_exec};
use crate::text::{
    ascii_lower, dec_chars, has_prefix_at, hex_pad, parse_u8, parse_u8_from, push_dec, push_hex,
    push_str, strip_prefix, to_ascii_lowercase, chars_eq,
};

verus! {

#[derive(Debug, Clone, Copy)]
pub struct SpiConfig {
    pub cpol: bool,
    pub cpha: bool,
    pub bits: u8,
    pub msb_first: bool,
    pub cs_active_high: bool,
}

/// Mode 0, 8-bit words, most significant bit first, chip select active low.
pub open spec fn spi_default() -> SpiConfig {
    SpiConfig { cpol: false, cpha: false, bits: 8, msb_first: true, cs_active_high: false }
}

impl Default for SpiConfig {
    fn default() -> (r: Self)
        ensures
            r == spi_default(),
    {
        Self { cpol: false, cpha: false, bits: 8, msb_first: true, cs_active_high: false }
    }
}

/// Which line a level change belongs to.
#[derive(Clone, Copy, PartialEq, Eq, Debug)]
pub enum Line {
    Sclk,
    Mosi,
    Miso,
    Cs,
}

/// One level change on one of the lines.
#[derive(Clone, Copy, Debug)]
pub struct SpiEvent {
    pub time: u64,
    pub line: Line,
    pub level: bool,
}

impl SpecKeyed for SpiEvent {
    /// At equal times data lines come before the clock: the data is stable
    /// before the sampling edge.
    open spec fn key(&self) -> int {
        2 * (self.time as int) + if self.line == Line::Sclk { 1int } else { 0int }
    }
}

impl Keyed for SpiEvent {
    fn key_exec(&self) -> (k: u128) {
        let c: u128 = match self.line {
            Line::Sclk => 1,
            _ => 0,
        };
        2 * (self.time as u128) + c
    }
}

/// The decoder's state between two events.
#[verifier::ext_equal]
pub struct SpiState {
    pub sclk: bool,
    pub mosi: bool,
    pub miso: bool,
    pub cs_active: bool,
    pub nbits: u8,
    pub mo: u64,
    pub mi: u64,
    pub word_start: u64,
    pub out: Seq<SegmentView>,
}

pub open spec fn line_events(trace: Seq<(u64, bool)>, line: Line) -> Seq<SpiEvent> {
    trace.map_values(|e: (u64, bool)| SpiEvent { time: e.0, line, level: e.1 })
}

/// All level changes: SCLK, MOSI, MISO, then CS.
pub open spec fn spi_events(
    sclk: Seq<(u64, bool)>,
    mosi: Seq<(u64, bool)>,
    miso: Seq<(u64, bool)>,
    cs: Seq<(u64, bool)>,
) -> Seq<SpiEvent> {
    line_events(sclk, Line::Sclk) + line_events(mosi, Line::Mosi) + line_events(miso, Line::Miso)
        + line_events(cs, Line::Cs)
}

pub open spec fn spi_init(cfg: SpiConfig, has_cs: bool) -> SpiState {
    SpiState {
        sclk: cfg.cpol,
        mosi: false,
        miso: false,
        cs_active: !has_cs,
        nbits: 0,
        mo: 0,
        mi: 0,
        word_start: 0,
        out: seq![seg(0, Seq::empty())],
    }
}

/// Text of a completed word: both directions when MISO is present.
pub open spec fn word_text(mo: u64, mi: u64, bits: u8, has_miso: bool) -> Seq<char> {
    let w = ((bits + 3) / 4) as nat;
    if has_miso {
        "M:0x"@ + hex_pad(mo as nat, w) + " S:0x"@ + hex_pad(mi as nat, w)
    } else {
        "0x"@ + hex_pad(mo as nat, w)
    }
}

pub open spec fn bit_of(b: bool) -> u64 {
    if b {
        1
    } else {
        0
    }
}

/// One event applied to the decoder state.
pub open spec fn spi_step(cfg: SpiConfig, has_miso: bool, st: SpiState, e: SpiEvent) -> SpiState {
    let t = e.time;
    match e.line {
        Line::Mosi => SpiState { mosi: e.level, ..st },
        Line::Miso => SpiState { miso: e.level, ..st },
        Line::Cs => {
            let active = e.level == cfg.cs_active_high;
            if active == st.cs_active {
                st
            } else {
                let out = if !active { st.out.push(seg(t, Seq::empty())) } else { st.out };
                SpiState { cs_active: active, nbits: 0, mo: 0, mi: 0, out, ..st }
            }
        },
        Line::Sclk => {
            let rising = e.level && !st.sclk;
            let falling = !e.level && st.sclk;
            // mode 0 and 3 sample on the rising edge, mode 1 and 2 on the falling one
            let sample_on_rising = cfg.cpol == cfg.cpha;
            let sample = (rising && sample_on_rising) || (falling && !sample_on_rising);
            let st1 = SpiState { sclk: e.level, ..st };
            if !sample || !st.cs_active {
                st1
            } else {
                let ws = if st.nbits == 0 { t } else { st.word_start };
                let mo = if cfg.msb_first {
                    (st.mo << 1u64) | bit_of(st.mosi)
                } else {
                    st.mo | (bit_of(st.mosi) << st.nbits)
                };
                let mi = if cfg.msb_first {
                    (st.mi << 1u64) | bit_of(st.miso)
                } else {
                    st.mi | (bit_of(st.miso) << st.nbits)
                };
                let nbits = (st.nbits + 1) as u8;
                if nbits == cfg.bits {
                    SpiState {
                        word_start: ws,
                        nbits: 0,
                        mo: 0,
                        mi: 0,
                        out: st.out.push(seg(ws, word_text(mo, mi, cfg.bits, has_miso))),
                        ..st1
                    }
                } else {
                    SpiState { word_start: ws, nbits, mo, mi, ..st1 }
                }
            }
        },
    }
}

pub open spec fn spi_run(cfg: SpiConfig, has_miso: bool, st: SpiState, evs: Seq<SpiEvent>) -> SpiState
    decreases evs.len(),
{
    if evs.len() == 0 {
        st
    } else {
        spi_step(cfg, has_miso, spi_run(cfg, has_miso, st, evs.drop_last()), evs.last())
    }
}

/// The decoded words. An empty MISO trace means there is no MISO line, an
/// empty CS trace that the chip is always selected.
pub open spec fn spi_decode(
    sclk: Seq<(u64, bool)>,
    mosi: Seq<(u64, bool)>,
    miso: Seq<(u64, bool)>,
    cs: Seq<(u64, bool)>,
    cfg: SpiConfig,
) -> Seq<SegmentView> {
    spi_run(
        cfg,
        miso.len() > 0,
        spi_init(cfg, cs.len() > 0),
        sort_by_key(spi_events(sclk, mosi, miso, cs)),
    ).out
}

struct Decoder {
    cfg: SpiConfig,
    has_miso: bool,
    sclk: bool,
    mosi: bool,
    miso: bool,
    cs_active: bool,
    nbits: u8,
    mo: u64,
    mi: u64,
    word_start: u64,
    out: Vec<Segment>,
}

impl View for Decoder {
    type V = SpiState;

    closed spec fn view(&self) -> SpiState {
        SpiState {
            sclk: self.sclk,
            mosi: self.mosi,
            miso: self.miso,
            cs_active: self.cs_active,
            nbits: self.nbits,
            mo: self.mo,
            mi: self.mi,
            word_start: self.word_start,
            out: seg_views(self.out@),
        }
    }
}

fn word_text_exec(mo: u64, mi: u64, bits: u8, has_miso: bool) -> (r: String)
    ensures
        r@ == word_text(mo, mi, bits, has_miso),
{
    let w = ((bits as usize) + 3) / 4;
    let mut s = String::new();
    if has_miso {
        push_str(&mut s, "M:0x");
        push_hex(&mut s, mo, w);
        push_str(&mut s, " S:0x");
        push_hex(&mut s, mi, w);
    } else {
        push_str(&mut s, "0x");
        push_hex(&mut s, mo, w);
    }
    assert(s@ =~= word_text(mo, mi, bits, has_miso));
    s
}

impl Decoder {
    closed spec fn inv(&self) -> bool {
        &&& 1 <= self.cfg.bits <= 64
        &&& self.nbits < self.cfg.bits
    }

    fn step(&mut self, e: SpiEvent)
        requires
            old(self).inv(),
        ensures
            final(self).inv(),
            final(self).cfg == old(self).cfg,
            final(self).has_miso == old(self).has_miso,
            final(self)@ == spi_step(old(self).cfg, old(self).has_miso, old(self)@, e),
    {
        let t = e.time;
        let lvl = e.level;
        match e.line {
            Line::Mosi => self.mosi = lvl,
            Line::Miso => self.miso = lvl,
            Line::Cs => {
                let active = lvl == self.cfg.cs_active_high;
                if active != self.cs_active {
                    self.cs_active = active;
                    self.nbits = 0;
                    self.mo = 0;
                    self.mi = 0;
                    if !active {
                        self.out.push(Segment { time: t, text: String::new() });
                    }
                }
            },
            Line::Sclk => {
                let rising = lvl && !self.sclk;
                let falling = !lvl && self.sclk;
                self.sclk = lvl;
                let sample_on_rising = self.cfg.cpol == self.cfg.cpha;
                let sample = (rising && sample_on_rising) || (falling && !sample_on_rising);
                if !sample || !self.cs_active {
                    assert(self@ =~= spi_step(old(self).cfg, old(self).has_miso, old(self)@, e));
                    return;
                }
                if self.nbits == 0 {
                    self.word_start = t;
                }
                let mb: u64 = if self.mosi { 1 } else { 0 };
                let sb: u64 = if self.miso { 1 } else { 0 };
                if self.cfg.msb_first {
                    self.mo = (self.mo << 1u64) | mb;
                    self.mi = (self.mi << 1u64) | sb;
                } else {
                    self.mo = self.mo | (mb << self.nbits);
                    self.mi = self.mi | (sb << self.nbits);
                }
                self.nbits += 1;
                if self.nbits == self.cfg.bits {
                    let text = word_text_exec(self.mo, self.mi, self.cfg.bits, self.has_miso);
                    self.out.push(Segment { time: self.word_start, text });
                    self.nbits = 0;
                    self.mo = 0;
                    self.mi = 0;
                }
            },
        }
        assert(self@ =~= spi_step(old(self).cfg, old(self).has_miso, old(self)@, e));
    }
}

fn push_line_events(trace: &BitTrace, line: Line, events: &mut Vec<SpiEvent>)
    ensures
        final(events)@ == old(events)@ + line_events(trace@, line),
{
    let ghost start = events@;
    let mut i: usize = 0;
    while i < trace.len()
        invariant
            i <= trace.len(),
            events@ == start + line_events(trace@.take(i as int), line),
        decreases trace.len() - i,
    {
        let (t, v) = trace[i];
        events.push(SpiEvent { time: t, line, level: v });
        i += 1;
        assert(events@ =~= start + line_events(trace@.take(i as int), line));
    }
    assert(trace@.take(trace.len() as int) =~= trace@);
}

/// Decodes SPI words. The word size must be between 1 and 64 bits, the range
/// that [`config_from_params`] accepts.
pub fn decode(sclk: &BitTrace, mosi: &BitTrace, miso: &BitTrace, cs: &BitTrace, cfg: &SpiConfig) -> (r: Vec<Segment>)
    requires
        1 <= cfg.bits <= 64,
    ensures
        seg_views(r@) == spi_decode(sclk@, mosi@, miso@, cs@, *cfg),
{
    let has_miso = miso.len() > 0;
    let has_cs = cs.len() > 0;

    let mut events: Vec<SpiEvent> = Vec::new();
    push_line_events(sclk, Line::Sclk, &mut events);
    push_line_events(mosi, Line::Mosi, &mut events);
    push_line_events(miso, Line::Miso, &mut events);
    push_line_events(cs, Line::Cs, &mut events);
    assert(events@ =~= spi_events(sclk@, mosi@, miso@, cs@));
    // 同一时刻: 先处理数据线, 再处理时钟 (数据在采样沿前已稳定)
    let events = sort_by_key_exec(events);

    let mut out: Vec<Segment> = Vec::new();
    out.push(Segment { time: 0, text: String::new() });
    let mut d = Decoder {
        cfg: *cfg,
        has_miso,
        sclk: cfg.cpol,
        mosi: false,
        miso: false,
        cs_active: !has_cs, // 无 CS 视为一直有效
        nbits: 0,
        mo: 0,
        mi: 0,
        word_start: 0,
        out,
    };
    assert(d@ =~= spi_init(*cfg, has_cs));
    let ghost evs = events@;
    let mut i: usize = 0;
    while i < events.len()
        invariant
            evs == events@,
            evs == sort_by_key(spi_events(sclk@, mosi@, miso@, cs@)),
            i <= events.len(),
            d.inv(),
            d.cfg == *cfg,
            d.has_miso == (miso@.len() > 0),
            d@ == spi_run(*cfg, miso@.len() > 0, spi_init(*cfg, cs@.len() > 0), evs.take(i as int)),
        decreases events.len() - i,
    {
        proof {
            assert(evs.take(i + 1).drop_last() =~= evs.take(i as int));
        }
        d.step(events[i]);
        i += 1;
    }
    assert(evs.take(events.len() as int) =~= evs);
    d.out
}

// ------------------------------------------------------------------ 参数

pub open spec fn views_of(params: Seq<String>) -> Seq<Seq<char>> {
    params.map_values(|p: String| p@)
}

/// The characters after `mode`, or all of them: where a mode number is read.
pub open spec fn mode_part(lp: Seq<char>) -> Seq<char> {
    match strip_prefix(lp, "mode"@) {
        Some(rest) => rest,
        None => lp,
    }
}

/// The word size named by a `bitsN` parameter, if it is one.
pub open spec fn bits_param(lp: Seq<char>) -> Option<u8> {
    match strip_prefix(lp, "bits"@) {
        Some(rest) => parse_u8(rest),
        None => None,
    }
}

/// One parameter applied to a configuration (case-insensitive).
pub open spec fn spi_apply(cfg: SpiConfig, p: Seq<char>) -> Result<SpiConfig, Seq<char>> {
    let lp = p.map_values(|c: char| ascii_lower(c));
    match parse_u8(mode_part(lp)) {
        Some(m) => if m > 3 {
            Err("SPI 模式 "@ + dec_chars(m as nat) + " 无效, 应为 0..3"@)
        } else {
            Ok(SpiConfig { cpol: m / 2 == 1, cpha: m % 2 == 1, ..cfg })
        },
        None => match bits_param(lp) {
            Some(b) => if !(1 <= b && b <= 64) {
                Err("SPI 位宽应在 1..64"@)
            } else {
                Ok(SpiConfig { bits: b, ..cfg })
            },
            None => if lp == "lsb"@ {
                Ok(SpiConfig { msb_first: false, ..cfg })
            } else if lp == "msb"@ {
                Ok(SpiConfig { msb_first: true, ..cfg })
            } else if lp == "cs_high"@ {
                Ok(SpiConfig { cs_active_high: true, ..cfg })
            } else {
                Err("无法识别的 SPI 参数 '"@ + p + "' (示例: mode0 bits8 lsb cs_high)"@)
            },
        },
    }
}

/// All parameters applied in order to the default configuration; the first
/// one that is refused gives the error.
pub open spec fn spi_config(params: Seq<Seq<char>>) -> Result<SpiConfig, Seq<char>>
    decreases params.len(),
{
    if params.len() == 0 {
        Ok(spi_default())
    } else {
        match spi_config(params.drop_last()) {
            Ok(c) => spi_apply(c, params.last()),
            Err(e) => Err(e),
        }
    }
}

fn apply_param(cfg: SpiConfig, p: &String) -> (r: Result<SpiConfig, String>)
    ensures
        match (r, spi_apply(cfg, p@)) {
            (Ok(a), Ok(b)) => a == b,
            (Err(a), Err(b)) => a@ == b,
            _ => false,
        },
{
    let mut cfg = cfg;
    let lp = to_ascii_lowercase(p.as_str());
    let ghost lpv = p@.map_values(|c: char| ascii_lower(c));
    let mode_start: usize = if has_prefix_at(&lp, 0, "mode") { 4 } else { 0 };
    proof {
        reveal_strlit("mode");
        reveal_strlit("bits");
        assert(lp@.skip(0) =~= lp@);
        if mode_start == 4 {
            assert(mode_part(lpv) =~= lp@.skip(4));
        } else {
            assert(mode_part(lpv) =~= lp@.skip(0));
        }
    }
    if let Some(m) = parse_u8_from(&lp, mode_start) {
        if m > 3 {
            let mut e = String::new();
            push_str(&mut e, "SPI 模式 ");
            push_dec(&mut e, m as u64);
            push_str(&mut e, " 无效, 应为 0..3");
            assert(e@ =~= "SPI 模式 "@ + dec_chars(m as nat) + " 无效, 应为 0..3"@);
            return Err(e);
        }
        cfg.cpol = m & 2 != 0;
        cfg.cpha = m & 1 != 0;
        assert(m & 2 != 0 <==> m / 2 == 1) by (bit_vector)
            requires
                m <= 3,
        ;
        assert(m & 1 != 0 <==> m % 2 == 1) by (bit_vector);
        return Ok(cfg);
    }
    if has_prefix_at(&lp, 0, "bits") {
        assert(strip_prefix(lpv, "bits"@) == Some(lp@.skip(4)));
        if let Some(b) = parse_u8_from(&lp, 4) {
            if !(1 <= b && b <= 64) {
                return Err(String::from_str("SPI 位宽应在 1..64"));
            }
            cfg.bits = b;
            return Ok(cfg);
        }
    }
    if chars_eq(&lp, "lsb") {
        cfg.msb_first = false;
        Ok(cfg)
    } else if chars_eq(&lp, "msb") {
        cfg.msb_first = true;
        Ok(cfg)
    } else if chars_eq(&lp, "cs_high") {
        cfg.cs_active_high = true;
        Ok(cfg)
    } else {
        let mut e = String::new();
        push_str(&mut e, "无法识别的 SPI 参数 '");
        push_str(&mut e, p.as_str());
        push_str(&mut e, "' (示例: mode0 bits8 lsb cs_high)");
        assert(e@ =~= "无法识别的 SPI 参数 '"@ + p@ + "' (示例: mode0 bits8 lsb cs_high)"@);
        Err(e)
    }
}

/// 解析参数: `mode0..mode3` / `0..3`, `bits16`, `lsb`, `cs_high`
pub fn config_from_params(params: &[String]) -> (r: Result<SpiConfig, String>)
    ensures
        match (r, spi_config(views_of(params@))) {
            (Ok(a), Ok(b)) => a == b,
            (Err(a), Err(b)) => a@ == b,
            _ => false,
        },
{
    let mut cfg = SpiConfig::default();
    let ghost ps = views_of(params@);
    let mut i: usize = 0;
    while i < params.len()
        invariant
            i <= params.len(),
            ps == views_of(params@),
            spi_config(ps.take(i as int)) == Ok::<SpiConfig, Seq<char>>(cfg),
        decreases params.len() - i,
    {
        proof {
            assert(ps.take(i + 1).drop_last() =~= ps.take(i as int));
            assert(ps.take(i + 1).last() == params@[i as int]@);
        }
        match apply_param(cfg, &params[i]) {
            Ok(c) => cfg = c,
            Err(e) => {
                proof {
                    lemma_config_error_sticks(ps, (i + 1) as int);
                }
                return Err(e);
            },
        }
        i += 1;
    }
    assert(ps.take(params.len() as int) =~= ps);
    Ok(cfg)
}

proof fn lemma_config_error_sticks(ps: Seq<Seq<char>>, n: int)
    requires
        0 <= n <= ps.len(),
        spi_config(ps.take(n)) is Err,
    ensures
        spi_config(ps) == spi_config(ps.take(n)),
    decreases ps.len() - n,
{
    if n < ps.len() {
        assert(ps.take(n + 1).drop_last() =~= ps.take(n));
        lemma_config_error_sticks(ps, n + 1);
    } else {
        assert(ps.take(n) =~= ps);
    }
}

/// Every configuration that the parameters can produce has a word size
/// between 1 and 64 bits.
pub proof fn lemma_config_bits(ps: Seq<Seq<char>>)
    ensures
        spi_config(ps) matches Ok(c) ==> 1 <= c.bits <= 64,
    decreases ps.len(),
{
    if ps.len() > 0 {
        lemma_config_bits(ps.drop_last());
    }
}

/// A clock edge takes a bit exactly when it is the sampling edge of the mode:
/// the rising edge when CPOL equals CPHA (modes 0 and 3), the falling edge
/// otherwise (modes 1 and 2). Any other clock change leaves the word being
/// received and the output as they were.
pub proof fn lemma_spi_samples_on_mode_edge(cfg: SpiConfig, has_miso: bool, st: SpiState, e: SpiEvent)
    requires
        e.line == Line::Sclk,
        st.cs_active,
        st.nbits < 255,
    ensures
        ({
            let r = spi_step(cfg, has_miso, st, e);
            let rising = e.level && !st.sclk;
            let falling = !e.level && st.sclk;
            let samples = (rising && cfg.cpol == cfg.cpha) || (falling && cfg.cpol != cfg.cpha);
            &&& !samples ==> r.nbits == st.nbits && r.mo == st.mo && r.mi == st.mi && r.out == st.out
            &&& samples ==> (r.nbits == st.nbits + 1 || r.out.len() == st.out.len() + 1)
        }),
{
}

} // verus!
