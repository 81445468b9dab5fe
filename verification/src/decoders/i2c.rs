//! I2C bus decoder.
//!
//! Inputs: `scl`, `sda` bit traces. Output segments:
//! * `S` / `Sr` / `P` for START, repeated START and STOP conditions
//! * `0x36 W` / `0x36 R` for the 7-bit address byte plus direction
//! * `0x0C` for data bytes
//! * `ACK` / `NACK` for the ninth clock
//! * `` (empty) while the bus is idle
//!
//! Following the specification, SDA is sampled on the rising edge of SCL, and
//! a change of SDA while SCL is high is a START (falling) or STOP (rising).
use vstd::prelude::*;
use super::{BitTrace, Segment, SegmentView, bits_value, seg, seg_views};
use crate::sorting::{Keyed, SpecKeyed, sort_by_key, sort_by_key_exec};
use crate::text::{hex_pad, push_hex, push_str};

verus! {

/// Which line an edge belongs to.
#[derive(Clone, Copy, PartialEq, Eq, Debug)]
pub enum Edge {
    Scl,
    Sda,
}

/// Where the decoder is in a transaction.
#[derive(Clone, Copy, PartialEq, Eq, Debug)]
pub enum Phase {
    /// No START seen yet
    Idle,
    /// Inside a transaction; `first` is true until the address byte is done
    Active { first: bool },
}

/// One level change on either line.
#[derive(Clone, Copy, Debug)]
pub struct I2cEvent {
    pub time: u64,
    pub edge: Edge,
    pub level: bool,
}

impl SpecKeyed for I2cEvent {
    open spec fn key(&self) -> int {
        self.time as int
    }
}

impl Keyed for I2cEvent {
    fn key_exec(&self) -> (k: u128) {
        self.time as u128
    }
}

/// The decoder's state between two events.
#[verifier::ext_equal]
pub struct I2cState {
    pub scl: bool,
    pub sda: bool,
    pub phase: Phase,
    /// Bits of the current byte, first received first.
    pub bits: Seq<bool>,
    pub byte_start: Option<u64>,
    pub out: Seq<SegmentView>,
}

/// Both traces as one event list: all SCL changes, then all SDA changes.
pub open spec fn i2c_events(scl: Seq<(u64, bool)>, sda: Seq<(u64, bool)>) -> Seq<I2cEvent> {
    scl.map_values(|e: (u64, bool)| I2cEvent { time: e.0, edge: Edge::Scl, level: e.1 })
        + sda.map_values(|e: (u64, bool)| I2cEvent { time: e.0, edge: Edge::Sda, level: e.1 })
}

/// The initial level of a line: its first recorded level, high if none.
pub open spec fn initial_level(trace: Seq<(u64, bool)>) -> bool {
    if trace.len() > 0 {
        trace[0].1
    } else {
        true
    }
}

pub open spec fn i2c_init(scl: Seq<(u64, bool)>, sda: Seq<(u64, bool)>) -> I2cState {
    I2cState {
        scl: initial_level(scl),
        sda: initial_level(sda),
        phase: Phase::Idle,
        bits: Seq::empty(),
        byte_start: None,
        out: seq![seg(0, Seq::empty())],
    }
}

/// The last segment written is a STOP.
pub open spec fn last_is_stop(out: Seq<SegmentView>) -> bool {
    out.len() > 0 && out.last().text == "P"@
}

/// Text of a received byte: the address byte shows the 7-bit address and the
/// direction, a data byte its value.
pub open spec fn byte_text(byte: nat, first: bool) -> Seq<char> {
    if first {
        "0x"@ + hex_pad(byte / 2, 2) + " "@ + (if byte % 2 == 1 { "R"@ } else { "W"@ })
    } else {
        "0x"@ + hex_pad(byte, 2)
    }
}

/// Text of the ninth (acknowledge) bit.
pub open spec fn ack_text(sda: bool) -> Seq<char> {
    if sda {
        "NACK"@
    } else {
        "ACK"@
    }
}

/// One event applied to the decoder state.
pub open spec fn i2c_step(st: I2cState, e: I2cEvent) -> I2cState {
    let t = e.time;
    match e.edge {
        Edge::Sda => {
            if e.level == st.sda || !st.scl {
                I2cState { sda: e.level, ..st }
            } else if e.level {
                // SDA rises while SCL is high: STOP
                I2cState {
                    sda: e.level,
                    phase: Phase::Idle,
                    bits: Seq::empty(),
                    byte_start: None,
                    out: st.out.push(seg(t, "P"@)),
                    ..st
                }
            } else {
                // SDA falls while SCL is high: START or repeated START
                let text = match st.phase {
                    Phase::Idle => "S"@,
                    Phase::Active { .. } => "Sr"@,
                };
                I2cState {
                    sda: e.level,
                    phase: Phase::Active { first: true },
                    bits: Seq::empty(),
                    byte_start: None,
                    out: st.out.push(seg(t, text)),
                    ..st
                }
            }
        },
        Edge::Scl => {
            let rising = e.level && !st.scl;
            let falling = !e.level && st.scl;
            let st1 = I2cState { scl: e.level, ..st };
            if falling && st.phase == Phase::Idle {
                // bus idle after STOP: clear the label once the clock moves on
                if last_is_stop(st.out) {
                    I2cState { out: st.out.push(seg(t, Seq::empty())), ..st1 }
                } else {
                    st1
                }
            } else if !rising {
                st1
            } else {
                match st.phase {
                    Phase::Idle => st1,
                    Phase::Active { first } => {
                        if st.bits.len() == 8 {
                            // ninth clock: acknowledge bit
                            I2cState {
                                out: st.out.push(seg(t, ack_text(st.sda))),
                                bits: Seq::empty(),
                                byte_start: None,
                                phase: Phase::Active { first: false },
                                ..st1
                            }
                        } else {
                            let bs = if st.bits.len() == 0 { Some(t) } else { st.byte_start };
                            let bits = st.bits.push(st.sda);
                            if bits.len() == 8 {
                                let start = match bs {
                                    Some(b) => b,
                                    None => t,
                                };
                                I2cState {
                                    bits,
                                    byte_start: bs,
                                    out: st.out.push(seg(start, byte_text(bits_value(bits), first))),
                                    ..st1
                                }
                            } else {
                                I2cState { bits, byte_start: bs, ..st1 }
                            }
                        }
                    },
                }
            }
        },
    }
}

/// The decoder state after a sequence of events.
pub open spec fn i2c_run(st: I2cState, evs: Seq<I2cEvent>) -> I2cState
    decreases evs.len(),
{
    if evs.len() == 0 {
        st
    } else {
        i2c_step(i2c_run(st, evs.drop_last()), evs.last())
    }
}

/// The state once every edge of both traces, in time order, has been applied.
pub open spec fn i2c_final_state(scl: Seq<(u64, bool)>, sda: Seq<(u64, bool)>) -> I2cState {
    i2c_run(i2c_init(scl, sda), sort_by_key(i2c_events(scl, sda)))
}

/// The decoded segments: after the last STOP the bus is shown idle one time
/// unit later.
pub open spec fn i2c_decode(scl: Seq<(u64, bool)>, sda: Seq<(u64, bool)>) -> Seq<SegmentView> {
    let st = i2c_final_state(scl, sda);
    if st.phase == Phase::Idle && last_is_stop(st.out) {
        st.out.push(seg((st.out.last().time + 1) as u64, Seq::empty()))
    } else {
        st.out
    }
}

/// The decoding ends with a STOP at the largest time value, so the idle
/// segment after it has no time to go to.
pub open spec fn i2c_stop_at_end_of_time(scl: Seq<(u64, bool)>, sda: Seq<(u64, bool)>) -> bool {
    let st = i2c_final_state(scl, sda);
    st.phase == Phase::Idle && last_is_stop(st.out) && st.out.last().time == u64::MAX
}

struct Decoder {
    scl: bool,
    sda: bool,
    phase: Phase,
    bits: Vec<bool>,
    byte_start: Option<u64>,
    out: Vec<Segment>,
}

impl View for Decoder {
    type V = I2cState;

    closed spec fn view(&self) -> I2cState {
        I2cState {
            scl: self.scl,
            sda: self.sda,
            phase: self.phase,
            bits: self.bits@,
            byte_start: self.byte_start,
            out: seg_views(self.out@),
        }
    }
}

fn literal(s: &str) -> (r: String)
    ensures
        r@ == s@,
{
    String::from_str(s)
}

fn last_text_is_stop(out: &Vec<Segment>) -> (r: bool)
    ensures
        r == last_is_stop(seg_views(out@)),
{
    if out.len() == 0 {
        false
    } else {
        out[out.len() - 1].text == literal("P")
    }
}

fn bits_byte(bits: &Vec<bool>) -> (r: u8)
    requires
        bits.len() <= 8,
    ensures
        r == bits_value(bits@),
{
    let mut acc: u8 = 0;
    let mut i: usize = 0;
    while i < bits.len()
        invariant
            i <= bits.len() <= 8,
            acc == bits_value(bits@.take(i as int)),
            acc < pow2_nat(i as nat),
        decreases bits.len() - i,
    {
        proof {
            assert(bits@.take(i + 1).drop_last() =~= bits@.take(i as int));
            lemma_pow2_step(i as nat);
        }
        acc = acc * 2 + if bits[i] { 1u8 } else { 0u8 };
        i += 1;
    }
    assert(bits@.take(bits.len() as int) =~= bits@);
    acc
}

spec fn pow2_nat(n: nat) -> nat
    decreases n,
{
    if n == 0 {
        1
    } else {
        2 * pow2_nat((n - 1) as nat)
    }
}

proof fn lemma_pow2_step(n: nat)
    requires
        n < 8,
    ensures
        pow2_nat(n + 1) == 2 * pow2_nat(n),
        pow2_nat(n) <= 128,
{
    assert(pow2_nat(0) == 1);
    assert(pow2_nat(1) == 2);
    assert(pow2_nat(2) == 4);
    assert(pow2_nat(3) == 8);
    assert(pow2_nat(4) == 16);
    assert(pow2_nat(5) == 32);
    assert(pow2_nat(6) == 64);
    assert(pow2_nat(7) == 128);
}

fn byte_text_exec(byte: u8, first: bool) -> (r: String)
    ensures
        r@ == byte_text(byte as nat, first),
{
    let mut s = literal("0x");
    if first {
        push_hex(&mut s, (byte / 2) as u64, 2);
        push_str(&mut s, " ");
        if byte % 2 == 1 {
            push_str(&mut s, "R");
        } else {
            push_str(&mut s, "W");
        }
    } else {
        push_hex(&mut s, byte as u64, 2);
    }
    s
}

impl Decoder {
    fn step(&mut self, e: I2cEvent)
        requires
            old(self).bits.len() <= 8,
        ensures
            final(self)@ == i2c_step(old(self)@, e),
            final(self).bits.len() <= 8,
    {
        let t = e.time;
        match e.edge {
            Edge::Sda => {
                let changed = e.level != self.sda;
                self.sda = e.level;
                if !changed || !self.scl {
                    assert(self@ =~= i2c_step(old(self)@, e));
                    return;
                }
                if e.level {
                    self.out.push(Segment { time: t, text: literal("P") });
                    self.phase = Phase::Idle;
                } else {
                    let text = match self.phase {
                        Phase::Idle => literal("S"),
                        Phase::Active { .. } => literal("Sr"),
                    };
                    self.out.push(Segment { time: t, text });
                    self.phase = Phase::Active { first: true };
                }
                self.bits.clear();
                self.byte_start = None;
            },
            Edge::Scl => {
                let rising = e.level && !self.scl;
                let falling = !e.level && self.scl;
                self.scl = e.level;
                let idle = match self.phase {
                    Phase::Idle => true,
                    Phase::Active { .. } => false,
                };
                if falling && idle {
                    if last_text_is_stop(&self.out) {
                        self.out.push(Segment { time: t, text: String::new() });
                    }
                    return;
                }
                if !rising {
                    return;
                }
                let first = match self.phase {
                    Phase::Idle => {
                        assert(self@ =~= i2c_step(old(self)@, e));
                        return;
                    },
                    Phase::Active { first } => first,
                };
                if self.bits.len() == 8 {
                    let text = if self.sda {
                        literal("NACK")
                    } else {
                        literal("ACK")
                    };
                    self.out.push(Segment { time: t, text });
                    self.bits.clear();
                    self.byte_start = None;
                    if first {
                        self.phase = Phase::Active { first: false };
                    }
                    return;
                }
                if self.bits.len() == 0 {
                    self.byte_start = Some(t);
                }
                self.bits.push(self.sda);
                if self.bits.len() == 8 {
                    let byte = bits_byte(&self.bits);
                    let text = byte_text_exec(byte, first);
                    let start = match self.byte_start {
                        Some(b) => b,
                        None => t,
                    };
                    self.out.push(Segment { time: start, text });
                }
            },
        }
        assert(seg_views(self.out@) =~= i2c_step(old(self)@, e).out);
    }
}

fn trace_events(trace: &BitTrace, edge: Edge, events: &mut Vec<I2cEvent>)
    ensures
        final(events)@ == old(events)@ + trace@.map_values(|e: (u64, bool)| I2cEvent { time: e.0, edge, level: e.1 }),
{
    let ghost start = events@;
    let mut i: usize = 0;
    while i < trace.len()
        invariant
            i <= trace.len(),
            events@ == start + trace@.take(i as int).map_values(|e: (u64, bool)| I2cEvent { time: e.0, edge, level: e.1 }),
        decreases trace.len() - i,
    {
        let (t, v) = trace[i];
        events.push(I2cEvent { time: t, edge, level: v });
        i += 1;
        assert(events@ =~= start + trace@.take(i as int).map_values(|e: (u64, bool)| I2cEvent { time: e.0, edge, level: e.1 }));
    }
    assert(trace@.take(trace.len() as int) =~= trace@);
}

/// Runs the decoder over every edge of both traces, in time order.
fn run_decoder(scl: &BitTrace, sda: &BitTrace) -> (d: Decoder)
    ensures
        d@ == i2c_final_state(scl@, sda@),
{
    // Merge both traces into one time-ordered edge stream.
    let mut events: Vec<I2cEvent> = Vec::new();
    trace_events(scl, Edge::Scl, &mut events);
    trace_events(sda, Edge::Sda, &mut events);
    assert(events@ =~= i2c_events(scl@, sda@));
    // Stable sort keeps SCL before SDA at equal timestamps, which matches the
    // usual "SDA changes right after SCL falls" ordering in dumps.
    let events = sort_by_key_exec(events);

    let mut out: Vec<Segment> = Vec::new();
    out.push(Segment { time: 0, text: String::new() });
    let scl_level = if scl.len() > 0 { scl[0].1 } else { true };
    let sda_level = if sda.len() > 0 { sda[0].1 } else { true };
    let mut d = Decoder { scl: scl_level, sda: sda_level, phase: Phase::Idle, bits: Vec::new(), byte_start: None, out };
    assert(d@.out =~= i2c_init(scl@, sda@).out);
    assert(d@.bits =~= Seq::<bool>::empty());
    let ghost evs = events@;
    let mut i: usize = 0;
    while i < events.len()
        invariant
            evs == events@,
            evs == sort_by_key(i2c_events(scl@, sda@)),
            i <= events.len(),
            d.bits.len() <= 8,
            d@ == i2c_run(i2c_init(scl@, sda@), evs.take(i as int)),
        decreases events.len() - i,
    {
        proof {
            assert(evs.take(i + 1).drop_last() =~= evs.take(i as int));
        }
        d.step(events[i]);
        i += 1;
    }
    assert(evs.take(events.len() as int) =~= evs);
    d
}

fn is_idle(d: &Decoder) -> (r: bool)
    ensures
        r == (d@.phase == Phase::Idle),
{
    match d.phase {
        Phase::Idle => true,
        Phase::Active { .. } => false,
    }
}

/// Whether the decoding ends with a STOP at the largest time value, where
/// [`decode`] cannot place the idle segment that follows a STOP.
pub fn stop_at_end_of_time(scl: &BitTrace, sda: &BitTrace) -> (r: bool)
    ensures
        r == i2c_stop_at_end_of_time(scl@, sda@),
{
    let d = run_decoder(scl, sda);
    is_idle(&d) && last_text_is_stop(&d.out) && d.out[d.out.len() - 1].time == u64::MAX
}

/// Decodes the I2C transactions carried by `scl` and `sda`.
pub fn decode(scl: &BitTrace, sda: &BitTrace) -> (r: Vec<Segment>)
    requires
        !i2c_stop_at_end_of_time(scl@, sda@),
    ensures
        seg_views(r@) == i2c_decode(scl@, sda@),
{
    let d = run_decoder(scl, sda);
    // After the last STOP the bus stays idle
    let idle = is_idle(&d);
    let mut out = d.out;
    if idle && last_text_is_stop(&out) {
        let t = out[out.len() - 1].time + 1;
        out.push(Segment { time: t, text: String::new() });
    }
    assert(seg_views(out@) =~= i2c_decode(scl@, sda@));
    out
}

/// Only a START (or repeated START) makes the next byte an address byte, and
/// the acknowledge of any byte ends the address phase: after it every byte up
/// to the next START is a data byte.
pub proof fn lemma_address_only_after_start(st: I2cState, e: I2cEvent)
    ensures
        i2c_step(st, e).phase == (Phase::Active { first: true }) ==> (st.phase == (Phase::Active { first: true })
            || (e.edge == Edge::Sda && !e.level && st.sda && st.scl)),
        (e.edge == Edge::Scl && e.level && !st.scl && st.phase !is Idle && st.bits.len() == 8) ==> i2c_step(
            st,
            e,
        ).phase == (Phase::Active { first: false }),
{
}

} // verus!
