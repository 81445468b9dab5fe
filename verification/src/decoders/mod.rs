//! Protocol decoders that turn several physical signals into one "virtual"
//! string-valued signal (e.g. `SCL` + `SDA` -> decoded I2C transactions).
//!
//! A decoder produces [`Segment`]s; a [`VirtualSignal`] holds them in time
//! order and answers "what is shown at time t" queries.
use vstd::prelude::*;
pub mod i2c;
pub mod pcie;
pub mod spi;
pub mod timeline;
pub mod uart;

use crate::sorting::{Keyed, SpecKeyed, sort_by_key, sort_by_key_exec, keys_sorted, lemma_sort_by_key, lemma_sort_map};

verus! {

/// One decoded segment: the value becomes visible at `time` and stays until the
/// next segment starts.
#[derive(Debug, Clone)]
pub struct Segment {
    pub time: u64,
    pub text: String,
}

/// The mathematical content of a [`Segment`].
pub struct SegmentView {
    pub time: u64,
    pub text: Seq<char>,
}

impl View for Segment {
    type V = SegmentView;

    open spec fn view(&self) -> SegmentView {
        SegmentView { time: self.time, text: self.text@ }
    }
}

impl SpecKeyed for Segment {
    open spec fn key(&self) -> int {
        self.time as int
    }
}

impl Keyed for Segment {
    fn key_exec(&self) -> (k: u128) {
        self.time as u128
    }
}

/// The views of a sequence of segments.
pub open spec fn seg_views(s: Seq<Segment>) -> Seq<SegmentView> {
    s.map_values(|x: Segment| x@)
}

/// A segment with the given time and text.
pub open spec fn seg(time: u64, text: Seq<char>) -> SegmentView {
    SegmentView { time, text }
}

/// Value of bits received most significant first.
pub open spec fn bits_value(bits: Seq<bool>) -> nat
    decreases bits.len(),
{
    if bits.len() == 0 {
        0
    } else {
        2 * bits_value(bits.drop_last()) + if bits.last() { 1nat } else { 0nat }
    }
}

impl SpecKeyed for SegmentView {
    open spec fn key(&self) -> int {
        self.time as int
    }
}

/// Names of all available protocol decoders, for command completion.
pub const PROTOCOLS: [&'static str; 3] = ["i2c", "uart", "spi"];

/// A single-bit input, as a list of (time, level) changes.
pub type BitTrace = Vec<(u64, bool)>;

/// Segments of equal time collapsed into one: consecutive segments that share
/// a timestamp keep the first one's place and the last one's text.
pub open spec fn collapse(s: Seq<SegmentView>) -> Seq<SegmentView>
    decreases s.len(),
{
    if s.len() == 0 {
        s
    } else {
        let c = collapse(s.drop_last());
        let x = s.last();
        if c.len() > 0 && c.last().time == x.time {
            c.update(c.len() - 1, seg(x.time, x.text))
        } else {
            c.push(x)
        }
    }
}

/// Times strictly increase along `s`.
pub open spec fn strictly_increasing(s: Seq<SegmentView>) -> bool {
    forall|i: int, j: int| 0 <= i < j < s.len() ==> #[trigger] s[i].time < #[trigger] s[j].time
}

/// A precomputed, string-valued signal that is not backed by the waveform file.
#[derive(Debug)]
pub struct VirtualSignal {
    pub signal_type: String,
    /// Sorted by time, strictly increasing.
    pub segments: Vec<Segment>,
}

/// What a signal shows at one instant: the segment in effect (its start time
/// and text), and the start time of the following segment.
#[derive(Debug)]
pub struct QueryResult {
    pub current: Option<(u64, String)>,
    pub next: Option<u64>,
}

/// Index of the first segment that starts after `t`, scanning from the front.
pub open spec fn first_after(s: Seq<SegmentView>, t: u64) -> nat
    decreases s.len(),
{
    if s.len() == 0 {
        0
    } else if s[0].time > t {
        0
    } else {
        1 + first_after(s.drop_first(), t)
    }
}

proof fn lemma_collapse_len(s: Seq<SegmentView>)
    ensures
        collapse(s).len() <= s.len(),
        s.len() > 0 ==> collapse(s).len() > 0 && collapse(s).last().time == s.last().time,
        forall|i: int| 0 <= i < collapse(s).len() ==> exists|j: int| 0 <= j < s.len() && #[trigger] collapse(s)[i].time == #[trigger] s[j].time,
    decreases s.len(),
{
    if s.len() > 0 {
        lemma_collapse_len(s.drop_last());
        let c = collapse(s.drop_last());
        assert forall|i: int| 0 <= i < collapse(s).len() implies exists|j: int| 0 <= j < s.len() && #[trigger] collapse(s)[i].time == #[trigger] s[j].time by {
            if i < c.len() {
                let j = choose|j: int| 0 <= j < s.drop_last().len() && c[i].time == #[trigger] s.drop_last()[j].time;
                assert(s[j] == s.drop_last()[j]);
                if i == c.len() - 1 && c.last().time == s.last().time {
                    assert(collapse(s)[i].time == s[j].time);
                } else {
                    assert(collapse(s)[i] == c[i]);
                }
            } else {
                assert(collapse(s)[i].time == s[s.len() - 1].time);
            }
        }
    }
}

/// Collapsing a time-sorted sequence leaves strictly increasing times.
pub proof fn lemma_collapse_strict(s: Seq<SegmentView>)
    requires
        forall|i: int, j: int| 0 <= i <= j < s.len() ==> #[trigger] s[i].time <= #[trigger] s[j].time,
    ensures
        strictly_increasing(collapse(s)),
    decreases s.len(),
{
    if s.len() > 0 {
        let d = s.drop_last();
        assert forall|i: int, j: int| 0 <= i <= j < d.len() implies #[trigger] d[i].time <= #[trigger] d[j].time by {
            assert(d[i] == s[i] && d[j] == s[j]);
        }
        lemma_collapse_strict(d);
        lemma_collapse_len(d);
        let c = collapse(d);
        let r = collapse(s);
        // every time in c is the time of some earlier segment, hence <= s.last().time
        assert forall|i: int| 0 <= i < c.len() implies #[trigger] c[i].time <= s.last().time by {
            let j = choose|j: int| 0 <= j < d.len() && c[i].time == #[trigger] d[j].time;
            assert(d[j] == s[j]);
        }
        assert forall|i: int, j: int| 0 <= i < j < r.len() implies #[trigger] r[i].time < #[trigger] r[j].time by {
            if c.len() > 0 && c.last().time == s.last().time {
                assert(r[i].time == c[i].time && r[j].time == c[j].time);
            } else {
                if j < c.len() {
                    assert(r[i] == c[i] && r[j] == c[j]);
                } else {
                    assert(r[i] == c[i]);
                    assert(c[i].time <= c[c.len() - 1].time);
                }
            }
        }
    }
}

/// `first_after` on a strictly increasing sequence is its partition point.
proof fn lemma_first_after(s: Seq<SegmentView>, t: u64)
    requires
        strictly_increasing(s),
    ensures
        first_after(s, t) <= s.len(),
        forall|i: int| 0 <= i < first_after(s, t) ==> #[trigger] s[i].time <= t,
        forall|i: int| first_after(s, t) <= i < s.len() ==> #[trigger] s[i].time > t,
    decreases s.len(),
{
    if s.len() > 0 {
        let d = s.drop_first();
        assert forall|i: int, j: int| 0 <= i < j < d.len() implies #[trigger] d[i].time < #[trigger] d[j].time by {
            assert(d[i] == s[i + 1] && d[j] == s[j + 1]);
        }
        lemma_first_after(d, t);
        if s[0].time > t {
            assert forall|i: int| 0 <= i < s.len() implies #[trigger] s[i].time > t by {
                if i > 0 {
                    assert(s[0].time < s[i].time);
                }
            }
        } else {
            assert forall|i: int| 0 <= i < first_after(s, t) implies #[trigger] s[i].time <= t by {
                if i > 0 {
                    assert(s[i] == d[i - 1]);
                }
            }
            assert forall|i: int| first_after(s, t) <= i < s.len() implies #[trigger] s[i].time > t by {
                assert(s[i] == d[i - 1]);
            }
        }
    }
}

proof fn lemma_first_after_unique(s: Seq<SegmentView>, t: u64, p: int)
    requires
        strictly_increasing(s),
        0 <= p <= s.len(),
        forall|i: int| 0 <= i < p ==> #[trigger] s[i].time <= t,
        forall|i: int| p <= i < s.len() ==> #[trigger] s[i].time > t,
    ensures
        first_after(s, t) == p,
{
    lemma_first_after(s, t);
    let q = first_after(s, t) as int;
    if q < p {
        assert(s[q].time > t);
        assert(s[q].time <= t);
    } else if q > p {
        assert(s[p].time <= t);
    }
}

fn copy_segment(s: &Segment) -> (r: Segment)
    ensures
        r@ == s@,
{
    Segment { time: s.time, text: s.text.clone() }
}

/// The segments after sorting by time and collapsing equal timestamps.
pub open spec fn normalized(segments: Seq<SegmentView>) -> Seq<SegmentView> {
    collapse(sort_by_key(segments))
}

impl VirtualSignal {
    /// Segments are strictly increasing in time.
    pub open spec fn well_formed(&self) -> bool {
        strictly_increasing(seg_views(self.segments@))
    }

    /// Builds a signal from decoder output: the segments are sorted by time
    /// (stably), and segments sharing a timestamp are collapsed into one
    /// carrying the text of the last of them.
    pub fn new(signal_type: String, segments: Vec<Segment>) -> (r: Self)
        ensures
            r.signal_type@ == signal_type@,
            seg_views(r.segments@) == normalized(seg_views(segments@)),
            r.well_formed(),
    {
        let sorted = sort_by_key_exec(segments);
        proof {
            lemma_sort_by_key(segments@);
            lemma_sort_map(segments@, |x: Segment| x@);
        }
        let ghost sv = seg_views(sorted@);
        let ghost sorted_v = sorted@;
        let n = sorted.len();
        let mut rev = crate::sorting::reversed(sorted);
        let mut out: Vec<Segment> = Vec::new();
        let mut i: usize = 0;
        while rev.len() > 0
            invariant
                sv.len() == n,
                i + rev.len() == n,
                forall|j: int| 0 <= j < rev.len() ==> #[trigger] rev@[j]@ == sv[n - 1 - j],
                seg_views(out@) == collapse(sv.take(i as int)),
            decreases rev.len(),
        {
            let ghost k = rev.len() - 1;
            assert(rev@[k]@ == sv[n - 1 - k]);
            let x = match rev.pop() {
                Some(x) => x,
                None => {
                    return VirtualSignal { signal_type, segments: out };
                },
            };
            proof {
                assert(sv.take(i + 1).drop_last() =~= sv.take(i as int));
                assert(x@ == sv[i as int]);
                assert(sv.take(i + 1).last() == sv[i as int]);
            }
            let len = out.len();
            if len > 0 && out[len - 1].time == x.time {
                let t = out[len - 1].time;
                out.set(len - 1, Segment { time: t, text: x.text });
            } else {
                out.push(x);
            }
            i += 1;
            assert(seg_views(out@) =~= collapse(sv.take(i as int)));
        }
        assert(sv.take(n as int) =~= sv);
        proof {
            assert forall|a: int, b: int| 0 <= a <= b < sv.len() implies #[trigger] sv[a].time <= #[trigger] sv[b].time by {
                assert(sorted_v[a].key() <= sorted_v[b].key());
            }
            lemma_collapse_strict(sv);
        }
        VirtualSignal { signal_type, segments: out }
    }

    /// What the signal shows at time `t`: the last segment starting at or
    /// before `t`, and the start of the segment after it. The segments are
    /// searched by halving, so the answer is only meaningful when they are in
    /// time order (as [`VirtualSignal::new`] leaves them); then it is exact.
    pub fn query(&self, t: u64) -> (r: QueryResult)
        ensures
            self.well_formed() ==> ({
                let s = seg_views(self.segments@);
                let idx = first_after(s, t);
                &&& (match r.current {
                    Some((ct, text)) => idx > 0 && ct == s[idx - 1].time && text@ == s[idx - 1].text,
                    None => idx == 0,
                })
                &&& r.next == (if idx < s.len() { Some(s[idx as int].time) } else { None::<u64> })
            }),
    {
        let ghost s = seg_views(self.segments@);
        let n = self.segments.len();
        let mut lo: usize = 0;
        let mut hi: usize = n;
        while lo < hi
            invariant
                s == seg_views(self.segments@),
                n == s.len(),
                lo <= hi <= n,
                strictly_increasing(s) ==> forall|i: int| 0 <= i < lo ==> #[trigger] s[i].time <= t,
                strictly_increasing(s) ==> forall|i: int| hi <= i < n ==> #[trigger] s[i].time > t,
            decreases hi - lo,
        {
            let mid = lo + (hi - lo) / 2;
            if self.segments[mid].time <= t {
                proof {
                    if strictly_increasing(s) {
                        assert forall|i: int| 0 <= i < mid + 1 implies #[trigger] s[i].time <= t by {
                            if i < mid {
                                assert(s[i].time < s[mid as int].time);
                            }
                        }
                    }
                }
                lo = mid + 1;
            } else {
                proof {
                    if strictly_increasing(s) {
                        assert forall|i: int| mid <= i < n implies #[trigger] s[i].time > t by {
                            if i > mid {
                                assert(s[mid as int].time < s[i].time);
                            }
                        }
                    }
                }
                hi = mid;
            }
        }
        proof {
            if strictly_increasing(s) {
                lemma_first_after_unique(s, t, lo as int);
            }
        }
        let current = if lo > 0 {
            let c = &self.segments[lo - 1];
            Some((c.time, c.text.clone()))
        } else {
            None
        };
        let next = if lo < n {
            Some(self.segments[lo].time)
        } else {
            None
        };
        QueryResult { current, next }
    }
}

/// A recorded value of a one-bit variable: a number (known only by whether
/// it is zero) or a text such as `x` or `z`.
#[derive(Debug, Clone)]
pub enum LineValue {
    Number { nonzero: bool },
    Text(String),
}

/// The level a value stands for: a non-zero number is high; a text is high
/// unless it ends in `0` (so `x` and `z` count as high, since open-drain
/// buses are pulled up).
pub open spec fn line_level(v: LineValue) -> bool {
    match v {
        LineValue::Number { nonzero } => nonzero,
        LineValue::Text(s) => !(s@.len() > 0 && s@.last() == '0'),
    }
}

/// Convert raw variable changes to a bit trace.
pub fn to_bit_trace(changes: Vec<(u64, LineValue)>) -> (r: BitTrace)
    ensures
        r@ == changes@.map_values(|c: (u64, LineValue)| (c.0, line_level(c.1))),
{
    let mut out: BitTrace = Vec::new();
    let mut i: usize = 0;
    while i < changes.len()
        invariant
            i <= changes.len(),
            out@ == changes@.take(i as int).map_values(|c: (u64, LineValue)| (c.0, line_level(c.1))),
        decreases changes.len() - i,
    {
        let t = changes[i].0;
        let level = match &changes[i].1 {
            LineValue::Number { nonzero } => *nonzero,
            LineValue::Text(s) => {
                let cs = crate::text::chars_of(s.as_str());
                !(cs.len() > 0 && cs[cs.len() - 1] == '0')
            },
        };
        out.push((t, level));
        i += 1;
        assert(out@ =~= changes@.take(i as int).map_values(|c: (u64, LineValue)| (c.0, line_level(c.1))));
    }
    assert(changes@.take(changes.len() as int) =~= changes@);
    out
}

/// The traces of the inputs.
pub open spec fn trace_views(inputs: Seq<BitTrace>) -> Seq<Seq<(u64, bool)>> {
    inputs.map_values(|t: BitTrace| t@)
}

/// What [`run_clocked`] produces: the type name and segments of the
/// decoded signal, or an error message.
pub open spec fn run_clocked_spec(protocol: Seq<char>, inputs: Seq<Seq<(u64, bool)>>, params: Seq<Seq<char>>) -> Result<
    (Seq<char>, Seq<SegmentView>),
    Seq<char>,
> {
    if protocol == "i2c"@ {
        if inputs.len() != 2 {
            Err("i2c decoder needs exactly two inputs: SCL SDA"@)
        } else {
            Ok(("decoded i2c"@, normalized(i2c::i2c_decode(inputs[0], inputs[1]))))
        }
    } else if protocol == "spi"@ {
        if inputs.len() < 2 || inputs.len() > 4 {
            Err("spi decoder needs SCLK MOSI [MISO] [CS] (use '-' for a missing line)"@)
        } else {
            match spi::spi_config(params) {
                Err(e) => Err(e),
                Ok(cfg) => {
                    let miso = if inputs.len() > 2 { inputs[2] } else { Seq::empty() };
                    let cs = if inputs.len() > 3 { inputs[3] } else { Seq::empty() };
                    let mode = (if cfg.cpol { 2nat } else { 0nat }) + (if cfg.cpha { 1nat } else { 0nat });
                    Ok((
                        "decoded spi mode"@ + crate::text::dec_chars(mode),
                        normalized(spi::spi_decode(inputs[0], inputs[1], miso, cs, cfg)),
                    ))
                },
            }
        }
    } else {
        Err("Unknown protocol decoder '"@ + protocol + "'"@)
    }
}

/// Runs one of the clock-driven decoders (`i2c`, `spi`) on the given input
/// traces; any other name is refused as unknown. The order of `inputs` is
/// protocol specific (see the individual decoder modules), and `params` are
/// the decoder options typed after the signal names.
pub fn run_clocked(protocol: &str, inputs: &[BitTrace], params: &[String]) -> (r: Result<VirtualSignal, String>)
    requires
        protocol@ == "i2c"@ && inputs@.len() == 2 ==> !i2c::i2c_stop_at_end_of_time(inputs@[0]@, inputs@[1]@),
    ensures
        match (r, run_clocked_spec(protocol@, trace_views(inputs@), spi::views_of(params@))) {
            (Ok(v), Ok((ty, segs))) => v.signal_type@ == ty && seg_views(v.segments@) == segs,
            (Err(e), Err(m)) => e@ == m,
            _ => false,
        },
{
    let ghost ins = trace_views(inputs@);
    if crate::text::str_eq(protocol, "i2c") {
        if inputs.len() != 2 {
            return Err(String::from_str("i2c decoder needs exactly two inputs: SCL SDA"));
        }
        let segs = i2c::decode(&inputs[0], &inputs[1]);
        Ok(VirtualSignal::new(String::from_str("decoded i2c"), segs))
    } else if crate::text::str_eq(protocol, "spi") {
        if inputs.len() < 2 || inputs.len() > 4 {
            return Err(String::from_str("spi decoder needs SCLK MOSI [MISO] [CS] (use '-' for a missing line)"));
        }
        let cfg = match spi::config_from_params(params) {
            Ok(c) => c,
            Err(e) => {
                return Err(e);
            },
        };
        let empty: BitTrace = Vec::new();
        let miso = if inputs.len() > 2 { &inputs[2] } else { &empty };
        let cs = if inputs.len() > 3 { &inputs[3] } else { &empty };
        proof {
            assert(spi::spi_config(spi::views_of(params@)) is Ok);
            spi::lemma_config_bits(spi::views_of(params@));
        }
        let segs = spi::decode(&inputs[0], &inputs[1], miso, cs, &cfg);
        let mode: u64 = (if cfg.cpol { 2 } else { 0 }) + (if cfg.cpha { 1 } else { 0 });
        let mut name = String::from_str("decoded spi mode");
        crate::text::push_dec(&mut name, mode);
        proof {
            assert(miso@ == (if ins.len() > 2 { ins[2] } else { Seq::empty() }));
            assert(cs@ == (if ins.len() > 3 { ins[3] } else { Seq::empty() }));
        }
        Ok(VirtualSignal::new(name, segs))
    } else {
        let mut e = String::from_str("Unknown protocol decoder '");
        crate::text::push_str(&mut e, protocol);
        crate::text::push_str(&mut e, "'");
        Err(e)
    }
}

} // verus!
