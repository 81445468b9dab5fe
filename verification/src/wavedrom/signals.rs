//! The signal list of a WaveDrom document: which signals it names, in which
//! groups, and what the characters of each `wave` string mean.
//!
//! * `signal: [ {name, wave, data, period, phase}, ['group', ...], {} ]`
//! * wave characters: `p P n N` (clocks), `h H l L 1 0` (levels), `x`
//!   (unknown), `z` (high impedance), `= 2..9 u d` (bus values taken from
//!   `data`), `.` (hold), `|` (gap, held like `.`)
//! * `data` is an array, or a string of space-separated words
use vstd::prelude::*;
use crate::text::{is_whitespace, is_whitespace_exec, push_char, str_eq};
use super::{is_data_char, is_data_char_spec};

verus! {

/// A parsed JSON value, as the signal list reads it. A number keeps the text
/// it is printed with; an array or object also carries its compact JSON text,
/// which is how a non-string `data` entry reads.
#[derive(Debug)]
pub enum Json {
    Null,
    Bool(bool),
    Number(String),
    Str(String),
    Array(Vec<Json>, String),
    Object(Vec<(String, Json)>, String),
}

/// The views of a sequence of strings.
pub open spec fn strings_view(v: Seq<String>) -> Seq<Seq<char>> {
    v.map_values(|x: String| x@)
}

/// The value stored under `key` among an object's fields (the first entry
/// with that key).
pub open spec fn field(fields: Seq<(String, Json)>, key: Seq<char>) -> Option<Json>
    decreases fields.len(),
{
    if fields.len() == 0 {
        None
    } else if fields[0].0@ == key {
        Some(fields[0].1)
    } else {
        field(fields.drop_first(), key)
    }
}

/// Looks up `key` among an object's fields.
pub fn get_field<'a>(fields: &'a Vec<(String, Json)>, key: &str) -> (r: Option<&'a Json>)
    ensures
        match r {
            Some(x) => field(fields@, key@) == Some(*x),
            None => field(fields@, key@) is None,
        },
{
    let mut i: usize = 0;
    assert(fields@.skip(0) =~= fields@);
    while i < fields.len()
        invariant
            i <= fields.len(),
            field(fields@, key@) == field(fields@.skip(i as int), key@),
        decreases fields.len() - i,
    {
        assert(fields@.skip(i as int)[0] == fields@[i as int]);
        if str_eq(fields[i].0.as_str(), key) {
            return Some(&fields[i].1);
        }
        assert(fields@.skip(i as int).drop_first() =~= fields@.skip(i + 1));
        i += 1;
    }
    None
}

/// The string a value holds, if it is a string.
pub open spec fn str_of(v: Option<Json>) -> Option<Seq<char>> {
    match v {
        Some(Json::Str(s)) => Some(s@),
        _ => None,
    }
}

/// The text of a value, if it is a number.
pub open spec fn number_of(v: Option<Json>) -> Option<Seq<char>> {
    match v {
        Some(Json::Number(t)) => Some(t@),
        _ => None,
    }
}

/// How one `data` entry reads: a string as itself, any other value as its
/// JSON text.
pub open spec fn data_item(v: Json) -> Seq<char> {
    match v {
        Json::Null => "null"@,
        Json::Bool(b) => if b {
            "true"@
        } else {
            "false"@
        },
        Json::Number(t) => t@,
        Json::Str(s) => s@,
        Json::Array(_, t) => t@,
        Json::Object(_, t) => t@,
    }
}

fn data_item_exec(v: &Json) -> (r: String)
    ensures
        r@ == data_item(*v),
{
    match v {
        Json::Null => String::from_str("null"),
        Json::Bool(b) => if *b {
            String::from_str("true")
        } else {
            String::from_str("false")
        },
        Json::Number(t) => t.clone(),
        Json::Str(s) => s.clone(),
        Json::Array(_, t) => t.clone(),
        Json::Object(_, t) => t.clone(),
    }
}

/// Reading `s` from the front: the whitespace-separated words completed so
/// far, and the word being read.
pub open spec fn words_scan(s: Seq<char>) -> (Seq<Seq<char>>, Seq<char>)
    decreases s.len(),
{
    if s.len() == 0 {
        (seq![], seq![])
    } else {
        let (ws, cur) = words_scan(s.drop_last());
        let c = s.last();
        if is_whitespace(c) {
            if cur.len() > 0 {
                (ws.push(cur), seq![])
            } else {
                (ws, cur)
            }
        } else {
            (ws, cur.push(c))
        }
    }
}

/// The words of `s`: its maximal runs of non-whitespace characters (what
/// `str::split_whitespace` yields).
pub open spec fn words(s: Seq<char>) -> Seq<Seq<char>> {
    let (ws, cur) = words_scan(s);
    if cur.len() > 0 {
        ws.push(cur)
    } else {
        ws
    }
}

/// The words of `s`.
pub fn split_words(s: &String) -> (r: Vec<String>)
    ensures
        strings_view(r@) == words(s@),
{
    let cs = crate::text::chars_of(s.as_str());
    let mut ws: Vec<String> = Vec::new();
    let mut cur = String::new();
    let mut cur_len: usize = 0;
    let mut i: usize = 0;
    while i < cs.len()
        invariant
            i <= cs.len(),
            cs@ == s@,
            cur_len == cur@.len(),
            cur_len <= i,
            (strings_view(ws@), cur@) == words_scan(s@.take(i as int)),
        decreases cs.len() - i,
    {
        let c = cs[i];
        assert(s@.take(i + 1).drop_last() =~= s@.take(i as int));
        if is_whitespace_exec(c) {
            if cur_len > 0 {
                let done = cur;
                ws.push(done);
                cur = String::new();
                cur_len = 0;
                assert(strings_view(ws@) =~= words_scan(s@.take(i as int)).0.push(done@));
            }
        } else {
            push_char(&mut cur, c);
            cur_len += 1;
        }
        i += 1;
    }
    assert(s@.take(cs.len() as int) =~= s@);
    if cur_len > 0 {
        let last = cur;
        ws.push(last);
        assert(strings_view(ws@) =~= words_scan(s@).0.push(last@));
    }
    ws
}

/// One signal of the list, as read from its object.
#[derive(Debug)]
pub struct Sig {
    /// The names of the groups it stands in, outermost first.
    pub scope: Vec<String>,
    pub name: String,
    pub wave: Vec<char>,
    pub data: Vec<String>,
    /// The text of the `period` number, when there is one.
    pub period: Option<String>,
    /// The text of the `phase` number, when there is one.
    pub phase: Option<String>,
}

/// The mathematical content of a [`Sig`].
pub struct SigView {
    pub scope: Seq<Seq<char>>,
    pub name: Seq<char>,
    pub wave: Seq<char>,
    pub data: Seq<Seq<char>>,
    pub period: Option<Seq<char>>,
    pub phase: Option<Seq<char>>,
}

/// The view of an optional string.
pub open spec fn opt_view(o: Option<String>) -> Option<Seq<char>> {
    match o {
        Some(s) => Some(s@),
        None => None,
    }
}

impl View for Sig {
    type V = SigView;

    open spec fn view(&self) -> SigView {
        SigView {
            scope: strings_view(self.scope@),
            name: self.name@,
            wave: self.wave@,
            data: strings_view(self.data@),
            period: opt_view(self.period),
            phase: opt_view(self.phase),
        }
    }
}

/// The views of a sequence of signals.
pub open spec fn sig_views(s: Seq<Sig>) -> Seq<SigView> {
    s.map_values(|x: Sig| x@)
}

/// The `data` list of a signal: an array's entries, the words of a string,
/// any other value alone, or nothing.
pub open spec fn data_of(v: Option<Json>) -> Seq<Seq<char>> {
    match v {
        Some(Json::Array(items, _)) => items@.map_values(|x: Json| data_item(x)),
        Some(Json::Str(s)) => words(s@),
        Some(other) => seq![data_item(other)],
        None => seq![],
    }
}

/// The signal an object describes: one with a string `name` and a non-empty
/// string `wave`; anything else (such as `{}`, a spacer) is none.
pub open spec fn sig_of(fields: Seq<(String, Json)>, scope: Seq<Seq<char>>) -> Option<SigView> {
    match str_of(field(fields, "name"@)) {
        None => None,
        Some(name) => {
            let wave = match str_of(field(fields, "wave"@)) {
                Some(w) => w,
                None => seq![],
            };
            if wave.len() == 0 {
                None
            } else {
                Some(
                    SigView {
                        scope,
                        name,
                        wave,
                        data: data_of(field(fields, "data"@)),
                        period: number_of(field(fields, "period"@)),
                        phase: number_of(field(fields, "phase"@)),
                    },
                )
            }
        }
    }
}

/// The name of a group: the string that opens an array.
pub open spec fn group_name(items: Seq<Json>) -> Option<Seq<char>> {
    if items.len() > 0 {
        match items[0] {
            Json::Str(s) => Some(s@),
            _ => None,
        }
    } else {
        None
    }
}

/// The signals a value lists, in document order, inside the groups `scope`.
/// An array that opens with a string is a group of that name.
pub open spec fn collect(v: Json, scope: Seq<Seq<char>>) -> Seq<SigView>
    decreases v,
{
    match v {
        Json::Array(items, _) => match group_name(items@) {
            Some(g) => collect_items(items@.skip(1), scope.push(g)),
            None => collect_items(items@, scope),
        },
        Json::Object(fields, _) => match sig_of(fields@, scope) {
            Some(s) => seq![s],
            None => seq![],
        },
        _ => seq![],
    }
}

/// The signals that a list of values lists, one after the other.
pub open spec fn collect_items(items: Seq<Json>, scope: Seq<Seq<char>>) -> Seq<SigView>
    decreases items,
{
    if items.len() == 0 {
        seq![]
    } else {
        collect_items(items.drop_last(), scope) + collect(items.last(), scope)
    }
}

fn number_field(fields: &Vec<(String, Json)>, key: &str) -> (r: Option<String>)
    ensures
        opt_view(r) == number_of(field(fields@, key@)),
{
    match get_field(fields, key) {
        Some(Json::Number(t)) => Some(t.clone()),
        _ => None,
    }
}

fn read_data(fields: &Vec<(String, Json)>) -> (r: Vec<String>)
    ensures
        strings_view(r@) == data_of(field(fields@, "data"@)),
{
    match get_field(fields, "data") {
        Some(Json::Array(items, _)) => {
            let mut out: Vec<String> = Vec::new();
            let mut i: usize = 0;
            while i < items.len()
                invariant
                    i <= items.len(),
                    out.len() == i,
                    strings_view(out@) == items@.take(i as int).map_values(|x: Json| data_item(x)),
                decreases items.len() - i,
            {
                let d = data_item_exec(&items[i]);
                let ghost prev = out@;
                out.push(d);
                proof {
                    assert(strings_view(out@) =~= strings_view(prev).push(d@));
                    assert(items@.take(i + 1) =~= items@.take(i as int).push(items@[i as int]));
                }
                i += 1;
                assert(strings_view(out@) =~= items@.take(i as int).map_values(|x: Json| data_item(x)));
            }
            assert(items@.take(items.len() as int) =~= items@);
            out
        },
        Some(Json::Str(s)) => split_words(s),
        Some(other) => {
            let mut out: Vec<String> = Vec::new();
            out.push(data_item_exec(other));
            assert(strings_view(out@) =~= seq![data_item(*other)]);
            out
        },
        None => {
            let out: Vec<String> = Vec::new();
            assert(strings_view(out@) =~= Seq::<Seq<char>>::empty());
            out
        },
    }
}

fn clone_strings(v: &Vec<String>) -> (r: Vec<String>)
    ensures
        r@ == v@,
{
    let r = v.clone();
    assert(r@ =~= v@);
    r
}

/// The signal an object describes, if any.
fn read_sig(fields: &Vec<(String, Json)>, scope: &Vec<String>) -> (r: Option<Sig>)
    ensures
        match r {
            Some(x) => sig_of(fields@, strings_view(scope@)) == Some(x@),
            None => sig_of(fields@, strings_view(scope@)) is None,
        },
{
    let name = match get_field(fields, "name") {
        Some(Json::Str(n)) => n,
        _ => return None,
    };
    let wave: Vec<char> = match get_field(fields, "wave") {
        Some(Json::Str(w)) => crate::text::chars_of(w.as_str()),
        _ => Vec::new(),
    };
    if wave.len() == 0 {
        return None;
    }
    let data = read_data(fields);
    let period = number_field(fields, "period");
    let phase = number_field(fields, "phase");
    Some(Sig { scope: clone_strings(scope), name: name.clone(), wave, data, period, phase })
}

fn collect_into(v: &Json, scope: &mut Vec<String>, out: &mut Vec<Sig>)
    ensures
        final(scope)@ == old(scope)@,
        sig_views(final(out)@) == sig_views(old(out)@) + collect(*v, strings_view(old(scope)@)),
    decreases v,
{
    let ghost out0 = sig_views(out@);
    let ghost scope0 = scope@;
    match v {
        Json::Array(items, _) => {
            let mut start: usize = 0;
            if items.len() > 0 {
                if let Json::Str(g) = &items[0] {
                    scope.push(g.clone());
                    start = 1;
                }
            }
            let ghost inner = scope@;
            let ghost sc = strings_view(inner);
            proof {
                match group_name(items@) {
                    Some(g) => {
                        assert(sc =~= strings_view(scope0).push(g));
                    },
                    None => {
                        assert(sc =~= strings_view(scope0));
                        assert(items@.skip(0) =~= items@);
                    },
                }
            }
            let mut i = start;
            proof {
                assert(decreases_to!(*v => *items));
                assert(decreases_to!(*items => items@));
                assert(decreases_to!(*v => items@));
            }
            assert(items@.subrange(start as int, i as int) =~= Seq::<Json>::empty());
            assert(out0 + collect_items(items@.subrange(start as int, i as int), sc) =~= out0);
            while i < items.len()
                invariant
                    start <= i <= items.len(),
                    decreases_to!(*v => items@),
                    scope@ == inner,
                    sc == strings_view(inner),
                    sig_views(out@) == out0 + collect_items(items@.subrange(start as int, i as int), sc),
                decreases items.len() - i,
            {
                proof {
                    assert(decreases_to!(items@ => items@[i as int]));
                }
                collect_into(&items[i], scope, out);
                proof {
                    let s2 = items@.subrange(start as int, i + 1);
                    assert(s2.drop_last() =~= items@.subrange(start as int, i as int));
                    assert(s2.last() == items@[i as int]);
                }
                i += 1;
                assert(sig_views(out@) =~= out0 + collect_items(items@.subrange(start as int, i as int), sc));
            }
            assert(items@.subrange(start as int, items.len() as int) =~= items@.skip(start as int));
            if start == 1 {
                scope.pop();
                assert(scope@ =~= scope0);
            }
        },
        Json::Object(fields, _) => {
            if let Some(x) = read_sig(fields, scope) {
                out.push(x);
                assert(sig_views(out@) =~= out0 + seq![x@]);
            } else {
                assert(sig_views(out@) =~= out0 + Seq::<SigView>::empty());
            }
        },
        _ => {
            assert(sig_views(out@) =~= out0 + Seq::<SigView>::empty());
        },
    }
}

/// The signals a `signal` value lists, in document order.
pub fn collect_signals(v: &Json) -> (r: Vec<Sig>)
    ensures
        sig_views(r@) == collect(*v, seq![]),
{
    let mut scope: Vec<String> = Vec::new();
    let mut out: Vec<Sig> = Vec::new();
    assert(strings_view(scope@) =~= Seq::<Seq<char>>::empty());
    collect_into(v, &mut scope, &mut out);
    assert(sig_views(out@) =~= collect(*v, seq![]));
    out
}

/// A value a signal takes: one bit character (`0 1 x z`), or a bus string.
#[derive(Debug)]
pub enum Level {
    Bit(char),
    Str(String),
}

/// The mathematical content of a [`Level`].
pub enum LevelView {
    Bit(char),
    Str(Seq<char>),
}

impl View for Level {
    type V = LevelView;

    open spec fn view(&self) -> LevelView {
        match self {
            Level::Bit(c) => LevelView::Bit(*c),
            Level::Str(s) => LevelView::Str(s@),
        }
    }
}

/// A change of value, at the start of step `slot` of the wave, or half a
/// step later when `half` is set.
#[derive(Debug)]
pub struct WaveEvent {
    pub slot: usize,
    pub half: bool,
    pub level: Level,
}

/// The mathematical content of a [`WaveEvent`].
pub struct WaveEventView {
    pub slot: int,
    pub half: bool,
    pub level: LevelView,
}

impl View for WaveEvent {
    type V = WaveEventView;

    open spec fn view(&self) -> WaveEventView {
        WaveEventView { slot: self.slot as int, half: self.half, level: self.level@ }
    }
}

/// The views of a sequence of events.
pub open spec fn event_views(s: Seq<WaveEvent>) -> Seq<WaveEventView> {
    s.map_values(|x: WaveEvent| x@)
}

/// A wave with a bus character anywhere is a string signal.
pub open spec fn wave_is_string(wave: Seq<char>) -> bool {
    exists|i: int| 0 <= i < wave.len() && is_data_char_spec(#[trigger] wave[i])
}

/// Where reading a wave stands: the last character that was not `.` or `|`,
/// the value in effect, how many `data` entries were taken, and the changes.
pub struct WaveState {
    pub last: Option<char>,
    pub cur: Option<LevelView>,
    pub taken: nat,
    pub events: Seq<WaveEventView>,
}

/// `v` takes effect at (`slot`, `half`); a value equal to the one in effect
/// is no change.
pub open spec fn emit(st: WaveState, slot: int, half: bool, v: LevelView) -> WaveState {
    if st.cur == Some(v) {
        st
    } else {
        WaveState {
            last: st.last,
            cur: Some(v),
            taken: st.taken,
            events: st.events.push(WaveEventView { slot, half, level: v }),
        }
    }
}

/// The `data` entry numbered `k`, or the empty string when there are fewer.
pub open spec fn data_at(data: Seq<Seq<char>>, k: nat) -> Seq<char> {
    if k < data.len() {
        data[k as int]
    } else {
        seq![]
    }
}

/// Reading wave character `raw` at step `slot`. `.` and `|` repeat the last
/// other character; they continue a bus value without taking new data.
pub open spec fn wave_step(
    st: WaveState,
    raw: char,
    slot: int,
    data: Seq<Seq<char>>,
    is_string: bool,
) -> WaveState {
    let held = raw == '.' || raw == '|';
    if held && st.last is None {
        st
    } else {
        let c = if held {
            st.last->0
        } else {
            raw
        };
        let st = if held {
            st
        } else {
            WaveState { last: Some(raw), ..st }
        };
        if c == 'p' || c == 'P' {
            emit(emit(st, slot, false, LevelView::Bit('1')), slot, true, LevelView::Bit('0'))
        } else if c == 'n' || c == 'N' {
            emit(emit(st, slot, false, LevelView::Bit('0')), slot, true, LevelView::Bit('1'))
        } else if c == 'h' || c == 'H' || c == '1' {
            emit(st, slot, false, LevelView::Bit('1'))
        } else if c == 'l' || c == 'L' || c == '0' {
            emit(st, slot, false, LevelView::Bit('0'))
        } else if c == 'x' || c == 'z' {
            emit(
                st,
                slot,
                false,
                if is_string {
                    LevelView::Str(seq![c])
                } else {
                    LevelView::Bit(c)
                },
            )
        } else if is_data_char_spec(c) && !held {
            emit(
                WaveState { taken: st.taken + 1, ..st },
                slot,
                false,
                LevelView::Str(data_at(data, st.taken)),
            )
        } else {
            st
        }
    }
}

/// The state after reading all of `wave`.
pub open spec fn wave_run(wave: Seq<char>, data: Seq<Seq<char>>, is_string: bool) -> WaveState
    decreases wave.len(),
{
    if wave.len() == 0 {
        WaveState { last: None, cur: None, taken: 0, events: seq![] }
    } else {
        wave_step(wave_run(wave.drop_last(), data, is_string), wave.last(), wave.len() - 1, data, is_string)
    }
}

/// The changes a wave string describes, step by step.
pub open spec fn wave_events(wave: Seq<char>, data: Seq<Seq<char>>) -> Seq<WaveEventView> {
    wave_run(wave, data, wave_is_string(wave)).events
}

/// The view of an optional value.
pub open spec fn opt_level(o: Option<Level>) -> Option<LevelView> {
    match o {
        Some(l) => Some(l@),
        None => None,
    }
}

/// A copy of a value.
pub fn copy_level(l: &Level) -> (r: Level)
    ensures
        r@ == l@,
{
    match l {
        Level::Bit(c) => Level::Bit(*c),
        Level::Str(s) => Level::Str(s.clone()),
    }
}

/// Whether two values are the same.
pub fn same_level(a: &Level, b: &Level) -> (r: bool)
    ensures
        r == (a@ == b@),
{
    match (a, b) {
        (Level::Bit(x), Level::Bit(y)) => *x == *y,
        (Level::Str(x), Level::Str(y)) => *x == *y,
        _ => false,
    }
}

fn emit_exec(cur: &mut Option<Level>, events: &mut Vec<WaveEvent>, slot: usize, half: bool, v: Level)
    ensures
        opt_level(*final(cur)) == Some(v@),
        event_views(final(events)@) == if opt_level(*old(cur)) == Some(v@) {
            event_views(old(events)@)
        } else {
            event_views(old(events)@).push(WaveEventView { slot: slot as int, half, level: v@ })
        },
{
    let unchanged = match cur {
        Some(c) => same_level(c, &v),
        None => false,
    };
    if !unchanged {
        let ghost prev = events@;
        events.push(WaveEvent { slot, half, level: copy_level(&v) });
        assert(event_views(events@) =~= event_views(prev).push(
            WaveEventView { slot: slot as int, half, level: v@ },
        ));
        *cur = Some(v);
    }
}

/// Whether a wave has a bus character anywhere.
pub fn wave_has_bus(wave: &Vec<char>) -> (r: bool)
    ensures
        r == wave_is_string(wave@),
{
    let mut i: usize = 0;
    while i < wave.len()
        invariant
            i <= wave.len(),
            forall|j: int| 0 <= j < i ==> !is_data_char_spec(#[trigger] wave@[j]),
        decreases wave.len() - i,
    {
        if is_data_char(wave[i]) {
            return true;
        }
        i += 1;
    }
    false
}

/// The changes a wave string describes, and whether it is a string signal.
pub fn expand_wave(wave: &Vec<char>, data: &Vec<String>) -> (r: (bool, Vec<WaveEvent>))
    ensures
        r.0 == wave_is_string(wave@),
        event_views(r.1@) == wave_events(wave@, strings_view(data@)),
{
    let is_string = wave_has_bus(wave);
    let ghost dv = strings_view(data@);
    let mut last: Option<char> = None;
    let mut cur: Option<Level> = None;
    let mut taken: usize = 0;
    let mut events: Vec<WaveEvent> = Vec::new();
    let mut i: usize = 0;
    assert(event_views(events@) =~= Seq::<WaveEventView>::empty());
    assert(wave@.take(0) =~= Seq::<char>::empty());
    while i < wave.len()
        invariant
            i <= wave.len(),
            taken <= i,
            dv == strings_view(data@),
            (WaveState { last, cur: opt_level(cur), taken: taken as nat, events: event_views(events@) })
                == wave_run(wave@.take(i as int), dv, is_string),
        decreases wave.len() - i,
    {
        assert(wave@.take(i + 1).drop_last() =~= wave@.take(i as int));
        let raw = wave[i];
        let held = raw == '.' || raw == '|';
        if !(held && last.is_none()) {
            let c = if held {
                last.unwrap()
            } else {
                raw
            };
            if !held {
                last = Some(raw);
            }
            if c == 'p' || c == 'P' {
                emit_exec(&mut cur, &mut events, i, false, Level::Bit('1'));
                emit_exec(&mut cur, &mut events, i, true, Level::Bit('0'));
            } else if c == 'n' || c == 'N' {
                emit_exec(&mut cur, &mut events, i, false, Level::Bit('0'));
                emit_exec(&mut cur, &mut events, i, true, Level::Bit('1'));
            } else if c == 'h' || c == 'H' || c == '1' {
                emit_exec(&mut cur, &mut events, i, false, Level::Bit('1'));
            } else if c == 'l' || c == 'L' || c == '0' {
                emit_exec(&mut cur, &mut events, i, false, Level::Bit('0'));
            } else if c == 'x' || c == 'z' {
                let v = if is_string {
                    let mut s = String::new();
                    push_char(&mut s, c);
                    assert(s@ =~= seq![c]);
                    Level::Str(s)
                } else {
                    Level::Bit(c)
                };
                emit_exec(&mut cur, &mut events, i, false, v);
            } else if is_data_char(c) && !held {
                let label = if taken < data.len() {
                    data[taken].clone()
                } else {
                    String::new()
                };
                assert(label@ == data_at(dv, taken as nat));
                taken += 1;
                emit_exec(&mut cur, &mut events, i, false, Level::Str(label));
            }
        }
        i += 1;
    }
    assert(wave@.take(wave.len() as int) =~= wave@);
    (is_string, events)
}

/// The `signal` value of a document.
pub open spec fn signal_field(root: Json) -> Option<Json> {
    match root {
        Json::Object(fields, _) => field(fields@, "signal"@),
        _ => None,
    }
}

/// The `signal` value of a document, if it has one.
pub fn signal_list(root: &Json) -> (r: Option<&Json>)
    ensures
        match r {
            Some(x) => signal_field(*root) == Some(*x),
            None => signal_field(*root) is None,
        },
{
    match root {
        Json::Object(fields, _) => get_field(fields, "signal"),
        _ => None,
    }
}

/// The text of the `config.period_ns` number: how many ns one step lasts.
pub open spec fn period_ns_field(root: Json) -> Option<Seq<char>> {
    match root {
        Json::Object(fields, _) => match field(fields@, "config"@) {
            Some(Json::Object(config, _)) => number_of(field(config@, "period_ns"@)),
            _ => None,
        },
        _ => None,
    }
}

/// The text of the `config.period_ns` number, if the document gives one.
pub fn period_ns_text(root: &Json) -> (r: Option<String>)
    ensures
        opt_view(r) == period_ns_field(*root),
{
    match root {
        Json::Object(fields, _) => match get_field(fields, "config") {
            Some(Json::Object(config, _)) => number_field(config, "period_ns"),
            _ => None,
        },
        _ => None,
    }
}

/// Whether change `a` comes before change `b`: at an earlier step, or at the
/// same step with `a` at its start and `b` half a step later.
pub open spec fn earlier(a: WaveEventView, b: WaveEventView) -> bool {
    a.slot < b.slot || (a.slot == b.slot && !a.half && b.half)
}

/// The changes recorded in `st` after reading `n` wave characters are in
/// order, lie within those steps, each changes the value, and the last one
/// is the value in effect.
spec fn run_ok(st: WaveState, n: int) -> bool {
    &&& (st.events.len() == 0 <==> st.cur is None)
    &&& (st.events.len() > 0 ==> st.cur == Some(st.events.last().level))
    &&& forall|i: int| 0 <= i < st.events.len() ==> 0 <= #[trigger] st.events[i].slot < n
    &&& forall|i: int, j: int|
        0 <= i < j < st.events.len() ==> earlier(#[trigger] st.events[i], #[trigger] st.events[j])
    &&& forall|i: int, j: int|
        0 <= i && j == i + 1 && j < st.events.len() ==> #[trigger] st.events[i].level != #[trigger] st.events[j].level
}

proof fn lemma_emit_ok(st: WaveState, slot: int, half: bool, v: LevelView, n: int, m: int)
    requires
        run_ok(st, n),
        n <= m,
        0 <= slot < m,
        forall|i: int| 0 <= i < st.events.len() ==> earlier(#[trigger] st.events[i], WaveEventView { slot, half, level: v }),
    ensures
        run_ok(emit(st, slot, half, v), m),
        forall|i: int| 0 <= i < emit(st, slot, half, v).events.len() ==> (#[trigger] emit(st, slot, half, v).events[i] == WaveEventView { slot, half, level: v } || st.events.contains(emit(st, slot, half, v).events[i])),
{
    let r = emit(st, slot, half, v);
    if st.cur != Some(v) {
        let e = WaveEventView { slot, half, level: v };
        assert(r.events == st.events.push(e));
        assert forall|i: int, j: int| 0 <= i < j < r.events.len() implies earlier(#[trigger] r.events[i], #[trigger] r.events[j]) by {
            if j == st.events.len() {
                assert(r.events[i] == st.events[i]);
            } else {
                assert(r.events[i] == st.events[i] && r.events[j] == st.events[j]);
            }
        }
        assert forall|i: int, j: int| 0 <= i && j == i + 1 && j < r.events.len() implies #[trigger] r.events[i].level != #[trigger] r.events[j].level by {
            if j == st.events.len() {
                assert(r.events[i] == st.events.last());
            } else {
                assert(r.events[i] == st.events[i] && r.events[j] == st.events[j]);
            }
        }
        assert forall|i: int| 0 <= i < r.events.len() implies (#[trigger] r.events[i] == e || st.events.contains(r.events[i])) by {
            if i < st.events.len() {
                assert(r.events[i] == st.events[i]);
            }
        }
    } else {
        assert forall|i: int| 0 <= i < r.events.len() implies (#[trigger] r.events[i] == WaveEventView { slot, half, level: v } || st.events.contains(r.events[i])) by {
            assert(st.events[i] == r.events[i]);
        }
    }
}

proof fn lemma_step_ok(st: WaveState, raw: char, n: int, data: Seq<Seq<char>>, is_string: bool)
    requires
        run_ok(st, n),
        n >= 0,
    ensures
        run_ok(wave_step(st, raw, n, data, is_string), n + 1),
{
    let held = raw == '.' || raw == '|';
    if held && st.last is None {
        return;
    }
    let c = if held { st.last->0 } else { raw };
    let s1 = if held { st } else { WaveState { last: Some(raw), ..st } };
    assert(run_ok(s1, n));
    if c == 'p' || c == 'P' || c == 'n' || c == 'N' {
        let (a, b) = if c == 'p' || c == 'P' {
            (LevelView::Bit('1'), LevelView::Bit('0'))
        } else {
            (LevelView::Bit('0'), LevelView::Bit('1'))
        };
        lemma_emit_ok(s1, n, false, a, n, n + 1);
        let s2 = emit(s1, n, false, a);
        assert forall|i: int| 0 <= i < s2.events.len() implies earlier(#[trigger] s2.events[i], WaveEventView { slot: n, half: true, level: b }) by {
            if !(s2.events[i] == WaveEventView { slot: n, half: false, level: a }) {
                let k = choose|k: int| 0 <= k < s1.events.len() && s1.events[k] == s2.events[i];
                assert(s1.events[k].slot < n);
            }
        }
        lemma_emit_ok(s2, n, true, b, n + 1, n + 1);
    } else if c == 'h' || c == 'H' || c == '1' || c == 'l' || c == 'L' || c == '0' || c == 'x' || c == 'z' {
        let v = if c == 'h' || c == 'H' || c == '1' {
            LevelView::Bit('1')
        } else if c == 'l' || c == 'L' || c == '0' {
            LevelView::Bit('0')
        } else if is_string {
            LevelView::Str(seq![c])
        } else {
            LevelView::Bit(c)
        };
        lemma_emit_ok(s1, n, false, v, n, n + 1);
    } else if is_data_char_spec(c) && !held {
        let s3 = WaveState { taken: s1.taken + 1, ..s1 };
        lemma_emit_ok(s3, n, false, LevelView::Str(data_at(data, s1.taken)), n, n + 1);
    }
}

proof fn lemma_run_ok(wave: Seq<char>, data: Seq<Seq<char>>, is_string: bool)
    ensures
        run_ok(wave_run(wave, data, is_string), wave.len() as int),
    decreases wave.len(),
{
    if wave.len() > 0 {
        lemma_run_ok(wave.drop_last(), data, is_string);
        lemma_step_ok(wave_run(wave.drop_last(), data, is_string), wave.last(), wave.len() - 1, data, is_string);
    }
}

/// The changes of a wave come in order, each at one of its steps, and each
/// one really changes the value.
pub proof fn lemma_wave_events_ordered(wave: Seq<char>, data: Seq<Seq<char>>)
    ensures
        forall|i: int| 0 <= i < wave_events(wave, data).len() ==> 0 <= #[trigger] wave_events(wave, data)[i].slot < wave.len(),
        forall|i: int, j: int|
            0 <= i < j < wave_events(wave, data).len() ==> earlier(#[trigger] wave_events(wave, data)[i], #[trigger] wave_events(wave, data)[j]),
        forall|i: int, j: int|
            0 <= i && j == i + 1 && j < wave_events(wave, data).len() ==> #[trigger] wave_events(wave, data)[i].level != #[trigger] wave_events(wave, data)[j].level,
{
    lemma_run_ok(wave, data, wave_is_string(wave));
}

} // verus!
