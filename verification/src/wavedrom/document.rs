//! Reading a WaveDrom document: the text is normalised from JSON5 to JSON,
//! parsed, and must hold a `signal` list.
use vstd::prelude::*;
use serde_json::Value;
use crate::text::push_str;
use super::{normalize_json5, normalize_json5_spec};
use super::signals::{Json, Sig, SigView, collect, collect_signals, sig_views, signal_field, signal_list};

verus! {

#[verifier::external_type_specification]
#[verifier::external_body]
pub struct ExValue(serde_json::Value);

/// What `serde_json::from_str` makes of a text, as a [`Json`] value, or the
/// text of its error.
pub uninterp spec fn json_parse(text: Seq<char>) -> Result<Json, Seq<char>>;

/// Converts a value parsed by `serde_json`, variant for variant; numbers
/// keep their printed text, arrays and objects also carry their compact text.
#[verifier::external_body]
fn json_of_value(v: &Value) -> (r: Json) {
    match v {
        Value::Null => Json::Null,
        Value::Bool(b) => Json::Bool(*b),
        Value::Number(n) => Json::Number(n.to_string()),
        Value::String(s) => Json::Str(s.clone()),
        Value::Array(a) => Json::Array(a.iter().map(json_of_value).collect(), v.to_string()),
        Value::Object(o) => Json::Object(o.iter().map(|(k, x)| (k.clone(), json_of_value(x))).collect(), v.to_string()),
    }
}

/// `serde_json::from_str` into a `serde_json::Value`, converted to [`Json`];
/// an error is given as its message. Stated here: the result is the one
/// named by [`json_parse`] for the text; which texts parse, and to what, is
/// left to `serde_json`.
#[verifier::external_body]
pub fn parse_json(text: &str) -> (r: Result<Json, String>)
    ensures
        match r {
            Ok(j) => json_parse(text@) == Ok::<Json, Seq<char>>(j),
            Err(e) => json_parse(text@) == Err::<Json, Seq<char>>(e@),
        },
{
    match serde_json::from_str::<Value>(text) {
        Ok(v) => Ok(json_of_value(&v)),
        Err(e) => Err(e.to_string()),
    }
}

/// Why a document cannot be read.
#[derive(Debug)]
pub enum WaveDromError {
    /// The text is not JSON (after normalisation); the message says why.
    InvalidJson(String),
    /// The document has no `signal` entry.
    MissingSignal,
    /// The `signal` entry lists no signal with a `wave`.
    NoSignals,
}

/// The mathematical content of a [`WaveDromError`].
pub enum WaveDromErrorView {
    InvalidJson(Seq<char>),
    MissingSignal,
    NoSignals,
}

impl View for WaveDromError {
    type V = WaveDromErrorView;

    open spec fn view(&self) -> WaveDromErrorView {
        match self {
            WaveDromError::InvalidJson(m) => WaveDromErrorView::InvalidJson(m@),
            WaveDromError::MissingSignal => WaveDromErrorView::MissingSignal,
            WaveDromError::NoSignals => WaveDromErrorView::NoSignals,
        }
    }
}

/// The message an error is shown with.
pub open spec fn error_message(e: WaveDromErrorView) -> Seq<char> {
    match e {
        WaveDromErrorView::InvalidJson(m) => m,
        WaveDromErrorView::MissingSignal => "WaveDrom 文件缺少 signal 数组"@,
        WaveDromErrorView::NoSignals => "WaveDrom 文件里没有带 wave 的信号"@,
    }
}

impl WaveDromError {
    /// The message the error is shown with.
    pub fn message(&self) -> (r: String)
        ensures
            r@ == error_message(self@),
    {
        match self {
            WaveDromError::InvalidJson(m) => m.clone(),
            WaveDromError::MissingSignal => String::from_str("WaveDrom 文件缺少 signal 数组"),
            WaveDromError::NoSignals => String::from_str("WaveDrom 文件里没有带 wave 的信号"),
        }
    }
}

/// What reading a document gives: its root value, when the normalised text
/// parses and holds a `signal` entry.
pub open spec fn parse_wavedrom_spec(text: Seq<char>) -> Result<Json, WaveDromErrorView> {
    match json_parse(normalize_json5_spec(text)) {
        Err(e) => Err(WaveDromErrorView::InvalidJson("不是有效的 WaveDrom/JSON: "@ + e)),
        Ok(root) => if signal_field(root) is Some {
            Ok(root)
        } else {
            Err(WaveDromErrorView::MissingSignal)
        },
    }
}

/// Reads a WaveDrom document.
pub fn parse_wavedrom(text: &str) -> (r: Result<Json, WaveDromError>)
    ensures
        match r {
            Ok(j) => parse_wavedrom_spec(text@) == Ok::<Json, WaveDromErrorView>(j),
            Err(e) => parse_wavedrom_spec(text@) == Err::<Json, WaveDromErrorView>(e@),
        },
{
    let json = normalize_json5(text);
    match parse_json(json.as_str()) {
        Err(e) => {
            let mut m = String::from_str("不是有效的 WaveDrom/JSON: ");
            push_str(&mut m, e.as_str());
            Err(WaveDromError::InvalidJson(m))
        },
        Ok(root) => {
            let has_signal = signal_list(&root).is_some();
            if has_signal {
                Ok(root)
            } else {
                Err(WaveDromError::MissingSignal)
            }
        },
    }
}

/// The signals a `signal` value lists; a list without any signal that has a
/// `wave` is refused.
pub open spec fn wave_signals_spec(v: Json) -> Result<Seq<SigView>, WaveDromErrorView> {
    if collect(v, seq![]).len() == 0 {
        Err(WaveDromErrorView::NoSignals)
    } else {
        Ok(collect(v, seq![]))
    }
}

/// The signals a `signal` value lists, refusing a list without any.
pub fn wave_signals(v: &Json) -> (r: Result<Vec<Sig>, WaveDromError>)
    ensures
        match r {
            Ok(s) => wave_signals_spec(*v) == Ok::<Seq<SigView>, WaveDromErrorView>(sig_views(s@)),
            Err(e) => wave_signals_spec(*v) == Err::<Seq<SigView>, WaveDromErrorView>(e@),
        },
{
    let sigs = collect_signals(v);
    if sigs.len() == 0 {
        Err(WaveDromError::NoSignals)
    } else {
        Ok(sigs)
    }
}

} // verus!
