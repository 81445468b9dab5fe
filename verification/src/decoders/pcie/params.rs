//! The decoder options: `gen1` / `gen2` pick the line rate, `ui=<ps>` gives
//! the unit interval, `noscramble` / `raw` turn descrambling off.
use vstd::prelude::*;
use crate::text::{ascii_lower, chars_eq, has_prefix_at, push_char, push_str, strip_prefix, to_ascii_lowercase};

verus! {

/// What one option says, as far as it can be told from its letters.
#[derive(Debug)]
pub enum PcieParam {
    Gen1,
    Gen2,
    NoScramble,
    /// `ui=` followed by this text, with trailing `ps` units taken off; it
    /// counts only if it reads as a number.
    Ui(String),
    Unknown,
}

/// The mathematical content of a [`PcieParam`].
pub enum PcieParamView {
    Gen1,
    Gen2,
    NoScramble,
    Ui(Seq<char>),
    Unknown,
}

impl View for PcieParam {
    type V = PcieParamView;

    open spec fn view(&self) -> PcieParamView {
        match self {
            PcieParam::Gen1 => PcieParamView::Gen1,
            PcieParam::Gen2 => PcieParamView::Gen2,
            PcieParam::NoScramble => PcieParamView::NoScramble,
            PcieParam::Ui(s) => PcieParamView::Ui(s@),
            PcieParam::Unknown => PcieParamView::Unknown,
        }
    }
}

/// `s` with every trailing repetition of `suffix` taken off (what
/// `str::trim_end_matches` leaves).
pub open spec fn trim_end_all(s: Seq<char>, suffix: Seq<char>) -> Seq<char>
    decreases s.len(),
{
    if suffix.len() > 0 && suffix.len() <= s.len() && s.skip(s.len() - suffix.len()) == suffix {
        trim_end_all(s.take(s.len() - suffix.len()), suffix)
    } else {
        s
    }
}

/// What option `p` says (ASCII case ignored).
pub open spec fn pcie_param(p: Seq<char>) -> PcieParamView {
    let lp = p.map_values(|c: char| ascii_lower(c));
    if lp == "gen1"@ {
        PcieParamView::Gen1
    } else if lp == "gen2"@ {
        PcieParamView::Gen2
    } else if lp == "noscramble"@ || lp == "raw"@ {
        PcieParamView::NoScramble
    } else {
        match strip_prefix(lp, "ui="@) {
            Some(rest) => PcieParamView::Ui(trim_end_all(rest, "ps"@)),
            None => PcieParamView::Unknown,
        }
    }
}

/// Reads one decoder option.
pub fn classify_param(p: &str) -> (r: PcieParam)
    ensures
        r@ == pcie_param(p@),
{
    let lp = to_ascii_lowercase(p);
    if chars_eq(&lp, "gen1") {
        return PcieParam::Gen1;
    }
    if chars_eq(&lp, "gen2") {
        return PcieParam::Gen2;
    }
    if chars_eq(&lp, "noscramble") || chars_eq(&lp, "raw") {
        return PcieParam::NoScramble;
    }
    if !has_prefix_at(&lp, 0, "ui=") {
        assert(lp@.skip(0) =~= lp@);
        return PcieParam::Unknown;
    }
    proof {
        reveal_strlit("ui=");
        reveal_strlit("ps");
        assert(lp@.skip(0) =~= lp@);
    }
    let ghost rest = lp@.skip(3);
    let mut end = lp.len();
    assert(lp@.subrange(3, end as int) =~= rest);
    while end >= 5 && lp[end - 2] == 'p' && lp[end - 1] == 's'
        invariant
            3 <= end <= lp.len(),
            rest == lp@.skip(3),
            trim_end_all(rest, "ps"@) == trim_end_all(lp@.subrange(3, end as int), "ps"@),
        decreases end,
    {
        let ghost s = lp@.subrange(3, end as int);
        proof {
            reveal_strlit("ps");
        }
        assert(s.skip(s.len() - 2) =~= "ps"@);
        assert(s.take(s.len() - 2) =~= lp@.subrange(3, end - 2));
        end -= 2;
    }
    proof {
        let s = lp@.subrange(3, end as int);
        if s.len() >= 2 && s.skip(s.len() - 2) == "ps"@ {
            assert(s.skip(s.len() - 2)[0] == lp@[end - 2]);
            assert(s.skip(s.len() - 2)[1] == lp@[end - 1]);
        }
    }
    let mut out = String::new();
    let mut i: usize = 3;
    while i < end
        invariant
            3 <= i <= end <= lp.len(),
            out@ == lp@.subrange(3, i as int),
        decreases end - i,
    {
        push_char(&mut out, lp[i]);
        i += 1;
        assert(out@ =~= lp@.subrange(3, i as int));
    }
    PcieParam::Ui(out)
}

/// The message for an option that is not understood.
pub fn unknown_param_message(p: &str) -> (r: String)
    ensures
        r@ == "无法识别的 PCIe 参数 '"@ + p@ + "' (示例: gen1, gen2, ui=400ps, noscramble)"@,
{
    let mut s = String::from_str("无法识别的 PCIe 参数 '");
    push_str(&mut s, p);
    push_str(&mut s, "' (示例: gen1, gen2, ui=400ps, noscramble)");
    s
}

} // verus!
