//! Writing expanded WaveDrom signals as VCD text: a definitions section with
//! one scope per group, then every change in time order.
use vstd::prelude::*;
use crate::sorting::{Keyed, SpecKeyed, sort_by_key, sort_by_key_exec, lemma_sort_map};
use crate::text::{dec_chars, push_char, push_dec, push_str, replace_all, replace_str};
use super::{push_vcd_id, sanitize, sanitize_spec, vcd_id_chars};
use super::signals::{Json, Level, LevelView, copy_level, field, get_field, opt_view, str_of, strings_view};

verus! {

/// One signal ready to be written: its groups, name, kind, and its changes
/// as (time in ns, value), in order.
#[derive(Debug)]
pub struct VcdSignal {
    pub scope: Vec<String>,
    pub name: String,
    pub is_string: bool,
    pub changes: Vec<(u64, Level)>,
}

/// The mathematical content of a [`VcdSignal`].
pub struct VcdSignalView {
    pub scope: Seq<Seq<char>>,
    pub name: Seq<char>,
    pub is_string: bool,
    pub changes: Seq<(u64, LevelView)>,
}

impl View for VcdSignal {
    type V = VcdSignalView;

    open spec fn view(&self) -> VcdSignalView {
        VcdSignalView {
            scope: strings_view(self.scope@),
            name: self.name@,
            is_string: self.is_string,
            changes: self.changes@.map_values(|c: (u64, Level)| (c.0, c.1@)),
        }
    }
}

/// The views of a sequence of signals.
pub open spec fn vcd_views(s: Seq<VcdSignal>) -> Seq<VcdSignalView> {
    s.map_values(|x: VcdSignal| x@)
}

/// The `text` string of the object stored under `key` in the document
/// (`head` and `foot` carry one).
pub open spec fn doc_text(root: Json, key: Seq<char>) -> Option<Seq<char>> {
    match root {
        Json::Object(fields, _) => match field(fields@, key) {
            Some(Json::Object(inner, _)) => str_of(field(inner@, "text"@)),
            _ => None,
        },
        _ => None,
    }
}

/// A `$comment` line that carries a document text, with `$end` taken out of it.
pub open spec fn comment_line(key: Seq<char>, text: Option<Seq<char>>) -> Seq<char> {
    match text {
        Some(t) => "$comment "@ + key + ": "@ + replace_all(t, "$end"@, ""@) + " $end\n"@,
        None => seq![],
    }
}

/// The lines before the first scope.
pub open spec fn header(head: Option<Seq<char>>, foot: Option<Seq<char>>) -> Seq<char> {
    "$comment generated by wavAnaly from WaveDrom $end\n"@ + comment_line("head"@, head) + comment_line(
        "foot"@,
        foot,
    ) + "$timescale 1ns $end\n"@ + "$scope module wavedrom $end\n"@
}

/// The distinct groups of the signals, in the order they first appear.
pub open spec fn scope_order(sigs: Seq<VcdSignalView>) -> Seq<Seq<Seq<char>>>
    decreases sigs.len(),
{
    if sigs.len() == 0 {
        seq![]
    } else {
        let o = scope_order(sigs.drop_last());
        if o.contains(sigs.last().scope) {
            o
        } else {
            o.push(sigs.last().scope)
        }
    }
}

/// The `$var` line of signal number `idx`.
pub open spec fn var_line(idx: nat, s: VcdSignalView) -> Seq<char> {
    "$var "@ + (if s.is_string {
        "string"@
    } else {
        "wire"@
    }) + " 1 "@ + vcd_id_chars(idx) + " "@ + sanitize_spec(s.name) + " $end\n"@
}

/// The `$var` lines of those among the first `n` signals that stand in group `sc`.
pub open spec fn vars_text(sigs: Seq<VcdSignalView>, sc: Seq<Seq<char>>, n: nat) -> Seq<char>
    decreases n,
{
    if n == 0 {
        seq![]
    } else {
        vars_text(sigs, sc, (n - 1) as nat) + if sigs[n - 1].scope == sc {
            var_line((n - 1) as nat, sigs[n - 1])
        } else {
            seq![]
        }
    }
}

/// The `$scope` lines that open the nested groups `sc`, outermost first.
pub open spec fn opens(sc: Seq<Seq<char>>) -> Seq<char>
    decreases sc.len(),
{
    if sc.len() == 0 {
        seq![]
    } else {
        opens(sc.drop_last()) + "$scope module "@ + sanitize_spec(sc.last()) + " $end\n"@
    }
}

/// `k` `$upscope` lines.
pub open spec fn closes(k: nat) -> Seq<char>
    decreases k,
{
    if k == 0 {
        seq![]
    } else {
        closes((k - 1) as nat) + "$upscope $end\n"@
    }
}

/// The definitions of one group: its scopes opened, its signals, its scopes closed.
pub open spec fn scope_block(sigs: Seq<VcdSignalView>, sc: Seq<Seq<char>>) -> Seq<char> {
    opens(sc) + vars_text(sigs, sc, sigs.len()) + closes(sc.len())
}

/// The definitions of the groups in `order`, one after the other.
pub open spec fn scopes_text(sigs: Seq<VcdSignalView>, order: Seq<Seq<Seq<char>>>) -> Seq<char>
    decreases order.len(),
{
    if order.len() == 0 {
        seq![]
    } else {
        scopes_text(sigs, order.drop_last()) + scope_block(sigs, order.last())
    }
}

/// The whole definitions section.
pub open spec fn definitions(
    head: Option<Seq<char>>,
    foot: Option<Seq<char>>,
    sigs: Seq<VcdSignalView>,
) -> Seq<char> {
    header(head, foot) + scopes_text(sigs, scope_order(sigs)) + "$upscope $end\n$enddefinitions $end\n"@
}

/// One change of one signal: its time, the signal's number and the new value.
pub struct ChangeView {
    pub time: u64,
    pub index: nat,
    pub level: LevelView,
}

impl SpecKeyed for ChangeView {
    /// Changes are written by time, and by signal number at equal times.
    open spec fn key(&self) -> int {
        self.time * 0x1_0000_0000_0000_0000 + self.index
    }
}

/// The changes of signal number `idx`.
pub open spec fn changes_of(idx: nat, s: VcdSignalView) -> Seq<ChangeView> {
    s.changes.map_values(|c: (u64, LevelView)| ChangeView { time: c.0, index: idx, level: c.1 })
}

/// The changes of the first `n` signals, signal by signal.
pub open spec fn all_changes(sigs: Seq<VcdSignalView>, n: nat) -> Seq<ChangeView>
    decreases n,
{
    if n == 0 {
        seq![]
    } else {
        all_changes(sigs, (n - 1) as nat) + changes_of((n - 1) as nat, sigs[n - 1])
    }
}

/// A bus string as written in a value line: spaces become `_`.
pub open spec fn vcd_string(s: Seq<char>) -> Seq<char> {
    s.map_values(|c: char| if c == ' ' { '_' } else { c })
}

/// The line that sets a signal to a value.
pub open spec fn value_line(c: ChangeView) -> Seq<char> {
    match c.level {
        LevelView::Bit(b) => seq![b] + vcd_id_chars(c.index) + "\n"@,
        LevelView::Str(s) => "s"@ + vcd_string(s) + " "@ + vcd_id_chars(c.index) + "\n"@,
    }
}

/// A `#time` line.
pub open spec fn time_line(t: nat) -> Seq<char> {
    "#"@ + dec_chars(t) + "\n"@
}

/// The value lines of time-ordered changes, with a `#time` line wherever the
/// time differs from the change before.
pub open spec fn change_lines(cs: Seq<ChangeView>) -> Seq<char>
    decreases cs.len(),
{
    if cs.len() == 0 {
        seq![]
    } else {
        change_lines(cs.drop_last()) + (if cs.len() == 1 || cs[cs.len() - 2].time != cs.last().time {
            time_line(cs.last().time as nat)
        } else {
            seq![]
        }) + value_line(cs.last())
    }
}

/// The VCD text of the signals: definitions, every change ordered by time
/// (and by signal number at equal times), and a final `#max_len`.
pub open spec fn vcd_text(
    head: Option<Seq<char>>,
    foot: Option<Seq<char>>,
    sigs: Seq<VcdSignalView>,
    max_len: u64,
) -> Seq<char> {
    definitions(head, foot, sigs) + change_lines(sort_by_key(all_changes(sigs, sigs.len()))) + time_line(
        max_len as nat,
    )
}

/// The `text` string of the object stored under `key` in the document.
pub fn document_text(root: &Json, key: &str) -> (r: Option<String>)
    ensures
        opt_view(r) == doc_text(*root, key@),
{
    match root {
        Json::Object(fields, _) => match get_field(fields, key) {
            Some(Json::Object(inner, _)) => match get_field(inner, "text") {
                Some(Json::Str(t)) => Some(t.clone()),
                _ => None,
            },
            _ => None,
        },
        _ => None,
    }
}

fn push_comment_line(out: &mut String, key: &str, text: &Option<String>)
    ensures
        final(out)@ == old(out)@ + comment_line(key@, opt_view(*text)),
{
    match text {
        Some(t) => {
            push_str(out, "$comment ");
            push_str(out, key);
            push_str(out, ": ");
            proof {
                reveal_strlit("$end");
            }
            let cleaned = replace_str(t.as_str(), "$end", "");
            push_str(out, cleaned.as_str());
            push_str(out, " $end\n");
            assert(final(out)@ =~= old(out)@ + comment_line(key@, opt_view(*text)));
        },
        None => {
            assert(final(out)@ =~= old(out)@ + comment_line(key@, opt_view(*text)));
        },
    }
}

/// Whether two signals stand in the same groups.
fn same_scope(a: &Vec<String>, b: &Vec<String>) -> (r: bool)
    ensures
        r == (strings_view(a@) == strings_view(b@)),
{
    if a.len() != b.len() {
        assert(strings_view(a@).len() != strings_view(b@).len());
        return false;
    }
    let mut i: usize = 0;
    while i < a.len()
        invariant
            i <= a.len(),
            a.len() == b.len(),
            forall|j: int| 0 <= j < i ==> a@[j]@ == b@[j]@,
        decreases a.len() - i,
    {
        if !(a[i] == b[i]) {
            assert(strings_view(a@)[i as int] != strings_view(b@)[i as int]);
            return false;
        }
        i += 1;
    }
    assert(strings_view(a@) =~= strings_view(b@));
    true
}

/// The groups of the signals numbered by `order`.
pub open spec fn order_scopes(sigs: Seq<VcdSignalView>, order: Seq<usize>) -> Seq<Seq<Seq<char>>> {
    order.map_values(|j: usize| sigs[j as int].scope)
}

/// For each distinct group, in order of first appearance, the number of the
/// first signal that stands in it.
fn scope_order_exec(sigs: &Vec<VcdSignal>) -> (r: Vec<usize>)
    ensures
        forall|k: int| 0 <= k < r.len() ==> #[trigger] r@[k] < sigs.len(),
        order_scopes(vcd_views(sigs@), r@) == scope_order(vcd_views(sigs@)),
{
    let ghost views = vcd_views(sigs@);
    let mut order: Vec<usize> = Vec::new();
    let mut i: usize = 0;
    assert(views.take(0) =~= Seq::<VcdSignalView>::empty());
    assert(order_scopes(views, order@) =~= Seq::<Seq<Seq<char>>>::empty());
    while i < sigs.len()
        invariant
            i <= sigs.len(),
            views == vcd_views(sigs@),
            forall|k: int| 0 <= k < order.len() ==> #[trigger] order@[k] < sigs.len(),
            order_scopes(views, order@) == scope_order(views.take(i as int)),
        decreases sigs.len() - i,
    {
        let ghost o = order_scopes(views, order@);
        let mut found = false;
        let mut k: usize = 0;
        while k < order.len() && !found
            invariant
                k <= order.len(),
                views == vcd_views(sigs@),
                i < sigs.len(),
                o == order_scopes(views, order@),
                forall|m: int| 0 <= m < order.len() ==> #[trigger] order@[m] < sigs.len(),
                forall|m: int| 0 <= m < k && !found ==> #[trigger] o[m] != views[i as int].scope,
                found ==> o.contains(views[i as int].scope),
            decreases order.len() - k + if found { 0int } else { 1int },
        {
            if same_scope(&sigs[order[k]].scope, &sigs[i].scope) {
                assert(o[k as int] == views[i as int].scope);
                found = true;
            } else {
                k += 1;
            }
        }
        proof {
            assert(views.take(i + 1).drop_last() =~= views.take(i as int));
            assert(views.take(i + 1).last() == views[i as int]);
            if !found {
                assert(!o.contains(views[i as int].scope));
            }
        }
        if !found {
            order.push(i);
            assert(order_scopes(views, order@) =~= o.push(views[i as int].scope));
        }
        i += 1;
    }
    assert(views.take(sigs.len() as int) =~= views);
    order
}

fn push_opens(out: &mut String, sc: &Vec<String>)
    ensures
        final(out)@ == old(out)@ + opens(strings_view(sc@)),
{
    let ghost v = strings_view(sc@);
    let mut j: usize = 0;
    assert(v.take(0) =~= Seq::<Seq<char>>::empty());
    assert(out@ =~= old(out)@ + opens(v.take(0)));
    while j < sc.len()
        invariant
            j <= sc.len(),
            v == strings_view(sc@),
            out@ == old(out)@ + opens(v.take(j as int)),
        decreases sc.len() - j,
    {
        push_str(out, "$scope module ");
        let name = sanitize(sc[j].as_str());
        push_str(out, name.as_str());
        push_str(out, " $end\n");
        proof {
            assert(v.take(j + 1).drop_last() =~= v.take(j as int));
            assert(v.take(j + 1).last() == sc@[j as int]@);
        }
        j += 1;
        assert(out@ =~= old(out)@ + opens(v.take(j as int)));
    }
    assert(v.take(sc.len() as int) =~= v);
}

fn push_closes(out: &mut String, k: usize)
    ensures
        final(out)@ == old(out)@ + closes(k as nat),
{
    let mut j: usize = 0;
    assert(out@ =~= old(out)@ + closes(0));
    while j < k
        invariant
            j <= k,
            out@ == old(out)@ + closes(j as nat),
        decreases k - j,
    {
        push_str(out, "$upscope $end\n");
        j += 1;
        assert(out@ =~= old(out)@ + closes(j as nat));
    }
}

fn push_var_line(out: &mut String, idx: usize, s: &VcdSignal)
    ensures
        final(out)@ == old(out)@ + var_line(idx as nat, s@),
{
    push_str(out, "$var ");
    if s.is_string {
        push_str(out, "string");
    } else {
        push_str(out, "wire");
    }
    push_str(out, " 1 ");
    push_vcd_id(out, idx);
    push_str(out, " ");
    let name = sanitize(s.name.as_str());
    push_str(out, name.as_str());
    push_str(out, " $end\n");
    assert(final(out)@ =~= old(out)@ + var_line(idx as nat, s@));
}

fn push_vars(out: &mut String, sigs: &Vec<VcdSignal>, sc: &Vec<String>)
    ensures
        final(out)@ == old(out)@ + vars_text(vcd_views(sigs@), strings_view(sc@), sigs.len() as nat),
{
    let ghost views = vcd_views(sigs@);
    let mut n: usize = 0;
    assert(out@ =~= old(out)@ + vars_text(views, strings_view(sc@), 0));
    while n < sigs.len()
        invariant
            n <= sigs.len(),
            views == vcd_views(sigs@),
            out@ == old(out)@ + vars_text(views, strings_view(sc@), n as nat),
        decreases sigs.len() - n,
    {
        if same_scope(&sigs[n].scope, sc) {
            push_var_line(out, n, &sigs[n]);
        }
        n += 1;
        assert(out@ =~= old(out)@ + vars_text(views, strings_view(sc@), n as nat));
    }
}

/// Writes the definitions section.
fn push_definitions(out: &mut String, head: &Option<String>, foot: &Option<String>, sigs: &Vec<VcdSignal>)
    ensures
        final(out)@ == old(out)@ + definitions(opt_view(*head), opt_view(*foot), vcd_views(sigs@)),
{
    let ghost views = vcd_views(sigs@);
    push_str(out, "$comment generated by wavAnaly from WaveDrom $end\n");
    push_comment_line(out, "head", head);
    push_comment_line(out, "foot", foot);
    push_str(out, "$timescale 1ns $end\n");
    push_str(out, "$scope module wavedrom $end\n");
    assert(out@ =~= old(out)@ + header(opt_view(*head), opt_view(*foot)));
    let ghost pre = out@;
    let order = scope_order_exec(sigs);
    let ghost ov = order_scopes(views, order@);
    let mut m: usize = 0;
    assert(ov.take(0) =~= Seq::<Seq<Seq<char>>>::empty());
    assert(out@ =~= pre + scopes_text(views, ov.take(0)));
    while m < order.len()
        invariant
            m <= order.len(),
            views == vcd_views(sigs@),
            ov == order_scopes(views, order@),
            forall|k: int| 0 <= k < order.len() ==> #[trigger] order@[k] < sigs.len(),
            out@ == pre + scopes_text(views, ov.take(m as int)),
        decreases order.len() - m,
    {
        let sc = &sigs[order[m]].scope;
        assert(strings_view(sc@) == ov[m as int]);
        push_opens(out, sc);
        push_vars(out, sigs, sc);
        push_closes(out, sc.len());
        proof {
            assert(ov.take(m + 1).drop_last() =~= ov.take(m as int));
            assert(ov.take(m + 1).last() == ov[m as int]);
        }
        m += 1;
        assert(out@ =~= pre + scopes_text(views, ov.take(m as int)));
    }
    assert(ov.take(order.len() as int) =~= ov);
    push_str(out, "$upscope $end\n$enddefinitions $end\n");
    assert(final(out)@ =~= old(out)@ + definitions(opt_view(*head), opt_view(*foot), views));
}

/// One change, with the number of its signal.
struct TimedChange {
    time: u64,
    index: usize,
    level: Level,
}

impl View for TimedChange {
    type V = ChangeView;

    closed spec fn view(&self) -> ChangeView {
        ChangeView { time: self.time, index: self.index as nat, level: self.level@ }
    }
}

impl SpecKeyed for TimedChange {
    closed spec fn key(&self) -> int {
        self.time * 0x1_0000_0000_0000_0000 + self.index
    }
}

impl Keyed for TimedChange {
    fn key_exec(&self) -> (k: u128) {
        (self.time as u128) * 0x1_0000_0000_0000_0000u128 + (self.index as u128)
    }
}

spec fn change_views(s: Seq<TimedChange>) -> Seq<ChangeView> {
    s.map_values(|x: TimedChange| x@)
}

/// Every change of every signal, signal by signal.
fn gather_changes(sigs: &Vec<VcdSignal>) -> (r: Vec<TimedChange>)
    ensures
        change_views(r@) == all_changes(vcd_views(sigs@), sigs.len() as nat),
{
    let ghost views = vcd_views(sigs@);
    let mut all: Vec<TimedChange> = Vec::new();
    let mut n: usize = 0;
    assert(change_views(all@) =~= all_changes(views, 0));
    while n < sigs.len()
        invariant
            n <= sigs.len(),
            views == vcd_views(sigs@),
            change_views(all@) == all_changes(views, n as nat),
        decreases sigs.len() - n,
    {
        let ghost before = change_views(all@);
        let ghost cs = changes_of(n as nat, views[n as int]);
        let changes = &sigs[n].changes;
        let mut k: usize = 0;
        assert(before + cs.take(0) =~= before);
        while k < changes.len()
            invariant
                k <= changes.len(),
                n < sigs.len(),
                changes == &sigs@[n as int].changes,
                cs == changes_of(n as nat, views[n as int]),
                views == vcd_views(sigs@),
                change_views(all@) == before + cs.take(k as int),
            decreases changes.len() - k,
        {
            let ghost prev = all@;
            all.push(TimedChange { time: changes[k].0, index: n, level: copy_level(&changes[k].1) });
            proof {
                assert(cs[k as int] == all@.last()@);
                assert(change_views(all@) =~= change_views(prev).push(all@.last()@));
                assert(cs.take(k + 1) =~= cs.take(k as int).push(cs[k as int]));
            }
            k += 1;
        }
        assert(cs.take(changes.len() as int) =~= cs);
        n += 1;
    }
    all
}

fn push_vcd_string(out: &mut String, s: &String)
    ensures
        final(out)@ == old(out)@ + vcd_string(s@),
{
    let cs = crate::text::chars_of(s.as_str());
    let mut i: usize = 0;
    while i < cs.len()
        invariant
            i <= cs.len(),
            cs@ == s@,
            out@ == old(out)@ + vcd_string(s@.take(i as int)),
        decreases cs.len() - i,
    {
        let c = cs[i];
        push_char(out, if c == ' ' { '_' } else { c });
        assert(s@.take(i + 1) =~= s@.take(i as int).push(c));
        i += 1;
        assert(out@ =~= old(out)@ + vcd_string(s@.take(i as int)));
    }
    assert(s@.take(cs.len() as int) =~= s@);
}

fn push_value_line(out: &mut String, c: &TimedChange)
    ensures
        final(out)@ == old(out)@ + value_line(c@),
{
    match &c.level {
        Level::Bit(b) => {
            push_char(out, *b);
            push_vcd_id(out, c.index);
            push_str(out, "\n");
        },
        Level::Str(s) => {
            push_str(out, "s");
            push_vcd_string(out, s);
            push_str(out, " ");
            push_vcd_id(out, c.index);
            push_str(out, "\n");
        },
    }
    assert(final(out)@ =~= old(out)@ + value_line(c@));
}

fn push_time_line(out: &mut String, t: u64)
    ensures
        final(out)@ == old(out)@ + time_line(t as nat),
{
    push_str(out, "#");
    push_dec(out, t);
    push_str(out, "\n");
    assert(final(out)@ =~= old(out)@ + time_line(t as nat));
}

/// The VCD text of the signals (what a WaveDrom document becomes once its
/// signals are expanded into timed changes).
pub fn write_vcd(head: &Option<String>, foot: &Option<String>, sigs: &Vec<VcdSignal>, max_len: u64) -> (r:
    String)
    ensures
        r@ == vcd_text(opt_view(*head), opt_view(*foot), vcd_views(sigs@), max_len),
{
    let ghost views = vcd_views(sigs@);
    let mut out = String::new();
    push_definitions(&mut out, head, foot, sigs);
    let ghost pre = out@;
    let all = gather_changes(sigs);
    let ghost unsorted = all@;
    let sorted = sort_by_key_exec(all);
    let ghost cv = change_views(sorted@);
    proof {
        lemma_sort_map(unsorted, |x: TimedChange| x@);
        assert(cv == sort_by_key(all_changes(views, sigs.len() as nat)));
    }
    let mut i: usize = 0;
    assert(out@ =~= pre + change_lines(cv.take(0)));
    while i < sorted.len()
        invariant
            i <= sorted.len(),
            cv == change_views(sorted@),
            out@ == pre + change_lines(cv.take(i as int)),
        decreases sorted.len() - i,
    {
        if i == 0 || sorted[i - 1].time != sorted[i].time {
            push_time_line(&mut out, sorted[i].time);
        }
        push_value_line(&mut out, &sorted[i]);
        proof {
            let t = cv.take(i + 1);
            assert(t.drop_last() =~= cv.take(i as int));
            assert(t.last() == cv[i as int]);
            if i > 0 {
                assert(t[t.len() - 2] == cv[i - 1]);
            }
        }
        i += 1;
        assert(out@ =~= pre + change_lines(cv.take(i as int)));
    }
    assert(cv.take(sorted.len() as int) =~= cv);
    push_time_line(&mut out, max_len);
    out
}

/// Closing `k` groups writes exactly `k` `$upscope $end` lines, one for each
/// group opened, so the scopes of the definitions are balanced.
pub proof fn lemma_closes_balanced(k: nat)
    ensures
        closes(k).len() == 14 * k,
        forall|i: int| 0 <= i < closes(k).len() ==> #[trigger] closes(k)[i] == "$upscope $end\n"@[i % 14],
    decreases k,
{
    reveal_strlit("$upscope $end\n");
    if k > 0 {
        lemma_closes_balanced((k - 1) as nat);
        let prev = closes((k - 1) as nat);
        assert forall|i: int| 0 <= i < closes(k).len() implies #[trigger] closes(k)[i] == "$upscope $end\n"@[i
            % 14] by {
            if i >= prev.len() {
                let m = (k - 1) as int;
                assert(i - 14 * m == i % 14) by (nonlinear_arith)
                    requires
                        14 * m <= i < 14 * m + 14,
                        m >= 0,
                ;
            }
        }
    }
}

} // verus!
