//! WaveDrom 脚本导入：把 WaveDrom 的 JSON 时序描述转换成 VCD 文本，
//! 之后走和普通 VCD 完全相同的加载路径显示，并可导出为 .vcd 文件。
//!
//! 文件可以是宽松的 JSON5 风格：不带引号的键、单引号字符串、尾逗号、`//` 和 `/* */` 注释；
//! [`normalize_json5`] 把它规整成严格 JSON。
use vstd::prelude::*;
pub mod document;
pub mod signals;
pub mod vcd;

use crate::text::{
    ascii_lower, chars_eq, chars_of, is_whitespace, is_whitespace_exec, lower_char, push_char, push_str,
    trim_start_chars, trim_start_index,
};

verus! {

/// The part of `s` after its last `.` (all of `s` when it has none).
pub open spec fn after_last_dot(s: Seq<char>) -> Seq<char>
    decreases s.len(),
{
    if s.len() == 0 {
        s
    } else if s.last() == '.' {
        Seq::empty()
    } else {
        after_last_dot(s.drop_last()).push(s.last())
    }
}

/// Whether a (possibly multi-part) file extension is one of WaveDrom's:
/// the last part is `json`, `json5`, `wavedrom` or `wd`, in any ASCII case.
pub open spec fn is_wavedrom_extension_spec(ext: Seq<char>) -> bool {
    let l = after_last_dot(ext).map_values(|c: char| ascii_lower(c));
    l == "json"@ || l == "json5"@ || l == "wavedrom"@ || l == "wd"@
}

/// 是不是 WaveDrom 文件的扩展名
pub fn is_wavedrom_extension(ext: &str) -> (r: bool)
    ensures
        r == is_wavedrom_extension_spec(ext@),
{
    // get_multi_extension 会返回 "wavedrom.json" 这样的多段扩展名, 只看最后一段
    let cs = chars_of(ext);
    let mut start = cs.len();
    assert(cs@.take(start as int) =~= cs@);
    assert(cs@.skip(start as int) =~= Seq::<char>::empty());
    while start > 0 && cs[start - 1] != '.'
        invariant
            start <= cs.len(),
            cs@ == ext@,
            after_last_dot(ext@) == after_last_dot(cs@.take(start as int)) + cs@.skip(start as int),
        decreases start,
    {
        assert(cs@.take(start as int).drop_last() =~= cs@.take(start - 1));
        assert(cs@.skip(start - 1) =~= seq![cs@[start - 1]] + cs@.skip(start as int));
        start -= 1;
    }
    proof {
        if start > 0 {
            assert(cs@.take(start as int).last() == '.');
        }
        assert(cs@.take(0) =~= Seq::<char>::empty());
    }
    let mut l: Vec<char> = Vec::new();
    let mut i = start;
    while i < cs.len()
        invariant
            start <= i <= cs.len(),
            l@ == cs@.subrange(start as int, i as int).map_values(|c: char| ascii_lower(c)),
        decreases cs.len() - i,
    {
        l.push(lower_char(cs[i]));
        i += 1;
        assert(l@ =~= cs@.subrange(start as int, i as int).map_values(|c: char| ascii_lower(c)));
    }
    assert(cs@.subrange(start as int, cs.len() as int) =~= cs@.skip(start as int));
    assert(after_last_dot(ext@) =~= cs@.skip(start as int));
    chars_eq(&l, "json") || chars_eq(&l, "json5") || chars_eq(&l, "wavedrom") || chars_eq(&l, "wd")
}

/// What `String::from_utf8_lossy` makes of some bytes.
pub uninterp spec fn utf8_lossy(bytes: Seq<u8>) -> Seq<char>;

/// `String::from_utf8_lossy`: decodes the bytes as UTF-8, replacing invalid
/// sequences by U+FFFD. Stated here: the result is named by [`utf8_lossy`],
/// and bytes that are valid UTF-8 are decoded unchanged; what the
/// replacement makes of invalid bytes is left unsaid.
#[verifier::external_body]
fn from_utf8_lossy(bytes: &[u8]) -> (r: String)
    ensures
        r@ == utf8_lossy(bytes@),
        vstd::utf8::valid_utf8(bytes@) ==> r@ == vstd::utf8::decode_utf8(bytes@),
{
    String::from_utf8_lossy(bytes).to_string()
}

/// `s` holds `p` somewhere.
pub open spec fn contains_chars(s: Seq<char>, p: Seq<char>) -> bool {
    exists|i: int| 0 <= i && i + p.len() <= s.len() && #[trigger] s.subrange(i, i + p.len()) == p
}

/// The start of a text that looks like WaveDrom: it begins (after
/// whitespace) with `{` and mentions `signal`.
pub open spec fn looks_like_wavedrom_text(head: Seq<char>) -> bool {
    let trimmed = trim_start_chars(head);
    trimmed.len() > 0 && trimmed[0] == '{' && contains_chars(head, "signal"@)
}

/// Whether the text `head` looks like a WaveDrom script.
pub fn looks_like_wavedrom_str(head: &str) -> (r: bool)
    ensures
        r == looks_like_wavedrom_text(head@),
{
    let cs = chars_of(head);
    let start = trim_start_index(&cs);
    if start >= cs.len() || cs[start] != '{' {
        return false;
    }
    let p = chars_of("signal");
    proof {
        reveal_strlit("signal");
        assert(cs@.skip(start as int)[0] == cs@[start as int]);
    }
    let ghost opens = trim_start_chars(head@).len() > 0 && trim_start_chars(head@)[0] == '{';
    assert(opens);
    let n = cs.len();
    if n < 6 {
        assert(!contains_chars(head@, "signal"@));
        return false;
    }
    let mut i: usize = 0;
    while i <= n - 6
        invariant
            n == cs.len(),
            n >= 6,
            cs@ == head@,
            p@ == "signal"@,
            p@.len() == 6,
            opens == (trim_start_chars(head@).len() > 0 && trim_start_chars(head@)[0] == '{'),
            opens,
            forall|j: int| 0 <= j < i ==> #[trigger] cs@.subrange(j, j + 6) != p@,
        decreases n - i,
    {
        let mut k: usize = 0;
        let mut same = true;
        while k < 6
            invariant
                k <= 6,
                i + 6 <= n,
                n == cs.len(),
                p@.len() == 6,
                same == (forall|m: int| 0 <= m < k ==> cs@[i + m] == p@[m]),
            decreases 6 - k,
        {
            if cs[i + k] != p[k] {
                same = false;
            }
            k += 1;
        }
        if same {
            assert(cs@.subrange(i as int, i + 6) =~= p@);
            return true;
        }
        assert(cs@.subrange(i as int, i + 6) != p@) by {
            let m = choose|m: int| 0 <= m < 6 && cs@[i + m] != p@[m];
            assert(cs@.subrange(i as int, i + 6)[m] == cs@[i + m]);
        }
        i += 1;
    }
    assert(!contains_chars(head@, "signal"@)) by {
        if exists|j: int| 0 <= j && j + 6 <= head@.len() && #[trigger] head@.subrange(j, j + 6) == "signal"@ {
            let j = choose|j: int| 0 <= j && j + 6 <= head@.len() && #[trigger] head@.subrange(j, j + 6) == "signal"@;
            assert(cs@.subrange(j, j + 6) != p@);
        }
    }
    false
}

/// The text of at most the first 4096 bytes.
pub open spec fn wavedrom_head(bytes: Seq<u8>) -> Seq<char> {
    utf8_lossy(bytes.take(if bytes.len() < 4096 { bytes.len() as int } else { 4096 }))
}

/// 文件内容看起来像不像 WaveDrom（用于拖放等没有扩展名的场合）
pub fn looks_like_wavedrom(bytes: &[u8]) -> (r: bool)
    ensures
        r == looks_like_wavedrom_text(wavedrom_head(bytes@)),
{
    let n = if bytes.len() < 4096 { bytes.len() } else { 4096 };
    let part = vstd::slice::slice_subrange(bytes, 0, n);
    assert(part@ =~= bytes@.take(n as int));
    let head = from_utf8_lossy(part);
    looks_like_wavedrom_str(head.as_str())
}

/// Whether a wave character stands for bus data.
pub open spec fn is_data_char_spec(c: char) -> bool {
    c == '=' || ('2' <= c && c <= '9') || c == 'u' || c == 'd'
}

pub fn is_data_char(c: char) -> (r: bool)
    ensures
        r == is_data_char_spec(c),
{
    c == '=' || ('2' <= c && c <= '9') || c == 'u' || c == 'd'
}

/// The VCD identifier character for a digit 0..94.
pub open spec fn id_char(d: nat) -> char {
    (33 + d) as char
}

/// VCD identifier of the `n`-th variable: bijective base 94 over the
/// printable characters `!`..`~`.
pub open spec fn vcd_id_chars(n: nat) -> Seq<char>
    decreases n,
{
    if n < 94 {
        seq![id_char(n)]
    } else {
        vcd_id_chars((n / 94 - 1) as nat).push(id_char(n % 94))
    }
}

pub(crate) fn push_vcd_id(s: &mut String, n: usize)
    ensures
        final(s)@ == old(s)@ + vcd_id_chars(n as nat),
    decreases n,
{
    if n >= 94 {
        push_vcd_id(s, n / 94 - 1);
    }
    let d = (n % 94) as u8;
    push_char(s, (33 + d) as char);
    assert(final(s)@ =~= old(s)@ + vcd_id_chars(n as nat));
}

pub fn vcd_id(n: usize) -> (r: String)
    ensures
        r@ == vcd_id_chars(n as nat),
{
    let mut s = String::new();
    push_vcd_id(&mut s, n);
    assert(s@ =~= vcd_id_chars(n as nat));
    s
}

/// A name with whitespace turned into `_`; an empty name becomes `_`.
pub open spec fn sanitize_spec(name: Seq<char>) -> Seq<char> {
    if name.len() == 0 {
        seq!['_']
    } else {
        name.map_values(|c: char| if is_whitespace(c) { '_' } else { c })
    }
}

pub fn sanitize(name: &str) -> (r: String)
    ensures
        r@ == sanitize_spec(name@),
{
    let cs = chars_of(name);
    let mut s = String::new();
    let mut i: usize = 0;
    while i < cs.len()
        invariant
            i <= cs.len(),
            cs@ == name@,
            s@ == name@.take(i as int).map_values(|c: char| if is_whitespace(c) { '_' } else { c }),
        decreases cs.len() - i,
    {
        let c = cs[i];
        push_char(&mut s, if is_whitespace_exec(c) { '_' } else { c });
        i += 1;
        assert(s@ =~= name@.take(i as int).map_values(|c: char| if is_whitespace(c) { '_' } else { c }));
    }
    assert(name@.take(cs.len() as int) =~= name@);
    if cs.len() == 0 {
        let mut u = String::new();
        push_char(&mut u, '_');
        assert(u@ =~= seq!['_']);
        return u;
    }
    s
}

proof fn lemma_vcd_id_nonempty(n: nat)
    ensures
        vcd_id_chars(n).len() >= 1,
        n >= 94 ==> vcd_id_chars(n).len() >= 2,
    decreases n,
{
    if n >= 94 {
        lemma_vcd_id_nonempty((n / 94 - 1) as nat);
    }
}

/// Different variables get different identifiers.
pub proof fn lemma_vcd_id_injective(a: nat, b: nat)
    requires
        a != b,
    ensures
        vcd_id_chars(a) != vcd_id_chars(b),
    decreases a + b,
{
    lemma_vcd_id_nonempty(a);
    lemma_vcd_id_nonempty(b);
    let sa = vcd_id_chars(a);
    let sb = vcd_id_chars(b);
    if a >= 94 && b >= 94 {
        if a % 94 == b % 94 {
            lemma_vcd_id_injective((a / 94 - 1) as nat, (b / 94 - 1) as nat);
            if sa == sb {
                assert(sa.drop_last() == sb.drop_last());
                assert(sa.drop_last() =~= vcd_id_chars((a / 94 - 1) as nat));
                assert(sb.drop_last() =~= vcd_id_chars((b / 94 - 1) as nat));
            }
        } else {
            assert(sa.last() != sb.last());
        }
    } else if a < 94 && b < 94 {
        assert(sa[0] != sb[0]);
    } else {
        assert(sa.len() != sb.len());
    }
}

/// A sanitized name is never empty and holds no whitespace.
pub proof fn lemma_sanitize_clean(name: Seq<char>)
    ensures
        sanitize_spec(name).len() > 0,
        forall|i: int| 0 <= i < sanitize_spec(name).len() ==> !is_whitespace(#[trigger] sanitize_spec(name)[i]),
{
}

// ------------------------------------------------------------------ JSON5 -> JSON

/// First character of an unquoted key.
pub open spec fn is_ident_start(c: char) -> bool {
    ('a' <= c && c <= 'z') || ('A' <= c && c <= 'Z') || c == '_' || c == '$'
}

/// Character of an unquoted key.
pub open spec fn is_ident_char(c: char) -> bool {
    is_ident_start(c) || ('0' <= c && c <= '9')
}

/// End of the run of key characters starting at `i`.
pub open spec fn ident_end(cs: Seq<char>, i: nat) -> nat
    decreases cs.len() - i,
{
    if i < cs.len() && is_ident_char(cs[i as int]) {
        ident_end(cs, i + 1)
    } else {
        i
    }
}

/// First position at or after `i` that is not whitespace.
pub open spec fn skip_ws(cs: Seq<char>, i: nat) -> nat
    decreases cs.len() - i,
{
    if i < cs.len() && is_whitespace(cs[i as int]) {
        skip_ws(cs, i + 1)
    } else {
        i
    }
}

/// First newline at or after `i` (or the end).
pub open spec fn line_end(cs: Seq<char>, i: nat) -> nat
    decreases cs.len() - i,
{
    if i < cs.len() && cs[i as int] != '\n' {
        line_end(cs, i + 1)
    } else {
        i
    }
}

/// Where `*/` starts at or after `i`, or the last position when there is none.
pub open spec fn block_end(cs: Seq<char>, i: nat) -> nat
    decreases cs.len() - i,
{
    if i + 1 < cs.len() && !(cs[i as int] == '*' && cs[i + 1 as int] == '/') {
        block_end(cs, i + 1)
    } else {
        i
    }
}

/// The JSON text of a string's contents from `i` up to the closing `quote`,
/// and where the closing quote is: escapes are kept (but `\'` becomes `'`),
/// and a bare `"` is escaped.
pub open spec fn string_body(cs: Seq<char>, i: nat, quote: char) -> (Seq<char>, nat)
    decreases cs.len() - i,
{
    if i >= cs.len() || cs[i as int] == quote {
        (Seq::empty(), i)
    } else if cs[i as int] == '\\' && i + 1 < cs.len() {
        let (rest, j) = string_body(cs, i + 2, quote);
        let esc = if cs[i + 1 as int] == '\'' { seq!['\''] } else { seq!['\\', cs[i + 1 as int]] };
        (esc + rest, j)
    } else {
        let (rest, j) = string_body(cs, i + 1, quote);
        let ch = if cs[i as int] == '"' { seq!['\\', '"'] } else { seq![cs[i as int]] };
        (ch + rest, j)
    }
}

/// First position at or after `i` that is neither whitespace nor inside a comment.
pub open spec fn skip_blank(cs: Seq<char>, i: nat) -> nat
    decreases cs.len() + 3 - i,
{
    if i >= cs.len() {
        i
    } else if is_whitespace(cs[i as int]) {
        skip_blank(cs, i + 1)
    } else if cs[i as int] == '/' && i + 1 < cs.len() && cs[i + 1 as int] == '/' {
        proof {
            lemma_line_end_after(cs, i);
        }
        skip_blank(cs, line_end(cs, i))
    } else if cs[i as int] == '/' && i + 1 < cs.len() && cs[i + 1 as int] == '*' {
        proof {
            lemma_block_end_bounds(cs, i + 2);
        }
        skip_blank(cs, block_end(cs, i + 2) + 2)
    } else {
        i
    }
}

pub proof fn lemma_line_end_after(cs: Seq<char>, i: nat)
    requires
        i + 1 < cs.len(),
        cs[i as int] == '/',
    ensures
        i < line_end(cs, i) <= cs.len(),
{
    lemma_scan_bounds(cs, i + 1);
    assert(line_end(cs, i) == line_end(cs, i + 1));
}

/// The JSON text of the token at `i`, and where the next token starts.
pub open spec fn json5_token(cs: Seq<char>, i: nat) -> (Seq<char>, nat) {
    let c = cs[i as int];
    if c == '/' && i + 1 < cs.len() && cs[i + 1 as int] == '/' {
        // 注释
        (Seq::empty(), line_end(cs, i))
    } else if c == '/' && i + 1 < cs.len() && cs[i + 1 as int] == '*' {
        (Seq::empty(), block_end(cs, i + 2) + 2)
    } else if c == '"' || c == '\'' {
        // 字符串（单引号或双引号），统一输出成双引号
        let (body, j) = string_body(cs, i + 1, c);
        (seq!['"'] + body + seq!['"'], j + 1)
    } else if is_ident_start(c) {
        // 不带引号的键: 标识符后面跟着 ':'
        let e = ident_end(cs, i);
        let word = cs.subrange(i as int, e as int);
        let j = skip_ws(cs, e);
        if j < cs.len() && cs[j as int] == ':' {
            (seq!['"'] + word + seq!['"'], e)
        } else {
            (word, e)
        }
    } else if c == ',' && skip_blank(cs, i + 1) < cs.len() && (cs[skip_blank(cs, i + 1) as int] == ']'
        || cs[skip_blank(cs, i + 1) as int] == '}') {
        // 尾逗号 (whitespace and comments may stand before the bracket)
        (Seq::empty(), i + 1)
    } else {
        (seq![c], i + 1)
    }
}

pub proof fn lemma_scan_bounds(cs: Seq<char>, i: nat)
    requires
        i <= cs.len(),
    ensures
        i <= ident_end(cs, i) <= cs.len(),
        i <= skip_ws(cs, i) <= cs.len(),
        i <= line_end(cs, i) <= cs.len(),
        i <= string_body(cs, i, '"').1 <= cs.len(),
        i <= string_body(cs, i, '\'').1 <= cs.len(),
    decreases cs.len() - i,
{
    if i < cs.len() {
        lemma_scan_bounds(cs, i + 1);
        if i + 2 <= cs.len() {
            lemma_scan_bounds(cs, i + 2);
        }
    }
}

pub proof fn lemma_block_end_bounds(cs: Seq<char>, i: nat)
    ensures
        i <= block_end(cs, i),
        cs.len() >= 1 ==> block_end(cs, i) <= if i > cs.len() - 1 { i } else { (cs.len() - 1) as nat },
    decreases cs.len() - i,
{
    if i + 1 < cs.len() && !(cs[i as int] == '*' && cs[i + 1 as int] == '/') {
        lemma_block_end_bounds(cs, i + 1);
    }
}

/// Every token moves forward, at most two places past the end.
pub proof fn lemma_token_advances(cs: Seq<char>, i: nat)
    requires
        i < cs.len(),
    ensures
        i < json5_token(cs, i).1 <= cs.len() + 2,
{
    lemma_scan_bounds(cs, i);
    lemma_scan_bounds(cs, i + 1);
    lemma_block_end_bounds(cs, i + 2);
    let c = cs[i as int];
    if is_ident_start(c) {
        assert(ident_end(cs, i) == ident_end(cs, i + 1));
    } else if c == '/' && i + 1 < cs.len() && cs[i + 1 as int] == '/' {
        assert(line_end(cs, i) == line_end(cs, i + 1));
    }
}

/// The JSON text of everything from position `i` on.
pub open spec fn json5_from(cs: Seq<char>, i: nat) -> Seq<char>
    decreases cs.len() + 3 - i,
{
    if i >= cs.len() {
        Seq::empty()
    } else {
        let (text, next) = json5_token(cs, i);
        proof {
            lemma_token_advances(cs, i);
        }
        text + json5_from(cs, next)
    }
}

/// 把宽松的 JSON5 写法规整成严格 JSON: comments dropped, strings in double
/// quotes, unquoted keys quoted, trailing commas dropped.
pub open spec fn normalize_json5_spec(src: Seq<char>) -> Seq<char> {
    json5_from(src, 0)
}

fn is_ident_start_exec(c: char) -> (r: bool)
    ensures
        r == is_ident_start(c),
{
    ('a' <= c && c <= 'z') || ('A' <= c && c <= 'Z') || c == '_' || c == '$'
}

fn is_ident_char_exec(c: char) -> (r: bool)
    ensures
        r == is_ident_char(c),
{
    is_ident_start_exec(c) || ('0' <= c && c <= '9')
}

fn skip_ws_exec(cs: &Vec<char>, i: usize) -> (r: usize)
    requires
        i <= cs.len(),
    ensures
        r == skip_ws(cs@, i as nat),
{
    let mut j = i;
    while j < cs.len() && is_whitespace_exec(cs[j])
        invariant
            i <= j <= cs.len(),
            skip_ws(cs@, i as nat) == skip_ws(cs@, j as nat),
        decreases cs.len() - j,
    {
        j += 1;
    }
    j
}

fn skip_blank_exec(cs: &Vec<char>, i: usize) -> (r: usize)
    requires
        i <= cs.len(),
    ensures
        r <= cs.len(),
        r < cs.len() ==> r == skip_blank(cs@, i as nat),
        r == cs.len() ==> skip_blank(cs@, i as nat) >= cs.len(),
{
    let n = cs.len();
    let mut j = i;
    loop
        invariant
            j <= n,
            n == cs.len(),
            skip_blank(cs@, i as nat) == skip_blank(cs@, j as nat),
        decreases n - j,
    {
        if j >= n {
            return n;
        }
        if is_whitespace_exec(cs[j]) {
            j += 1;
        } else if cs[j] == '/' && n - j > 1 && cs[j + 1] == '/' {
            proof {
                lemma_line_end_after(cs@, j as nat);
            }
            let ghost start = j;
            j += 1;
            while j < n && cs[j] != '\n'
                invariant
                    start < j <= n,
                    n == cs.len(),
                    skip_blank(cs@, i as nat) == skip_blank(cs@, line_end(cs@, j as nat)),
                decreases n - j,
            {
                j += 1;
            }
        } else if cs[j] == '/' && n - j > 1 && cs[j + 1] == '*' {
            let ghost start = j;
            j += 2;
            while j < n && n - j > 1 && !(cs[j] == '*' && cs[j + 1] == '/')
                invariant
                    j <= n,
                    n == cs.len(),
                    block_end(cs@, j as nat) == block_end(cs@, (start + 2) as nat),
                decreases n - j,
            {
                j += 1;
            }
            proof {
                lemma_block_end_bounds(cs@, (start + 2) as nat);
            }
            if j < n && n - j > 1 {
                j += 2;
            } else {
                // no closing "*/": everything up to the end is comment
                assert(block_end(cs@, j as nat) == j);
                assert(skip_blank(cs@, (j + 2) as nat) == j + 2);
                return n;
            }
        } else {
            return j;
        }
    }
}

/// Writes the JSON text of the string starting after the opening quote at
/// `i`; returns the position of the closing quote.
fn copy_string(cs: &Vec<char>, i: usize, quote: char, out: &mut String) -> (r: usize)
    requires
        i <= cs.len(),
    ensures
        r == string_body(cs@, i as nat, quote).1,
        final(out)@ == old(out)@ + string_body(cs@, i as nat, quote).0,
{
    let ghost start = out@;
    let mut j = i;
    while j < cs.len() && cs[j] != quote
        invariant
            i <= j <= cs.len(),
            string_body(cs@, i as nat, quote).1 == string_body(cs@, j as nat, quote).1,
            start + string_body(cs@, i as nat, quote).0 == out@ + string_body(cs@, j as nat, quote).0,
        decreases cs.len() - j,
    {
        let ghost before = out@;
        if cs[j] == '\\' && j + 1 < cs.len() {
            // 转义序列原样保留，但 \' 变成 '
            if cs[j + 1] == '\'' {
                push_char(out, '\'');
            } else {
                push_char(out, '\\');
                push_char(out, cs[j + 1]);
            }
            proof {
                let esc = if cs@[j + 1] == '\'' { seq!['\''] } else { seq!['\\', cs@[j + 1]] };
                assert(out@ =~= before + esc);
                assert(string_body(cs@, j as nat, quote).0 =~= esc + string_body(cs@, (j + 2) as nat, quote).0);
            }
            j += 2;
        } else {
            if cs[j] == '"' {
                push_char(out, '\\');
                push_char(out, '"');
            } else {
                push_char(out, cs[j]);
            }
            proof {
                let ch = if cs@[j as int] == '"' { seq!['\\', '"'] } else { seq![cs@[j as int]] };
                assert(out@ =~= before + ch);
                assert(string_body(cs@, j as nat, quote).0 =~= ch + string_body(cs@, (j + 1) as nat, quote).0);
            }
            j += 1;
        }
    }
    assert(string_body(cs@, j as nat, quote).0 =~= Seq::<char>::empty());
    assert(out@ =~= start + string_body(cs@, i as nat, quote).0);
    j
}

/// 把宽松的 JSON5 写法规整成严格 JSON，好交给 serde_json。
pub fn normalize_json5(src: &str) -> (r: String)
    ensures
        r@ == normalize_json5_spec(src@),
{
    let chars = chars_of(src);
    let n = chars.len();
    let mut out = String::new();
    let mut i: usize = 0;
    while i < n
        invariant
            n == chars.len(),
            chars@ == src@,
            i <= n,
            out@ + json5_from(chars@, i as nat) == json5_from(chars@, 0),
        decreases n - i,
    {
        let ghost cs = chars@;
        let ghost before = out@;
        proof {
            lemma_token_advances(cs, i as nat);
            lemma_scan_bounds(cs, i as nat);
            lemma_scan_bounds(cs, (i + 1) as nat);
        }
        let ghost tok = json5_token(cs, i as nat);
        assert(json5_from(cs, i as nat) == tok.0 + json5_from(cs, tok.1));
        let c = chars[i];
        // 注释
        if c == '/' && i + 1 < n && chars[i + 1] == '/' {
            while i < n && chars[i] != '\n'
                invariant
                    i <= n,
                    n == chars.len(),
                    line_end(chars@, i as nat) == tok.1,
                decreases n - i,
            {
                i += 1;
            }
            assert(out@ =~= before + tok.0);
        } else if c == '/' && i + 1 < n && chars[i + 1] == '*' {
            i += 2;
            while i < n && n - i > 1 && !(chars[i] == '*' && chars[i + 1] == '/')
                invariant
                    i <= n,
                    n == chars.len(),
                    block_end(chars@, i as nat) + 2 == tok.1,
                decreases n - i,
            {
                i += 1;
            }
            // past the closing "*/", or to the end when there is none
            i = if i < n && n - i > 1 { i + 2 } else { n };
            assert(out@ =~= before + tok.0);
        } else if c == '"' || c == '\'' {
            // 字符串（单引号或双引号），统一输出成双引号
            push_char(&mut out, '"');
            let close = copy_string(&chars, i + 1, c, &mut out);
            push_char(&mut out, '"');
            i = if close < n { close + 1 } else { n };
            assert(out@ =~= before + tok.0);
        } else if is_ident_start_exec(c) {
            // 不带引号的键: 标识符后面跟着 ':'
            let start = i;
            while i < n && is_ident_char_exec(chars[i])
                invariant
                    start <= i <= n,
                    n == chars.len(),
                    ident_end(chars@, start as nat) == ident_end(chars@, i as nat),
                decreases n - i,
            {
                i += 1;
            }
            let j = skip_ws_exec(&chars, i);
            let quoted = j < n && chars[j] == ':';
            if quoted {
                push_char(&mut out, '"');
            }
            let mut k = start;
            while k < i
                invariant
                    start <= k <= i <= n,
                    n == chars.len(),
                    out@ == before + (if quoted { seq!['"'] } else { Seq::<char>::empty() }) + chars@.subrange(
                        start as int,
                        k as int,
                    ),
                decreases i - k,
            {
                push_char(&mut out, chars[k]);
                k += 1;
                assert(out@ =~= before + (if quoted { seq!['"'] } else { Seq::<char>::empty() })
                    + chars@.subrange(start as int, k as int));
            }
            if quoted {
                push_char(&mut out, '"');
            }
            assert(out@ =~= before + tok.0);
        } else if c == ',' && {
            let j = skip_blank_exec(&chars, i + 1);
            j < n && (chars[j] == ']' || chars[j] == '}')
        } {
            // 尾逗号: ",  ]" 或 ",  }"
            i += 1;
            assert(out@ =~= before + tok.0);
        } else {
            push_char(&mut out, c);
            i += 1;
            assert(out@ =~= before + tok.0);
        }
        assert(json5_from(cs, i as nat) == json5_from(cs, tok.1));
    }
    assert(json5_from(chars@, i as nat) =~= Seq::<char>::empty());
    assert(out@ =~= json5_from(chars@, 0));
    out
}

} // verus!
