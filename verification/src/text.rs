//! Character-level helpers shared by the decoders: building strings,
//! reading string slices, and rendering numbers in decimal and hexadecimal.
use vstd::prelude::*;

verus! {

/// Appends one character to a string (`String::push`).
#[verifier::external_body]
pub fn push_char(s: &mut String, c: char)
    ensures
        final(s)@ == old(s)@.push(c),
{
    s.push(c);
}

/// The characters of a string slice, in order.
pub fn chars_of(s: &str) -> (r: Vec<char>)
    ensures
        r@ == s@,
{
    let mut out: Vec<char> = Vec::new();
    for c in it: s.chars()
        invariant
            out@ == it.seq().take(it.index() as int),
    {
        out.push(c);
    }
    out
}

/// The string made of the given characters.
pub fn string_of(cs: &Vec<char>) -> (r: String)
    ensures
        r@ == cs@,
{
    let mut out = String::new();
    let mut i: usize = 0;
    while i < cs.len()
        invariant
            i <= cs.len(),
            out@ == cs@.take(i as int),
        decreases cs.len() - i,
    {
        push_char(&mut out, cs[i]);
        i += 1;
        assert(out@ =~= cs@.take(i as int));
    }
    assert(cs@.take(cs.len() as int) =~= cs@);
    out
}

/// The character of a digit value below 16 (upper-case hexadecimal).
pub open spec fn digit_char(d: nat) -> char {
    if d < 10 {
        (d + 48) as char
    } else {
        (d + 55) as char
    }
}

/// Decimal representation of `n`, without leading zeros.
pub open spec fn dec_chars(n: nat) -> Seq<char>
    decreases n,
{
    if n < 10 {
        seq![digit_char(n)]
    } else {
        dec_chars(n / 10).push(digit_char(n % 10))
    }
}

/// Upper-case hexadecimal representation of `n`, without leading zeros.
pub open spec fn hex_chars(n: nat) -> Seq<char>
    decreases n,
{
    if n < 16 {
        seq![digit_char(n)]
    } else {
        hex_chars(n / 16).push(digit_char(n % 16))
    }
}

/// `s` left-padded with `'0'` up to `width` characters.
pub open spec fn zero_pad(s: Seq<char>, width: nat) -> Seq<char> {
    if s.len() >= width {
        s
    } else {
        Seq::new((width - s.len()) as nat, |_i: int| '0') + s
    }
}

/// Upper-case hexadecimal of `n`, zero-padded to at least `width` digits
/// (what `format!("{n:0width$X}")` writes).
pub open spec fn hex_pad(n: nat, width: nat) -> Seq<char> {
    zero_pad(hex_chars(n), width)
}

/// Signed decimal representation (what `format!("{v}")` writes for an integer).
pub open spec fn int_chars(v: int) -> Seq<char> {
    if v < 0 {
        seq!['-'] + dec_chars((-v) as nat)
    } else {
        dec_chars(v as nat)
    }
}

fn digit_exec(d: u64) -> (c: char)
    requires
        d < 16,
    ensures
        c == digit_char(d as nat),
{
    if d < 10 {
        ((d as u8) + 48) as char
    } else {
        ((d as u8) + 55) as char
    }
}

/// Appends the decimal representation of `n`.
pub fn push_dec(s: &mut String, n: u64)
    ensures
        final(s)@ == old(s)@ + dec_chars(n as nat),
    decreases n,
{
    if n >= 10 {
        push_dec(s, n / 10);
    }
    push_char(s, digit_exec(n % 10));
}

/// Appends the signed decimal representation of `v`.
pub fn push_int(s: &mut String, v: i64)
    ensures
        final(s)@ == old(s)@ + int_chars(v as int),
{
    if v < 0 {
        push_char(s, '-');
        let m: u64 = if v == i64::MIN { 9223372036854775808u64 } else { (-v) as u64 };
        push_dec(s, m);
        assert(final(s)@ =~= old(s)@ + int_chars(v as int));
    } else {
        push_dec(s, v as u64);
    }
}

fn push_hex_digits(s: &mut String, n: u64)
    ensures
        final(s)@ == old(s)@ + hex_chars(n as nat),
    decreases n,
{
    if n >= 16 {
        push_hex_digits(s, n / 16);
    }
    push_char(s, digit_exec(n % 16));
}

fn hex_len(n: u64) -> (r: u64)
    ensures
        r == hex_chars(n as nat).len(),
        1 <= r <= 1 + n / 16,
    decreases n,
{
    if n >= 16 {
        1 + hex_len(n / 16)
    } else {
        1
    }
}

/// Appends `n` in upper-case hexadecimal, zero-padded to `width` digits.
pub fn push_hex(s: &mut String, n: u64, width: usize)
    ensures
        final(s)@ == old(s)@ + hex_pad(n as nat, width as nat),
{
    let len = hex_len(n);
    let w = width as u64;
    let ghost start = s@;
    if len < w {
        let mut i: u64 = len;
        while i < w
            invariant
                len <= i <= w,
                w == width,
                s@ == start + Seq::new((i - len) as nat, |_j: int| '0'),
            decreases w - i,
        {
            push_char(s, '0');
            i += 1;
            assert(s@ =~= start + Seq::new((i - len) as nat, |_j: int| '0'));
        }
    }
    let ghost mid = s@;
    push_hex_digits(s, n);
    assert(s@ =~= start + hex_pad(n as nat, width as nat));
}

/// Appends a string slice.
pub fn push_str(s: &mut String, t: &str)
    ensures
        final(s)@ == old(s)@ + t@,
{
    s.append(t);
}

/// ASCII lower-case of one character (what `char::to_ascii_lowercase` does).
pub open spec fn ascii_lower(c: char) -> char {
    if 'A' <= c && c <= 'Z' {
        ((c as u32) + 32) as char
    } else {
        c
    }
}

/// ASCII upper-case of one character (what `char::to_ascii_uppercase` does).
pub open spec fn ascii_upper(c: char) -> char {
    if 'a' <= c && c <= 'z' {
        ((c as u32) - 32) as char
    } else {
        c
    }
}

pub fn lower_char(c: char) -> (r: char)
    ensures
        r == ascii_lower(c),
{
    if 'A' <= c && c <= 'Z' {
        ((c as u8) + 32) as char
    } else {
        c
    }
}

pub fn upper_char(c: char) -> (r: char)
    ensures
        r == ascii_upper(c),
{
    if 'a' <= c && c <= 'z' {
        ((c as u8) - 32) as char
    } else {
        c
    }
}

/// The ASCII upper-case of a string (what `str::to_ascii_uppercase` returns).
pub fn to_ascii_uppercase(s: &str) -> (r: Vec<char>)
    ensures
        r@ == s@.map_values(|c: char| ascii_upper(c)),
{
    let cs = chars_of(s);
    let mut out: Vec<char> = Vec::new();
    let mut i: usize = 0;
    while i < cs.len()
        invariant
            i <= cs.len(),
            cs@ == s@,
            out@ == s@.take(i as int).map_values(|c: char| ascii_upper(c)),
        decreases cs.len() - i,
    {
        out.push(upper_char(cs[i]));
        i += 1;
        assert(out@ =~= s@.take(i as int).map_values(|c: char| ascii_upper(c)));
    }
    assert(s@.take(cs.len() as int) =~= s@);
    out
}

/// The ASCII lower-case of a string (what `str::to_ascii_lowercase` returns).
pub fn to_ascii_lowercase(s: &str) -> (r: Vec<char>)
    ensures
        r@ == s@.map_values(|c: char| ascii_lower(c)),
{
    let cs = chars_of(s);
    let mut out: Vec<char> = Vec::new();
    let mut i: usize = 0;
    while i < cs.len()
        invariant
            i <= cs.len(),
            cs@ == s@,
            out@ == s@.take(i as int).map_values(|c: char| ascii_lower(c)),
        decreases cs.len() - i,
    {
        out.push(lower_char(cs[i]));
        i += 1;
        assert(out@ =~= s@.take(i as int).map_values(|c: char| ascii_lower(c)));
    }
    assert(s@.take(cs.len() as int) =~= s@);
    out
}

/// Whether the characters `cs` equal the characters of `t`.
pub fn chars_eq(cs: &Vec<char>, t: &str) -> (r: bool)
    ensures
        r == (cs@ == t@),
{
    let tc = chars_of(t);
    if cs.len() != tc.len() {
        return false;
    }
    let mut i: usize = 0;
    while i < cs.len()
        invariant
            i <= cs.len(),
            cs.len() == tc.len(),
            tc@ == t@,
            forall|j: int| 0 <= j < i ==> cs@[j] == tc@[j],
        decreases cs.len() - i,
    {
        if cs[i] != tc[i] {
            return false;
        }
        i += 1;
    }
    assert(cs@ =~= tc@);
    true
}

} // verus!

verus! {

/// Whether `c` is an ASCII decimal digit.
pub open spec fn is_digit(c: char) -> bool {
    '0' <= c && c <= '9'
}

/// Value of a run of decimal digits.
pub open spec fn digits_value(s: Seq<char>) -> nat
    decreases s.len(),
{
    if s.len() == 0 {
        0
    } else {
        10 * digits_value(s.drop_last()) + ((s.last() as u32) - 48) as nat
    }
}

/// The characters after an optional leading `+`.
pub open spec fn unsigned_digits(s: Seq<char>) -> Seq<char> {
    if s.len() > 0 && s[0] == '+' {
        s.drop_first()
    } else {
        s
    }
}

/// Every character is a decimal digit.
pub open spec fn all_digits(d: Seq<char>) -> bool {
    forall|i: int| 0 <= i < d.len() ==> is_digit(#[trigger] d[i])
}

/// What `str::parse::<u8>` returns: an optional leading `+`, then one or
/// more decimal digits whose value fits in a `u8`.
pub open spec fn parse_u8(s: Seq<char>) -> Option<u8> {
    let d = unsigned_digits(s);
    if d.len() == 0 || !all_digits(d) {
        None
    } else if digits_value(d) <= 255 {
        Some(digits_value(d) as u8)
    } else {
        None
    }
}

/// `s` without the prefix `p`, if it starts with it.
pub open spec fn strip_prefix(s: Seq<char>, p: Seq<char>) -> Option<Seq<char>> {
    if p.len() <= s.len() && s.take(p.len() as int) == p {
        Some(s.skip(p.len() as int))
    } else {
        None
    }
}

/// Parses the characters of `s` from `start` on as a `u8`.
pub fn parse_u8_from(s: &Vec<char>, start: usize) -> (r: Option<u8>)
    requires
        start <= s.len(),
    ensures
        r == parse_u8(s@.skip(start as int)),
{
    let ghost full = s@.skip(start as int);
    let mut i = start;
    if i < s.len() && s[i] == '+' {
        i += 1;
    }
    let ghost d = s@.skip(i as int);
    assert(d =~= unsigned_digits(full));
    if i == s.len() {
        return None;
    }
    let mut v: u32 = 0;
    let mut j = i;
    while j < s.len()
        invariant
            i <= j <= s.len(),
            d == s@.skip(i as int),
            d == unsigned_digits(s@.skip(start as int)),
            forall|k: int| 0 <= k < j - i ==> is_digit(#[trigger] d[k]),
            v == digits_value(d.take(j - i)),
            v <= 255,
        decreases s.len() - j,
    {
        let c = s[j];
        assert(d[j - i] == c);
        if !('0' <= c && c <= '9') {
            assert(!is_digit(d[j - i]));
            assert(!all_digits(d));
            return None;
        }
        proof {
            assert(d.take(j - i + 1).drop_last() =~= d.take(j - i));
            assert(d.take(j - i + 1).last() == c);
        }
        v = v * 10 + ((c as u32) - 48);
        j += 1;
        if v > 255 {
            proof {
                if all_digits(d) {
                    lemma_digits_value_grows(d, j - i);
                }
            }
            return None;
        }
    }
    assert(d.take(j - i) =~= d);
    Some(v as u8)
}

proof fn lemma_digits_value_grows(d: Seq<char>, n: int)
    requires
        0 <= n <= d.len(),
        forall|k: int| 0 <= k < d.len() ==> is_digit(#[trigger] d[k]),
    ensures
        digits_value(d) >= digits_value(d.take(n)),
    decreases d.len() - n,
{
    if n < d.len() {
        assert(d.take(n) =~= d.take(n + 1).drop_last());
        lemma_digits_value_grows(d, n + 1);
        assert(is_digit(d[n]));
    } else {
        assert(d.take(n) =~= d);
    }
}

/// Whether the characters of `s` from `start` on begin with `p`.
pub fn has_prefix_at(s: &Vec<char>, start: usize, p: &str) -> (r: bool)
    requires
        start <= s.len(),
    ensures
        r == (strip_prefix(s@.skip(start as int), p@) is Some),
{
    let pc = chars_of(p);
    if pc.len() > s.len() - start {
        return false;
    }
    let mut k: usize = 0;
    while k < pc.len()
        invariant
            k <= pc.len(),
            pc@ == p@,
            start + pc.len() <= s.len(),
            forall|m: int| 0 <= m < k ==> s@[start + m] == pc@[m],
        decreases pc.len() - k,
    {
        if s[start + k] != pc[k] {
            assert(s@.skip(start as int).take(pc.len() as int)[k as int] != p@[k as int]);
            return false;
        }
        k += 1;
    }
    assert(s@.skip(start as int).take(pc.len() as int) =~= p@);
    true
}

} // verus!

verus! {

/// A byte in hexadecimal padded to two digits has exactly two digits.
pub proof fn lemma_hex_pad_byte(b: u8)
    ensures
        hex_pad(b as nat, 2).len() == 2,
{
    let n = b as nat;
    if n < 16 {
        assert(hex_chars(n).len() == 1);
    } else {
        assert(n / 16 < 16);
        assert(hex_chars(n / 16).len() == 1);
        assert(hex_chars(n).len() == 2);
    }
}

} // verus!

verus! {

/// Unicode `White_Space` (what `char::is_whitespace` tests).
pub open spec fn is_whitespace(c: char) -> bool {
    ('\u{9}' <= c && c <= '\u{d}') || c == ' ' || c == '\u{85}' || c == '\u{a0}' || c == '\u{1680}' || ('\u{2000}'
        <= c && c <= '\u{200a}') || c == '\u{2028}' || c == '\u{2029}' || c == '\u{202f}' || c == '\u{205f}' || c
        == '\u{3000}'
}

pub fn is_whitespace_exec(c: char) -> (r: bool)
    ensures
        r == is_whitespace(c),
{
    ('\u{9}' <= c && c <= '\u{d}') || c == ' ' || c == '\u{85}' || c == '\u{a0}' || c == '\u{1680}' || ('\u{2000}'
        <= c && c <= '\u{200a}') || c == '\u{2028}' || c == '\u{2029}' || c == '\u{202f}' || c == '\u{205f}' || c
        == '\u{3000}'
}

/// `s` without leading whitespace (what `str::trim_start` leaves).
pub open spec fn trim_start_chars(s: Seq<char>) -> Seq<char>
    decreases s.len(),
{
    if s.len() > 0 && is_whitespace(s[0]) {
        trim_start_chars(s.drop_first())
    } else {
        s
    }
}

/// `s` without trailing whitespace (what `str::trim_end` leaves).
pub open spec fn trim_end_chars(s: Seq<char>) -> Seq<char>
    decreases s.len(),
{
    if s.len() > 0 && is_whitespace(s.last()) {
        trim_end_chars(s.drop_last())
    } else {
        s
    }
}

/// `s` without leading and trailing whitespace (what `str::trim` leaves).
pub open spec fn trim_chars(s: Seq<char>) -> Seq<char> {
    trim_end_chars(trim_start_chars(s))
}

/// Index of the first character that is not whitespace.
pub fn trim_start_index(cs: &Vec<char>) -> (r: usize)
    ensures
        r <= cs.len(),
        cs@.skip(r as int) == trim_start_chars(cs@),
{
    let mut i: usize = 0;
    assert(cs@.skip(0) =~= cs@);
    while i < cs.len() && is_whitespace_exec(cs[i])
        invariant
            i <= cs.len(),
            trim_start_chars(cs@) == trim_start_chars(cs@.skip(i as int)),
        decreases cs.len() - i,
    {
        assert(cs@.skip(i as int).drop_first() =~= cs@.skip(i + 1));
        i += 1;
    }
    i
}

/// The characters of `cs` without leading and trailing whitespace.
pub fn trim_vec(cs: &Vec<char>) -> (r: Vec<char>)
    ensures
        r@ == trim_chars(cs@),
{
    let start = trim_start_index(cs);
    let ghost t = cs@.skip(start as int);
    let mut end = cs.len();
    while end > start && is_whitespace_exec(cs[end - 1])
        invariant
            start <= end <= cs.len(),
            t == cs@.skip(start as int),
            trim_end_chars(t) == trim_end_chars(cs@.subrange(start as int, end as int)),
        decreases end,
    {
        assert(cs@.subrange(start as int, end as int).drop_last() =~= cs@.subrange(start as int, end - 1));
        end -= 1;
    }
    assert(t =~= cs@.subrange(start as int, cs.len() as int));
    let mut out: Vec<char> = Vec::new();
    let mut i = start;
    while i < end
        invariant
            start <= i <= end <= cs.len(),
            out@ == cs@.subrange(start as int, i as int),
        decreases end - i,
    {
        out.push(cs[i]);
        i += 1;
        assert(out@ =~= cs@.subrange(start as int, i as int));
    }
    out
}

/// Whether two string slices hold the same characters.
pub fn str_eq(a: &str, b: &str) -> (r: bool)
    ensures
        r == (a@ == b@),
{
    let x = a.as_bytes();
    let y = b.as_bytes();
    proof {
        vstd::utf8::encode_utf8_decode_utf8(a@);
        vstd::utf8::encode_utf8_decode_utf8(b@);
    }
    if x.len() != y.len() {
        return false;
    }
    let mut i: usize = 0;
    while i < x.len()
        invariant
            i <= x.len(),
            x.len() == y.len(),
            x@ == vstd::utf8::encode_utf8(a@),
            y@ == vstd::utf8::encode_utf8(b@),
            forall|j: int| 0 <= j < i ==> x@[j] == y@[j],
        decreases x.len() - i,
    {
        if x[i] != y[i] {
            return false;
        }
        i += 1;
    }
    assert(x@ =~= y@);
    true
}

} // verus!

verus! {

/// `s` with every occurrence of `from` replaced by `to`, scanning left to
/// right without overlaps (what `str::replace` returns).
pub open spec fn replace_all(s: Seq<char>, from: Seq<char>, to: Seq<char>) -> Seq<char>
    recommends
        from.len() > 0,
    decreases s.len(),
{
    if s.len() == 0 || from.len() == 0 {
        s
    } else if from.len() <= s.len() && s.take(from.len() as int) == from {
        to + replace_all(s.skip(from.len() as int), from, to)
    } else {
        seq![s[0]] + replace_all(s.drop_first(), from, to)
    }
}

/// `s` with every occurrence of `from` replaced by `to` (`str::replace`).
pub fn replace_str(s: &str, from: &str, to: &str) -> (r: String)
    requires
        from@.len() > 0,
    ensures
        r@ == replace_all(s@, from@, to@),
{
    let mut out = String::new();
    let cs = chars_of(s);
    let fc = chars_of(from);
    let m = fc.len();
    let n = cs.len();
    let mut i: usize = 0;
    assert(cs@.skip(0) =~= cs@);
    assert(out@ + replace_all(cs@.skip(0), from@, to@) =~= replace_all(cs@, from@, to@));
    while i < n
        invariant
            n == cs.len(),
            cs@ == s@,
            fc@ == from@,
            m == fc.len(),
            m > 0,
            i <= n,
            out@ + replace_all(cs@.skip(i as int), from@, to@) == replace_all(cs@, from@, to@),
        decreases n - i,
    {
        let ghost rest = cs@.skip(i as int);
        let mut matched = n - i >= m;
        let mut k: usize = 0;
        while matched && k < m
            invariant
                k <= m,
                i <= n,
                n == cs.len(),
                m == fc.len(),
                matched ==> n - i >= m && forall|q: int| 0 <= q < k ==> cs@[i + q] == fc@[q],
                !matched ==> !(m <= rest.len() && rest.take(m as int) == fc@),
                rest == cs@.skip(i as int),
            decreases m - k,
        {
            if cs[i + k] != fc[k] {
                matched = false;
                assert(rest.take(m as int)[k as int] != fc@[k as int]);
            }
            k += 1;
        }
        if matched {
            assert(rest.take(m as int) =~= fc@);
            push_str(&mut out, to);
            i += m;
            assert(rest.skip(m as int) =~= cs@.skip(i as int));
        } else {
            push_char(&mut out, cs[i]);
            assert(rest.drop_first() =~= cs@.skip(i + 1));
            i += 1;
        }
        assert(out@ + replace_all(cs@.skip(i as int), from@, to@) =~= replace_all(cs@, from@, to@));
    }
    assert(cs@.skip(n as int) =~= Seq::<char>::empty());
    out
}

} // verus!
