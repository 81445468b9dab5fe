//! UART (异步串口) 解码器 — the decisions taken for each received frame.
//!
//! 输出: 每个字节一个段, 从起始位下降沿开始, 文本形如 `0x4D 'M'`;
//! 帧错误 (停止位不为高) 标成 `0x4D FRAME?` (不显示字符), 校验错误标成 `PARITY?`。
//!
//! Sampling the line at fractions of a bit time is done by the caller; this
//! module turns the sampled bits of one frame into its text.
use vstd::prelude::*;
use crate::text::{ascii_upper, chars_eq, hex_pad, push_char, push_hex, push_str, to_ascii_uppercase};
use vstd::arithmetic::power2::{pow2, lemma_pow2_unfold, lemma2_to64, lemma_pow2_strictly_increases};

verus! {

#[derive(Debug, Clone, Copy, PartialEq, Eq, Structural)]
pub enum Parity {
    NoParity,
    Even,
    Odd,
}

/// The readable form of a received value: printable ASCII in quotes, a few
/// control characters by name, nothing otherwise.
pub open spec fn printable_spec(b: u32) -> Seq<char> {
    if 0x20 <= b < 0x7f {
        seq!['\'', b as char, '\'']
    } else if b == 0x0A {
        "LF"@
    } else if b == 0x0D {
        "CR"@
    } else if b == 0x09 {
        "TAB"@
    } else if b == 0x00 {
        "NUL"@
    } else {
        Seq::empty()
    }
}

pub fn printable(b: u32) -> (r: String)
    ensures
        r@ == printable_spec(b),
{
    let mut s = String::new();
    if 0x20 <= b && b < 0x7f {
        push_char(&mut s, '\'');
        push_char(&mut s, (b as u8) as char);
        push_char(&mut s, '\'');
        assert(s@ =~= printable_spec(b));
    } else if b == 0x0A {
        push_str(&mut s, "LF");
    } else if b == 0x0D {
        push_str(&mut s, "CR");
    } else if b == 0x09 {
        push_str(&mut s, "TAB");
    } else if b == 0x00 {
        push_str(&mut s, "NUL");
    }
    s
}

/// Value of data bits received least significant first.
pub open spec fn lsb_value(bits: Seq<bool>) -> nat
    decreases bits.len(),
{
    if bits.len() == 0 {
        0
    } else {
        2 * lsb_value(bits.drop_first()) + if bits[0] { 1nat } else { 0nat }
    }
}

/// Number of one bits.
pub open spec fn ones_count(bits: Seq<bool>) -> nat
    decreases bits.len(),
{
    if bits.len() == 0 {
        0
    } else {
        ones_count(bits.drop_last()) + if bits.last() { 1nat } else { 0nat }
    }
}

/// Whether the data bits and the parity bit agree with the parity setting.
pub open spec fn parity_ok(data: Seq<bool>, parity: Parity, parity_bit: bool) -> bool {
    let ones = ones_count(data) + if parity_bit { 1nat } else { 0nat };
    match parity {
        Parity::Even => ones % 2 == 0,
        Parity::Odd => ones % 2 == 1,
        Parity::NoParity => true,
    }
}

/// The text of a frame: the value in hexadecimal, its readable form (only
/// when the stop bit is at the idle level), then `PARITY?` when the parity
/// check fails and `FRAME?` when the stop bit is not at the idle level.
pub open spec fn frame_text_spec(data: Seq<bool>, parity: Parity, parity_bit: bool, stop_ok: bool) -> Seq<char> {
    let value = lsb_value(data);
    let p = printable_spec(value as u32);
    "0x"@ + hex_pad(value, 2) + (if stop_ok && p.len() > 0 { " "@ + p } else { Seq::empty() }) + (if parity != Parity::NoParity
        && !parity_ok(data, parity, parity_bit) { " PARITY?"@ } else { Seq::empty() }) + (if !stop_ok {
        " FRAME?"@
    } else {
        Seq::empty()
    })
}

proof fn lemma_lsb_value_push(bits: Seq<bool>, b: bool)
    ensures
        lsb_value(bits.push(b)) == lsb_value(bits) + if b { pow2(bits.len()) } else { 0 },
    decreases bits.len(),
{
    if bits.len() > 0 {
        lemma_lsb_value_push(bits.drop_first(), b);
        lemma_pow2_unfold(bits.len());
        assert(bits.push(b).drop_first() =~= bits.drop_first().push(b));
        assert(bits.push(b)[0] == bits[0]);
        assert(bits.drop_first().len() == bits.len() - 1);
        let bit0: nat = if bits[0] { 1 } else { 0 };
        assert(lsb_value(bits.push(b)) == 2 * lsb_value(bits.push(b).drop_first()) + bit0);
        assert(lsb_value(bits) == 2 * lsb_value(bits.drop_first()) + bit0);
        assert(pow2(bits.len()) == 2 * pow2(bits.drop_first().len()));
        assert(lsb_value(bits.push(b).drop_first()) == lsb_value(bits.drop_first().push(b)));
    } else {
        lemma2_to64();
        assert(bits.push(b).drop_first() =~= Seq::<bool>::empty());
        assert(bits.push(b)[0] == b);
        assert(lsb_value(Seq::<bool>::empty()) == 0);
        assert(lsb_value(bits.push(b)) == 2 * lsb_value(bits.push(b).drop_first()) + if b { 1nat } else { 0nat });
        assert(pow2(0) == 1);
        assert(bits.len() == 0);
    }
}

proof fn lemma_lsb_value_bound(bits: Seq<bool>)
    ensures
        lsb_value(bits) < pow2(bits.len()),
    decreases bits.len(),
{
    lemma2_to64();
    if bits.len() > 0 {
        lemma_lsb_value_bound(bits.drop_first());
        lemma_pow2_unfold(bits.len());
    }
}

proof fn lemma_pow2_u32(n: nat)
    requires
        n < 32,
    ensures
        pow2(n) <= 0x8000_0000,
        pow2(n + 1) == 2 * pow2(n),
{
    lemma2_to64();
    lemma_pow2_unfold(n + 1);
    if n < 31 {
        lemma_pow2_strictly_increases(n, 31);
    }
}

/// The text of one received frame. `data` are the sampled data bits, least
/// significant first (at most 32 of them).
pub fn frame_text(data: &Vec<bool>, parity: Parity, parity_bit: bool, stop_ok: bool) -> (r: String)
    requires
        data.len() <= 32,
    ensures
        r@ == frame_text_spec(data@, parity, parity_bit, stop_ok),
{
    let mut value: u32 = 0;
    let mut ones: u32 = 0;
    proof {
        lemma2_to64();
    }
    let mut k: usize = 0;
    while k < data.len()
        invariant
            k <= data.len() <= 32,
            value == lsb_value(data@.take(k as int)),
            ones == ones_count(data@.take(k as int)),
            ones <= k,
            value < pow2(k as nat),
        decreases data.len() - k,
    {
        proof {
            lemma_lsb_value_push(data@.take(k as int), data@[k as int]);
            assert(data@.take(k + 1) =~= data@.take(k as int).push(data@[k as int]));
            lemma_pow2_u32(k as nat);
            assert(data@.take(k + 1).drop_last() =~= data@.take(k as int));
        }
        if data[k] {
            assert((1u32 << (k as u32)) == pow2(k as nat)) by {
                lemma_shl_pow2(k as u32);
            }
            value |= 1u32 << (k as u32);
            assert(value == lsb_value(data@.take(k as int)) + pow2(k as nat)) by {
                lemma_or_add(lsb_value(data@.take(k as int)) as u32, k as u32);
            }
            ones += 1;
        }
        k += 1;
    }
    assert(data@.take(data.len() as int) =~= data@);
    let mut total = ones;
    if parity_bit {
        total = total + 1;
    }
    let ok = match parity {
        Parity::Even => total % 2 == 0,
        Parity::Odd => total % 2 == 1,
        Parity::NoParity => true,
    };
    let mut text = String::new();
    push_str(&mut text, "0x");
    push_hex(&mut text, value as u64, 2);
    let p = printable(value);
    if stop_ok && !p.as_str().is_empty() {
        push_char(&mut text, ' ');
        push_str(&mut text, p.as_str());
    }
    let has_parity = match parity {
        Parity::NoParity => false,
        _ => true,
    };
    if has_parity && !ok {
        push_str(&mut text, " PARITY?");
    }
    if !stop_ok {
        push_str(&mut text, " FRAME?");
    }
    proof {
        reveal_strlit(" ");
    }
    assert(text@ =~= frame_text_spec(data@, parity, parity_bit, stop_ok));
    text
}

proof fn lemma_shl_pow2(k: u32)
    requires
        k < 32,
    ensures
        (1u32 << k) == pow2(k as nat),
    decreases k,
{
    if k == 0 {
        assert((1u32 << 0u32) == 1) by (bit_vector);
        lemma2_to64();
    } else {
        lemma_shl_pow2((k - 1) as u32);
        lemma_pow2_u32((k - 1) as nat);
        assert((1u32 << k) == 2 * (1u32 << ((k - 1) as u32))) by (bit_vector)
            requires
                0 < k < 32,
        ;
    }
}

proof fn lemma_or_add(v: u32, k: u32)
    requires
        k < 32,
        (v as nat) < pow2(k as nat),
    ensures
        (v | (1u32 << k)) == v + pow2(k as nat),
{
    lemma_shl_pow2(k);
    assert(v < (1u32 << k) ==> (v | (1u32 << k)) == v + (1u32 << k)) by (bit_vector)
        requires
            k < 32,
    ;
}

/// What one decoder option says, as far as it can be told from its letters.
#[derive(Debug, Clone, Copy, PartialEq, Eq, Structural)]
pub enum UartParam {
    /// `inv` / `inverted`: the line idles low.
    Inverted,
    /// A frame format such as `8N1`: data bits, parity, stop bits.
    Format { data_bits: u8, parity: Parity, stop_bits: u8 },
    /// A frame format whose parity letter is none of `N`, `E`, `O`.
    UnknownParity(char),
    /// Anything else: a baud rate, if it reads as a number.
    Other,
}

/// The value of an ASCII digit.
pub open spec fn digit_value(c: char) -> u8 {
    (c as u32 - 48) as u8
}

/// What option `p` says (ASCII case ignored). A three-character option with a
/// digit at both ends is a frame format.
pub open spec fn uart_param(p: Seq<char>) -> UartParam {
    let up = p.map_values(|c: char| ascii_upper(c));
    if up == "INV"@ || up == "INVERTED"@ {
        UartParam::Inverted
    } else if up.len() == 3 && '0' <= up[0] <= '9' && '0' <= up[2] <= '9' {
        if up[1] == 'N' {
            UartParam::Format { data_bits: digit_value(up[0]), parity: Parity::NoParity, stop_bits: digit_value(up[2]) }
        } else if up[1] == 'E' {
            UartParam::Format { data_bits: digit_value(up[0]), parity: Parity::Even, stop_bits: digit_value(up[2]) }
        } else if up[1] == 'O' {
            UartParam::Format { data_bits: digit_value(up[0]), parity: Parity::Odd, stop_bits: digit_value(up[2]) }
        } else {
            UartParam::UnknownParity(up[1])
        }
    } else {
        UartParam::Other
    }
}

/// Reads one decoder option.
pub fn classify_param(p: &str) -> (r: UartParam)
    ensures
        r == uart_param(p@),
{
    let up = to_ascii_uppercase(p);
    if chars_eq(&up, "INV") || chars_eq(&up, "INVERTED") {
        return UartParam::Inverted;
    }
    if up.len() == 3 && '0' <= up[0] && up[0] <= '9' && '0' <= up[2] && up[2] <= '9' {
        let data_bits = (up[0] as u8) - 48;
        let stop_bits = (up[2] as u8) - 48;
        if up[1] == 'N' {
            UartParam::Format { data_bits, parity: Parity::NoParity, stop_bits }
        } else if up[1] == 'E' {
            UartParam::Format { data_bits, parity: Parity::Even, stop_bits }
        } else if up[1] == 'O' {
            UartParam::Format { data_bits, parity: Parity::Odd, stop_bits }
        } else {
            UartParam::UnknownParity(up[1])
        }
    } else {
        UartParam::Other
    }
}

/// The message for a parity letter that is none of `N`, `E`, `O`.
pub fn unknown_parity_message(c: char) -> (r: String)
    ensures
        r@ == "未知校验方式 '"@ + seq![c] + "', 应为 N/E/O"@,
{
    let mut s = String::from_str("未知校验方式 '");
    push_char(&mut s, c);
    push_str(&mut s, "', 应为 N/E/O");
    s
}

/// The message for an option that is not understood.
pub fn unknown_param_message(p: &str) -> (r: String)
    ensures
        r@ == "无法识别的 UART 参数 '"@ + p@ + "' (示例: 115200 8N1 inv)"@,
{
    let mut s = String::from_str("无法识别的 UART 参数 '");
    push_str(&mut s, p);
    push_str(&mut s, "' (示例: 115200 8N1 inv)");
    s
}

/// Frames carry 5 to 9 data bits.
pub fn data_bits_in_range(bits: u8) -> (r: bool)
    ensures
        r == (5 <= bits <= 9),
{
    5 <= bits && bits <= 9
}

proof fn lemma_ones_count_filter(bits: Seq<bool>)
    ensures
        ones_count(bits) == bits.filter(|b: bool| b).len(),
    decreases bits.len(),
{
    reveal(Seq::filter);
    if bits.len() > 0 {
        lemma_ones_count_filter(bits.drop_last());
    }
}

/// The parity check counts the one bits among the data bits and the parity
/// bit: odd parity holds exactly when that count is odd, even parity when it
/// is even, and no parity always holds.
pub proof fn lemma_parity_counts_ones(data: Seq<bool>, parity: Parity, parity_bit: bool)
    ensures
        ({
            let n = data.filter(|b: bool| b).len() + if parity_bit { 1int } else { 0int };
            &&& parity == Parity::Odd ==> (parity_ok(data, parity, parity_bit) <==> n % 2 == 1)
            &&& parity == Parity::Even ==> (parity_ok(data, parity, parity_bit) <==> n % 2 == 0)
            &&& parity == Parity::NoParity ==> parity_ok(data, parity, parity_bit)
        }),
{
    lemma_ones_count_filter(data);
}

} // verus!
