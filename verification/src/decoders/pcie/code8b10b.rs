//! 8b/10b symbol coding: the encoding tables
//! and the table that maps a received 10-bit code back to its symbol.
//!
//! Codes are written most significant bit first: the code `0b0011111010`
//! is the bit string "0011111010", the first transmitted bit on the left.
use vstd::prelude::*;
use std::collections::HashMap;
use crate::text::{push_char, chars_of};

verus! {

/// 6-bit codes of the data symbols Dx.y by x, for negative and positive running disparity.
pub open spec fn d6(x: u8) -> (u8, u8) {
    match x {
        0 => (0b100111, 0b011000),
        1 => (0b011101, 0b100010),
        2 => (0b101101, 0b010010),
        3 => (0b110001, 0b110001),
        4 => (0b110101, 0b001010),
        5 => (0b101001, 0b101001),
        6 => (0b011001, 0b011001),
        7 => (0b111000, 0b000111),
        8 => (0b111001, 0b000110),
        9 => (0b100101, 0b100101),
        10 => (0b010101, 0b010101),
        11 => (0b110100, 0b110100),
        12 => (0b001101, 0b001101),
        13 => (0b101100, 0b101100),
        14 => (0b011100, 0b011100),
        15 => (0b010111, 0b101000),
        16 => (0b011011, 0b100100),
        17 => (0b100011, 0b100011),
        18 => (0b010011, 0b010011),
        19 => (0b110010, 0b110010),
        20 => (0b001011, 0b001011),
        21 => (0b101010, 0b101010),
        22 => (0b011010, 0b011010),
        23 => (0b111010, 0b000101),
        24 => (0b110011, 0b001100),
        25 => (0b100110, 0b100110),
        26 => (0b010110, 0b010110),
        27 => (0b110110, 0b001001),
        28 => (0b001110, 0b001110),
        29 => (0b101110, 0b010001),
        30 => (0b011110, 0b100001),
        _ => (0b101011, 0b010100),
    }
}

fn d6_exec(x: u8) -> (r: (u8, u8))
    ensures
        r == d6(x),
{
    match x {
        0 => (0b100111, 0b011000),
        1 => (0b011101, 0b100010),
        2 => (0b101101, 0b010010),
        3 => (0b110001, 0b110001),
        4 => (0b110101, 0b001010),
        5 => (0b101001, 0b101001),
        6 => (0b011001, 0b011001),
        7 => (0b111000, 0b000111),
        8 => (0b111001, 0b000110),
        9 => (0b100101, 0b100101),
        10 => (0b010101, 0b010101),
        11 => (0b110100, 0b110100),
        12 => (0b001101, 0b001101),
        13 => (0b101100, 0b101100),
        14 => (0b011100, 0b011100),
        15 => (0b010111, 0b101000),
        16 => (0b011011, 0b100100),
        17 => (0b100011, 0b100011),
        18 => (0b010011, 0b010011),
        19 => (0b110010, 0b110010),
        20 => (0b001011, 0b001011),
        21 => (0b101010, 0b101010),
        22 => (0b011010, 0b011010),
        23 => (0b111010, 0b000101),
        24 => (0b110011, 0b001100),
        25 => (0b100110, 0b100110),
        26 => (0b010110, 0b010110),
        27 => (0b110110, 0b001001),
        28 => (0b001110, 0b001110),
        29 => (0b101110, 0b010001),
        30 => (0b011110, 0b100001),
        _ => (0b101011, 0b010100),
    }
}

/// 4-bit codes of the data symbols Dx.y by y, for negative and positive running disparity.
pub open spec fn d4(x: u8) -> (u8, u8) {
    match x {
        0 => (0b1011, 0b0100),
        1 => (0b1001, 0b1001),
        2 => (0b0101, 0b0101),
        3 => (0b1100, 0b0011),
        4 => (0b1101, 0b0010),
        5 => (0b1010, 0b1010),
        6 => (0b0110, 0b0110),
        _ => (0b1110, 0b0001),
    }
}

fn d4_exec(x: u8) -> (r: (u8, u8))
    ensures
        r == d4(x),
{
    match x {
        0 => (0b1011, 0b0100),
        1 => (0b1001, 0b1001),
        2 => (0b0101, 0b0101),
        3 => (0b1100, 0b0011),
        4 => (0b1101, 0b0010),
        5 => (0b1010, 0b1010),
        6 => (0b0110, 0b0110),
        _ => (0b1110, 0b0001),
    }
}

/// 4-bit codes of the control symbols Kx.y by y, for negative and positive running disparity.
pub open spec fn k4(x: u8) -> (u8, u8) {
    match x {
        0 => (0b1011, 0b0100),
        1 => (0b0110, 0b1001),
        2 => (0b1010, 0b0101),
        3 => (0b1100, 0b0011),
        4 => (0b1101, 0b0010),
        5 => (0b0101, 0b1010),
        6 => (0b1001, 0b0110),
        _ => (0b0111, 0b1000),
    }
}

fn k4_exec(x: u8) -> (r: (u8, u8))
    ensures
        r == k4(x),
{
    match x {
        0 => (0b1011, 0b0100),
        1 => (0b0110, 0b1001),
        2 => (0b1010, 0b0101),
        3 => (0b1100, 0b0011),
        4 => (0b1101, 0b0010),
        5 => (0b0101, 0b1010),
        6 => (0b1001, 0b0110),
        _ => (0b0111, 0b1000),
    }
}

/// 6-bit codes of the control symbols Kx.y by x, where one exists.
pub open spec fn k6(x: u8) -> Option<(u8, u8)> {
    match x {
        28 => Some((0b001111, 0b110000)),
        23 => Some((0b111010, 0b000101)),
        27 => Some((0b110110, 0b001001)),
        29 => Some((0b101110, 0b010001)),
        30 => Some((0b011110, 0b100001)),
        _ => None,
    }
}

fn k6_exec(x: u8) -> (r: Option<(u8, u8)>)
    ensures
        r == k6(x),
{
    match x {
        28 => Some((0b001111, 0b110000)),
        23 => Some((0b111010, 0b000101)),
        27 => Some((0b110110, 0b001001)),
        29 => Some((0b101110, 0b010001)),
        30 => Some((0b011110, 0b100001)),
        _ => None,
    }
}

/// Number of one bits among the low `width` bits of `c`.
pub open spec fn ones(c: nat, width: nat) -> nat
    decreases width,
{
    if width == 0 {
        0
    } else {
        ones(c / 2, (width - 1) as nat) + c % 2
    }
}

/// Disparity of a `width`-bit code: ones count +1, zeros count -1.
pub open spec fn disparity_of(c: nat, width: nat) -> int {
    2 * ones(c, width) - width
}

proof fn lemma_ones_bound(c: nat, width: nat)
    ensures
        ones(c, width) <= width,
    decreases width,
{
    if width > 0 {
        lemma_ones_bound(c / 2, (width - 1) as nat);
    }
}

/// Disparity of the low `width` bits of `code`.
pub fn disparity(code: u8, width: u32) -> (r: i32)
    requires
        width <= 8,
    ensures
        r == disparity_of(code as nat, width as nat),
        -(width as int) <= r <= width,
{
    proof {
        lemma_ones_bound(code as nat, width as nat);
    }
    let mut c = code;
    let mut n: i32 = 0;
    let mut i: u32 = 0;
    while i < width
        invariant
            i <= width <= 8,
            n <= i,
            n + ones(c as nat, (width - i) as nat) == ones(code as nat, width as nat),
        decreases width - i,
    {
        if c % 2 == 1 {
            n += 1;
        }
        c = c / 2;
        i += 1;
    }
    2 * n - (width as i32)
}

/// The 10-bit code of a symbol sent with running disparity `rd`, and the
/// running disparity after it; `None` for a control byte that has no code.
pub open spec fn encode_code(byte: u8, k: bool, rd: int) -> Option<(nat, int)> {
    let x = (byte % 32) as u8;
    let y = (byte / 32) as u8;
    let six_opt: Option<u8> = if k {
        match k6(x) {
            Some(p) => Some(if rd < 0 { p.0 } else { p.1 }),
            None => None,
        }
    } else {
        Some(if rd < 0 { d6(x).0 } else { d6(x).1 })
    };
    match six_opt {
        None => None,
        Some(six) => {
            let rd2 = rd + disparity_of(six as nat, 6);
            let four: u8 = if k {
                if rd2 < 0 { k4(y).0 } else { k4(y).1 }
            } else if y == 7 && ((rd2 < 0 && (x == 17 || x == 18 || x == 20)) || (rd2 > 0 && (x == 11
                || x == 13 || x == 14))) {
                // D.x.A7 avoids a run of five equal bits
                if rd2 < 0 { 0b0111u8 } else { 0b1000u8 }
            } else if rd2 < 0 {
                d4(y).0
            } else {
                d4(y).1
            };
            Some((six as nat * 16 + four as nat, rd2 + disparity_of(four as nat, 4)))
        },
    }
}

/// The `width` low bits of `c` as '0'/'1' characters, most significant first.
pub open spec fn code_chars(c: nat, width: nat) -> Seq<char>
    decreases width,
{
    if width == 0 {
        Seq::empty()
    } else {
        code_chars(c / 2, (width - 1) as nat).push(if c % 2 == 1 { '1' } else { '0' })
    }
}

/// The encoding as a bit string.
pub open spec fn encode_spec(byte: u8, k: bool, rd: int) -> Option<(Seq<char>, int)> {
    match encode_code(byte, k, rd) {
        Some((c, rd3)) => Some((code_chars(c, 10), rd3)),
        None => None,
    }
}

fn encode_code_exec(byte: u8, k: bool, rd: i32) -> (r: Option<(u16, i32)>)
    requires
        i32::MIN + 10 <= rd <= i32::MAX - 10,
    ensures
        match (r, encode_code(byte, k, rd as int)) {
            (Some((c, rd3)), Some((cs, rds))) => c == cs && rd3 == rds,
            (None, None) => true,
            _ => false,
        },
{
    let x = byte & 0x1F;
    let y = byte >> 5;
    assert(x == byte % 32 && y == byte / 32) by (bit_vector)
        requires
            x == byte & 0x1F,
            y == byte >> 5,
    ;
    let six = if k {
        match k6_exec(x) {
            Some(p) => if rd < 0 { p.0 } else { p.1 },
            None => {
                return None;
            },
        }
    } else if rd < 0 {
        d6_exec(x).0
    } else {
        d6_exec(x).1
    };
    let mut rd2 = rd;
    let d6v = disparity(six, 6);
    if d6v != 0 {
        rd2 += d6v;
    }
    let four: u8 = if k {
        if rd2 < 0 { k4_exec(y).0 } else { k4_exec(y).1 }
    } else if y == 7 && ((rd2 < 0 && (x == 17 || x == 18 || x == 20)) || (rd2 > 0 && (x == 11 || x == 13
        || x == 14))) {
        if rd2 < 0 { 0b0111 } else { 0b1000 }
    } else if rd2 < 0 {
        d4_exec(y).0
    } else {
        d4_exec(y).1
    };
    let mut rd3 = rd2;
    let d4v = disparity(four, 4);
    if d4v != 0 {
        rd3 += d4v;
    }
    Some(((six as u16) * 16 + (four as u16), rd3))
}

fn push_code(s: &mut String, c: u16, width: u32)
    ensures
        final(s)@ == old(s)@ + code_chars(c as nat, width as nat),
    decreases width,
{
    if width > 0 {
        push_code(s, c / 2, width - 1);
        push_char(s, if c % 2 == 1 { '1' } else { '0' });
    }
}

/// Encodes one symbol (used to build the decoding table): the 10-bit string
/// and the new running disparity.
pub fn encode(byte: u8, k: bool, rd: i32) -> (r: Option<(String, i32)>)
    requires
        i32::MIN + 10 <= rd <= i32::MAX - 10,
    ensures
        match (r, encode_spec(byte, k, rd as int)) {
            (Some((s, rd3)), Some((cs, rds))) => s@ == cs && rd3 == rds,
            (None, None) => true,
            _ => false,
        },
{
    match encode_code_exec(byte, k, rd) {
        Some((c, rd3)) => {
            let mut s = String::new();
            push_code(&mut s, c, 10);
            Some((s, rd3))
        },
        None => None,
    }
}

/// The `i`-th symbol entered into the decoding table: every data byte and
/// every valid control symbol (K28.0..K28.7, K23.7, K27.7, K29.7, K30.7),
/// first with negative, then with positive running disparity.
pub open spec fn table_item(i: nat) -> (u8, bool, int) {
    let rd: int = if i < 268 { -1 } else { 1 };
    let j = i % 268;
    if j < 256 {
        (j as u8, false, rd)
    } else if j < 264 {
        (((j - 256) * 32 + 28) as u8, true, rd)
    } else if j == 264 {
        (0xF7u8, true, rd)
    } else if j == 265 {
        (0xFBu8, true, rd)
    } else if j == 266 {
        (0xFDu8, true, rd)
    } else {
        (0xFEu8, true, rd)
    }
}

/// Number of symbols entered into the decoding table.
pub open spec fn table_items() -> nat {
    536
}

/// The decoding table after entering the first `n` symbols: every 10-bit
/// code maps to the last symbol entered with that code.
pub open spec fn table_after(n: nat) -> Seq<Option<(u8, bool)>>
    decreases n,
{
    if n == 0 {
        Seq::new(1024, |_i: int| None)
    } else {
        let prev = table_after((n - 1) as nat);
        let (b, k, rd) = table_item((n - 1) as nat);
        match encode_code(b, k, rd) {
            Some((c, _)) => prev.update(c as int, Some((b, k))),
            None => prev,
        }
    }
}

/// The complete decoding table.
pub open spec fn decode_table() -> Seq<Option<(u8, bool)>> {
    table_after(table_items())
}

/// The value of a string of ten '0'/'1' characters, most significant first.
pub open spec fn code_value(s: Seq<char>) -> Option<nat> {
    if s.len() == 10 && (forall|i: int| 0 <= i < 10 ==> #[trigger] s[i] == '0' || s[i] == '1') {
        Some(bits_chars_value(s))
    } else {
        None
    }
}

pub open spec fn bits_chars_value(s: Seq<char>) -> nat
    decreases s.len(),
{
    if s.len() == 0 {
        0
    } else {
        2 * bits_chars_value(s.drop_last()) + if s.last() == '1' { 1nat } else { 0nat }
    }
}

/// Maps received 10-bit codes to (byte, is control symbol).
pub struct DecodeTable {
    entries: HashMap<u16, (u8, bool)>,
}

/// The entries of a map from 10-bit code values, as a sequence over all of them.
pub open spec fn map_table(m: Map<u16, (u8, bool)>) -> Seq<Option<(u8, bool)>> {
    Seq::new(1024, |i: int| if m.contains_key(i as u16) { Some(m[i as u16]) } else { None })
}

impl View for DecodeTable {
    type V = Seq<Option<(u8, bool)>>;

    closed spec fn view(&self) -> Seq<Option<(u8, bool)>> {
        map_table(self.entries@)
    }
}

fn item_exec(i: usize) -> (r: (u8, bool, i32))
    requires
        i < 536,
    ensures
        r.0 == table_item(i as nat).0,
        r.1 == table_item(i as nat).1,
        r.2 as int == table_item(i as nat).2,
{
    let rd: i32 = if i < 268 { -1 } else { 1 };
    let j = i % 268;
    if j < 256 {
        (j as u8, false, rd)
    } else if j < 264 {
        (((j - 256) * 32 + 28) as u8, true, rd)
    } else if j == 264 {
        (0xF7, true, rd)
    } else if j == 265 {
        (0xFB, true, rd)
    } else if j == 266 {
        (0xFD, true, rd)
    } else {
        (0xFE, true, rd)
    }
}

proof fn lemma_code_below_1024(byte: u8, k: bool, rd: int)
    ensures
        match encode_code(byte, k, rd) {
            Some((c, _)) => c < 1024,
            None => true,
        },
{
}

/// 10 位代码 -> (字节, 是否 K 码)
pub fn build_decode_table() -> (t: DecodeTable)
    ensures
        t@ == decode_table(),
        t@.len() == 1024,
{
    broadcast use vstd::std_specs::hash::group_hash_axioms;
    let mut entries: HashMap<u16, (u8, bool)> = HashMap::new();
    assert(map_table(entries@) =~= table_after(0));
    let mut i: usize = 0;
    while i < 536
        invariant
            i <= 536,
            map_table(entries@) == table_after(i as nat),
            table_after(i as nat).len() == 1024,
        decreases 536 - i,
    {
        let (b, k, rd) = item_exec(i);
        match encode_code_exec(b, k, rd) {
            Some((code, _)) => {
                let ghost before = entries@;
                assert(code < 1024) by {
                    lemma_code_below_1024(b, k, rd as int);
                }
                entries.insert(code, (b, k));
                assert(map_table(entries@) =~= map_table(before).update(code as int, Some((b, k))));
            },
            None => {},
        }
        i += 1;
    }
    DecodeTable { entries }
}

impl DecodeTable {
    /// The symbol with a given 10-bit code value.
    pub fn lookup(&self, code: u16) -> (r: Option<(u8, bool)>)
        requires
            self@.len() == 1024,
            code < 1024,
        ensures
            r == self@[code as int],
    {
        broadcast use vstd::std_specs::hash::group_hash_axioms;
        match self.entries.get(&code) {
            Some(v) => Some(*v),
            None => None,
        }
    }

    /// The symbol whose code is the given bit string; `None` for a string that
    /// is not ten '0'/'1' characters or not a code of the table.
    pub fn get(&self, code: &str) -> (r: Option<(u8, bool)>)
        requires
            self@.len() == 1024,
        ensures
            r == (match code_value(code@) {
                Some(c) => self@[c as int],
                None => None,
            }),
    {
        let cs = chars_of(code);
        if cs.len() != 10 {
            return None;
        }
        let mut v: u16 = 0;
        let mut i: usize = 0;
        while i < 10
            invariant
                i <= 10,
                cs.len() == 10,
                cs@ == code@,
                forall|j: int| 0 <= j < i ==> #[trigger] cs@[j] == '0' || cs@[j] == '1',
                v == bits_chars_value(cs@.take(i as int)),
                v < pow2_10(i as nat),
            decreases 10 - i,
        {
            let ch = cs[i];
            if ch != '0' && ch != '1' {
                assert(!(forall|j: int| 0 <= j < 10 ==> #[trigger] code@[j] == '0' || code@[j] == '1'));
                return None;
            }
            proof {
                assert(cs@.take(i + 1).drop_last() =~= cs@.take(i as int));
                lemma_pow2_10(i as nat);
            }
            v = v * 2 + if ch == '1' { 1u16 } else { 0u16 };
            i += 1;
        }
        assert(cs@.take(10) =~= cs@);
        proof {
            lemma_pow2_10(9);
        }
        self.lookup(v)
    }
}

spec fn pow2_10(n: nat) -> nat
    decreases n,
{
    if n == 0 {
        1
    } else {
        2 * pow2_10((n - 1) as nat)
    }
}

proof fn lemma_pow2_10(n: nat)
    requires
        n < 10,
    ensures
        pow2_10(n + 1) == 2 * pow2_10(n),
        pow2_10(n) <= 512,
{
    assert(pow2_10(0) == 1);
    assert(pow2_10(1) == 2);
    assert(pow2_10(2) == 4);
    assert(pow2_10(3) == 8);
    assert(pow2_10(4) == 16);
    assert(pow2_10(5) == 32);
    assert(pow2_10(6) == 64);
    assert(pow2_10(7) == 128);
    assert(pow2_10(8) == 256);
    assert(pow2_10(9) == 512);
}

/// The control symbols of the table: K28.0 to K28.7, K23.7, K27.7, K29.7 and K30.7.
pub open spec fn valid_k(byte: u8) -> bool {
    byte % 32 == 28 || byte == 0xF7u8 || byte == 0xFBu8 || byte == 0xFDu8 || byte == 0xFEu8
}

/// The 10-bit code of a symbol sent with running disparity `rd`.
#[verifier::opaque]
pub open spec fn code_of(byte: u8, k: bool, rd: int) -> Option<nat> {
    match encode_code(byte, k, rd) {
        Some((c, _)) => Some(c),
        None => None,
    }
}

/// `(b, k)` is a symbol of the table that encodes to `c` with running
/// disparity -1 or +1.
pub open spec fn is_code_of(c: int, b: u8, k: bool) -> bool {
    &&& (k ==> valid_k(b))
    &&& exists|rd: int| (rd == -1 || rd == 1) && #[trigger] code_of(b, k, rd) == Some(c as nat)
}

#[verifier::rlimit(40)]
proof fn lemma_table_after_entries(n: nat, c: int)
    requires
        n <= table_items(),
        0 <= c < 1024,
    ensures
        table_after(n).len() == 1024,
        match table_after(n)[c] {
            Some((b, k)) => is_code_of(c, b, k),
            None => true,
        },
    decreases n,
{
    if n > 0 {
        lemma_table_after_entries((n - 1) as nat, c);
        reveal(code_of);
        let (b, k, rd) = table_item((n - 1) as nat);
        assert(rd == -1 || rd == 1);
        assert(k ==> valid_k(b));
        match encode_code(b, k, rd) {
            Some((cc, _)) => {
                if cc == c {
                    assert(code_of(b, k, rd) == Some(c as nat));
                }
            },
            None => {},
        }
    }
}

/// Every entry of the table is the code of the symbol it gives: the table
/// never reads a code as a symbol that does not encode to it.
pub proof fn lemma_table_entries_are_codes(c: int)
    requires
        0 <= c < 1024,
    ensures
        match decode_table()[c] {
            Some((b, k)) => is_code_of(c, b, k),
            None => true,
        },
{
    lemma_table_after_entries(table_items(), c);
}

/// What a 6-bit code stands for: the x of Dx.y / Kx.y, and whether it is the
/// code that only K28 uses.
pub open spec fn inv6(six: u8) -> Option<(u8, bool)> {
    match six {
        0b000101 => Some((23u8, false)),
        0b000110 => Some((8u8, false)),
        0b000111 => Some((7u8, false)),
        0b001001 => Some((27u8, false)),
        0b001010 => Some((4u8, false)),
        0b001011 => Some((20u8, false)),
        0b001100 => Some((24u8, false)),
        0b001101 => Some((12u8, false)),
        0b001110 => Some((28u8, false)),
        0b010001 => Some((29u8, false)),
        0b010010 => Some((2u8, false)),
        0b010011 => Some((18u8, false)),
        0b010100 => Some((31u8, false)),
        0b010101 => Some((10u8, false)),
        0b010110 => Some((26u8, false)),
        0b010111 => Some((15u8, false)),
        0b011000 => Some((0u8, false)),
        0b011001 => Some((6u8, false)),
        0b011010 => Some((22u8, false)),
        0b011011 => Some((16u8, false)),
        0b011100 => Some((14u8, false)),
        0b011101 => Some((1u8, false)),
        0b011110 => Some((30u8, false)),
        0b100001 => Some((30u8, false)),
        0b100010 => Some((1u8, false)),
        0b100011 => Some((17u8, false)),
        0b100100 => Some((16u8, false)),
        0b100101 => Some((9u8, false)),
        0b100110 => Some((25u8, false)),
        0b100111 => Some((0u8, false)),
        0b101000 => Some((15u8, false)),
        0b101001 => Some((5u8, false)),
        0b101010 => Some((21u8, false)),
        0b101011 => Some((31u8, false)),
        0b101100 => Some((13u8, false)),
        0b101101 => Some((2u8, false)),
        0b101110 => Some((29u8, false)),
        0b110001 => Some((3u8, false)),
        0b110010 => Some((19u8, false)),
        0b110011 => Some((24u8, false)),
        0b110100 => Some((11u8, false)),
        0b110101 => Some((4u8, false)),
        0b110110 => Some((27u8, false)),
        0b111000 => Some((7u8, false)),
        0b111001 => Some((8u8, false)),
        0b111010 => Some((23u8, false)),
        0b001111 => Some((28u8, true)),
        0b110000 => Some((28u8, true)),
        _ => None,
    }
}

/// The y of Dx.y that a 4-bit code stands for (either disparity, and the
/// alternate codes of D.x.A7).
pub open spec fn inv4_data(four: u8) -> Option<u8> {
    match four {
        0b1011 | 0b0100 => Some(0u8),
        0b1001 => Some(1u8),
        0b0101 => Some(2u8),
        0b1100 | 0b0011 => Some(3u8),
        0b1101 | 0b0010 => Some(4u8),
        0b1010 => Some(5u8),
        0b0110 => Some(6u8),
        0b1110 | 0b0001 | 0b0111 | 0b1000 => Some(7u8),
        _ => None,
    }
}

/// The y of K28.y that a 4-bit code stands for after the 6-bit code `six`
/// (which fixes the running disparity the 4-bit code was chosen by).
pub open spec fn inv4_k28(six: u8, four: u8) -> Option<u8> {
    if six == 0b001111 {
        match four {
            0b0100 => Some(0u8),
            0b1001 => Some(1u8),
            0b0101 => Some(2u8),
            0b0011 => Some(3u8),
            0b0010 => Some(4u8),
            0b1010 => Some(5u8),
            0b0110 => Some(6u8),
            0b1000 => Some(7u8),
            _ => None,
        }
    } else {
        match four {
            0b1011 => Some(0u8),
            0b0110 => Some(1u8),
            0b1010 => Some(2u8),
            0b1100 => Some(3u8),
            0b1101 => Some(4u8),
            0b0101 => Some(5u8),
            0b1001 => Some(6u8),
            0b0111 => Some(7u8),
            _ => None,
        }
    }
}

/// The symbol a 10-bit code stands for, read from its 6-bit and 4-bit parts.
#[verifier::opaque]
pub open spec fn decode_code(c: nat) -> Option<(u8, bool)> {
    let six = (c / 16) as u8;
    let four = (c % 16) as u8;
    match inv6(six) {
        None => None,
        Some((_, true)) => match inv4_k28(six, four) {
            Some(y) => Some(((y * 32 + 28) as u8, true)),
            None => None,
        },
        Some((x, false)) => if (x == 23 || x == 27 || x == 29 || x == 30) && (four == 0b0111 || four == 0b1000) {
            Some(((224 + x) as u8, true))
        } else {
            match inv4_data(four) {
                Some(y) => Some(((y * 32 + x) as u8, false)),
                None => None,
            }
        },
    }
}

/// The 6-bit code of a data symbol is read back, and the running disparity
/// after it is -1 or +1.
#[verifier::spinoff_prover]
#[verifier::rlimit(80)]
proof fn lemma_six_data(x: u8, rd: int)
    requires
        x < 32,
        rd == -1 || rd == 1,
    ensures
        ({
            let six = if rd < 0 { d6(x).0 } else { d6(x).1 };
            &&& six < 64
            &&& inv6(six) == Some((x, false))
            &&& (rd + disparity_of(six as nat, 6) == -1 || rd + disparity_of(six as nat, 6) == 1)
        }),
{
    reveal_with_fuel(ones, 7);
}

/// The 4-bit code of a data symbol is read back; the codes 0111 and 1000
/// occur only as the alternate D.x.A7.
proof fn lemma_four_data(x: u8, y: u8, rd2: int)
    requires
        x < 32,
        y < 8,
        rd2 == -1 || rd2 == 1,
    ensures
        ({
            let four: u8 = if y == 7 && ((rd2 < 0 && (x == 17 || x == 18 || x == 20)) || (rd2 > 0 && (x == 11
                || x == 13 || x == 14))) {
                if rd2 < 0 { 0b0111u8 } else { 0b1000u8 }
            } else if rd2 < 0 {
                d4(y).0
            } else {
                d4(y).1
            };
            &&& four < 16
            &&& inv4_data(four) == Some(y)
            &&& ((four == 0b0111 || four == 0b1000) ==> (x == 17 || x == 18 || x == 20 || x == 11 || x == 13 || x == 14))
        }),
{
}

proof fn lemma_k28_disparity()
    ensures
        disparity_of(0b001111nat, 6) == 2,
        disparity_of(0b110000nat, 6) == -2,
{
    reveal_with_fuel(ones, 7);
}

/// K28.y is read back from its code.
proof fn lemma_decode_k28(y: u8, rd: int)
    requires
        y < 8,
        rd == -1 || rd == 1,
    ensures
        code_of((y * 32 + 28) as u8, true, rd) is Some,
        code_of((y * 32 + 28) as u8, true, rd)->0 < 1024,
        decode_code(code_of((y * 32 + 28) as u8, true, rd)->0) == Some(((y * 32 + 28) as u8, true)),
{
    reveal(code_of);
    reveal(decode_code);
    let byte = (y * 32 + 28) as u8;
    assert(byte % 32 == 28 && byte / 32 == y);
    let six: u8 = if rd < 0 { 0b001111 } else { 0b110000 };
    lemma_k28_disparity();
    let rd2 = rd + disparity_of(six as nat, 6);
    assert(rd2 == -rd);
    let four: u8 = if rd2 < 0 { k4(y).0 } else { k4(y).1 };
    let c = six as nat * 16 + four as nat;
    assert(code_of(byte, true, rd) == Some(c));
    assert(c / 16 == six as nat && c % 16 == four as nat);
    assert(inv6(six) == Some((28u8, true)));
    assert(inv4_k28(six, four) == Some(y));
}

/// K23.7, K27.7, K29.7 and K30.7 are read back from their codes.
proof fn lemma_decode_kx7(x: u8, rd: int)
    requires
        x == 23 || x == 27 || x == 29 || x == 30,
        rd == -1 || rd == 1,
    ensures
        code_of((224 + x) as u8, true, rd) is Some,
        code_of((224 + x) as u8, true, rd)->0 < 1024,
        decode_code(code_of((224 + x) as u8, true, rd)->0) == Some(((224 + x) as u8, true)),
{
    reveal(code_of);
    reveal(decode_code);
    let byte = (224 + x) as u8;
    assert(byte % 32 == x && byte / 32 == 7);
    let six: u8 = if rd < 0 { d6(x).0 } else { d6(x).1 };
    assert(k6(x) == Some(d6(x)));
    lemma_six_data(x, rd);
    let rd2 = rd + disparity_of(six as nat, 6);
    let four: u8 = if rd2 < 0 { 0b0111u8 } else { 0b1000u8 };
    assert(k4(7) == (0b0111u8, 0b1000u8));
    let c = six as nat * 16 + four as nat;
    assert(code_of(byte, true, rd) == Some(c));
    assert(c / 16 == six as nat && c % 16 == four as nat);
}

/// A control symbol of the table is read back from its code.
proof fn lemma_decode_k(byte: u8, rd: int)
    requires
        valid_k(byte),
        rd == -1 || rd == 1,
    ensures
        code_of(byte, true, rd) is Some,
        code_of(byte, true, rd)->0 < 1024,
        decode_code(code_of(byte, true, rd)->0) == Some((byte, true)),
{
    if byte % 32 == 28 {
        let y = (byte / 32) as u8;
        assert(byte == y * 32 + 28);
        lemma_decode_k28(y, rd);
    } else {
        let x = (byte - 224) as u8;
        lemma_decode_kx7(x, rd);
    }
}

/// A data symbol is read back from its code.
proof fn lemma_decode_data(byte: u8, rd: int)
    requires
        rd == -1 || rd == 1,
    ensures
        code_of(byte, false, rd) is Some,
        code_of(byte, false, rd)->0 < 1024,
        decode_code(code_of(byte, false, rd)->0) == Some((byte, false)),
{
    reveal(code_of);
    reveal(decode_code);
    let x = (byte % 32) as u8;
    let y = (byte / 32) as u8;
    assert(byte == y * 32 + x);
    let six: u8 = if rd < 0 { d6(x).0 } else { d6(x).1 };
    lemma_six_data(x, rd);
    let rd2 = rd + disparity_of(six as nat, 6);
    lemma_four_data(x, y, rd2);
    let c = code_of(byte, false, rd)->0;
    let four: u8 = if y == 7 && ((rd2 < 0 && (x == 17 || x == 18 || x == 20)) || (rd2 > 0 && (x == 11 || x == 13
        || x == 14))) {
        if rd2 < 0 { 0b0111u8 } else { 0b1000u8 }
    } else if rd2 < 0 {
        d4(y).0
    } else {
        d4(y).1
    };
    assert(c == six as nat * 16 + four as nat);
    assert(c / 16 == six as nat && c % 16 == four as nat);
}

proof fn lemma_table_after_present(n: nat, i: nat, c: nat)
    requires
        i < n <= table_items(),
        c < 1024,
        code_of(table_item(i).0, table_item(i).1, table_item(i).2) == Some(c),
    ensures
        table_after(n)[c as int] is Some,
    decreases n,
{
    lemma_table_after_entries((n - 1) as nat, c as int);
    reveal(code_of);
    if i < n - 1 {
        lemma_table_after_present((n - 1) as nat, i, c);
    }
}

#[verifier::spinoff_prover]
#[verifier::rlimit(60)]
proof fn lemma_item_present(byte: u8, k: bool, rd: int, c: nat)
    requires
        rd == -1 || rd == 1,
        k ==> valid_k(byte),
        c < 1024,
        code_of(byte, k, rd) == Some(c),
    ensures
        decode_table()[c as int] is Some,
{
    let base: nat = if rd < 0 { 0 } else { 268 };
    let j: nat = if !k {
        byte as nat
    } else if byte % 32 == 28 {
        256 + (byte / 32) as nat
    } else if byte == 0xF7u8 {
        264
    } else if byte == 0xFBu8 {
        265
    } else if byte == 0xFDu8 {
        266
    } else {
        267
    };
    assert(table_item(base + j) == (byte, k, rd));
    lemma_table_after_present(table_items(), base + j, c);
}

/// Decoding undoes encoding: the code of every data symbol, and of every
/// control symbol of the table, sent with either running disparity, is
/// found in the table under that symbol.
#[verifier::spinoff_prover]
#[verifier::rlimit(60)]
pub proof fn lemma_decode_encode(byte: u8, k: bool, rd: int)
    requires
        rd == -1 || rd == 1,
        k ==> valid_k(byte),
    ensures
        code_of(byte, k, rd) is Some,
        code_of(byte, k, rd)->0 < 1024,
        decode_table()[code_of(byte, k, rd)->0 as int] == Some((byte, k)),
{
    if k {
        lemma_decode_k(byte, rd);
    } else {
        lemma_decode_data(byte, rd);
    }
    let c = code_of(byte, k, rd)->0;
    lemma_item_present(byte, k, rd, c);
    lemma_table_entries_are_codes(c as int);
    let (b2, k2) = decode_table()[c as int]->0;
    let rd2 = choose|rd2: int| (rd2 == -1 || rd2 == 1) && #[trigger] code_of(b2, k2, rd2) == Some(c);
    if k2 {
        lemma_decode_k(b2, rd2);
    } else {
        lemma_decode_data(b2, rd2);
    }
}

proof fn lemma_code_chars_value(c: nat, width: nat)
    requires
        c < pow2_10(width),
    ensures
        code_chars(c, width).len() == width,
        forall|i: int| 0 <= i < width ==> #[trigger] code_chars(c, width)[i] == '0' || code_chars(c, width)[i] == '1',
        bits_chars_value(code_chars(c, width)) == c,
    decreases width,
{
    if width > 0 {
        lemma_code_chars_value(c / 2, (width - 1) as nat);
        let s = code_chars(c, width);
        assert(s.drop_last() =~= code_chars(c / 2, (width - 1) as nat));
        assert forall|i: int| 0 <= i < width implies #[trigger] s[i] == '0' || s[i] == '1' by {
            if i < width - 1 {
                assert(s[i] == s.drop_last()[i]);
            }
        }
    }
}

/// The bit string that [`encode`] writes for a symbol of the table, with
/// either running disparity, is looked up by [`DecodeTable::get`] as that symbol.
pub proof fn lemma_get_encoded(byte: u8, k: bool, rd: int)
    requires
        rd == -1 || rd == 1,
        k ==> valid_k(byte),
    ensures
        match encode_spec(byte, k, rd) {
            Some((s, _)) => match code_value(s) {
                Some(c) => decode_table()[c as int] == Some((byte, k)),
                None => false,
            },
            None => false,
        },
{
    lemma_decode_encode(byte, k, rd);
    reveal(code_of);
    let c = code_of(byte, k, rd)->0;
    assert(pow2_10(10) == 1024) by {
        reveal_with_fuel(pow2_10, 11);
    }
    lemma_code_chars_value(c, 10);
}

/// The sum of a bit string with +1 for each '1' and -1 for any other
/// character: the disparity of a written code.
pub open spec fn chars_disparity(s: Seq<char>) -> int
    decreases s.len(),
{
    if s.len() == 0 {
        0
    } else {
        chars_disparity(s.drop_last()) + if s.last() == '1' {
            1int
        } else {
            -1int
        }
    }
}

proof fn lemma_chars_disparity_code(c: nat, width: nat)
    ensures
        chars_disparity(code_chars(c, width)) == disparity_of(c, width),
    decreases width,
{
    if width > 0 {
        lemma_chars_disparity_code(c / 2, (width - 1) as nat);
        assert(code_chars(c, width).drop_last() =~= code_chars(c / 2, (width - 1) as nat));
    }
}

proof fn lemma_ones_split(six: nat, four: nat)
    requires
        six < 64,
        four < 16,
    ensures
        ones(six * 16 + four, 10) == ones(six, 6) + ones(four, 4),
{
    reveal_with_fuel(ones, 5);
    let c = six * 16 + four;
    assert(c % 2 == four % 2 && c / 2 == six * 8 + four / 2);
    let c1 = c / 2;
    assert(c1 % 2 == (four / 2) % 2 && c1 / 2 == six * 4 + four / 4);
    let c2 = c1 / 2;
    assert(c2 % 2 == (four / 4) % 2 && c2 / 2 == six * 2 + four / 8);
    let c3 = c2 / 2;
    assert(c3 % 2 == (four / 8) % 2 && c3 / 2 == six);
    assert(four / 16 == 0);
}

/// The 4-bit code keeps the running disparity at -1 or +1.
proof fn lemma_four_disparity(x: u8, y: u8, rd2: int, k: bool)
    requires
        y < 8,
        rd2 == -1 || rd2 == 1,
    ensures
        ({
            let four: u8 = if k {
                if rd2 < 0 { k4(y).0 } else { k4(y).1 }
            } else if y == 7 && ((rd2 < 0 && (x == 17 || x == 18 || x == 20)) || (rd2 > 0 && (x == 11 || x == 13
                || x == 14))) {
                if rd2 < 0 { 0b0111u8 } else { 0b1000u8 }
            } else if rd2 < 0 {
                d4(y).0
            } else {
                d4(y).1
            };
            rd2 + disparity_of(four as nat, 4) == -1 || rd2 + disparity_of(four as nat, 4) == 1
        }),
{
    reveal_with_fuel(ones, 5);
}

/// The code of a symbol and the running disparity after it, read from
/// [`encode_code`]: the disparity of the whole code moves -1 or +1 to -1 or +1.
#[verifier::spinoff_prover]
#[verifier::rlimit(80)]
proof fn lemma_encode_code_disparity(byte: u8, k: bool, rd: int)
    requires
        rd == -1 || rd == 1,
    ensures
        (encode_code(byte, k, rd) is None) <==> (k && !(byte % 32 == 23 || byte % 32 == 27 || byte % 32 == 28
            || byte % 32 == 29 || byte % 32 == 30)),
        match encode_code(byte, k, rd) {
            Some((c, rd3)) => c < 1024 && rd3 == rd + disparity_of(c, 10) && (rd3 == -1 || rd3 == 1),
            None => true,
        },
{
    let x = (byte % 32) as u8;
    let y = (byte / 32) as u8;
    if k && k6(x) is None {
        return;
    }
    let six: u8 = if k {
        match k6(x) {
            Some(p) => if rd < 0 { p.0 } else { p.1 },
            None => 0,
        }
    } else if rd < 0 {
        d6(x).0
    } else {
        d6(x).1
    };
    if k && x == 28 {
        lemma_k28_disparity();
    } else {
        if k {
            assert(k6(x) == Some(d6(x)));
        }
        lemma_six_data(x, rd);
    }
    let rd2 = rd + disparity_of(six as nat, 6);
    lemma_four_disparity(x, y, rd2, k);
    let four: u8 = if k {
        if rd2 < 0 { k4(y).0 } else { k4(y).1 }
    } else if y == 7 && ((rd2 < 0 && (x == 17 || x == 18 || x == 20)) || (rd2 > 0 && (x == 11 || x == 13
        || x == 14))) {
        if rd2 < 0 { 0b0111u8 } else { 0b1000u8 }
    } else if rd2 < 0 {
        d4(y).0
    } else {
        d4(y).1
    };
    assert(encode_code(byte, k, rd) == Some((six as nat * 16 + four as nat, rd2 + disparity_of(four as nat, 4))));
    lemma_ones_split(six as nat, four as nat);
}

/// Every symbol with a 6-bit code is encoded as ten '0'/'1' characters whose
/// disparity moves the running disparity from -1 or +1 to -1 or +1; only a
/// control symbol whose x is none of 23, 27, 28, 29, 30 has no code.
pub proof fn lemma_encode_shape(byte: u8, k: bool, rd: int)
    requires
        rd == -1 || rd == 1,
    ensures
        (encode_spec(byte, k, rd) is None) <==> (k && !(byte % 32 == 23 || byte % 32 == 27 || byte % 32 == 28
            || byte % 32 == 29 || byte % 32 == 30)),
        match encode_spec(byte, k, rd) {
            Some((s, rd2)) => {
                &&& s.len() == 10
                &&& forall|i: int| 0 <= i < 10 ==> #[trigger] s[i] == '0' || s[i] == '1'
                &&& rd2 == rd + chars_disparity(s)
                &&& (rd2 == -1 || rd2 == 1)
            },
            None => true,
        },
{
    lemma_encode_code_disparity(byte, k, rd);
    match encode_code(byte, k, rd) {
        Some((c, rd3)) => {
            lemma_chars_disparity_code(c, 10);
            assert(pow2_10(10) == 1024) by {
                reveal_with_fuel(pow2_10, 11);
            }
            lemma_code_chars_value(c, 10);
        },
        None => {},
    }
}

} // verus!
