//! Text of the link-layer and transaction-layer packets: control symbol
//! names, TLP headers and DLLPs.
use vstd::prelude::*;
use crate::text::{dec_chars, hex_chars, hex_pad, push_dec, push_hex, push_str};

verus! {

pub const K_COM: u8 = 0xBC; // K28.5
pub const K_SKP: u8 = 0x1C; // K28.0
pub const K_STP: u8 = 0xFB; // K27.7
pub const K_SDP: u8 = 0x5C; // K28.2
pub const K_END: u8 = 0xFD; // K29.7
pub const K_EDB: u8 = 0xFE; // K30.7
pub const K_PAD: u8 = 0xF7; // K23.7
pub const K_FTS: u8 = 0x3C; // K28.1
pub const K_IDL: u8 = 0x7C; // K28.3

/// Name of a control symbol.
pub open spec fn k_name_spec(b: u8) -> Seq<char> {
    if b == K_COM {
        "COM"@
    } else if b == K_SKP {
        "SKP"@
    } else if b == K_STP {
        "STP"@
    } else if b == K_SDP {
        "SDP"@
    } else if b == K_END {
        "END"@
    } else if b == K_EDB {
        "EDB"@
    } else if b == K_PAD {
        "PAD"@
    } else if b == K_FTS {
        "FTS"@
    } else if b == K_IDL {
        "IDL"@
    } else {
        "K?"@
    }
}

pub fn k_name(b: u8) -> (r: &'static str)
    ensures
        r@ == k_name_spec(b),
{
    if b == K_COM {
        "COM"
    } else if b == K_SKP {
        "SKP"
    } else if b == K_STP {
        "STP"
    } else if b == K_SDP {
        "SDP"
    } else if b == K_END {
        "END"
    } else if b == K_EDB {
        "EDB"
    } else if b == K_PAD {
        "PAD"
    } else if b == K_FTS {
        "FTS"
    } else if b == K_IDL {
        "IDL"
    } else {
        "K?"
    }
}

/// Value of bytes read most significant first.
pub open spec fn be_value(s: Seq<u8>) -> nat
    decreases s.len(),
{
    if s.len() == 0 {
        0
    } else {
        256 * be_value(s.drop_last()) + s.last() as nat
    }
}

pub open spec fn pow256(n: nat) -> nat
    decreases n,
{
    if n == 0 {
        1
    } else {
        256 * pow256((n - 1) as nat)
    }
}

proof fn lemma_be_value_bound(s: Seq<u8>)
    ensures
        be_value(s) < pow256(s.len()),
    decreases s.len(),
{
    if s.len() > 0 {
        lemma_be_value_bound(s.drop_last());
    }
}

/// The big-endian value of `n` bytes of `h` starting at `start`.
pub fn be_bytes(h: &[u8], start: usize, n: usize) -> (r: u64)
    requires
        n <= 8,
        start + n <= h.len(),
    ensures
        r == be_value(h@.subrange(start as int, start + n)),
{
    let mut v: u64 = 0;
    let mut i: usize = 0;
    while i < n
        invariant
            i <= n <= 8,
            start + n <= h.len(),
            v == be_value(h@.subrange(start as int, start + i)),
        decreases n - i,
    {
        proof {
            assert(h@.subrange(start as int, start + i + 1).drop_last() =~= h@.subrange(start as int, start + i));
            lemma_be_value_bound(h@.subrange(start as int, start + i));
            lemma_pow256_small(i as nat);
        }
        v = v * 256 + h[start + i] as u64;
        i += 1;
    }
    v
}

proof fn lemma_pow256_small(n: nat)
    requires
        n < 8,
    ensures
        pow256(n) <= 0x100_0000_0000_0000,
{
    assert(pow256(0) == 1);
    assert(pow256(1) == 0x100);
    assert(pow256(2) == 0x1_0000);
    assert(pow256(3) == 0x100_0000);
    assert(pow256(4) == 0x1_0000_0000);
    assert(pow256(5) == 0x100_0000_0000);
    assert(pow256(6) == 0x1_0000_0000_0000);
    assert(pow256(7) == 0x100_0000_0000_0000);
}

/// Name of a TLP kind: `fmt` bit 1 says whether data follows, bit 0 whether
/// the header has four double words.
pub open spec fn tlp_type_name_spec(fmt: u8, typ: u8) -> Seq<char> {
    let with_data = (fmt / 2) % 2 == 1;
    let four_dw = fmt % 2 == 1;
    let base = if typ == 0x00 {
        if with_data { "MWr"@ } else { "MRd"@ }
    } else if typ == 0x01 {
        "MRdLk"@
    } else if typ == 0x02 {
        if with_data { "IOWr"@ } else { "IORd"@ }
    } else if typ == 0x04 {
        if with_data { "CfgWr0"@ } else { "CfgRd0"@ }
    } else if typ == 0x05 {
        if with_data { "CfgWr1"@ } else { "CfgRd1"@ }
    } else if typ == 0x0A {
        if with_data { "CplD"@ } else { "Cpl"@ }
    } else if typ == 0x0B {
        if with_data { "CplDLk"@ } else { "CplLk"@ }
    } else if 0x10 <= typ <= 0x17 {
        if with_data { "MsgD"@ } else { "Msg"@ }
    } else {
        "TLP?"@
    };
    if typ == 0x00 || typ == 0x01 {
        base + if four_dw { "64"@ } else { "32"@ }
    } else {
        base
    }
}

pub fn tlp_type_name(fmt: u8, typ: u8) -> (r: String)
    ensures
        r@ == tlp_type_name_spec(fmt, typ),
{
    let with_data = (fmt / 2) % 2 == 1;
    let four_dw = fmt % 2 == 1;
    let base = if typ == 0x00 {
        if with_data { "MWr" } else { "MRd" }
    } else if typ == 0x01 {
        "MRdLk"
    } else if typ == 0x02 {
        if with_data { "IOWr" } else { "IORd" }
    } else if typ == 0x04 {
        if with_data { "CfgWr0" } else { "CfgRd0" }
    } else if typ == 0x05 {
        if with_data { "CfgWr1" } else { "CfgRd1" }
    } else if typ == 0x0A {
        if with_data { "CplD" } else { "Cpl" }
    } else if typ == 0x0B {
        if with_data { "CplDLk" } else { "CplLk" }
    } else if 0x10 <= typ && typ <= 0x17 {
        if with_data { "MsgD" } else { "Msg" }
    } else {
        "TLP?"
    };
    let mut s = String::new();
    push_str(&mut s, base);
    if typ == 0x00 || typ == 0x01 {
        push_str(&mut s, if four_dw { "64" } else { "32" });
    }
    assert(s@ =~= tlp_type_name_spec(fmt, typ));
    s
}

/// Completion status names.
pub open spec fn cpl_status_name(status: nat) -> Seq<char> {
    if status == 0 {
        "SC"@
    } else if status == 1 {
        "UR"@
    } else if status == 2 {
        "CRS"@
    } else if status == 4 {
        "CA"@
    } else {
        "?"@
    }
}

proof fn lemma_be16(h: Seq<u8>, i: int)
    requires
        0 <= i,
        i + 2 <= h.len(),
    ensures
        be_value(h.subrange(i, i + 2)) == be16(h, i),
{
    let s2 = h.subrange(i, i + 2);
    let s1 = s2.drop_last();
    assert(s1.drop_last() =~= Seq::<u8>::empty());
    assert(be_value(Seq::<u8>::empty()) == 0);
    assert(be_value(s1) == 256 * be_value(s1.drop_last()) + s1.last() as nat);
    assert(be_value(s1) == s1.last() as nat);
    assert(s1.last() == h[i] && s2.last() == h[i + 1]);
}

/// Big-endian 16-bit field at byte `i`.
pub open spec fn be16(h: Seq<u8>, i: int) -> nat {
    h[i] as nat * 256 + h[i + 1] as nat
}

/// The 64-bit address of a four-double-word memory request (low two bits clear).
pub open spec fn addr64(h: Seq<u8>) -> nat {
    be_value(h.subrange(8, 15)) * 256 + (h[15] - h[15] % 4) as nat
}

/// The 32-bit address of a three-double-word memory request (low two bits clear).
pub open spec fn addr32(h: Seq<u8>) -> nat {
    be_value(h.subrange(8, 11)) * 256 + (h[11] - h[11] % 4) as nat
}

/// The text of a TLP header and the header length in bytes.
pub open spec fn describe_tlp_spec(h: Seq<u8>) -> (Seq<char>, nat) {
    if h.len() < 12 {
        ("TLP hdr short"@, h.len())
    } else {
        let fmt = (h[0] / 32) as u8;
        let typ = (h[0] % 32) as u8;
        let four_dw = fmt % 2 == 1;
        let hdr_len: nat = if four_dw { 16 } else { 12 };
        let length0 = (h[2] % 4) as nat * 256 + h[3] as nat;
        let length = if length0 == 0 { 1024 } else { length0 };
        let name = tlp_type_name_spec(fmt, typ);
        let tc = (h[1] / 16) % 8;
        let text = if typ <= 0x02 {
            let req = be16(h, 4);
            let be = h[7] as nat;
            let addr = if four_dw && h.len() >= 16 { addr64(h) } else { addr32(h) };
            name + " len="@ + dec_chars(length) + "DW req="@ + hex_pad(req / 256, 2) + ":"@ + hex_pad((req / 8) % 32, 2)
                + "."@ + dec_chars(req % 8) + " tag="@ + dec_chars(h[6] as nat) + " BE="@ + hex_chars(be / 16) + "/"@
                + hex_chars(be % 16) + " addr=0x"@ + hex_chars(addr)
        } else if typ == 0x04 || typ == 0x05 {
            let req = be16(h, 4);
            let bdf = be16(h, 8);
            let reg = (h[10] % 16) as nat * 256 + (h[11] - h[11] % 4) as nat;
            name + " req="@ + hex_pad(req, 4) + " tag="@ + dec_chars(h[6] as nat) + " target="@ + hex_pad(bdf / 256, 2)
                + ":"@ + hex_pad((bdf / 8) % 32, 2) + "."@ + dec_chars(bdf % 8) + " reg=0x"@ + hex_pad(reg, 3)
        } else if typ == 0x0A || typ == 0x0B {
            let bc = (h[6] % 16) as nat * 256 + h[7] as nat;
            name + " "@ + cpl_status_name(((h[6] / 32) % 8) as nat) + " cpl="@ + hex_pad(be16(h, 4), 4) + " req="@
                + hex_pad(be16(h, 8), 4) + " tag="@ + dec_chars(h[10] as nat) + " bytes="@ + dec_chars(bc) + " len="@
                + dec_chars(length) + "DW"@
        } else if 0x10 <= typ <= 0x17 {
            name + " code=0x"@ + hex_pad(h[7] as nat, 2) + " route="@ + dec_chars((typ % 8) as nat) + " tc="@
                + dec_chars(tc as nat)
        } else {
            name + " fmt="@ + dec_chars(fmt as nat) + " type=0x"@ + hex_pad(typ as nat, 2) + " len="@ + dec_chars(length)
                + "DW"@
        };
        (text, hdr_len)
    }
}

pub fn describe_tlp(h: &[u8]) -> (r: (String, usize))
    ensures
        r.0@ == describe_tlp_spec(h@).0,
        r.1 == describe_tlp_spec(h@).1,
{
    if h.len() < 12 {
        return (String::from_str("TLP hdr short"), h.len());
    }
    let fmt = h[0] / 32;
    let typ = h[0] % 32;
    let four_dw = fmt % 2 == 1;
    let hdr_len: usize = if four_dw { 16 } else { 12 };
    let length0 = ((h[2] % 4) as u64) * 256 + h[3] as u64;
    let length = if length0 == 0 { 1024 } else { length0 };
    let name = tlp_type_name(fmt, typ);
    let tc = (h[1] / 16) % 8;
    let mut s = name;
    if typ <= 0x02 {
        let req = be_bytes(h, 4, 2);
        let be = h[7] as u64;
        let addr = if four_dw && h.len() >= 16 {
            proof {
                lemma_be_value_bound(h@.subrange(8, 15));
                lemma_pow256_small(7);
            }
            be_bytes(h, 8, 7) * 256 + (h[15] - h[15] % 4) as u64
        } else {
            proof {
                lemma_be_value_bound(h@.subrange(8, 11));
                lemma_pow256_small(3);
            }
            be_bytes(h, 8, 3) * 256 + (h[11] - h[11] % 4) as u64
        };
        proof {
            lemma_be16(h@, 4);
        }
        push_str(&mut s, " len=");
        push_dec(&mut s, length);
        push_str(&mut s, "DW req=");
        push_hex(&mut s, req / 256, 2);
        push_str(&mut s, ":");
        push_hex(&mut s, (req / 8) % 32, 2);
        push_str(&mut s, ".");
        push_dec(&mut s, req % 8);
        push_str(&mut s, " tag=");
        push_dec(&mut s, h[6] as u64);
        push_str(&mut s, " BE=");
        push_hex(&mut s, be / 16, 0);
        push_str(&mut s, "/");
        push_hex(&mut s, be % 16, 0);
        push_str(&mut s, " addr=0x");
        push_hex(&mut s, addr, 0);
    } else if typ == 0x04 || typ == 0x05 {
        let req = be_bytes(h, 4, 2);
        let bdf = be_bytes(h, 8, 2);
        let reg = ((h[10] % 16) as u64) * 256 + (h[11] - h[11] % 4) as u64;
        proof {
            lemma_be16(h@, 4);
            lemma_be16(h@, 8);
        }
        push_str(&mut s, " req=");
        push_hex(&mut s, req, 4);
        push_str(&mut s, " tag=");
        push_dec(&mut s, h[6] as u64);
        push_str(&mut s, " target=");
        push_hex(&mut s, bdf / 256, 2);
        push_str(&mut s, ":");
        push_hex(&mut s, (bdf / 8) % 32, 2);
        push_str(&mut s, ".");
        push_dec(&mut s, bdf % 8);
        push_str(&mut s, " reg=0x");
        push_hex(&mut s, reg, 3);
    } else if typ == 0x0A || typ == 0x0B {
        let cpl = be_bytes(h, 4, 2);
        let status = (h[6] / 32) % 8;
        let bc = ((h[6] % 16) as u64) * 256 + h[7] as u64;
        let req = be_bytes(h, 8, 2);
        proof {
            lemma_be16(h@, 4);
            lemma_be16(h@, 8);
        }
        let st = if status == 0 {
            "SC"
        } else if status == 1 {
            "UR"
        } else if status == 2 {
            "CRS"
        } else if status == 4 {
            "CA"
        } else {
            "?"
        };
        push_str(&mut s, " ");
        push_str(&mut s, st);
        push_str(&mut s, " cpl=");
        push_hex(&mut s, cpl, 4);
        push_str(&mut s, " req=");
        push_hex(&mut s, req, 4);
        push_str(&mut s, " tag=");
        push_dec(&mut s, h[10] as u64);
        push_str(&mut s, " bytes=");
        push_dec(&mut s, bc);
        push_str(&mut s, " len=");
        push_dec(&mut s, length);
        push_str(&mut s, "DW");
    } else if 0x10 <= typ && typ <= 0x17 {
        push_str(&mut s, " code=0x");
        push_hex(&mut s, h[7] as u64, 2);
        push_str(&mut s, " route=");
        push_dec(&mut s, (typ % 8) as u64);
        push_str(&mut s, " tc=");
        push_dec(&mut s, tc as u64);
    } else {
        push_str(&mut s, " fmt=");
        push_dec(&mut s, fmt as u64);
        push_str(&mut s, " type=0x");
        push_hex(&mut s, typ as u64, 2);
        push_str(&mut s, " len=");
        push_dec(&mut s, length);
        push_str(&mut s, "DW");
    }
    assert(s@ =~= describe_tlp_spec(h@).0);
    (s, hdr_len)
}

/// Flow-control DLLP kind by the high nibble of the type byte.
pub open spec fn fc_kind(hi: nat) -> Seq<char> {
    if hi == 0x4 {
        "InitFC1-P"@
    } else if hi == 0x5 {
        "InitFC1-NP"@
    } else if hi == 0x6 {
        "InitFC1-Cpl"@
    } else if hi == 0xC {
        "InitFC2-P"@
    } else if hi == 0xD {
        "InitFC2-NP"@
    } else if hi == 0xE {
        "InitFC2-Cpl"@
    } else if hi == 0x8 {
        "UpdateFC-P"@
    } else if hi == 0x9 {
        "UpdateFC-NP"@
    } else if hi == 0xA {
        "UpdateFC-Cpl"@
    } else {
        "FC?"@
    }
}

/// The text of a DLLP (its first four bytes).
pub open spec fn describe_dllp_spec(p: Seq<u8>) -> Seq<char> {
    if p.len() < 4 {
        "DLLP short"@
    } else {
        let t = p[0];
        let seq = (p[2] % 16) as nat * 256 + p[3] as nat;
        if t == 0x00 {
            "DLLP Ack seq="@ + dec_chars(seq)
        } else if t == 0x10 {
            "DLLP Nak seq="@ + dec_chars(seq)
        } else if t == 0x20 {
            "DLLP PM_Enter_L1"@
        } else if t == 0x21 {
            "DLLP PM_Enter_L23"@
        } else if t == 0x23 {
            "DLLP PM_Active_State_Request_L1"@
        } else if t == 0x24 {
            "DLLP PM_Request_Ack"@
        } else if t == 0x30 {
            "DLLP Vendor"@
        } else if t >= 0x40 {
            let hdr_fc = (p[1] % 64) as nat * 4 + (p[2] / 64) as nat;
            "DLLP "@ + fc_kind((t / 16) as nat) + " vc="@ + dec_chars((t % 8) as nat) + " hdr="@ + dec_chars(hdr_fc)
                + " data="@ + dec_chars(seq)
        } else {
            "DLLP type=0x"@ + hex_pad(t as nat, 2)
        }
    }
}

pub fn describe_dllp(p: &[u8]) -> (r: String)
    ensures
        r@ == describe_dllp_spec(p@),
{
    if p.len() < 4 {
        return String::from_str("DLLP short");
    }
    let t = p[0];
    let seq = ((p[2] % 16) as u64) * 256 + p[3] as u64;
    let mut s = String::new();
    if t == 0x00 {
        push_str(&mut s, "DLLP Ack seq=");
        push_dec(&mut s, seq);
    } else if t == 0x10 {
        push_str(&mut s, "DLLP Nak seq=");
        push_dec(&mut s, seq);
    } else if t == 0x20 {
        push_str(&mut s, "DLLP PM_Enter_L1");
    } else if t == 0x21 {
        push_str(&mut s, "DLLP PM_Enter_L23");
    } else if t == 0x23 {
        push_str(&mut s, "DLLP PM_Active_State_Request_L1");
    } else if t == 0x24 {
        push_str(&mut s, "DLLP PM_Request_Ack");
    } else if t == 0x30 {
        push_str(&mut s, "DLLP Vendor");
    } else if t >= 0x40 {
        let hi = t / 16;
        let kind = if hi == 0x4 {
            "InitFC1-P"
        } else if hi == 0x5 {
            "InitFC1-NP"
        } else if hi == 0x6 {
            "InitFC1-Cpl"
        } else if hi == 0xC {
            "InitFC2-P"
        } else if hi == 0xD {
            "InitFC2-NP"
        } else if hi == 0xE {
            "InitFC2-Cpl"
        } else if hi == 0x8 {
            "UpdateFC-P"
        } else if hi == 0x9 {
            "UpdateFC-NP"
        } else if hi == 0xA {
            "UpdateFC-Cpl"
        } else {
            "FC?"
        };
        let hdr_fc = ((p[1] % 64) as u64) * 4 + (p[2] / 64) as u64;
        push_str(&mut s, "DLLP ");
        push_str(&mut s, kind);
        push_str(&mut s, " vc=");
        push_dec(&mut s, (t % 8) as u64);
        push_str(&mut s, " hdr=");
        push_dec(&mut s, hdr_fc);
        push_str(&mut s, " data=");
        push_dec(&mut s, seq);
    } else {
        push_str(&mut s, "DLLP type=0x");
        push_hex(&mut s, t as u64, 2);
    }
    assert(s@ =~= describe_dllp_spec(p@));
    s
}

} // verus!
