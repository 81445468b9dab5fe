use libsurfer::decoders::pcie::code8b10b::{build_decode_table, disparity, encode};
use libsurfer::decoders::pcie::crc::{crc_generic, dllp_crc16, lcrc32, reflect};
use libsurfer::decoders::pcie::describe::{describe_dllp, describe_tlp, k_name, tlp_type_name};
use libsurfer::decoders::pcie::params::{classify_param, unknown_param_message, PcieParam};
use libsurfer::decoders::pcie::scrambler::Scrambler;
use libsurfer::decoders::pcie::{decode_recovered, find_alignment};

#[test]
fn table_roundtrip_and_comma() {
    let t = build_decode_table();
    assert_eq!(t.get("0011111010"), Some((0xBC, true)));
    assert_eq!(t.get("1100000101"), Some((0xBC, true)));
    let (c, _) = encode(0x00, false, -1).unwrap();
    assert_eq!(t.get(&c), Some((0x00, false)));
}

#[test]
fn encode_known_symbols() {
    // D0.0 and K28.5 in both running disparities
    assert_eq!(encode(0x00, false, -1), Some(("1001110100".to_string(), -1)));
    assert_eq!(encode(0x00, false, 1), Some(("0110001011".to_string(), 1)));
    assert_eq!(encode(0xBC, true, -1), Some(("0011111010".to_string(), 1)));
    assert_eq!(encode(0xBC, true, 1), Some(("1100000101".to_string(), -1)));
    // K1.0 has no code
    assert_eq!(encode(0x01, true, -1), None);
    assert_eq!(disparity(0b100111, 6), 2);
    assert_eq!(disparity(0b1100, 4), 0);
    let t = build_decode_table();
    assert_eq!(t.get("01"), None);
    assert_eq!(t.get("00111110x0"), None);
    assert_eq!(t.get("0000000000"), None);
}

#[test]
fn encoding_decodes_back_for_every_symbol() {
    let t = build_decode_table();
    for rd in [-1, 1] {
        for b in 0..=255u8 {
            let (c, _) = encode(b, false, rd).unwrap();
            assert_eq!(t.get(&c), Some((b, false)));
        }
    }
}

#[test]
fn scrambler_matches_spec_sequence() {
    let mut s = Scrambler::new();
    let seq: Vec<u8> = (0..8).map(|_| s.process(0x00, false, false)).collect();
    assert_eq!(seq, vec![0xFF, 0x17, 0xC0, 0x14, 0xB2, 0xE7, 0x02, 0x82]);
}

#[test]
fn scrambling_twice_gives_the_byte_back() {
    let mut a = Scrambler::new();
    let mut b = Scrambler::new();
    for byte in [0x12u8, 0x00, 0xFF, 0x5A] {
        let once = a.process(byte, false, false);
        assert_ne!(once, byte);
        assert_eq!(b.process(once, false, false), byte);
    }
    // COM resets; a training sequence passes unscrambled
    let mut s = Scrambler::new();
    s.process(0x33, false, false);
    assert_eq!(s.process(0xBC, true, true), 0xBC);
    assert_eq!(s.process(0x4A, false, true), 0x4A);
}

#[test]
fn crc_known_values() {
    let d = [0x00, 0x00, 0x00, 0x01];
    assert_eq!(dllp_crc16(&d), dllp_crc16(&d));
    assert_ne!(lcrc32(&[1, 2, 3]), lcrc32(&[1, 2, 4]));
}

#[test]
fn crc_formulas() {
    assert_eq!(reflect(0b0001, 4), 0b1000);
    assert_eq!(reflect(0x0000_0001, 32), 0x8000_0000);
    // CRC-32/MPEG-2 check value of "123456789"
    assert_eq!(crc_generic(b"123456789", 0x04C1_1DB7, 32, 0xFFFF_FFFF), 0x0376_E6E7);
    // the LCRC is the inverted CRC with its bits reversed
    assert_eq!(lcrc32(b"123456789"), reflect(!0x0376_E6E7u64 & 0xFFFF_FFFF, 32) as u32);
}

#[test]
fn packet_descriptions() {
    assert_eq!(k_name(0xBC), "COM");
    assert_eq!(k_name(0x01), "K?");
    assert_eq!(tlp_type_name(0b010, 0x00), "MWr32");
    assert_eq!(tlp_type_name(0b001, 0x00), "MRd64");
    assert_eq!(tlp_type_name(0b010, 0x0A), "CplD");
    let h = [0x40, 0x00, 0x00, 0x01, 0x01, 0x00, 0x03, 0x0F, 0xF0, 0x00, 0x10, 0x00];
    assert_eq!(
        describe_tlp(&h),
        ("MWr32 len=1DW req=01:00.0 tag=3 BE=0/F addr=0xF0001000".to_string(), 12)
    );
    assert_eq!(describe_tlp(&h[..5]), ("TLP hdr short".to_string(), 5));
    assert_eq!(describe_dllp(&[0x00, 0x00, 0x00, 0x01]), "DLLP Ack seq=1");
    assert_eq!(describe_dllp(&[0x00, 0x00]), "DLLP short");
    assert_eq!(describe_dllp(&[0x50, 0x01, 0x40, 0x20]), "DLLP InitFC1-NP vc=0 hdr=5 data=32");
}

fn bits_of(code: &str) -> Vec<bool> {
    code.chars().map(|c| c == '1').collect()
}

#[test]
fn comma_alignment_and_symbol_decoding() {
    // two noise bits, then COM (negative disparity), then D0.0 with the running disparity after COM
    let mut levels = vec![true, false];
    levels.extend(bits_of("0011111010"));
    levels.extend(bits_of("0110001011"));
    assert_eq!(find_alignment(&levels), Some(2));
    let times: Vec<u64> = (0..levels.len() as u64).map(|i| i * 4).collect();
    let (sym, pkt) = decode_recovered(&levels, &times, 100, false);
    let texts: Vec<String> = sym.iter().map(|s| s.text.clone()).collect();
    assert_eq!(texts, vec!["", "K28.5 COM", "D0.0 0x00", ""]);
    assert_eq!(sym[1].time, 8);
    assert_eq!(sym[3].time, 100);
    let ptexts: Vec<String> = pkt.iter().map(|s| s.text.clone()).collect();
    assert_eq!(ptexts, vec!["", "COM", ""]);
    let (sym, pkt) = decode_recovered(&vec![false; 30], &vec![0; 30], 9, true);
    assert_eq!(sym.iter().map(|s| s.text.clone()).collect::<Vec<_>>(), vec!["", "no comma (K28.5) found"]);
    assert_eq!(pkt.len(), 1);
}

#[test]
fn pcie_options() {
    assert!(matches!(classify_param("GEN1"), PcieParam::Gen1));
    assert!(matches!(classify_param("gen2"), PcieParam::Gen2));
    assert!(matches!(classify_param("Raw"), PcieParam::NoScramble));
    assert!(matches!(classify_param("noscramble"), PcieParam::NoScramble));
    match classify_param("UI=400PS") {
        PcieParam::Ui(t) => assert_eq!(t, "400"),
        _ => panic!("expected a unit interval"),
    }
    match classify_param("ui=12.5psps") {
        PcieParam::Ui(t) => assert_eq!(t, "12.5"),
        _ => panic!("expected a unit interval"),
    }
    match classify_param("ui=ps") {
        PcieParam::Ui(t) => assert_eq!(t, ""),
        _ => panic!("expected a unit interval"),
    }
    assert!(matches!(classify_param("gen3"), PcieParam::Unknown));
    assert_eq!(
        unknown_param_message("gen3"),
        "无法识别的 PCIe 参数 'gen3' (示例: gen1, gen2, ui=400ps, noscramble)"
    );
}

#[test]
fn every_symbol_decodes_back() {
    let t = build_decode_table();
    let ks: Vec<u8> = (0..8u8).map(|y| y * 32 + 28).chain([0xF7, 0xFB, 0xFD, 0xFE]).collect();
    for rd in [-1, 1] {
        for b in 0..=255u8 {
            let (code, _) = encode(b, false, rd).unwrap();
            assert_eq!(t.get(&code), Some((b, false)));
        }
        for &b in &ks {
            let (code, _) = encode(b, true, rd).unwrap();
            assert_eq!(t.get(&code), Some((b, true)));
        }
    }
}

#[test]
fn running_disparity_stays_at_one() {
    for rd in [-1, 1] {
        for k in [false, true] {
            for b in 0..=255u8 {
                let has_code = !k || [23, 27, 28, 29, 30].contains(&(b & 0x1F));
                match encode(b, k, rd) {
                    Some((code, rd2)) => {
                        assert!(has_code);
                        assert_eq!(code.len(), 10);
                        let d: i32 = code.chars().map(|c| if c == '1' { 1 } else { -1 }).sum();
                        assert_eq!(rd2, rd + d);
                        assert!(rd2 == -1 || rd2 == 1);
                    }
                    None => assert!(!has_code),
                }
            }
        }
    }
}
