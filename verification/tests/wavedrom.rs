use libsurfer::wavedrom::{is_data_char, is_wavedrom_extension, looks_like_wavedrom, normalize_json5, sanitize, vcd_id};
use serde_json::Value;

#[test]
fn json5_normalization() {
    let src = "{ signal: [ { name: 'clk', wave: 'p..', }, ], // c\n }";
    let n = normalize_json5(src);
    let v: Value = serde_json::from_str(&n).unwrap();
    assert_eq!(v["signal"][0]["name"], "clk");
}

#[test]
fn json5_exact_output() {
    assert_eq!(normalize_json5("{a: 'x\"y', b: [1, 2,], /* c */ c: true}"), "{\"a\": \"x\\\"y\", \"b\": [1, 2],  \"c\": true}");
    assert_eq!(normalize_json5("'it\\'s'"), "\"it's\"");
    assert_eq!(normalize_json5("{ k : null }"), "{ \"k\" : null }");
    assert_eq!(normalize_json5("/* open"), "");
}

#[test]
fn wavedrom_extensions() {
    assert!(is_wavedrom_extension("json"));
    assert!(is_wavedrom_extension("wavedrom.JSON5"));
    assert!(is_wavedrom_extension("WD"));
    assert!(!is_wavedrom_extension("vcd"));
    assert!(!is_wavedrom_extension("json.vcd"));
}

#[test]
fn wavedrom_content_sniffing() {
    assert!(looks_like_wavedrom(b"  \n{ signal: [] }"));
    assert!(!looks_like_wavedrom(b"$timescale 1ns $end signal"));
    assert!(!looks_like_wavedrom(b"{ \"head\": 1 }"));
    // invalid UTF-8 is replaced, the rest still counts
    assert!(looks_like_wavedrom(b"{\xff\xfe signal"));
    // only the first 4096 bytes are looked at
    let mut long = vec![b'{'];
    long.extend(std::iter::repeat(b' ').take(5000));
    long.extend(b"signal");
    assert!(!looks_like_wavedrom(&long));
}

#[test]
fn identifiers_and_names() {
    assert_eq!(vcd_id(0), "!");
    assert_eq!(vcd_id(1), "\"");
    assert_eq!(vcd_id(93), "~");
    assert_eq!(vcd_id(94), "!!");
    assert_eq!(vcd_id(95), "!\"");
    assert_eq!(vcd_id(94 + 94 * 94), "!!!");
    assert_eq!(sanitize("a b\tc"), "a_b_c");
    assert_eq!(sanitize(""), "_");
    assert!(is_data_char('='));
    assert!(is_data_char('5'));
    assert!(!is_data_char('x'));
}
