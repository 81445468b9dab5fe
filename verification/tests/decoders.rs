use libsurfer::decoders::i2c;
use libsurfer::decoders::spi::{self, SpiConfig};
use libsurfer::decoders::uart::{
    classify_param, data_bits_in_range, frame_text, printable, unknown_param_message, unknown_parity_message, Parity,
    UartParam,
};
use libsurfer::decoders::{run_clocked, to_bit_trace, BitTrace, LineValue, Segment, VirtualSignal};

fn send_byte(byte: u8, t: &mut u64, scl: &mut BitTrace, sda: &mut BitTrace) {
    for k in (0..8).rev() {
        *t += 10;
        sda.push((*t, (byte >> k) & 1 == 1));
        *t += 10;
        scl.push((*t, true));
        *t += 10;
        scl.push((*t, false));
    }
    // ack
    *t += 10;
    sda.push((*t, false));
    *t += 10;
    scl.push((*t, true));
    *t += 10;
    scl.push((*t, false));
}

/// Build SCL/SDA traces for: S, 0x36 W, ACK, 0x0C, ACK, P
fn build() -> (BitTrace, BitTrace) {
    let mut scl = vec![(0, true)];
    let mut sda = vec![(0, true)];
    let mut t = 100;
    sda.push((t, false)); // START
    t += 50;
    scl.push((t, false));
    send_byte(0x6C, &mut t, &mut scl, &mut sda);
    send_byte(0x0C, &mut t, &mut scl, &mut sda);
    t += 10;
    sda.push((t, false));
    t += 10;
    scl.push((t, true));
    t += 10;
    sda.push((t, true)); // STOP
    (scl, sda)
}

fn texts(segs: Vec<Segment>) -> Vec<String> {
    segs.into_iter().map(|s| s.text).filter(|s| !s.is_empty()).collect()
}

#[test]
fn decodes_write_transaction() {
    let (scl, sda) = build();
    let texts: Vec<String> = i2c::decode(&scl, &sda)
        .into_iter()
        .map(|s| s.text)
        .filter(|s| !s.is_empty())
        .collect();
    assert_eq!(texts, vec!["S", "0x36 W", "ACK", "0x0C", "ACK", "P"]);
}

#[test]
fn i2c_segment_times_and_trailing_idle() {
    let (scl, sda) = build();
    let segs = i2c::decode(&scl, &sda);
    // idle at 0, START at 100, address byte starts at its first clock (170)
    assert_eq!(segs[0].time, 0);
    assert_eq!(segs[0].text, "");
    assert_eq!(segs[1].time, 100);
    assert_eq!(segs[1].text, "S");
    assert_eq!(segs[2].time, 170);
    assert_eq!(segs[2].text, "0x36 W");
    // the STOP is followed by an idle segment one time unit later
    let n = segs.len();
    assert_eq!(segs[n - 2].text, "P");
    assert_eq!(segs[n - 1].text, "");
    assert_eq!(segs[n - 1].time, segs[n - 2].time + 1);
    assert!(!i2c::stop_at_end_of_time(&scl, &sda));
}

#[test]
fn i2c_read_address_nack_and_repeated_start() {
    let mut scl: BitTrace = vec![(0, true)];
    let mut sda: BitTrace = vec![(0, true)];
    let mut t = 100;
    sda.push((t, false)); // START
    t += 50;
    scl.push((t, false));
    // address 0x50, read
    for k in (0..8).rev() {
        t += 10;
        sda.push((t, (0xA1u8 >> k) & 1 == 1));
        t += 10;
        scl.push((t, true));
        t += 10;
        scl.push((t, false));
    }
    // NACK: SDA stays high
    t += 10;
    sda.push((t, true));
    t += 10;
    scl.push((t, true));
    t += 10;
    scl.push((t, false));
    // repeated START: SDA high, SCL high, then SDA falls
    t += 10;
    scl.push((t, true));
    t += 10;
    sda.push((t, false));
    let texts = texts(i2c::decode(&scl, &sda));
    assert_eq!(texts, vec!["S", "0x50 R", "NACK", "Sr"]);
}

#[test]
fn i2c_stop_at_largest_time_is_detected() {
    let scl: BitTrace = vec![(0, true)];
    let sda: BitTrace = vec![(0, false), (u64::MAX, true)];
    assert!(i2c::stop_at_end_of_time(&scl, &sda));
}

#[test]
fn mode0_two_bytes_with_cs() {
    let mut sclk: BitTrace = vec![(0, false)];
    let mut mosi: BitTrace = vec![(0, false)];
    let mut miso: BitTrace = vec![(0, false)];
    let mut cs: BitTrace = vec![(0, true)];
    let mut t = 100;
    cs.push((t, false));
    for (a, b) in [(0xA5u8, 0x3Cu8), (0x01, 0xFF)] {
        for k in (0..8).rev() {
            t += 10;
            mosi.push((t, (a >> k) & 1 == 1));
            miso.push((t, (b >> k) & 1 == 1));
            t += 10;
            sclk.push((t, true));
            t += 10;
            sclk.push((t, false));
        }
    }
    t += 10;
    cs.push((t, true));
    let segs = spi::decode(&sclk, &mosi, &miso, &cs, &SpiConfig::default());
    let texts: Vec<String> = segs.into_iter().map(|s| s.text).filter(|s| !s.is_empty()).collect();
    assert_eq!(texts, vec!["M:0xA5 S:0x3C", "M:0x01 S:0xFF"]);
}

#[test]
fn spi_lsb_first_without_miso_and_cs() {
    // mode 0, 4-bit words, LSB first: bits 1,0,0,0 then 0,1,1,1
    let cfg = spi::config_from_params(&["bits4".to_string(), "LSB".to_string()]).unwrap();
    let mut sclk: BitTrace = vec![(0, false)];
    let mut mosi: BitTrace = vec![(0, false)];
    let mut t = 0;
    for bit in [true, false, false, false, false, true, true, true] {
        t += 10;
        mosi.push((t, bit));
        t += 10;
        sclk.push((t, true));
        t += 10;
        sclk.push((t, false));
    }
    let segs = spi::decode(&sclk, &mosi, &vec![], &vec![], &cfg);
    let texts = texts(segs);
    assert_eq!(texts, vec!["0x1", "0xE"]);
}

#[test]
fn spi_config_parsing() {
    let c = spi::config_from_params(&["mode3".to_string(), "bits16".to_string(), "cs_high".to_string()]).unwrap();
    assert!(c.cpol && c.cpha && c.cs_active_high && c.msb_first);
    assert_eq!(c.bits, 16);
    let c = spi::config_from_params(&["2".to_string()]).unwrap();
    assert!(c.cpol && !c.cpha);
    let c = spi::config_from_params(&["+1".to_string(), "lsb".to_string(), "msb".to_string()]).unwrap();
    assert!(!c.cpol && c.cpha && c.msb_first);
    assert_eq!(spi::config_from_params(&["mode7".to_string()]).unwrap_err(), "SPI 模式 7 无效, 应为 0..3");
    assert_eq!(spi::config_from_params(&["bits0".to_string()]).unwrap_err(), "SPI 位宽应在 1..64");
    assert_eq!(spi::config_from_params(&["bits65".to_string()]).unwrap_err(), "SPI 位宽应在 1..64");
    assert_eq!(
        spi::config_from_params(&["Fast".to_string()]).unwrap_err(),
        "无法识别的 SPI 参数 'Fast' (示例: mode0 bits8 lsb cs_high)"
    );
    // the first refused parameter decides
    assert_eq!(
        spi::config_from_params(&["mode9".to_string(), "bits0".to_string()]).unwrap_err(),
        "SPI 模式 9 无效, 应为 0..3"
    );
    let d = SpiConfig::default();
    assert!(!d.cpol && !d.cpha && d.msb_first && !d.cs_active_high);
    assert_eq!(d.bits, 8);
}

#[test]
fn virtual_signal_sorts_and_collapses() {
    let segs = vec![
        Segment { time: 30, text: "c".to_string() },
        Segment { time: 10, text: "a".to_string() },
        Segment { time: 30, text: "d".to_string() },
        Segment { time: 20, text: "b".to_string() },
    ];
    let v = VirtualSignal::new("t".to_string(), segs);
    let got: Vec<(u64, String)> = v.segments.iter().map(|s| (s.time, s.text.clone())).collect();
    assert_eq!(got, vec![(10, "a".to_string()), (20, "b".to_string()), (30, "d".to_string())]);
    let q = v.query(25);
    assert_eq!(q.current, Some((20, "b".to_string())));
    assert_eq!(q.next, Some(30));
    let q = v.query(5);
    assert_eq!(q.current, None);
    assert_eq!(q.next, Some(10));
    let q = v.query(30);
    assert_eq!(q.current, Some((30, "d".to_string())));
    assert_eq!(q.next, None);
}

#[test]
fn bit_trace_levels() {
    let tr = to_bit_trace(vec![
        (0, LineValue::Number { nonzero: false }),
        (5, LineValue::Number { nonzero: true }),
        (7, LineValue::Text("x".to_string())),
        (9, LineValue::Text("10".to_string())),
        (11, LineValue::Text(String::new())),
    ]);
    assert_eq!(tr, vec![(0, false), (5, true), (7, true), (9, false), (11, true)]);
}

#[test]
fn run_clocked_dispatch_and_errors() {
    let (scl, sda) = build();
    let sig = run_clocked("i2c", &[scl.clone(), sda.clone()], &[]).unwrap();
    assert_eq!(sig.signal_type, "decoded i2c");
    assert!(sig.segments.iter().any(|s| s.text == "0x36 W"));
    assert_eq!(
        run_clocked("i2c", &[scl.clone()], &[]).unwrap_err(),
        "i2c decoder needs exactly two inputs: SCL SDA"
    );
    assert_eq!(
        run_clocked("spi", &[scl.clone()], &[]).unwrap_err(),
        "spi decoder needs SCLK MOSI [MISO] [CS] (use '-' for a missing line)"
    );
    let sig = run_clocked("spi", &[scl.clone(), sda.clone()], &["mode3".to_string()]).unwrap();
    assert_eq!(sig.signal_type, "decoded spi mode3");
    assert_eq!(run_clocked("can", &[], &[]).unwrap_err(), "Unknown protocol decoder 'can'");
    assert_eq!(
        run_clocked("spi", &[scl, sda], &["bits99".to_string()]).unwrap_err(),
        "SPI 位宽应在 1..64"
    );
}

#[test]
fn uart_frame_texts() {
    // 'M' = 0x4D, least significant bit first
    let m: Vec<bool> = (0..8).map(|k| (0x4Du8 >> k) & 1 == 1).collect();
    assert_eq!(frame_text(&m, Parity::NoParity, false, true), "0x4D 'M'");
    let lf: Vec<bool> = (0..8).map(|k| (0x0Au8 >> k) & 1 == 1).collect();
    assert_eq!(frame_text(&lf, Parity::NoParity, false, true), "0x0A LF");
    // 0x4D has four ones: even parity wants a 0 parity bit
    assert_eq!(frame_text(&m, Parity::Even, true, true), "0x4D 'M' PARITY?");
    assert_eq!(frame_text(&m, Parity::Odd, true, false), "0x4D FRAME?");
    assert_eq!(frame_text(&m, Parity::NoParity, false, false), "0x4D FRAME?");
    assert_eq!(frame_text(&m, Parity::Even, true, false), "0x4D PARITY? FRAME?");
    let x: Vec<bool> = (0..8).map(|k| (0x80u8 >> k) & 1 == 1).collect();
    assert_eq!(frame_text(&x, Parity::NoParity, false, false), "0x80 FRAME?");
    assert_eq!(printable(0x09), "TAB");
    assert_eq!(printable(0x0D), "CR");
    assert_eq!(printable(0x00), "NUL");
    assert_eq!(printable(0x7F), "");
    assert_eq!(printable(0x20), "' '");
}

#[test]
fn uart_options() {
    assert_eq!(classify_param("inv"), UartParam::Inverted);
    assert_eq!(classify_param("Inverted"), UartParam::Inverted);
    assert_eq!(
        classify_param("8n1"),
        UartParam::Format { data_bits: 8, parity: Parity::NoParity, stop_bits: 1 }
    );
    assert_eq!(classify_param("7E2"), UartParam::Format { data_bits: 7, parity: Parity::Even, stop_bits: 2 });
    assert_eq!(classify_param("5o1"), UartParam::Format { data_bits: 5, parity: Parity::Odd, stop_bits: 1 });
    assert_eq!(classify_param("8x1"), UartParam::UnknownParity('X'));
    assert_eq!(classify_param("115200"), UartParam::Other);
    assert_eq!(classify_param("8N"), UartParam::Other);
    assert_eq!(unknown_parity_message('X'), "未知校验方式 'X', 应为 N/E/O");
    assert_eq!(unknown_param_message("fast"), "无法识别的 UART 参数 'fast' (示例: 115200 8N1 inv)");
    assert!(data_bits_in_range(5) && data_bits_in_range(9));
    assert!(!data_bits_in_range(4) && !data_bits_in_range(10));
}

#[test]
fn query_shows_last_given_of_equal_starts() {
    let seg = |time: u64, text: &str| Segment { time, text: text.to_string() };
    let v = VirtualSignal::new(
        "t".to_string(),
        vec![seg(10, "a"), seg(5, "b"), seg(10, "c"), seg(20, "d"), seg(10, "e")],
    );
    let q = v.query(12);
    assert_eq!(q.current, Some((10, "e".to_string())));
    assert_eq!(q.next, Some(20));
    let q = v.query(10);
    assert_eq!(q.current, Some((10, "e".to_string())));
    let q = v.query(4);
    assert_eq!(q.current, None);
    assert_eq!(q.next, Some(5));
    let q = v.query(u64::MAX);
    assert_eq!(q.current, Some((20, "d".to_string())));
    assert_eq!(q.next, None);
}

#[test]
fn many_segments_are_sorted_quickly() {
    let n: u64 = 200_000;
    let segs: Vec<Segment> = (0..n).rev().map(|t| Segment { time: t / 2, text: t.to_string() }).collect();
    let v = VirtualSignal::new("big".to_string(), segs);
    assert_eq!(v.segments.len(), 100_000);
    assert_eq!(v.segments[0].time, 0);
    // of the two segments at time 0 ("1" given before "0"), the last given wins
    assert_eq!(v.segments[0].text, "0");
    assert_eq!(v.segments[99_999].text, "199998");
    let q = v.query(12_345);
    assert_eq!(q.current, Some((12_345, "24690".to_string())));
}
