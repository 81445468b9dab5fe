use libsurfer::wavedrom::normalize_json5;
use libsurfer::wavedrom::signals::{
    collect_signals, expand_wave, period_ns_text, signal_list, split_words, Json, Level, Sig, WaveEvent,
};
use libsurfer::wavedrom::vcd::{document_text, write_vcd, VcdSignal};
use libsurfer::wavedrom::document::{parse_json, parse_wavedrom, wave_signals, WaveDromError};

fn parse(text: &str) -> Json {
    parse_json(&normalize_json5(text)).unwrap()
}

fn bit(e: &WaveEvent) -> (usize, bool, char) {
    match &e.level {
        Level::Bit(c) => (e.slot, e.half, *c),
        Level::Str(_) => panic!("expected a bit"),
    }
}

fn text(e: &WaveEvent) -> (usize, String) {
    match &e.level {
        Level::Str(s) => (e.slot, s.clone()),
        Level::Bit(_) => panic!("expected a string"),
    }
}

/// Times as a 10 ns step places them.
fn timed(events: &[WaveEvent]) -> Vec<(u64, Level)> {
    events
        .iter()
        .map(|e| {
            let t = e.slot as u64 * 10 + if e.half { 5 } else { 0 };
            let l = match &e.level {
                Level::Bit(c) => Level::Bit(*c),
                Level::Str(s) => Level::Str(s.clone()),
            };
            (t, l)
        })
        .collect()
}

fn vcd_signal(s: &Sig) -> VcdSignal {
    let (is_string, events) = expand_wave(&s.wave, &s.data);
    VcdSignal { scope: s.scope.clone(), name: s.name.clone(), is_string, changes: timed(&events) }
}

#[test]
fn signal_list_reads_names_waves_and_data() {
    let root = parse(
        r#"{ signal: [
            { name: "clk", wave: "p..." },
            { name: "bus", wave: "x=.=x", data: ["A", "B"] },
            {},
            { name: "nowave" },
            { name: "en",  wave: "01.0", period: 2, phase: 0.5 }
        ], config: { period_ns: 10 } }"#,
    );
    let list = signal_list(&root).unwrap();
    let sigs = collect_signals(list);
    assert_eq!(sigs.len(), 3);
    assert_eq!(sigs[0].name, "clk");
    assert_eq!(sigs[0].wave, vec!['p', '.', '.', '.']);
    assert!(sigs[0].data.is_empty());
    assert_eq!(sigs[1].data, vec!["A".to_string(), "B".to_string()]);
    assert_eq!(sigs[2].name, "en");
    assert_eq!(sigs[2].period.as_deref(), Some("2"));
    assert_eq!(sigs[2].phase.as_deref(), Some("0.5"));
    assert_eq!(sigs[0].period, None);
    assert_eq!(period_ns_text(&root).as_deref(), Some("10"));
}

#[test]
fn groups_nest_in_order() {
    let root = parse(r#"{ signal: [ ["bus", { name: "a", wave: "01" }, ["inner", { name: "c", wave: "1" }]], { name: "b", wave: "10" } ] }"#);
    let sigs = collect_signals(signal_list(&root).unwrap());
    let names: Vec<&str> = sigs.iter().map(|s| s.name.as_str()).collect();
    assert_eq!(names, vec!["a", "c", "b"]);
    assert_eq!(sigs[0].scope, vec!["bus".to_string()]);
    assert_eq!(sigs[1].scope, vec!["bus".to_string(), "inner".to_string()]);
    assert!(sigs[2].scope.is_empty());
}

#[test]
fn data_entries_of_every_kind() {
    let root = parse(r#"{ signal: [ { name: "d", wave: "====", data: [1, true, null, [1, 2]] }, { name: "w", wave: "==", data: "  A B\tC " }, { name: "n", wave: "=", data: 7 } ] }"#);
    let sigs = collect_signals(signal_list(&root).unwrap());
    assert_eq!(sigs[0].data, vec!["1", "true", "null", "[1,2]"]);
    assert_eq!(sigs[1].data, vec!["A", "B", "C"]);
    assert_eq!(sigs[2].data, vec!["7"]);
}

#[test]
fn documents_without_signal_list() {
    assert!(signal_list(&parse("{ head: { text: 'x' } }")).is_none());
    assert!(signal_list(&parse("[1, 2]")).is_none());
    assert!(period_ns_text(&parse("{ config: { period_ns: 'ten' } }")).is_none());
}

#[test]
fn words_of_a_string() {
    assert_eq!(split_words(&" a  bc\n d ".to_string()), vec!["a", "bc", "d"]);
    assert!(split_words(&"   ".to_string()).is_empty());
}

#[test]
fn clock_wave_toggles_every_half_step() {
    let (is_string, ev) = expand_wave(&"p..".chars().collect(), &vec![]);
    assert!(!is_string);
    let got: Vec<_> = ev.iter().map(bit).collect();
    assert_eq!(
        got,
        vec![(0, false, '1'), (0, true, '0'), (1, false, '1'), (1, true, '0'), (2, false, '1'), (2, true, '0')]
    );
    let (_, ev) = expand_wave(&"N".chars().collect(), &vec![]);
    assert_eq!(ev.iter().map(bit).collect::<Vec<_>>(), vec![(0, false, '0'), (0, true, '1')]);
}

#[test]
fn held_levels_are_no_change() {
    let (_, ev) = expand_wave(&"01.0|1hLz".chars().collect(), &vec![]);
    let got: Vec<_> = ev.iter().map(bit).collect();
    assert_eq!(
        got,
        vec![(0, false, '0'), (1, false, '1'), (3, false, '0'), (5, false, '1'), (7, false, '0'), (8, false, 'z')]
    );
    // a leading '.' has nothing to hold; unknown characters are ignored
    let (_, ev) = expand_wave(&".?1".chars().collect(), &vec![]);
    assert_eq!(ev.iter().map(bit).collect::<Vec<_>>(), vec![(2, false, '1')]);
}

#[test]
fn bus_takes_data_in_turn() {
    let data = vec!["A".to_string(), "B".to_string()];
    let (is_string, ev) = expand_wave(&"x=.=x3".chars().collect(), &data);
    assert!(is_string);
    let got: Vec<_> = ev.iter().map(text).collect();
    assert_eq!(
        got,
        vec![
            (0, "x".to_string()),
            (1, "A".to_string()),
            (3, "B".to_string()),
            (4, "x".to_string()),
            (5, String::new()),
        ]
    );
}

#[test]
fn vcd_of_clock_bus_and_level() {
    let root = parse(
        r#"{ signal: [
            { name: "clk", wave: "p..." },
            { name: "bus", wave: "x=.=x", data: ["A", "B"] },
            { name: "en",  wave: "01.0" }
        ], config: { period_ns: 10 } }"#,
    );
    let sigs = collect_signals(signal_list(&root).unwrap());
    let vs: Vec<VcdSignal> = sigs.iter().map(vcd_signal).collect();
    let vcd = write_vcd(&document_text(&root, "head"), &document_text(&root, "foot"), &vs, 50);
    let expected = "$comment generated by wavAnaly from WaveDrom $end\n\
        $timescale 1ns $end\n\
        $scope module wavedrom $end\n\
        $var wire 1 ! clk $end\n\
        $var string 1 \" bus $end\n\
        $var wire 1 # en $end\n\
        $upscope $end\n\
        $enddefinitions $end\n\
        #0\n1!\nsx \"\n0#\n\
        #5\n0!\n\
        #10\n1!\nsA \"\n1#\n\
        #15\n0!\n\
        #20\n1!\n\
        #25\n0!\n\
        #30\n1!\nsB \"\n0#\n\
        #35\n0!\n\
        #40\nsx \"\n\
        #50\n";
    assert_eq!(vcd, expected);
}

#[test]
fn vcd_scopes_and_comments() {
    let root = parse(
        r#"{ signal: [ ["my bus", { name: "a b", wave: "01" }], { name: "", wave: "1" } ],
             head: { text: "Title $end here" }, foot: { text: "bye" } }"#,
    );
    let sigs = collect_signals(signal_list(&root).unwrap());
    let vs: Vec<VcdSignal> = sigs.iter().map(vcd_signal).collect();
    let vcd = write_vcd(&document_text(&root, "head"), &document_text(&root, "foot"), &vs, 20);
    let expected = "$comment generated by wavAnaly from WaveDrom $end\n\
        $comment head: Title  here $end\n\
        $comment foot: bye $end\n\
        $timescale 1ns $end\n\
        $scope module wavedrom $end\n\
        $scope module my_bus $end\n\
        $var wire 1 ! a_b $end\n\
        $upscope $end\n\
        $var wire 1 \" _ $end\n\
        $upscope $end\n\
        $enddefinitions $end\n\
        #0\n0!\n1\"\n\
        #10\n1!\n\
        #20\n";
    assert_eq!(vcd, expected);
}

#[test]
fn vcd_strings_replace_spaces() {
    let vs = vec![VcdSignal {
        scope: vec![],
        name: "s".to_string(),
        is_string: true,
        changes: vec![(3, Level::Str("a b c".to_string())), (3, Level::Str("d".to_string()))],
    }];
    let vcd = write_vcd(&None, &None, &vs, 3);
    assert!(vcd.ends_with("$enddefinitions $end\n#3\nsa_b_c !\nsd !\n#3\n"));
}

#[test]
fn vcd_changes_sorted_by_time_then_signal() {
    let vs = vec![
        VcdSignal { scope: vec![], name: "p".to_string(), is_string: false, changes: vec![(7, Level::Bit('1'))] },
        VcdSignal {
            scope: vec![],
            name: "q".to_string(),
            is_string: false,
            changes: vec![(2, Level::Bit('0')), (7, Level::Bit('1'))],
        },
    ];
    let vcd = write_vcd(&None, &None, &vs, 9);
    assert!(vcd.ends_with("$enddefinitions $end\n#2\n0\"\n#7\n1!\n1\"\n#9\n"));
}

fn number(text: &Option<String>, default: f64) -> f64 {
    text.as_deref().and_then(|t| t.parse::<f64>().ok()).unwrap_or(default)
}

/// The whole conversion, with steps placed in time as the viewer does.
fn to_vcd(text: &str) -> Result<String, String> {
    let root = parse_wavedrom(text).map_err(|e| e.message())?;
    let period_ns = number(&period_ns_text(&root), 10.0);
    let sigs = wave_signals(signal_list(&root).unwrap()).map_err(|e| e.message())?;
    let vs: Vec<VcdSignal> = sigs
        .iter()
        .map(|s| {
            let cycle = period_ns * number(&s.period, 1.0).max(0.01);
            let offset = -number(&s.phase, 0.0) * cycle;
            let (is_string, events) = expand_wave(&s.wave, &s.data);
            let changes = events
                .into_iter()
                .map(|e| {
                    let t0 = offset + e.slot as f64 * cycle;
                    let t = if e.half { t0 + cycle / 2.0 } else { t0 };
                    (t.max(0.0).round() as u64, e.level)
                })
                .collect();
            VcdSignal { scope: s.scope.clone(), name: s.name.clone(), is_string, changes }
        })
        .collect();
    let max_len = sigs
        .iter()
        .map(|s| (s.wave.len() as f64 * period_ns * number(&s.period, 1.0).max(0.01)) as u64)
        .max()
        .unwrap_or(0);
    Ok(write_vcd(&document_text(&root, "head"), &document_text(&root, "foot"), &vs, max_len))
}

#[test]
fn clock_and_bus() {
    let src = r#"{ signal: [
        { name: "clk", wave: "p..." },
        { name: "bus", wave: "x=.=x", data: ["A", "B"] },
        { name: "en",  wave: "01.0" }
    ], config: { period_ns: 10 } }"#;
    let vcd = to_vcd(src).unwrap();
    assert!(vcd.contains("$var wire 1 ! clk $end"));
    assert!(vcd.contains("$var string 1 \" bus $end"));
    assert!(vcd.contains("#0\n1!"));
    assert!(vcd.contains("#5\n0!"));
    assert!(vcd.contains("sA \""));
    assert!(vcd.contains("sB \""));
    // en: 0 at 0, 1 at 10, 0 at 30
    assert!(vcd.contains("#10\n1#") || vcd.contains("1#"));
}

#[test]
fn groups_become_scopes() {
    let src = r#"{ signal: [ ["bus", { name: "a", wave: "01" }], { name: "b", wave: "10" } ] }"#;
    let vcd = to_vcd(src).unwrap();
    assert!(vcd.contains("$scope module bus $end"));
}

#[test]
fn wavedrom_reading_errors() {
    match parse_wavedrom("{ signal: [ }") {
        Err(WaveDromError::InvalidJson(m)) => assert!(m.starts_with("不是有效的 WaveDrom/JSON: ")),
        other => panic!("expected invalid JSON, got {other:?}"),
    }
    let e = parse_wavedrom("{ head: { text: 'x' } }").unwrap_err();
    assert!(matches!(e, WaveDromError::MissingSignal));
    assert_eq!(e.message(), "WaveDrom 文件缺少 signal 数组");
    assert!(parse_wavedrom("[1]").is_err());
    assert!(parse_wavedrom("{ signal: 3 }").is_ok());
}

#[test]
fn signal_list_without_waves_is_refused() {
    let root = parse("{ signal: [ {}, { name: 'a' }, ['g', { name: 'b', wave: '' }] ] }");
    let e = wave_signals(signal_list(&root).unwrap()).unwrap_err();
    assert!(matches!(e, WaveDromError::NoSignals));
    assert_eq!(e.message(), "WaveDrom 文件里没有带 wave 的信号");
    assert_eq!(to_vcd("{ signal: [] }"), Err("WaveDrom 文件里没有带 wave 的信号".to_string()));
    let ok = parse("{ signal: [ { name: 'a', wave: '01' } ] }");
    assert_eq!(wave_signals(signal_list(&ok).unwrap()).unwrap().len(), 1);
}
