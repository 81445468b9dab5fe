# libsurfer (decoders, WaveDrom import, localisation)

The library half of the wavAnaly waveform viewer: protocol decoders that turn
sampled lines into string-valued "virtual" signals, the WaveDrom import that
turns a timing diagram into VCD text, the help tables, and the Chinese/English
interface texts. Every function in `src/` carries a contract that Verus proves.

## Layout

| Path | Contents |
|---|---|
| `src/decoders/` | `Segment` / `VirtualSignal` (sorting, collapsing, queries), I²C, SPI, the frame text of UART, and PCIe (8b/10b, scrambler, CRCs, TLP/DLLP framing) |
| `src/decoders/timeline.rs` | what a signal shows at a time, stated over the decoder's own output |
| `src/wavedrom/` | JSON5 normalisation, reading the document (JSON parsing through `serde_json`), the signal list and wave strings, VCD writing |
| `src/i18n/` | language setting, dictionary lookup |
| `src/help.rs` | key-binding tables and help window lines |
| `src/sorting.rs`, `src/text.rs` | stable sort by key; character and number formatting |
| `tests/` | tests run against the compiled library |
| `app/` | what stays outside the verified library: line sampling, clock recovery and WaveDrom step timing in floating point, times of any size, the process-wide language, file export |

## Laws proved in `src/`

* a query after building a signal shows the segment in effect at that time and the next start (`decoders::timeline::lemma_query_after_new`);
* building a signal keeps exactly the given start times, each with the text of the last segment given for it (`decoders::timeline::lemma_new_keeps_last_text`);
* every 8b/10b code has ten bits and keeps the running disparity at -1 or +1 (`decoders::pcie::code8b10b::lemma_encode_shape`);
* 8b/10b decoding undoes encoding, and the table holds no other codes (`decoders::pcie::code8b10b`);
* descrambling undoes scrambling (`decoders::pcie::scrambler::lemma_scramble_roundtrip`);
* the changes of a wave come in order and each changes the value (`wavedrom::signals::lemma_wave_events_ordered`);
* VCD identifiers are distinct, names are never empty and hold no whitespace (`wavedrom`);
* the stable sort orders by key and keeps every record (`sorting`).
