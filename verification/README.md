# blackbox_parser

Reads Betaflight / INAV blackbox flight logs into flat, row-major frame
streams. The decoding of the log format itself is done by the `blackbox-log`
crate, whose behaviour the library takes on trust (`src/decoder.rs`); what the
library does with the decoded values is verified with Verus.

- `src/decoder.rs` — the calls into the `blackbox-log` decoder, with their
  trusted contracts and the names for what the decoder yields.
- `src/fields.rs` — field metadata: names, signedness bytes, unit labels.
- `src/samples.rs` — reading raw values with their field's signedness,
  down-sampling main frames, stamping slow and GPS frames.
- `src/laws.rs` — what recording a whole data section yields, stated on its
  own and proved against the recorder.
- `src/flight_log.rs` — the decoded log and its getters.
- `src/parse.rs` — `parse_blackbox` and `read_log`.
- `app/` — the WebAssembly facade (`parseBlackbox`, `FlightLog` with
  `Float64Array` getters) over the library.
