# cantools

A CAN toolkit whose library is verified with Verus, around a `cantools`
command-line tool.

## Layout

- `src/` — the verified library:
  - `model`: identifiers, frames, timestamps and capture events;
  - `isotp`, `j1939`, `uds`, `obd`: protocol encoders and decoders;
  - `dbc`: signal extraction and multi-database frame decoding over
    database layouts;
  - `dbc_text`: DBC text parsed with `can-dbc`, and the layouts read from it;
  - `codec`, `mf4`, `mf4_blocks`, `blf`: capture formats — the 116-byte MF4
    capture record, file assembly and reading (with `mf4-rs`), and BLF CAN
    message objects written and read (with `ablf`);
  - `socketcan`: the kernel frame structures as plain values;
  - `cli`, `monitor`: hex payloads, identifiers, frame rendering, replay
    pacing and the monitor's text;
  - `codegen`: rendering of the generated UDS, OBD and J1939 tables;
  - `bytes`, `text`: byte-buffer helpers and text conversions.
- `tests/` — tests of the library.
- `app/` — the tool: argument handling, files, sockets, the terminal UI, the
  floating-point scaling of signals and OBD values, the spec-data parsing for
  the table generator, and the outside readers for capture files of other
  layouts than the library writes.
