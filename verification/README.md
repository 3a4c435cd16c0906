# pioemu

An emulator of the RP2040/RP2350 programmable I/O (PIO) block, and the line
protocol that carries PIO programs to a hardware reference, written in Verus.

- `src/instr.rs` and `src/instr/`: the instruction set, and instructions in
  assembler syntax.
- `src/state.rs` and `src/state/`: FIFOs, configuration and registers, one
  clock of a state machine (`machine.rs`) and of the block (`block.rs`),
  stated over the plain-value model in `model.rs`; decoding assembled words
  (`decode.rs`, through the `pio` crate); the laws of the emulator (`laws.rs`);
  text output (`render.rs`).
- `src/protocol.rs` and `src/protocol/`: requests (`RUN1 ...` lines), their
  parser, the framing decoder, building a request from an assembled program,
  reading the CSV trace that answers one, and the round-trip laws.
- `src/text.rs`: decimal and hexadecimal text.
- `app/main.rs`: the host program (serial I/O) and an emulator demo.
- `tests/`: the test suite.
