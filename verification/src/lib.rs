//! An emulator of the RP2040/RP2350 programmable I/O (PIO) block, together
//! with the line protocol that carries PIO programs to a hardware reference.
pub mod instr;
pub mod state;
pub mod protocol;
pub mod text;
