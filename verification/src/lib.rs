//! A verified emulator for the Custom32 instruction set: an assembly-text
//! frontend (comment stripping, labels, operand tokens), a 32-register
//! machine with byte-addressable little-endian memory, bit-exact condition
//! flags, and a fetch-decode-execute interpreter loop.
//!
//! The companion modules model the serial console of the hobby kernels that
//! host the emulator: UART text formatting, the shell command dispatcher,
//! and the VGA text writer. Hardware access itself stays outside; these
//! modules compute the exact byte streams and screen contents.

pub mod interp;
pub mod keyboard;
pub mod laws;
pub mod loader;
pub mod machine;
pub mod numfmt;
pub mod shell;
pub mod summary;
pub mod text;
pub mod uart;
pub mod vga;

pub use machine::Custom32Emulator;
pub use machine::EmulatorError;
pub use machine::Flags;
pub use machine::Instruction;
