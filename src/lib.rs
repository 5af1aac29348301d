//! An emulator for a small 16-register virtual processor with a 64x32
//! monochrome display, together with an assembler and a disassembler for
//! its machine code.
pub mod assembler;
pub mod disassembler;
pub mod instruction;
pub mod keys;
pub mod machine;
pub mod mnemonic;
pub mod round_trip;
pub mod text;

pub use assembler::assemble;
pub use disassembler::disassemble;
pub use instruction::{decode, Instruction};
pub use keys::map_key_to_button;
pub use machine::{Chip8, SCREEN_HEIGHT, SCREEN_WIDTH};
