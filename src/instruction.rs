use vstd::prelude::*;

verus! {

/// One decoded 16-bit instruction word.
///
/// `x` and `y` are register numbers (one nibble each), `kk` an 8-bit
/// immediate, `nnn` a 12-bit address and `n` a 4-bit row count.
#[derive(Clone, Copy, Debug, PartialEq, Eq, Structural)]
pub enum Instruction {
    /// `0000`
    Nop,
    /// `00E0`
    Cls,
    /// `00EE`
    Ret,
    /// `1nnn`
    Jp { nnn: u16 },
    /// `2nnn`
    Call { nnn: u16 },
    /// `3xkk`
    SeByte { x: u8, kk: u8 },
    /// `4xkk`
    SneByte { x: u8, kk: u8 },
    /// `5xy0`
    SeReg { x: u8, y: u8 },
    /// `6xkk`
    LdByte { x: u8, kk: u8 },
    /// `7xkk`
    AddByte { x: u8, kk: u8 },
    /// `8xy0`
    LdReg { x: u8, y: u8 },
    /// `8xy1`
    Or { x: u8, y: u8 },
    /// `8xy2`
    And { x: u8, y: u8 },
    /// `8xy3`
    Xor { x: u8, y: u8 },
    /// `8xy4`
    AddReg { x: u8, y: u8 },
    /// `8xy5`
    Sub { x: u8, y: u8 },
    /// `8xy6` (the `y` field is not kept)
    Shr { x: u8 },
    /// `8xy7`
    Subn { x: u8, y: u8 },
    /// `8xyE` (the `y` field is not kept)
    Shl { x: u8 },
    /// `9xy0`
    SneReg { x: u8, y: u8 },
    /// `Annn`
    LdI { nnn: u16 },
    /// `Bnnn`
    JpV0 { nnn: u16 },
    /// `Cxkk`
    Rnd { x: u8, kk: u8 },
    /// `Dxyn`
    Drw { x: u8, y: u8, n: u8 },
    /// `Ex9E`
    Skp { x: u8 },
    /// `ExA1`
    Sknp { x: u8 },
    /// `Fx07`
    LdFromDelay { x: u8 },
    /// `Fx0A`
    WaitKey { x: u8 },
    /// `Fx15`
    LdDelay { x: u8 },
    /// `Fx18`
    LdSound { x: u8 },
    /// `Fx1E`
    AddI { x: u8 },
    /// `Fx29`
    LdFont { x: u8 },
    /// `Fx33`
    LdBcd { x: u8 },
    /// `Fx55`
    StoreRegs { x: u8 },
    /// `Fx65`
    LoadRegs { x: u8 },
    /// Any word with no defined meaning.
    Unknown,
}

/// The instruction that the word `op` stands for.
pub open spec fn decode_spec(op: u16) -> Instruction {
    let a = op / 4096;
    let x = ((op / 256) % 16) as u8;
    let y = ((op / 16) % 16) as u8;
    let n = (op % 16) as u8;
    let kk = (op % 256) as u8;
    let nnn = op % 4096;
    if op == 0x0000 {
        Instruction::Nop
    } else if op == 0x00E0 {
        Instruction::Cls
    } else if op == 0x00EE {
        Instruction::Ret
    } else if a == 1 {
        Instruction::Jp { nnn }
    } else if a == 2 {
        Instruction::Call { nnn }
    } else if a == 3 {
        Instruction::SeByte { x, kk }
    } else if a == 4 {
        Instruction::SneByte { x, kk }
    } else if a == 5 && n == 0 {
        Instruction::SeReg { x, y }
    } else if a == 6 {
        Instruction::LdByte { x, kk }
    } else if a == 7 {
        Instruction::AddByte { x, kk }
    } else if a == 8 && n == 0 {
        Instruction::LdReg { x, y }
    } else if a == 8 && n == 1 {
        Instruction::Or { x, y }
    } else if a == 8 && n == 2 {
        Instruction::And { x, y }
    } else if a == 8 && n == 3 {
        Instruction::Xor { x, y }
    } else if a == 8 && n == 4 {
        Instruction::AddReg { x, y }
    } else if a == 8 && n == 5 {
        Instruction::Sub { x, y }
    } else if a == 8 && n == 6 {
        Instruction::Shr { x }
    } else if a == 8 && n == 7 {
        Instruction::Subn { x, y }
    } else if a == 8 && n == 0xE {
        Instruction::Shl { x }
    } else if a == 9 && n == 0 {
        Instruction::SneReg { x, y }
    } else if a == 0xA {
        Instruction::LdI { nnn }
    } else if a == 0xB {
        Instruction::JpV0 { nnn }
    } else if a == 0xC {
        Instruction::Rnd { x, kk }
    } else if a == 0xD {
        Instruction::Drw { x, y, n }
    } else if a == 0xE && kk == 0x9E {
        Instruction::Skp { x }
    } else if a == 0xE && kk == 0xA1 {
        Instruction::Sknp { x }
    } else if a == 0xF && kk == 0x07 {
        Instruction::LdFromDelay { x }
    } else if a == 0xF && kk == 0x0A {
        Instruction::WaitKey { x }
    } else if a == 0xF && kk == 0x15 {
        Instruction::LdDelay { x }
    } else if a == 0xF && kk == 0x18 {
        Instruction::LdSound { x }
    } else if a == 0xF && kk == 0x1E {
        Instruction::AddI { x }
    } else if a == 0xF && kk == 0x29 {
        Instruction::LdFont { x }
    } else if a == 0xF && kk == 0x33 {
        Instruction::LdBcd { x }
    } else if a == 0xF && kk == 0x55 {
        Instruction::StoreRegs { x }
    } else if a == 0xF && kk == 0x65 {
        Instruction::LoadRegs { x }
    } else {
        Instruction::Unknown
    }
}

/// The big-endian word made of two bytes.
pub open spec fn word_of(hi: u8, lo: u8) -> u16 {
    (hi as nat * 256 + lo as nat) as u16
}

/// Splits a word into its fields and picks the instruction it encodes.
pub fn decode(op: u16) -> (r: Instruction)
    ensures
        r == decode_spec(op),
{
    let a = op / 4096;
    let x = ((op / 256) % 16) as u8;
    let y = ((op / 16) % 16) as u8;
    let n = (op % 16) as u8;
    let kk = (op % 256) as u8;
    let nnn = op % 4096;
    if op == 0x0000 {
        Instruction::Nop
    } else if op == 0x00E0 {
        Instruction::Cls
    } else if op == 0x00EE {
        Instruction::Ret
    } else if a == 1 {
        Instruction::Jp { nnn }
    } else if a == 2 {
        Instruction::Call { nnn }
    } else if a == 3 {
        Instruction::SeByte { x, kk }
    } else if a == 4 {
        Instruction::SneByte { x, kk }
    } else if a == 5 && n == 0 {
        Instruction::SeReg { x, y }
    } else if a == 6 {
        Instruction::LdByte { x, kk }
    } else if a == 7 {
        Instruction::AddByte { x, kk }
    } else if a == 8 && n == 0 {
        Instruction::LdReg { x, y }
    } else if a == 8 && n == 1 {
        Instruction::Or { x, y }
    } else if a == 8 && n == 2 {
        Instruction::And { x, y }
    } else if a == 8 && n == 3 {
        Instruction::Xor { x, y }
    } else if a == 8 && n == 4 {
        Instruction::AddReg { x, y }
    } else if a == 8 && n == 5 {
        Instruction::Sub { x, y }
    } else if a == 8 && n == 6 {
        Instruction::Shr { x }
    } else if a == 8 && n == 7 {
        Instruction::Subn { x, y }
    } else if a == 8 && n == 0xE {
        Instruction::Shl { x }
    } else if a == 9 && n == 0 {
        Instruction::SneReg { x, y }
    } else if a == 0xA {
        Instruction::LdI { nnn }
    } else if a == 0xB {
        Instruction::JpV0 { nnn }
    } else if a == 0xC {
        Instruction::Rnd { x, kk }
    } else if a == 0xD {
        Instruction::Drw { x, y, n }
    } else if a == 0xE && kk == 0x9E {
        Instruction::Skp { x }
    } else if a == 0xE && kk == 0xA1 {
        Instruction::Sknp { x }
    } else if a == 0xF && kk == 0x07 {
        Instruction::LdFromDelay { x }
    } else if a == 0xF && kk == 0x0A {
        Instruction::WaitKey { x }
    } else if a == 0xF && kk == 0x15 {
        Instruction::LdDelay { x }
    } else if a == 0xF && kk == 0x18 {
        Instruction::LdSound { x }
    } else if a == 0xF && kk == 0x1E {
        Instruction::AddI { x }
    } else if a == 0xF && kk == 0x29 {
        Instruction::LdFont { x }
    } else if a == 0xF && kk == 0x33 {
        Instruction::LdBcd { x }
    } else if a == 0xF && kk == 0x55 {
        Instruction::StoreRegs { x }
    } else if a == 0xF && kk == 0x65 {
        Instruction::LoadRegs { x }
    } else {
        Instruction::Unknown
    }
}

} // verus!
