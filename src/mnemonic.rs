use vstd::prelude::*;
use crate::instruction::Instruction;

verus! {

/// The upper-case hexadecimal digit for `d < 16`.
pub open spec fn hex_digit(d: nat) -> char {
    seq!['0', '1', '2', '3', '4', '5', '6', '7', '8', '9', 'A', 'B', 'C', 'D', 'E', 'F'][d as int]
}

/// `n` in upper-case hexadecimal, without leading zeros ("0" for zero).
pub open spec fn hex_str(n: nat) -> Seq<char>
    decreases n,
{
    if n < 16 {
        seq![hex_digit(n)]
    } else {
        hex_str(n / 16).push(hex_digit(n % 16))
    }
}

/// The register operand `Vx`.
pub open spec fn reg_word(x: u8) -> Seq<char> {
    seq!['V'] + hex_str(x as nat)
}

/// The words of the mnemonic line of an instruction: the mnemonic, then
/// its operands.
pub open spec fn words(ins: Instruction) -> Seq<Seq<char>> {
    match ins {
        Instruction::Nop => seq![seq!['N', 'O', 'P']],
        Instruction::Cls => seq![seq!['C', 'L', 'S']],
        Instruction::Ret => seq![seq!['R', 'E', 'T']],
        Instruction::Jp { nnn } => seq![seq!['J', 'P'], hex_str(nnn as nat)],
        Instruction::Call { nnn } => seq![seq!['C', 'A', 'L', 'L'], hex_str(nnn as nat)],
        Instruction::SeByte { x, kk } => seq![seq!['S', 'E'], reg_word(x), hex_str(kk as nat)],
        Instruction::SneByte { x, kk } => seq![seq!['S', 'N', 'E'], reg_word(x), hex_str(kk as nat)],
        Instruction::SeReg { x, y } => seq![seq!['S', 'E'], reg_word(x), reg_word(y)],
        Instruction::LdByte { x, kk } => seq![seq!['L', 'D'], reg_word(x), hex_str(kk as nat)],
        Instruction::AddByte { x, kk } => seq![seq!['A', 'D', 'D'], reg_word(x), hex_str(kk as nat)],
        Instruction::LdReg { x, y } => seq![seq!['L', 'D'], reg_word(x), reg_word(y)],
        Instruction::Or { x, y } => seq![seq!['O', 'R'], reg_word(x), reg_word(y)],
        Instruction::And { x, y } => seq![seq!['A', 'N', 'D'], reg_word(x), reg_word(y)],
        Instruction::Xor { x, y } => seq![seq!['X', 'O', 'R'], reg_word(x), reg_word(y)],
        Instruction::AddReg { x, y } => seq![seq!['A', 'D', 'D'], reg_word(x), reg_word(y)],
        Instruction::Sub { x, y } => seq![seq!['S', 'U', 'B'], reg_word(x), reg_word(y)],
        Instruction::Shr { x } => seq![seq!['S', 'H', 'R'], reg_word(x)],
        Instruction::Subn { x, y } => seq![seq!['S', 'U', 'B', 'N'], reg_word(x), reg_word(y)],
        Instruction::Shl { x } => seq![seq!['S', 'H', 'L'], reg_word(x)],
        Instruction::SneReg { x, y } => seq![seq!['S', 'N', 'E'], reg_word(x), reg_word(y)],
        Instruction::LdI { nnn } => seq![seq!['L', 'D'], seq!['I'], hex_str(nnn as nat)],
        Instruction::JpV0 { nnn } => seq![seq!['J', 'P'], reg_word(0), hex_str(nnn as nat)],
        Instruction::Rnd { x, kk } => seq![seq!['R', 'N', 'D'], reg_word(x), hex_str(kk as nat)],
        Instruction::Drw { x, y, n } => seq![
            seq!['D', 'R', 'W'],
            reg_word(x),
            reg_word(y),
            hex_str(n as nat),
        ],
        Instruction::Skp { x } => seq![seq!['S', 'K', 'P'], reg_word(x)],
        Instruction::Sknp { x } => seq![seq!['S', 'K', 'N', 'P'], reg_word(x)],
        Instruction::LdFromDelay { x } => seq![seq!['L', 'D'], reg_word(x), seq!['D', 'T']],
        Instruction::WaitKey { x } => seq![seq!['L', 'D'], reg_word(x), seq!['K']],
        Instruction::LdDelay { x } => seq![seq!['L', 'D'], seq!['D', 'T'], reg_word(x)],
        Instruction::LdSound { x } => seq![seq!['L', 'D'], seq!['S', 'T'], reg_word(x)],
        Instruction::AddI { x } => seq![seq!['A', 'D', 'D'], seq!['I'], reg_word(x)],
        Instruction::LdFont { x } => seq![seq!['L', 'D'], seq!['F'], reg_word(x)],
        Instruction::LdBcd { x } => seq![seq!['L', 'D'], seq!['B'], reg_word(x)],
        Instruction::StoreRegs { x } => seq![seq!['L', 'D'], seq!['[', 'I', ']'], reg_word(x)],
        Instruction::LoadRegs { x } => seq![seq!['L', 'D'], reg_word(x), seq!['[', 'I', ']']],
        Instruction::Unknown => seq![seq!['?', '?', '?']],
    }
}

/// Words joined by single spaces.
pub open spec fn join(ws: Seq<Seq<char>>) -> Seq<char>
    decreases ws.len(),
{
    if ws.len() == 0 {
        seq![]
    } else if ws.len() == 1 {
        ws[0]
    } else {
        ws[0] + seq![' '] + join(ws.drop_first())
    }
}

/// The mnemonic line of an instruction, without its line break.
pub open spec fn render(ins: Instruction) -> Seq<char> {
    join(words(ins))
}

/// Upper-case hexadecimal digits of `n`.
pub fn hex_chars(n: u16) -> (r: Vec<char>)
    ensures
        r@ == hex_str(n as nat),
    decreases n,
{
    let digits = ['0', '1', '2', '3', '4', '5', '6', '7', '8', '9', 'A', 'B', 'C', 'D', 'E', 'F'];
    let d = digits[(n % 16) as usize];
    if n < 16 {
        vec![d]
    } else {
        let mut v = hex_chars(n / 16);
        v.push(d);
        v
    }
}

fn reg_chars(x: u8) -> (r: Vec<char>)
    ensures
        r@ == reg_word(x),
{
    let mut v = vec!['V'];
    let mut h = hex_chars(x as u16);
    v.append(&mut h);
    v
}

/// The words of the mnemonic line of `ins`.
#[verifier::rlimit(40)]
pub fn instruction_words(ins: Instruction) -> (r: Vec<Vec<char>>)
    ensures
        r@.len() == words(ins).len(),
        forall|i: int| 0 <= i < r@.len() ==> #[trigger] r@[i]@ == words(ins)[i],
{
    match ins {
        Instruction::Nop => vec![vec!['N', 'O', 'P']],
        Instruction::Cls => vec![vec!['C', 'L', 'S']],
        Instruction::Ret => vec![vec!['R', 'E', 'T']],
        Instruction::Jp { nnn } => vec![vec!['J', 'P'], hex_chars(nnn)],
        Instruction::Call { nnn } => vec![vec!['C', 'A', 'L', 'L'], hex_chars(nnn)],
        Instruction::SeByte { x, kk } => vec![vec!['S', 'E'], reg_chars(x), hex_chars(kk as u16)],
        Instruction::SneByte { x, kk } => vec![vec!['S', 'N', 'E'], reg_chars(x), hex_chars(kk as u16)],
        Instruction::SeReg { x, y } => vec![vec!['S', 'E'], reg_chars(x), reg_chars(y)],
        Instruction::LdByte { x, kk } => vec![vec!['L', 'D'], reg_chars(x), hex_chars(kk as u16)],
        Instruction::AddByte { x, kk } => vec![vec!['A', 'D', 'D'], reg_chars(x), hex_chars(kk as u16)],
        Instruction::LdReg { x, y } => vec![vec!['L', 'D'], reg_chars(x), reg_chars(y)],
        Instruction::Or { x, y } => vec![vec!['O', 'R'], reg_chars(x), reg_chars(y)],
        Instruction::And { x, y } => vec![vec!['A', 'N', 'D'], reg_chars(x), reg_chars(y)],
        Instruction::Xor { x, y } => vec![vec!['X', 'O', 'R'], reg_chars(x), reg_chars(y)],
        Instruction::AddReg { x, y } => vec![vec!['A', 'D', 'D'], reg_chars(x), reg_chars(y)],
        Instruction::Sub { x, y } => vec![vec!['S', 'U', 'B'], reg_chars(x), reg_chars(y)],
        Instruction::Shr { x } => vec![vec!['S', 'H', 'R'], reg_chars(x)],
        Instruction::Subn { x, y } => vec![vec!['S', 'U', 'B', 'N'], reg_chars(x), reg_chars(y)],
        Instruction::Shl { x } => vec![vec!['S', 'H', 'L'], reg_chars(x)],
        Instruction::SneReg { x, y } => vec![vec!['S', 'N', 'E'], reg_chars(x), reg_chars(y)],
        Instruction::LdI { nnn } => vec![vec!['L', 'D'], vec!['I'], hex_chars(nnn)],
        Instruction::JpV0 { nnn } => vec![vec!['J', 'P'], reg_chars(0), hex_chars(nnn)],
        Instruction::Rnd { x, kk } => vec![vec!['R', 'N', 'D'], reg_chars(x), hex_chars(kk as u16)],
        Instruction::Drw { x, y, n } => vec![
            vec!['D', 'R', 'W'],
            reg_chars(x),
            reg_chars(y),
            hex_chars(n as u16),
        ],
        Instruction::Skp { x } => vec![vec!['S', 'K', 'P'], reg_chars(x)],
        Instruction::Sknp { x } => vec![vec!['S', 'K', 'N', 'P'], reg_chars(x)],
        Instruction::LdFromDelay { x } => vec![vec!['L', 'D'], reg_chars(x), vec!['D', 'T']],
        Instruction::WaitKey { x } => vec![vec!['L', 'D'], reg_chars(x), vec!['K']],
        Instruction::LdDelay { x } => vec![vec!['L', 'D'], vec!['D', 'T'], reg_chars(x)],
        Instruction::LdSound { x } => vec![vec!['L', 'D'], vec!['S', 'T'], reg_chars(x)],
        Instruction::AddI { x } => vec![vec!['A', 'D', 'D'], vec!['I'], reg_chars(x)],
        Instruction::LdFont { x } => vec![vec!['L', 'D'], vec!['F'], reg_chars(x)],
        Instruction::LdBcd { x } => vec![vec!['L', 'D'], vec!['B'], reg_chars(x)],
        Instruction::StoreRegs { x } => vec![vec!['L', 'D'], vec!['[', 'I', ']'], reg_chars(x)],
        Instruction::LoadRegs { x } => vec![vec!['L', 'D'], reg_chars(x), vec!['[', 'I', ']']],
        Instruction::Unknown => vec![vec!['?', '?', '?']],
    }
}

} // verus!
