use vstd::prelude::*;
use crate::instruction::{decode, decode_spec, word_of, Instruction};

verus! {

/// Width of the display, in pixels.
pub const SCREEN_WIDTH: usize = 64;

/// Height of the display, in pixels.
pub const SCREEN_HEIGHT: usize = 32;

/// Number of pixels of the display.
pub const SCREEN_SIZE: usize = 2048;

/// Bytes of addressable memory.
pub const MEMORY_SIZE: usize = 4096;

/// Address where programs are loaded and execution starts.
pub const BOOT_SECTOR: usize = 512;

/// Number of general registers.
pub const REGISTER_COUNT: usize = 16;

/// Depth of the return-address stack.
pub const STACK_SIZE: usize = 16;

/// Number of keys of the keypad.
pub const KEY_COUNT: usize = 16;

/// Largest program that fits between the boot sector and the end of memory.
pub const MAX_ROM_SIZE: usize = 3584;

/// The flag register `VF`.
pub const FLAG: usize = 15;

/// The abstract state of the processor.
pub struct MachineState {
    pub memory: Seq<u8>,
    pub registers: Seq<u8>,
    pub index: u16,
    pub pc: u16,
    pub stack: Seq<u16>,
    pub sp: nat,
    pub delay_timer: u8,
    pub sound_timer: u8,
    pub screen: Seq<u8>,
    pub keypad: Seq<bool>,
}

impl MachineState {
    /// Sizes are those of the machine, the stack holds at most 16 entries and
    /// every pixel is 0 or 1.
    pub open spec fn wf(self) -> bool {
        &&& self.memory.len() == MEMORY_SIZE
        &&& self.registers.len() == REGISTER_COUNT
        &&& self.stack.len() == STACK_SIZE
        &&& self.sp <= STACK_SIZE
        &&& self.screen.len() == SCREEN_SIZE
        &&& self.keypad.len() == KEY_COUNT
        &&& forall|i: int| 0 <= i < SCREEN_SIZE ==> #[trigger] self.screen[i] <= 1
    }
}

/// The 80 bytes of the built-in hexadecimal digit sprites, five per digit.
pub open spec fn font() -> Seq<u8> {
    seq![
        0xF0u8, 0x90, 0x90, 0x90, 0xF0,
        0x20, 0x60, 0x20, 0x20, 0x70,
        0xF0, 0x10, 0xF0, 0x80, 0xF0,
        0xF0, 0x10, 0xF0, 0x10, 0xF0,
        0x90, 0x90, 0xF0, 0x10, 0x10,
        0xF0, 0x80, 0xF0, 0x10, 0xF0,
        0xF0, 0x80, 0xF0, 0x90, 0xF0,
        0xF0, 0x10, 0x20, 0x40, 0x40,
        0xF0, 0x90, 0xF0, 0x90, 0xF0,
        0xF0, 0x90, 0xF0, 0x10, 0xF0,
        0xF0, 0x90, 0xF0, 0x90, 0x90,
        0xE0, 0x90, 0xE0, 0x90, 0xE0,
        0xF0, 0x80, 0x80, 0x80, 0xF0,
        0xE0, 0x90, 0x90, 0x90, 0xE0,
        0xF0, 0x80, 0xF0, 0x80, 0xF0,
        0xF0, 0x80, 0xF0, 0x80, 0x80,
    ]
}

/// The state of a freshly created machine.
pub open spec fn initial_state() -> MachineState {
    MachineState {
        memory: Seq::new(
            MEMORY_SIZE as nat,
            |a: int|
                if a < 80 {
                    font()[a]
                } else {
                    0u8
                },
        ),
        registers: Seq::new(REGISTER_COUNT as nat, |i: int| 0u8),
        index: 0,
        pc: BOOT_SECTOR as u16,
        stack: Seq::new(STACK_SIZE as nat, |i: int| 0u16),
        sp: 0,
        delay_timer: 0,
        sound_timer: 0,
        screen: Seq::new(SCREEN_SIZE as nat, |i: int| 0u8),
        keypad: Seq::new(KEY_COUNT as nat, |i: int| false),
    }
}

/// The position, counted from the sprite's origin `(x, y)` along the
/// wrapping linear display, at which pixel `p` lies.
pub open spec fn sprite_offset(p: int, x: int, y: int) -> int {
    (p - x - y * SCREEN_WIDTH) % (SCREEN_SIZE as int)
}

/// Whether the sprite of `n` rows at `memory[index..]` has a set bit at
/// offset `o`: row `o / 64`, column `o % 64`.
pub open spec fn sprite_bit(memory: Seq<u8>, index: u16, n: u8, o: int) -> bool {
    let row = o / SCREEN_WIDTH as int;
    let col = o % SCREEN_WIDTH as int;
    &&& row < n
    &&& col < 8
    &&& memory[index + row] & (0x80u8 >> (col as u8)) != 0
}

/// Whether drawing the sprite at `(x, y)` flips pixel `p`.
pub open spec fn sprite_hits(m: MachineState, x: u8, y: u8, n: u8, p: int) -> bool {
    sprite_bit(m.memory, m.index, n, sprite_offset(p, x as int, y as int))
}

/// The display after drawing the sprite: every pixel that a set bit lands on
/// is flipped.
pub open spec fn drawn_screen(m: MachineState, x: u8, y: u8, n: u8) -> Seq<u8> {
    Seq::new(
        SCREEN_SIZE as nat,
        |p: int|
            if sprite_hits(m, x, y, n, p) {
                m.screen[p] ^ 1
            } else {
                m.screen[p]
            },
    )
}

/// Whether drawing the sprite erases a lit pixel.
pub open spec fn collides(m: MachineState, x: u8, y: u8, n: u8) -> bool {
    exists|p: int| 0 <= p < SCREEN_SIZE && #[trigger] sprite_hits(m, x, y, n, p) && m.screen[p] == 1
}

/// The highest-numbered key below `upto` that is pressed, or -1.
pub open spec fn highest_pressed(keypad: Seq<bool>, upto: int) -> int
    decreases upto,
{
    if upto <= 0 {
        -1
    } else if keypad[upto - 1] {
        upto - 1
    } else {
        highest_pressed(keypad, upto - 1)
    }
}

/// `m` with the program counter moved past one instruction when `cond`.
pub open spec fn skip_if(m: MachineState, cond: bool) -> MachineState {
    if cond {
        MachineState { pc: (m.pc + 2) as u16, ..m }
    } else {
        m
    }
}

/// `m` with register `x` set to `v`.
pub open spec fn set_reg(m: MachineState, x: u8, v: u8) -> MachineState {
    MachineState { registers: m.registers.update(x as int, v), ..m }
}

/// `m` with register `x` set to `v`, then the flag register to `f`.
pub open spec fn set_reg_flag(m: MachineState, x: u8, v: u8, f: u8) -> MachineState {
    MachineState { registers: m.registers.update(x as int, v).update(FLAG as int, f), ..m }
}

/// What executing `ins` does to the state `m`; `random` is the byte drawn
/// for `RND`.
pub open spec fn execute_spec(m: MachineState, ins: Instruction, random: u8) -> MachineState {
    let r = m.registers;
    match ins {
        Instruction::Nop => m,
        Instruction::Cls => MachineState { screen: Seq::new(SCREEN_SIZE as nat, |i: int| 0u8), ..m },
        Instruction::Ret => if m.sp > 0 {
            MachineState { pc: m.stack[m.sp - 1], sp: (m.sp - 1) as nat, ..m }
        } else {
            MachineState { pc: 0, ..m }
        },
        Instruction::Jp { nnn } => MachineState { pc: nnn, ..m },
        Instruction::Call { nnn } => if m.sp < STACK_SIZE {
            MachineState { stack: m.stack.update(m.sp as int, m.pc), sp: m.sp + 1, pc: nnn, ..m }
        } else {
            m
        },
        Instruction::SeByte { x, kk } => skip_if(m, r[x as int] == kk),
        Instruction::SneByte { x, kk } => skip_if(m, r[x as int] != kk),
        Instruction::SeReg { x, y } => skip_if(m, r[x as int] == r[y as int]),
        Instruction::LdByte { x, kk } => set_reg(m, x, kk),
        Instruction::AddByte { x, kk } => set_reg(m, x, ((r[x as int] + kk) % 256) as u8),
        Instruction::LdReg { x, y } => set_reg(m, x, r[y as int]),
        Instruction::Or { x, y } => set_reg(m, x, r[x as int] | r[y as int]),
        Instruction::And { x, y } => set_reg(m, x, r[x as int] & r[y as int]),
        Instruction::Xor { x, y } => set_reg(m, x, r[x as int] ^ r[y as int]),
        Instruction::AddReg { x, y } => {
            let sum = r[x as int] + r[y as int];
            set_reg_flag(m, x, (sum % 256) as u8, if sum > 255 { 1 } else { 0 })
        },
        Instruction::Sub { x, y } => set_reg_flag(
            m,
            x,
            ((r[x as int] - r[y as int]) % 256) as u8,
            if r[x as int] >= r[y as int] { 1 } else { 0 },
        ),
        Instruction::Shr { x } => {
            let m1 = set_reg(m, FLAG as u8, r[x as int] & 1);
            set_reg(m1, x, m1.registers[x as int] >> 1u8)
        },
        Instruction::Subn { x, y } => set_reg_flag(
            m,
            x,
            ((r[y as int] - r[x as int]) % 256) as u8,
            if r[y as int] >= r[x as int] { 1 } else { 0 },
        ),
        Instruction::Shl { x } => {
            let m1 = set_reg(m, FLAG as u8, (r[x as int] >> 7u8) & 1);
            set_reg(m1, x, m1.registers[x as int] << 1u8)
        },
        Instruction::SneReg { x, y } => skip_if(m, r[x as int] != r[y as int]),
        Instruction::LdI { nnn } => MachineState { index: nnn, ..m },
        Instruction::JpV0 { nnn } => MachineState { pc: (nnn + r[0]) as u16, ..m },
        Instruction::Rnd { x, kk } => set_reg(m, x, random & kk),
        Instruction::Drw { x, y, n } => {
            let vx = r[x as int];
            let vy = r[y as int];
            MachineState {
                screen: drawn_screen(m, vx, vy, n),
                registers: r.update(
                    FLAG as int,
                    if collides(m, vx, vy, n) { 1 } else { 0 },
                ),
                ..m
            }
        },
        Instruction::Skp { x } => skip_if(m, m.keypad[r[x as int] as int]),
        Instruction::Sknp { x } => skip_if(m, !m.keypad[r[x as int] as int]),
        Instruction::LdFromDelay { x } => set_reg(m, x, m.delay_timer),
        Instruction::WaitKey { x } => {
            let k = highest_pressed(m.keypad, KEY_COUNT as int);
            if k >= 0 {
                set_reg(m, x, k as u8)
            } else {
                MachineState { pc: (m.pc - 2) as u16, ..m }
            }
        },
        Instruction::LdDelay { x } => MachineState { delay_timer: r[x as int], ..m },
        Instruction::LdSound { x } => MachineState { sound_timer: r[x as int], ..m },
        Instruction::AddI { x } => MachineState { index: (m.index + r[x as int]) as u16, ..m },
        Instruction::LdFont { x } => MachineState { index: (r[x as int] * 5) as u16, ..m },
        Instruction::LdBcd { x } => {
            let v = r[x as int];
            MachineState {
                memory: m.memory.update(m.index as int, v / 100).update(
                    m.index + 1,
                    (v / 10) % 10,
                ).update(m.index + 2, v % 10),
                ..m
            }
        },
        Instruction::StoreRegs { x } => MachineState {
            memory: Seq::new(
                MEMORY_SIZE as nat,
                |a: int|
                    if m.index <= a <= m.index + x {
                        r[a - m.index]
                    } else {
                        m.memory[a]
                    },
            ),
            index: (m.index + x + 1) as u16,
            ..m
        },
        Instruction::LoadRegs { x } => MachineState {
            registers: Seq::new(
                REGISTER_COUNT as nat,
                |i: int|
                    if i <= x {
                        m.memory[m.index + i]
                    } else {
                        r[i]
                    },
            ),
            index: (m.index + x + 1) as u16,
            ..m
        },
        Instruction::Unknown => m,
    }
}

/// Whether the register numbers of `ins` name registers and its row count
/// is a nibble, as in every decoded instruction.
pub open spec fn operands_valid(ins: Instruction) -> bool {
    match ins {
        Instruction::SeByte { x, kk } => x < 16,
        Instruction::SneByte { x, kk } => x < 16,
        Instruction::SeReg { x, y } => x < 16 && y < 16,
        Instruction::LdByte { x, kk } => x < 16,
        Instruction::AddByte { x, kk } => x < 16,
        Instruction::LdReg { x, y } => x < 16 && y < 16,
        Instruction::Or { x, y } => x < 16 && y < 16,
        Instruction::And { x, y } => x < 16 && y < 16,
        Instruction::Xor { x, y } => x < 16 && y < 16,
        Instruction::AddReg { x, y } => x < 16 && y < 16,
        Instruction::Sub { x, y } => x < 16 && y < 16,
        Instruction::Shr { x } => x < 16,
        Instruction::Subn { x, y } => x < 16 && y < 16,
        Instruction::Shl { x } => x < 16,
        Instruction::SneReg { x, y } => x < 16 && y < 16,
        Instruction::Rnd { x, kk } => x < 16,
        Instruction::JpV0 { nnn } => nnn < 4096,
        Instruction::Drw { x, y, n } => x < 16 && y < 16 && n < 16,
        Instruction::Skp { x } => x < 16,
        Instruction::Sknp { x } => x < 16,
        Instruction::LdFromDelay { x } => x < 16,
        Instruction::WaitKey { x } => x < 16,
        Instruction::LdDelay { x } => x < 16,
        Instruction::LdSound { x } => x < 16,
        Instruction::AddI { x } => x < 16,
        Instruction::LdFont { x } => x < 16,
        Instruction::LdBcd { x } => x < 16,
        Instruction::StoreRegs { x } => x < 16,
        Instruction::LoadRegs { x } => x < 16,
        _ => true,
    }
}

/// Whether executing `ins` in `m` stays within memory, the keypad and the
/// 16-bit registers.
pub open spec fn can_execute(m: MachineState, ins: Instruction) -> bool {
    operands_valid(ins) && can_execute_operands(m, ins)
}

/// The bounds that executing `ins` in `m` needs, beyond valid operands.
pub open spec fn can_execute_operands(m: MachineState, ins: Instruction) -> bool {
    let r = m.registers;
    match ins {
        Instruction::SeByte { x, kk } => r[x as int] == kk ==> m.pc + 2 <= 0xFFFF,
        Instruction::SneByte { x, kk } => r[x as int] != kk ==> m.pc + 2 <= 0xFFFF,
        Instruction::SeReg { x, y } => r[x as int] == r[y as int] ==> m.pc + 2 <= 0xFFFF,
        Instruction::SneReg { x, y } => r[x as int] != r[y as int] ==> m.pc + 2 <= 0xFFFF,
        Instruction::Drw { x, y, n } => n == 0 || m.index + n <= MEMORY_SIZE,
        Instruction::Skp { x } => r[x as int] < KEY_COUNT && (m.keypad[r[x as int] as int] ==> m.pc
            + 2 <= 0xFFFF),
        Instruction::Sknp { x } => r[x as int] < KEY_COUNT && (!m.keypad[r[x as int] as int]
            ==> m.pc + 2 <= 0xFFFF),
        Instruction::WaitKey { x } => highest_pressed(m.keypad, KEY_COUNT as int) < 0 ==> m.pc >= 2,
        Instruction::AddI { x } => m.index + r[x as int] <= 0xFFFF,
        Instruction::LdBcd { x } => m.index + 2 < MEMORY_SIZE,
        Instruction::StoreRegs { x } => m.index + x < MEMORY_SIZE,
        Instruction::LoadRegs { x } => m.index + x < MEMORY_SIZE,
        _ => true,
    }
}

/// The instruction word at the program counter.
pub open spec fn fetched_word(m: MachineState) -> u16 {
    word_of(m.memory[m.pc as int], m.memory[m.pc + 1])
}

/// `m` with the program counter moved past the fetched word.
pub open spec fn after_fetch(m: MachineState) -> MachineState {
    MachineState { pc: (m.pc + 2) as u16, ..m }
}

/// Whether one fetch-decode-execute cycle from `m` stays within bounds.
pub open spec fn can_cycle(m: MachineState) -> bool {
    &&& m.pc + 1 < MEMORY_SIZE
    &&& can_execute(after_fetch(m), decode_spec(fetched_word(m)))
}

/// One fetch-decode-execute cycle from `m`.
pub open spec fn cycle_spec(m: MachineState, random: u8) -> MachineState {
    execute_spec(after_fetch(m), decode_spec(fetched_word(m)), random)
}

/// The processor: memory, registers, timers, stack, display and keypad.
pub struct Chip8 {
    memory: [u8; MEMORY_SIZE],
    registers: [u8; REGISTER_COUNT],
    index: u16,
    pc: u16,
    stack: [u16; STACK_SIZE],
    sp: usize,
    delay_timer: u8,
    sound_timer: u8,
    screen: [u8; SCREEN_SIZE],
    keypad: [bool; KEY_COUNT],
}

impl View for Chip8 {
    type V = MachineState;

    closed spec fn view(&self) -> MachineState {
        MachineState {
            memory: self.memory@,
            registers: self.registers@,
            index: self.index,
            pc: self.pc,
            stack: self.stack@,
            sp: self.sp as nat,
            delay_timer: self.delay_timer,
            sound_timer: self.sound_timer,
            screen: self.screen@,
            keypad: self.keypad@,
        }
    }
}

/// `memory` with `rom` copied in at the boot sector.
pub open spec fn loaded(memory: Seq<u8>, rom: Seq<u8>) -> Seq<u8> {
    Seq::new(
        memory.len(),
        |a: int|
            if BOOT_SECTOR <= a < BOOT_SECTOR + rom.len() {
                rom[a - BOOT_SECTOR]
            } else {
                memory[a]
            },
    )
}


/// The display after drawing the sprite cells at offsets below `done`.
spec fn partial_screen(m: MachineState, x: u8, y: u8, n: u8, done: int) -> Seq<u8> {
    Seq::new(
        SCREEN_SIZE as nat,
        |p: int|
            if sprite_hits(m, x, y, n, p) && sprite_offset(p, x as int, y as int) < done {
                m.screen[p] ^ 1
            } else {
                m.screen[p]
            },
    )
}

/// Whether a sprite cell at an offset below `done` erases a lit pixel.
spec fn partial_collides(m: MachineState, x: u8, y: u8, n: u8, done: int) -> bool {
    exists|p: int|
        0 <= p < SCREEN_SIZE && #[trigger] sprite_hits(m, x, y, n, p) && sprite_offset(
            p,
            x as int,
            y as int,
        ) < done && m.screen[p] == 1
}

/// The sprite cell at offset `k` lands on exactly one pixel.
proof fn lemma_offset(p: int, x: int, y: int, k: int)
    requires
        0 <= p < SCREEN_SIZE,
        0 <= k < SCREEN_SIZE,
    ensures
        (sprite_offset(p, x, y) == k) <==> (p == (x + k + y * 64) % 2048),
{
}

proof fn lemma_offset_range(p: int, x: int, y: int)
    ensures
        0 <= sprite_offset(p, x, y) < SCREEN_SIZE,
{
}

proof fn lemma_flip_bit(v: u8)
    requires
        v <= 1,
    ensures
        v ^ 1 <= 1,
        v ^ 1 == 1 - v,
{
    assert(v <= 1 ==> v ^ 1 <= 1 && v ^ 1 == 1 - v) by (bit_vector);
}

impl Chip8 {
    /// A machine with the digit sprites at the start of memory, everything
    /// else zero, and the program counter at the boot sector.
    pub fn new() -> (r: Self)
        ensures
            r@ == initial_state(),
            r@.wf(),
    {
        let glyphs: [u8; 80] = [
            0xF0, 0x90, 0x90, 0x90, 0xF0,
            0x20, 0x60, 0x20, 0x20, 0x70,
            0xF0, 0x10, 0xF0, 0x80, 0xF0,
            0xF0, 0x10, 0xF0, 0x10, 0xF0,
            0x90, 0x90, 0xF0, 0x10, 0x10,
            0xF0, 0x80, 0xF0, 0x10, 0xF0,
            0xF0, 0x80, 0xF0, 0x90, 0xF0,
            0xF0, 0x10, 0x20, 0x40, 0x40,
            0xF0, 0x90, 0xF0, 0x90, 0xF0,
            0xF0, 0x90, 0xF0, 0x10, 0xF0,
            0xF0, 0x90, 0xF0, 0x90, 0x90,
            0xE0, 0x90, 0xE0, 0x90, 0xE0,
            0xF0, 0x80, 0x80, 0x80, 0xF0,
            0xE0, 0x90, 0x90, 0x90, 0xE0,
            0xF0, 0x80, 0xF0, 0x80, 0xF0,
            0xF0, 0x80, 0xF0, 0x80, 0x80,
        ];
        assert(glyphs@ =~= font());
        let mut chip = Chip8 {
            memory: [0; MEMORY_SIZE],
            registers: [0; REGISTER_COUNT],
            index: 0,
            pc: BOOT_SECTOR as u16,
            stack: [0; STACK_SIZE],
            sp: 0,
            delay_timer: 0,
            sound_timer: 0,
            screen: [0; SCREEN_SIZE],
            keypad: [false; KEY_COUNT],
        };
        let mut i: usize = 0;
        while i < 80
            invariant
                i <= 80,
                glyphs@ == font(),
                chip.memory@.len() == MEMORY_SIZE,
                forall|a: int| 0 <= a < i ==> chip.memory@[a] == font()[a],
                forall|a: int| i <= a < MEMORY_SIZE ==> chip.memory@[a] == 0,
                chip.registers@ == Seq::new(REGISTER_COUNT as nat, |k: int| 0u8),
                chip.index == 0,
                chip.pc == BOOT_SECTOR,
                chip.stack@ == Seq::new(STACK_SIZE as nat, |k: int| 0u16),
                chip.sp == 0,
                chip.delay_timer == 0,
                chip.sound_timer == 0,
                chip.screen@ == Seq::new(SCREEN_SIZE as nat, |k: int| 0u8),
                chip.keypad@ == Seq::new(KEY_COUNT as nat, |k: int| false),
            decreases 80 - i,
        {
            chip.memory[i] = glyphs[i];
            i = i + 1;
        }
        assert(chip.memory@ =~= initial_state().memory);
        chip
    }

    /// Copies `rom` into memory at the boot sector.
    pub fn load_rom(&mut self, rom: &[u8])
        requires
            old(self)@.wf(),
            rom@.len() <= MAX_ROM_SIZE,
        ensures
            final(self)@ == (MachineState { memory: loaded(old(self)@.memory, rom@), ..old(self)@ }),
            final(self)@.wf(),
    {
        let mut i: usize = 0;
        while i < rom.len()
            invariant
                i <= rom@.len() <= MAX_ROM_SIZE,
                self.memory@.len() == MEMORY_SIZE,
                forall|a: int|
                    0 <= a < MEMORY_SIZE ==> #[trigger] self.memory@[a] == if BOOT_SECTOR <= a
                        < BOOT_SECTOR + i {
                        rom@[a - BOOT_SECTOR]
                    } else {
                        old(self).memory@[a]
                    },
                self.registers == old(self).registers,
                self.index == old(self).index,
                self.pc == old(self).pc,
                self.stack == old(self).stack,
                self.sp == old(self).sp,
                self.delay_timer == old(self).delay_timer,
                self.sound_timer == old(self).sound_timer,
                self.screen == old(self).screen,
                self.keypad == old(self).keypad,
            decreases rom@.len() - i,
        {
            self.memory[BOOT_SECTOR + i] = rom[i];
            i = i + 1;
        }
        assert(self.memory@ =~= loaded(old(self)@.memory, rom@));
    }

    /// The display, one byte (0 or 1) per pixel, row after row.
    pub fn get_screen_buffer(&self) -> (r: &[u8])
        ensures
            r@ == self@.screen,
    {
        self.screen.as_slice()
    }

    /// Which keys are pressed.
    pub fn get_keypad(&self) -> (r: &[bool])
        ensures
            r@ == self@.keypad,
    {
        self.keypad.as_slice()
    }

    /// The sound timer; the machine beeps while it is not zero.
    pub fn get_sound_timer(&self) -> (r: u8)
        ensures
            r == self@.sound_timer,
    {
        self.sound_timer
    }

    /// The delay timer.
    pub fn get_delay_timer(&self) -> (r: u8)
        ensures
            r == self@.delay_timer,
    {
        self.delay_timer
    }

    /// The program counter.
    pub fn get_pc(&self) -> (r: u16)
        ensures
            r == self@.pc,
    {
        self.pc
    }

    /// The index register `I`.
    pub fn get_index(&self) -> (r: u16)
        ensures
            r == self@.index,
    {
        self.index
    }

    /// Register `Vx`.
    pub fn get_register(&self, x: usize) -> (r: u8)
        requires
            x < REGISTER_COUNT,
        ensures
            r == self@.registers[x as int],
    {
        self.registers[x]
    }

    /// Counts both timers down by one, each stopping at zero.
    pub fn update_timers(&mut self)
        requires
            old(self)@.wf(),
        ensures
            final(self)@ == (MachineState {
                delay_timer: if old(self)@.delay_timer > 0 {
                    (old(self)@.delay_timer - 1) as u8
                } else {
                    0
                },
                sound_timer: if old(self)@.sound_timer > 0 {
                    (old(self)@.sound_timer - 1) as u8
                } else {
                    0
                },
                ..old(self)@
            }),
            final(self)@.wf(),
    {
        if self.delay_timer > 0 {
            self.delay_timer = self.delay_timer - 1;
        }
        if self.sound_timer > 0 {
            self.sound_timer = self.sound_timer - 1;
        }
    }

    /// Releases every key.
    pub fn clear_keypad(&mut self)
        requires
            old(self)@.wf(),
        ensures
            final(self)@ == (MachineState {
                keypad: Seq::new(KEY_COUNT as nat, |i: int| false),
                ..old(self)@
            }),
            final(self)@.wf(),
    {
        self.keypad = [false; KEY_COUNT];
        assert(self.keypad@ =~= Seq::new(KEY_COUNT as nat, |i: int| false));
    }

    /// Marks key `key` as pressed.
    pub fn set_keypress(&mut self, key: usize)
        requires
            old(self)@.wf(),
            key < KEY_COUNT,
        ensures
            final(self)@ == (MachineState {
                keypad: old(self)@.keypad.update(key as int, true),
                ..old(self)@
            }),
            final(self)@.wf(),
    {
        self.keypad[key] = true;
    }

    /// Reads the big-endian word at the program counter and moves past it.
    fn fetch_instruction(&mut self) -> (r: u16)
        requires
            old(self)@.wf(),
            old(self)@.pc + 1 < MEMORY_SIZE,
        ensures
            r == fetched_word(old(self)@),
            final(self)@ == after_fetch(old(self)@),
    {
        let pc = self.pc as usize;
        let byte1 = self.memory[pc] as u16;
        let byte2 = self.memory[pc + 1] as u16;
        self.pc = self.pc + 2;
        byte1 * 256 + byte2
    }

    /// Pushes a return address; `false`, with nothing changed, when the
    /// stack is full.
    fn push_stack(&mut self, value: u16) -> (r: bool)
        requires
            old(self)@.wf(),
        ensures
            r == (old(self)@.sp < STACK_SIZE),
            r ==> final(self)@ == (MachineState {
                stack: old(self)@.stack.update(old(self)@.sp as int, value),
                sp: old(self)@.sp + 1,
                ..old(self)@
            }),
            !r ==> final(self)@ == old(self)@,
    {
        if self.sp < STACK_SIZE {
            self.stack[self.sp] = value;
            self.sp = self.sp + 1;
            true
        } else {
            false
        }
    }

    /// Pops a return address; 0, with nothing changed, when the stack is
    /// empty.
    fn pop_stack(&mut self) -> (r: u16)
        requires
            old(self)@.wf(),
        ensures
            old(self)@.sp > 0 ==> r == old(self)@.stack[old(self)@.sp - 1] && final(self)@ == (
            MachineState { sp: (old(self)@.sp - 1) as nat, ..old(self)@ }),
            old(self)@.sp == 0 ==> r == 0 && final(self)@ == old(self)@,
    {
        if self.sp > 0 {
            self.sp = self.sp - 1;
            self.stack[self.sp]
        } else {
            0
        }
    }

    /// Draws the `n`-row sprite at `memory[index..]` with its top-left
    /// corner at `(vx, vy)`, wrapping along the linear display, and sets the
    /// flag register to whether a lit pixel was erased.
    #[verifier::rlimit(40)]
    fn draw_sprite(&mut self, vx: u8, vy: u8, n: u8)
        requires
            old(self)@.wf(),
            n < 16,
            n == 0 || old(self)@.index + n <= MEMORY_SIZE,
        ensures
            final(self)@ == (MachineState {
                screen: drawn_screen(old(self)@, vx, vy, n),
                registers: old(self)@.registers.update(
                    FLAG as int,
                    if collides(old(self)@, vx, vy, n) {
                        1
                    } else {
                        0
                    },
                ),
                ..old(self)@
            }),
            final(self)@.wf(),
    {
        let ghost m0 = self@;
        self.registers[FLAG] = 0;
        assert(self.screen@ =~= partial_screen(m0, vx, vy, n, 0)) by {
            assert forall|p: int| 0 <= p < SCREEN_SIZE implies sprite_offset(p, vx as int, vy as int) >= 0 by {
                lemma_offset_range(p, vx as int, vy as int);
            }
        }
        assert(!partial_collides(m0, vx, vy, n, 0)) by {
            assert forall|p: int| 0 <= p < SCREEN_SIZE implies sprite_offset(p, vx as int, vy as int) >= 0 by {
                lemma_offset_range(p, vx as int, vy as int);
            }
        }
        let mut line: u8 = 0;
        while line < n
            invariant
                line <= n < 16,
                n == 0 || m0.index + n <= MEMORY_SIZE,
                m0 == old(self)@,
                m0.wf(),
                self.memory == old(self).memory,
                self.index == old(self).index,
                self.pc == old(self).pc,
                self.stack == old(self).stack,
                self.sp == old(self).sp,
                self.delay_timer == old(self).delay_timer,
                self.sound_timer == old(self).sound_timer,
                self.keypad == old(self).keypad,
                self.registers@ == m0.registers.update(
                    FLAG as int,
                    if partial_collides(m0, vx, vy, n, line * 64) {
                        1
                    } else {
                        0
                    },
                ),
                self.screen@ == partial_screen(m0, vx, vy, n, line * 64),
            decreases n - line,
        {
            let row = self.memory[self.index as usize + line as usize];
            let mut col: u8 = 0;
            while col < 8
                invariant
                    line < n < 16,
                    col <= 8,
                    m0.index + n <= MEMORY_SIZE,
                    row == m0.memory[m0.index + line],
                    m0 == old(self)@,
                    m0.wf(),
                    self.memory == old(self).memory,
                    self.index == old(self).index,
                    self.pc == old(self).pc,
                    self.stack == old(self).stack,
                    self.sp == old(self).sp,
                    self.delay_timer == old(self).delay_timer,
                    self.sound_timer == old(self).sound_timer,
                    self.keypad == old(self).keypad,
                    self.registers@ == m0.registers.update(
                        FLAG as int,
                        if partial_collides(m0, vx, vy, n, line * 64 + col) {
                            1
                        } else {
                            0
                        },
                    ),
                    self.screen@ == partial_screen(m0, vx, vy, n, line * 64 + col),
                decreases 8 - col,
            {
                let ghost k = line * 64 + col;
                let ghost before_screen = self.screen@;
                let ghost before_collides = partial_collides(m0, vx, vy, n, k);
                if row & (0x80u8 >> col) != 0 {
                    let idx = (vx as usize + col as usize + (vy as usize + line as usize) * 64)
                        % 2048;
                    proof {
                        lemma_offset(idx as int, vx as int, vy as int, k);
                        assert(sprite_offset(idx as int, vx as int, vy as int) == k);
                        assert(k / 64 == line && k % 64 == col);
                        assert(sprite_hits(m0, vx, vy, n, idx as int));
                        assert(self.screen@[idx as int] == m0.screen[idx as int]);
                    }
                    if self.screen[idx] == 1 {
                        self.registers[FLAG] = 1;
                    }
                    proof {
                        lemma_flip_bit(m0.screen[idx as int]);
                    }
                    self.screen[idx] = self.screen[idx] ^ 1;
                    proof {
                        assert forall|p: int| 0 <= p < SCREEN_SIZE && p != idx implies sprite_offset(
                            p,
                            vx as int,
                            vy as int,
                        ) != k by {
                            lemma_offset(p, vx as int, vy as int, k);
                        }
                        assert(self.screen@ =~= partial_screen(m0, vx, vy, n, k + 1));
                        if m0.screen[idx as int] == 1 {
                            assert(partial_collides(m0, vx, vy, n, k + 1));
                        } else {
                            assert(partial_collides(m0, vx, vy, n, k + 1) == before_collides);
                        }
                        assert(self.registers@ =~= m0.registers.update(
                            FLAG as int,
                            if partial_collides(m0, vx, vy, n, k + 1) {
                                1
                            } else {
                                0
                            },
                        ));
                    }
                } else {
                    proof {
                        assert forall|p: int| 0 <= p < SCREEN_SIZE && sprite_offset(
                            p,
                            vx as int,
                            vy as int,
                        ) == k implies !#[trigger] sprite_hits(m0, vx, vy, n, p) by {
                            assert(k / 64 == line && k % 64 == col);
                        }
                        assert(self.screen@ =~= partial_screen(m0, vx, vy, n, k + 1));
                        assert(partial_collides(m0, vx, vy, n, k + 1) == before_collides);
                    }
                }
                col = col + 1;
            }
            proof {
                let done = line * 64 + 8;
                let next = (line + 1) * 64;
                assert forall|p: int| 0 <= p < SCREEN_SIZE && done <= sprite_offset(
                    p,
                    vx as int,
                    vy as int,
                ) < next implies !#[trigger] sprite_hits(m0, vx, vy, n, p) by {
                    let o = sprite_offset(p, vx as int, vy as int);
                    assert(o / 64 == line);
                    assert(o % 64 >= 8);
                }
                assert(self.screen@ =~= partial_screen(m0, vx, vy, n, next));
                assert(partial_collides(m0, vx, vy, n, next) == partial_collides(
                    m0,
                    vx,
                    vy,
                    n,
                    done,
                ));
            }
            line = line + 1;
        }
        proof {
            let done = n * 64;
            assert forall|p: int| 0 <= p < SCREEN_SIZE && #[trigger] sprite_hits(m0, vx, vy, n, p)
                implies sprite_offset(p, vx as int, vy as int) < done by {
                let o = sprite_offset(p, vx as int, vy as int);
                lemma_offset_range(p, vx as int, vy as int);
                assert(o / 64 < n);
            }
            assert(self.screen@ =~= drawn_screen(m0, vx, vy, n));
            assert(partial_collides(m0, vx, vy, n, done) == collides(m0, vx, vy, n));
            assert forall|i: int| 0 <= i < SCREEN_SIZE implies #[trigger] self.screen@[i] <= 1 by {
                lemma_flip_bit(m0.screen[i]);
            }
        }
    }
    /// `Fx0A`: stores the highest-numbered pressed key in `Vx`, or steps
    /// the program counter back onto this instruction when none is pressed.
    fn wait_for_key(&mut self, x: u8)
        requires
            old(self)@.wf(),
            x < 16,
            highest_pressed(old(self)@.keypad, KEY_COUNT as int) < 0 ==> old(self)@.pc >= 2,
        ensures
            final(self)@ == execute_spec(old(self)@, Instruction::WaitKey { x }, 0),
            final(self)@.wf(),
    {
        let ghost m0 = self@;
        let mut key_pressed = false;
        let mut i: usize = 0;
        while i < KEY_COUNT
            invariant
                i <= KEY_COUNT,
                x < 16,
                m0 == old(self)@,
                m0.wf(),
                self.memory == old(self).memory,
                self.index == old(self).index,
                self.pc == old(self).pc,
                self.stack == old(self).stack,
                self.sp == old(self).sp,
                self.delay_timer == old(self).delay_timer,
                self.sound_timer == old(self).sound_timer,
                self.screen == old(self).screen,
                self.keypad == old(self).keypad,
                key_pressed == (highest_pressed(m0.keypad, i as int) >= 0),
                key_pressed ==> self.registers@ == m0.registers.update(
                    x as int,
                    highest_pressed(m0.keypad, i as int) as u8,
                ),
                !key_pressed ==> self.registers@ == m0.registers,
                highest_pressed(m0.keypad, i as int) < i,
            decreases KEY_COUNT - i,
        {
            if self.keypad[i] {
                self.registers[x as usize] = i as u8;
                key_pressed = true;
            }
            i = i + 1;
        }
        if !key_pressed {
            self.pc = self.pc - 2;
        }
    }

    /// `Fx55`: copies `V0..=Vx` to memory at `I`, then moves `I` past them.
    fn store_registers(&mut self, x: u8)
        requires
            old(self)@.wf(),
            x < 16,
            old(self)@.index + x < MEMORY_SIZE,
        ensures
            final(self)@ == execute_spec(old(self)@, Instruction::StoreRegs { x }, 0),
            final(self)@.wf(),
    {
        let ghost m0 = self@;
        let base = self.index as usize;
        let mut i: usize = 0;
        while i <= x as usize
            invariant
                i <= x + 1,
                x < 16,
                base == m0.index,
                base + x < MEMORY_SIZE,
                m0 == old(self)@,
                self.memory@.len() == MEMORY_SIZE,
                forall|a: int|
                    0 <= a < MEMORY_SIZE ==> #[trigger] self.memory@[a] == if base <= a < base
                        + i {
                        m0.registers[a - base]
                    } else {
                        m0.memory[a]
                    },
                self.registers == old(self).registers,
                self.index == old(self).index,
                self.pc == old(self).pc,
                self.stack == old(self).stack,
                self.sp == old(self).sp,
                self.delay_timer == old(self).delay_timer,
                self.sound_timer == old(self).sound_timer,
                self.screen == old(self).screen,
                self.keypad == old(self).keypad,
            decreases x + 1 - i,
        {
            self.memory[base + i] = self.registers[i];
            i = i + 1;
        }
        self.index = self.index + x as u16 + 1;
        assert(self.memory@ =~= execute_spec(m0, Instruction::StoreRegs { x }, 0).memory);
    }

    /// `Fx65`: fills `V0..=Vx` from memory at `I`, then moves `I` past them.
    fn load_registers(&mut self, x: u8)
        requires
            old(self)@.wf(),
            x < 16,
            old(self)@.index + x < MEMORY_SIZE,
        ensures
            final(self)@ == execute_spec(old(self)@, Instruction::LoadRegs { x }, 0),
            final(self)@.wf(),
    {
        let ghost m0 = self@;
        let base = self.index as usize;
        let mut i: usize = 0;
        while i <= x as usize
            invariant
                i <= x + 1,
                x < 16,
                base == m0.index,
                base + x < MEMORY_SIZE,
                m0 == old(self)@,
                self.registers@.len() == REGISTER_COUNT,
                forall|k: int|
                    0 <= k < REGISTER_COUNT ==> #[trigger] self.registers@[k] == if k < i {
                        m0.memory[base + k]
                    } else {
                        m0.registers[k]
                    },
                self.memory == old(self).memory,
                self.index == old(self).index,
                self.pc == old(self).pc,
                self.stack == old(self).stack,
                self.sp == old(self).sp,
                self.delay_timer == old(self).delay_timer,
                self.sound_timer == old(self).sound_timer,
                self.screen == old(self).screen,
                self.keypad == old(self).keypad,
            decreases x + 1 - i,
        {
            self.registers[i] = self.memory[base + i];
            i = i + 1;
        }
        self.index = self.index + x as u16 + 1;
        assert(self.registers@ =~= execute_spec(m0, Instruction::LoadRegs { x }, 0).registers);
    }

    /// Executes an instruction that only writes registers.
    #[verifier::spinoff_prover]
    #[verifier::rlimit(40)]
    fn execute_register_op(&mut self, ins: Instruction, random: u8)
        requires
            old(self)@.wf(),
            can_execute(old(self)@, ins),
            ins is LdByte || ins is AddByte || ins is LdReg || ins is Or || ins is And
                || ins is Xor || ins is AddReg || ins is Sub || ins is Shr || ins is Subn
                || ins is Shl || ins is Rnd,
        ensures
            final(self)@ == execute_spec(old(self)@, ins, random),
            final(self)@.wf(),
    {
        match ins {
            Instruction::LdByte { x, kk } => {
                self.registers[x as usize] = kk;
            },
            Instruction::AddByte { x, kk } => {
                let sum = self.registers[x as usize] as u16 + kk as u16;
                self.registers[x as usize] = (sum % 256) as u8;
            },
            Instruction::LdReg { x, y } => {
                self.registers[x as usize] = self.registers[y as usize];
            },
            Instruction::Or { x, y } => {
                self.registers[x as usize] = self.registers[x as usize] | self.registers[y as usize];
            },
            Instruction::And { x, y } => {
                self.registers[x as usize] = self.registers[x as usize] & self.registers[y as usize];
            },
            Instruction::Xor { x, y } => {
                self.registers[x as usize] = self.registers[x as usize] ^ self.registers[y as usize];
            },
            Instruction::AddReg { x, y } => {
                let sum = self.registers[x as usize] as u16 + self.registers[y as usize] as u16;
                self.registers[x as usize] = (sum % 256) as u8;
                self.registers[FLAG] = if sum > 255 {
                    1
                } else {
                    0
                };
            },
            Instruction::Sub { x, y } => {
                let a = self.registers[x as usize];
                let b = self.registers[y as usize];
                self.registers[x as usize] = ((a as u16 + 256 - b as u16) % 256) as u8;
                self.registers[FLAG] = if a >= b {
                    1
                } else {
                    0
                };
            },
            Instruction::Shr { x } => {
                self.registers[FLAG] = self.registers[x as usize] & 1;
                self.registers[x as usize] = self.registers[x as usize] >> 1;
            },
            Instruction::Subn { x, y } => {
                let a = self.registers[x as usize];
                let b = self.registers[y as usize];
                self.registers[x as usize] = ((b as u16 + 256 - a as u16) % 256) as u8;
                self.registers[FLAG] = if b >= a {
                    1
                } else {
                    0
                };
            },
            Instruction::Shl { x } => {
                self.registers[FLAG] = (self.registers[x as usize] >> 7) & 1;
                self.registers[x as usize] = self.registers[x as usize] << 1;
            },
            Instruction::Rnd { x, kk } => {
                self.registers[x as usize] = random & kk;
            },
            _ => {},
        }
    }

    /// Executes an instruction that moves the program counter or sets the
    /// index register, or clears the display.
    #[verifier::spinoff_prover]
    #[verifier::rlimit(40)]
    fn execute_control(&mut self, ins: Instruction, random: u8)
        requires
            old(self)@.wf(),
            can_execute(old(self)@, ins),
            ins is Cls || ins is Ret || ins is Jp || ins is Call || ins is SeByte
                || ins is SneByte || ins is SeReg || ins is SneReg || ins is LdI || ins is JpV0
                || ins is Skp || ins is Sknp,
        ensures
            final(self)@ == execute_spec(old(self)@, ins, random),
            final(self)@.wf(),
    {
        match ins {
            Instruction::Cls => {
                self.screen = [0; SCREEN_SIZE];
                assert(self.screen@ =~= Seq::new(SCREEN_SIZE as nat, |i: int| 0u8));
            },
            Instruction::Ret => {
                let ghost m0 = self@;
                let target = self.pop_stack();
                self.pc = target;
                assert(self@ == execute_spec(m0, ins, random));
            },
            Instruction::Jp { nnn } => {
                self.pc = nnn;
            },
            Instruction::Call { nnn } => {
                if self.push_stack(self.pc) {
                    self.pc = nnn;
                }
            },
            Instruction::SeByte { x, kk } => {
                if self.registers[x as usize] == kk {
                    self.pc = self.pc + 2;
                }
            },
            Instruction::SneByte { x, kk } => {
                if self.registers[x as usize] != kk {
                    self.pc = self.pc + 2;
                }
            },
            Instruction::SeReg { x, y } => {
                if self.registers[x as usize] == self.registers[y as usize] {
                    self.pc = self.pc + 2;
                }
            },
            Instruction::SneReg { x, y } => {
                if self.registers[x as usize] != self.registers[y as usize] {
                    self.pc = self.pc + 2;
                }
            },
            Instruction::LdI { nnn } => {
                self.index = nnn;
            },
            Instruction::JpV0 { nnn } => {
                self.pc = nnn + self.registers[0] as u16;
            },
            Instruction::Skp { x } => {
                if self.keypad[self.registers[x as usize] as usize] {
                    self.pc = self.pc + 2;
                }
            },
            Instruction::Sknp { x } => {
                if !self.keypad[self.registers[x as usize] as usize] {
                    self.pc = self.pc + 2;
                }
            },
            _ => {},
        }
    }

    /// Executes a drawing, timer, key or memory instruction.
    #[verifier::spinoff_prover]
    #[verifier::rlimit(40)]
    fn execute_other(&mut self, ins: Instruction, random: u8)
        requires
            old(self)@.wf(),
            can_execute(old(self)@, ins),
            ins is Drw || ins is LdFromDelay || ins is WaitKey || ins is LdDelay
                || ins is LdSound || ins is AddI || ins is LdFont || ins is LdBcd
                || ins is StoreRegs || ins is LoadRegs,
        ensures
            final(self)@ == execute_spec(old(self)@, ins, random),
            final(self)@.wf(),
    {
        match ins {
            Instruction::Drw { x, y, n } => {
                let vx = self.registers[x as usize];
                let vy = self.registers[y as usize];
                self.draw_sprite(vx, vy, n);
            },
            Instruction::LdFromDelay { x } => {
                self.registers[x as usize] = self.delay_timer;
            },
            Instruction::WaitKey { x } => {
                self.wait_for_key(x);
            },
            Instruction::LdDelay { x } => {
                self.delay_timer = self.registers[x as usize];
            },
            Instruction::LdSound { x } => {
                self.sound_timer = self.registers[x as usize];
            },
            Instruction::AddI { x } => {
                self.index = self.index + self.registers[x as usize] as u16;
            },
            Instruction::LdFont { x } => {
                self.index = self.registers[x as usize] as u16 * 5;
            },
            Instruction::LdBcd { x } => {
                let value = self.registers[x as usize];
                let i = self.index as usize;
                self.memory[i] = value / 100;
                self.memory[i + 1] = (value / 10) % 10;
                self.memory[i + 2] = (value % 100) % 10;
            },
            Instruction::StoreRegs { x } => {
                self.store_registers(x);
            },
            Instruction::LoadRegs { x } => {
                self.load_registers(x);
            },
            _ => {},
        }
    }

    /// Executes one decoded instruction; `random` is the byte that `RND`
    /// masks.
    #[verifier::rlimit(40)]
    pub fn execute_instruction(&mut self, ins: Instruction, random: u8)
        requires
            old(self)@.wf(),
            can_execute(old(self)@, ins),
        ensures
            final(self)@ == execute_spec(old(self)@, ins, random),
            final(self)@.wf(),
    {
        match ins {
            Instruction::Nop | Instruction::Unknown => {},
            Instruction::LdByte { .. } | Instruction::AddByte { .. }
                | Instruction::LdReg { .. } | Instruction::Or { .. } | Instruction::And { .. }
                | Instruction::Xor { .. } | Instruction::AddReg { .. }
                | Instruction::Sub { .. } | Instruction::Shr { .. } | Instruction::Subn { .. }
                | Instruction::Shl { .. } | Instruction::Rnd { .. } => {
                self.execute_register_op(ins, random)
            },
            Instruction::Cls | Instruction::Ret | Instruction::Jp { .. }
                | Instruction::Call { .. } | Instruction::SeByte { .. }
                | Instruction::SneByte { .. } | Instruction::SeReg { .. }
                | Instruction::SneReg { .. } | Instruction::LdI { .. }
                | Instruction::JpV0 { .. } | Instruction::Skp { .. } | Instruction::Sknp { .. } => {
                self.execute_control(ins, random)
            },
            _ => self.execute_other(ins, random),
        }
    }

    /// Whether one cycle from this state stays within bounds, as `cycle`
    /// and `cycle_with_random` require.
    #[verifier::rlimit(40)]
    pub fn can_cycle_now(&self) -> (r: bool)
        requires
            self@.wf(),
        ensures
            r == can_cycle(self@),
    {
        let pc = self.pc as usize;
        if pc + 1 >= MEMORY_SIZE {
            return false;
        }
        let op = self.memory[pc] as u16 * 256 + self.memory[pc + 1] as u16;
        let ins = decode(op);
        let next_pc = self.pc + 2;
        let r = &self.registers;
        let index = self.index as usize;
        proof {
            lemma_decode_operands_valid(op);
        }
        match ins {
            Instruction::SeByte { x, kk } => r[x as usize] != kk || next_pc <= 0xFFFD,
            Instruction::SneByte { x, kk } => r[x as usize] == kk || next_pc <= 0xFFFD,
            Instruction::SeReg { x, y } => r[x as usize] != r[y as usize] || next_pc <= 0xFFFD,
            Instruction::SneReg { x, y } => r[x as usize] == r[y as usize] || next_pc <= 0xFFFD,
            Instruction::Drw { x, y, n } => n == 0 || index + n as usize <= MEMORY_SIZE,
            Instruction::Skp { x } => {
                let k = r[x as usize] as usize;
                k < KEY_COUNT && (!self.keypad[k] || next_pc <= 0xFFFD)
            },
            Instruction::Sknp { x } => {
                let k = r[x as usize] as usize;
                k < KEY_COUNT && (self.keypad[k] || next_pc <= 0xFFFD)
            },
            Instruction::AddI { x } => index + r[x as usize] as usize <= 0xFFFF,
            Instruction::LdBcd { x } => index + 2 < MEMORY_SIZE,
            Instruction::StoreRegs { x } => index + (x as usize) < MEMORY_SIZE,
            Instruction::LoadRegs { x } => index + (x as usize) < MEMORY_SIZE,
            _ => true,
        }
    }

    /// One fetch-decode-execute cycle, with `random` as the byte that `RND`
    /// draws.
    pub fn cycle_with_random(&mut self, random: u8)
        requires
            old(self)@.wf(),
            can_cycle(old(self)@),
        ensures
            final(self)@ == cycle_spec(old(self)@, random),
            final(self)@.wf(),
    {
        let opcode = self.fetch_instruction();
        let ins = decode(opcode);
        self.execute_instruction(ins, random);
    }

    /// One fetch-decode-execute cycle; `RND` draws a fresh random byte.
    pub fn cycle(&mut self)
        requires
            old(self)@.wf(),
            can_cycle(old(self)@),
        ensures
            exists|random: u8| final(self)@ == cycle_spec(old(self)@, random),
            final(self)@.wf(),
    {
        let random = random_byte();
        self.cycle_with_random(random);
    }
}

/// Relies on rand::random: a byte drawn from the thread-local generator;
/// nothing is known of its value.
#[verifier::external_body]
fn random_byte() -> u8 {
    rand::random::<u8>()
}

/// Every decoded instruction has valid operands.
pub proof fn lemma_decode_operands_valid(op: u16)
    ensures
        operands_valid(decode_spec(op)),
{
}

/// `ADD Vx, byte` adds modulo 256 and leaves the flag register alone.
pub proof fn lemma_add_byte_wraps(m: MachineState, x: u8, kk: u8, random: u8)
    requires
        m.wf(),
        x < 15,
    ensures
        execute_spec(m, Instruction::AddByte { x, kk }, random).registers[x as int] == (
        m.registers[x as int] + kk) % 256,
        execute_spec(m, Instruction::AddByte { x, kk }, random).registers[FLAG as int]
            == m.registers[FLAG as int],
        execute_spec(m, Instruction::AddByte { x, kk }, random).pc == m.pc,
{
}

/// `ADD Vx, Vy` stores the sum modulo 256 and sets the flag register to 1
/// exactly when the sum exceeds 255.
pub proof fn lemma_add_carry(m: MachineState, x: u8, y: u8, random: u8)
    requires
        m.wf(),
        x < 15,
        y < 16,
    ensures
        ({
            let r = execute_spec(m, Instruction::AddReg { x, y }, random).registers;
            let sum = m.registers[x as int] + m.registers[y as int];
            &&& r[x as int] == sum % 256
            &&& r[FLAG as int] == (if sum > 255 {
                1u8
            } else {
                0u8
            })
        }),
{
}

/// `SUB Vx, Vy` stores the difference modulo 256 and sets the flag register
/// to 1 exactly when there is no borrow (`Vx >= Vy`).
pub proof fn lemma_sub_borrow(m: MachineState, x: u8, y: u8, random: u8)
    requires
        m.wf(),
        x < 15,
        y < 16,
    ensures
        ({
            let r = execute_spec(m, Instruction::Sub { x, y }, random).registers;
            let a = m.registers[x as int];
            let b = m.registers[y as int];
            &&& r[x as int] == (a - b) % 256
            &&& r[FLAG as int] == (if a >= b {
                1u8
            } else {
                0u8
            })
        }),
{
}

/// `CLS` turns every pixel off.
pub proof fn lemma_cls_blank(m: MachineState, random: u8)
    requires
        m.wf(),
    ensures
        ({
            let s = execute_spec(m, Instruction::Cls, random).screen;
            s.len() == SCREEN_SIZE && forall|i: int| 0 <= i < SCREEN_SIZE ==> #[trigger] s[i] == 0
        }),
{
}

/// A cycle on the all-zero word does nothing but move the program counter
/// forward by 2.
pub proof fn lemma_nop_cycle(m: MachineState, random: u8)
    requires
        m.wf(),
        m.pc + 1 < MEMORY_SIZE,
        m.memory[m.pc as int] == 0,
        m.memory[m.pc + 1] == 0,
    ensures
        cycle_spec(m, random) == (MachineState { pc: (m.pc + 2) as u16, ..m }),
{
    assert(fetched_word(m) == 0);
}

proof fn lemma_no_key(keypad: Seq<bool>, upto: int)
    requires
        0 <= upto <= keypad.len(),
        forall|k: int| 0 <= k < upto ==> !#[trigger] keypad[k],
    ensures
        highest_pressed(keypad, upto) == -1,
    decreases upto,
{
    if upto > 0 {
        lemma_no_key(keypad, upto - 1);
    }
}

proof fn lemma_one_key(keypad: Seq<bool>, upto: int, key: int)
    requires
        0 <= key < upto <= keypad.len(),
        forall|k: int| 0 <= k < keypad.len() ==> (#[trigger] keypad[k] <==> k == key),
    ensures
        highest_pressed(keypad, upto) == key,
    decreases upto,
{
    if upto - 1 > key {
        lemma_one_key(keypad, upto - 1, key);
    } else {
        assert(keypad[key]);
    }
}

/// Waiting for a key: with no key pressed a cycle leaves the program
/// counter where it was (it steps back onto the same instruction); with
/// exactly key `key` pressed, the cycle moves past the instruction and
/// stores `key` in `Vx`.
pub proof fn lemma_wait_for_key(m: MachineState, x: u8, key: int, random: u8)
    requires
        m.wf(),
        m.pc + 1 < MEMORY_SIZE,
        decode_spec(fetched_word(m)) == (Instruction::WaitKey { x }),
        x < 16,
    ensures
        (forall|k: int| 0 <= k < KEY_COUNT ==> !#[trigger] m.keypad[k]) ==> cycle_spec(m, random)
            == m,
        (0 <= key < KEY_COUNT && forall|k: int|
            0 <= k < KEY_COUNT ==> (#[trigger] m.keypad[k] <==> k == key)) ==> ({
            let n = cycle_spec(m, random);
            &&& n.pc == m.pc + 2
            &&& n.registers[x as int] == key
        }),
{
    if forall|k: int| 0 <= k < KEY_COUNT ==> !#[trigger] m.keypad[k] {
        lemma_no_key(m.keypad, KEY_COUNT as int);
    }
    if 0 <= key < KEY_COUNT && forall|k: int|
        0 <= k < KEY_COUNT ==> (#[trigger] m.keypad[k] <==> k == key) {
        lemma_one_key(m.keypad, KEY_COUNT as int, key);
    }
}

/// Drawing places the bit in column `col` of sprite row `row` on pixel
/// `(x + col + (y + row) * 64) mod 2048`: coordinates wrap along the whole
/// linear display, so a sprite drawn at column 63 continues at column 0 of
/// the next row. That pixel is flipped.
pub proof fn lemma_draw_wraps(m: MachineState, x: u8, y: u8, n: u8, row: int, col: int, random: u8)
    requires
        m.wf(),
        x < 16,
        y < 16,
        n < 16,
        m.index + n <= MEMORY_SIZE,
        0 <= row < n,
        0 <= col < 8,
        m.memory[m.index + row] & (0x80u8 >> (col as u8)) != 0,
    ensures
        ({
            let vx = m.registers[x as int] as int;
            let vy = m.registers[y as int] as int;
            let p = (vx + col + (vy + row) * 64) % 2048;
            execute_spec(m, Instruction::Drw { x, y, n }, random).screen[p] == 1 - m.screen[p]
        }),
{
    let vx = m.registers[x as int];
    let vy = m.registers[y as int];
    let k = row * 64 + col;
    let p = (vx as int + col + (vy as int + row) * 64) % 2048;
    lemma_offset(p, vx as int, vy as int, k);
    assert(k / 64 == row && k % 64 == col);
    assert(sprite_hits(m, vx, vy, n, p));
    lemma_flip_bit(m.screen[p]);
}

/// Drawing the same sprite twice over pixels that were off restores the
/// display, and the second drawing reports a collision.
pub proof fn lemma_draw_twice(m: MachineState, x: u8, y: u8, n: u8, random: u8)
    requires
        m.wf(),
        x < 15,
        y < 15,
        n < 16,
        m.index + n <= MEMORY_SIZE,
        exists|p: int| 0 <= p < SCREEN_SIZE && #[trigger] sprite_hits(
            m,
            m.registers[x as int],
            m.registers[y as int],
            n,
            p,
        ),
        forall|p: int|
            0 <= p < SCREEN_SIZE && #[trigger] sprite_hits(
                m,
                m.registers[x as int],
                m.registers[y as int],
                n,
                p,
            ) ==> m.screen[p] == 0,
    ensures
        ({
            let ins = Instruction::Drw { x, y, n };
            let m2 = execute_spec(execute_spec(m, ins, random), ins, random);
            &&& m2.screen == m.screen
            &&& m2.registers[FLAG as int] == 1
        }),
{
    let ins = Instruction::Drw { x, y, n };
    let vx = m.registers[x as int];
    let vy = m.registers[y as int];
    let m1 = execute_spec(m, ins, random);
    let m2 = execute_spec(m1, ins, random);
    assert(m1.registers[x as int] == vx && m1.registers[y as int] == vy);
    assert forall|p: int| 0 <= p < SCREEN_SIZE implies #[trigger] sprite_hits(m1, vx, vy, n, p)
        == sprite_hits(m, vx, vy, n, p) by {}
    assert forall|i: int| 0 <= i < SCREEN_SIZE implies #[trigger] m2.screen[i] == m.screen[i] by {
        lemma_flip_bit(m.screen[i]);
        if sprite_hits(m, vx, vy, n, i) {
            lemma_flip_bit(m1.screen[i]);
        }
    }
    assert(m2.screen =~= m.screen);
    let p = choose|p: int| 0 <= p < SCREEN_SIZE && #[trigger] sprite_hits(m, vx, vy, n, p);
    lemma_flip_bit(m.screen[p]);
    assert(m1.screen[p] == 1);
    assert(sprite_hits(m1, vx, vy, n, p));
    assert(collides(m1, vx, vy, n));
}

} // verus!
