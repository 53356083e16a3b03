use crate::errors::Chip8Error;
use crate::model::{blank_screen, font_seq, is_initial, load_effect};
use crate::stack::Stack;
use vstd::prelude::*;

verus! {

/// Size of the flat byte-addressable memory.
pub const MEM_SIZE: usize = 4096;

/// Lowest address of the built-in font table (16 glyphs of 5 bytes).
pub const FONT_START: usize = 0x50;

/// Address at which a program image is placed and execution begins.
pub const PROGRAM_START: u16 = 0x200;

/// Index of the flag register.
pub const REGISTER_VF: usize = 15;

pub const SCREEN_WIDTH: usize = 64;

pub const SCREEN_HEIGHT: usize = 32;

/// Number of framebuffer cells.
pub const SCREEN_CELLS: usize = 2048;

/// Whether the machine is between instructions or suspended on the
/// key-wait instruction. While suspended, the payload of the variant
/// names the register that will receive the pressed key's index.
#[derive(Clone, Copy, Debug, PartialEq, Eq, Structural)]
pub enum Mode {
    Running,
    AwaitingKey(u8),
}

/// The whole state of one emulated machine. Independent machines are
/// independent values of this type; there is no shared state.
pub struct Chip8 {
    /// 4096 bytes, font-seeded at [`FONT_START`].
    pub memory: Vec<u8>,
    /// The 16 general-purpose 8-bit registers V0..VF.
    pub registers: Vec<u8>,
    /// The 16-bit address register I.
    pub index_register: u16,
    /// Return addresses of active subroutine calls.
    pub stack: Stack<u16>,
    /// The most recently fetched instruction word.
    pub current_opcode: u16,
    /// Address of the next instruction to fetch.
    pub program_counter: u16,
    /// Delay timer, decremented once per executed step, floored at zero.
    pub delay_timer: u8,
    /// Sound timer, decremented once per executed step, floored at zero.
    pub sound_timer: u8,
    /// 64 x 32 monochrome cells in row-major order, each 0 or 1.
    pub screen: Vec<u8>,
    /// One flag per key, set by the host between steps, each 0 or 1.
    pub keys: Vec<u8>,
    /// Running, or suspended awaiting a key press.
    pub mode: Mode,
}

impl Chip8 {
    /// The structural invariant every reachable machine satisfies.
    pub open spec fn wf(&self) -> bool {
        &&& self.memory@.len() == MEM_SIZE
        &&& self.registers@.len() == 16
        &&& self.screen@.len() == SCREEN_CELLS
        &&& self.keys@.len() == 16
        &&& self.stack.wf()
        &&& forall|i: int|
            0 <= i < SCREEN_CELLS ==> self.screen@[i] == 0 || self.screen@[i] == 1
        &&& forall|i: int| 0 <= i < 16 ==> self.keys@[i] == 0 || self.keys@[i] == 1
        &&& match self.mode {
            Mode::AwaitingKey(x) => x < 16,
            Mode::Running => true,
        }
    }
}

/// A vector of `n` zero bytes.
pub(crate) fn zero_vec(n: usize) -> (v: Vec<u8>)
    ensures
        v@.len() == n,
        forall|i: int| 0 <= i < n ==> v@[i] == 0,
{
    let mut v: Vec<u8> = Vec::new();
    let mut i: usize = 0;
    while i < n
        invariant
            i <= n,
            v@.len() == i,
            forall|j: int| 0 <= j < i ==> v@[j] == 0,
        decreases n - i,
    {
        v.push(0);
        i = i + 1;
    }
    v
}

/// The font table as bytes.
fn font_vec() -> (v: Vec<u8>)
    ensures
        v@ == font_seq(),
{
    let mut v: Vec<u8> = Vec::new();
    v.push(0xF0);
    v.push(0x90);
    v.push(0x90);
    v.push(0x90);
    v.push(0xF0);
    v.push(0x20);
    v.push(0x60);
    v.push(0x20);
    v.push(0x20);
    v.push(0x70);
    v.push(0xF0);
    v.push(0x10);
    v.push(0xF0);
    v.push(0x80);
    v.push(0xF0);
    v.push(0xF0);
    v.push(0x10);
    v.push(0xF0);
    v.push(0x10);
    v.push(0xF0);
    v.push(0x90);
    v.push(0x90);
    v.push(0xF0);
    v.push(0x10);
    v.push(0x10);
    v.push(0xF0);
    v.push(0x80);
    v.push(0xF0);
    v.push(0x10);
    v.push(0xF0);
    v.push(0xF0);
    v.push(0x80);
    v.push(0xF0);
    v.push(0x90);
    v.push(0xF0);
    v.push(0xF0);
    v.push(0x10);
    v.push(0x20);
    v.push(0x40);
    v.push(0x40);
    v.push(0xF0);
    v.push(0x90);
    v.push(0xF0);
    v.push(0x90);
    v.push(0xF0);
    v.push(0xF0);
    v.push(0x90);
    v.push(0xF0);
    v.push(0x10);
    v.push(0xF0);
    v.push(0xF0);
    v.push(0x90);
    v.push(0xF0);
    v.push(0x90);
    v.push(0x90);
    v.push(0xE0);
    v.push(0x90);
    v.push(0xE0);
    v.push(0x90);
    v.push(0xE0);
    v.push(0xF0);
    v.push(0x80);
    v.push(0x80);
    v.push(0x80);
    v.push(0xF0);
    v.push(0xE0);
    v.push(0x90);
    v.push(0x90);
    v.push(0x90);
    v.push(0xE0);
    v.push(0xF0);
    v.push(0x80);
    v.push(0xF0);
    v.push(0x80);
    v.push(0xF0);
    v.push(0xF0);
    v.push(0x80);
    v.push(0xF0);
    v.push(0x80);
    v.push(0x80);
    proof {
        assert(v@ =~= font_seq());
    }
    v
}

impl Chip8 {
    /// Creates a machine in its initial state: zeroed memory seeded with
    /// the font table, all registers, timers, keys and screen cells zero,
    /// an empty call stack, and the program counter at the program origin.
    pub fn new() -> (c: Chip8)
        ensures
            c.wf(),
            is_initial(c),
    {
        let mut mem = zero_vec(MEM_SIZE);
        let font = font_vec();
        let mut i: usize = 0;
        while i < 80
            invariant
                i <= 80,
                mem@.len() == MEM_SIZE,
                font@ == font_seq(),
                forall|j: int|
                    0 <= j < MEM_SIZE && !(FONT_START <= j < FONT_START + i) ==> mem@[j] == 0,
                forall|j: int| 0 <= j < i ==> mem@[FONT_START + j] == font_seq()[j],
            decreases 80 - i,
        {
            mem[FONT_START + i] = font[i];
            i = i + 1;
        }
        let c = Chip8 {
            memory: mem,
            registers: zero_vec(16),
            index_register: 0,
            stack: Stack::new(),
            current_opcode: 0,
            program_counter: PROGRAM_START,
            delay_timer: 0,
            sound_timer: 0,
            screen: zero_vec(SCREEN_CELLS),
            keys: zero_vec(16),
            mode: Mode::Running,
        };
        proof {
            assert(c.screen@ =~= blank_screen());
        }
        c
    }

    /// Copies a program image into memory at the program origin, or
    /// reports that the image does not fit; nothing else moves either way.
    pub fn load_program(&mut self, data: &Vec<u8>) -> (r: Result<(), Chip8Error>)
        requires
            old(self).wf(),
        ensures
            final(self).wf(),
            match r {
                Ok(()) => PROGRAM_START + data@.len() <= MEM_SIZE && load_effect(
                    *old(self),
                    *final(self),
                    data@,
                ),
                Err(e) => e == Chip8Error::MemoryOutOfBounds && PROGRAM_START + data@.len()
                    > MEM_SIZE && *final(self) == *old(self),
            },
    {
        let start = PROGRAM_START as usize;
        if data.len() > MEM_SIZE - start {
            return Err(Chip8Error::MemoryOutOfBounds);
        }
        let mut i: usize = 0;
        while i < data.len()
            invariant
                old(self).wf(),
                start == PROGRAM_START,
                i <= data@.len(),
                start + data@.len() <= MEM_SIZE,
                self.memory@.len() == MEM_SIZE,
                forall|j: int| 0 <= j < i ==> self.memory@[start + j] == data@[j],
                forall|j: int|
                    0 <= j < MEM_SIZE && !(start <= j < start + i) ==> self.memory@[j] == old(
                        self,
                    ).memory@[j],
                self.registers == old(self).registers,
                self.index_register == old(self).index_register,
                self.stack == old(self).stack,
                self.current_opcode == old(self).current_opcode,
                self.program_counter == old(self).program_counter,
                self.delay_timer == old(self).delay_timer,
                self.sound_timer == old(self).sound_timer,
                self.screen == old(self).screen,
                self.keys == old(self).keys,
                self.mode == old(self).mode,
            decreases data@.len() - i,
        {
            self.memory[start + i] = data[i];
            i = i + 1;
        }
        Ok(())
    }

    /// Records a key press or release reported by the host.
    pub fn set_key(&mut self, key: u8, pressed: bool)
        requires
            old(self).wf(),
            key < 16,
        ensures
            final(self).wf(),
            final(self).keys@ == old(self).keys@.update(
                key as int,
                if pressed {
                    1u8
                } else {
                    0u8
                },
            ),
            final(self).registers == old(self).registers,
            final(self).memory == old(self).memory,
            final(self).screen == old(self).screen,
            final(self).stack == old(self).stack,
            final(self).index_register == old(self).index_register,
            final(self).mode == old(self).mode,
            final(self).program_counter == old(self).program_counter,
            final(self).current_opcode == old(self).current_opcode,
            final(self).delay_timer == old(self).delay_timer,
            final(self).sound_timer == old(self).sound_timer,
    {
        self.keys[key as usize] = if pressed {
            1
        } else {
            0
        };
    }
}

} // verus!

use crate::model::{eff_set_reg, lemma_draw_same_inputs, lemma_op_field_bounds, lowest_pressed,
    op_nn, op_x, step_err, step_ok};
use crate::opcodes;

verus! {

impl Chip8 {
    /// One fetch-decode-execute cycle.
    ///
    /// Running: the two bytes at the program counter are fetched as a
    /// big-endian word into the instruction latch, the counter advances
    /// past them, the instruction executes, and both timers tick, as
    /// [`step_ok`] states; on a failure ([`step_err`]) the latch and the
    /// advanced counter remain but nothing else moves and the timers do
    /// not tick, except that a fetch from an out-of-range counter leaves
    /// the machine fully unchanged.
    ///
    /// Awaiting a key: nothing happens until some key is pressed; then
    /// the lowest pressed key's index lands in the awaited register and
    /// the machine resumes.
    #[verifier::rlimit(60)]
    pub fn step(&mut self) -> (r: Result<(), Chip8Error>)
        requires
            old(self).wf(),
        ensures
            final(self).wf(),
            match r {
                Ok(()) => step_ok(*old(self), *final(self)),
                Err(e) => step_err(*old(self), *final(self), e),
            },
    {
        match self.mode {
            Mode::AwaitingKey(x) => {
                let mut i: usize = 0;
                while i < 16
                    invariant
                        old(self).wf(),
                        *self == *old(self),
                        self.mode == Mode::AwaitingKey(x),
                        x < 16,
                        i <= 16,
                        forall|j: int| 0 <= j < i ==> old(self).keys@[j] != 1,
                    decreases 16 - i,
                {
                    if self.keys[i] == 1 {
                        proof {
                            assert(lowest_pressed(old(self).keys@, i as int));
                        }
                        self.registers[x as usize] = i as u8;
                        self.mode = Mode::Running;
                        return Ok(());
                    }
                    i = i + 1;
                }
                proof {
                    assert(!(exists|k: int| lowest_pressed(old(self).keys@, k))) by {
                        if exists|k: int| lowest_pressed(old(self).keys@, k) {
                            let k = choose|k: int| lowest_pressed(old(self).keys@, k);
                        }
                    };
                }
                Ok(())
            },
            Mode::Running => {
                proof {
                    lemma_op_field_bounds();
                }
                let pc = self.program_counter;
                if pc as usize + 1 >= MEM_SIZE {
                    return Err(Chip8Error::MemoryOutOfBounds);
                }
                let op = (self.memory[pc as usize] as u16) << 8 | (self.memory[pc as usize
                    + 1] as u16);
                self.current_opcode = op;
                self.program_counter = pc + 2;
                let ghost mid = *self;
                let outcome = match op >> 12 {
                    0x0 => opcodes::op0000(self),
                    0x1 => {
                        opcodes::op1000(self);
                        Ok(())
                    },
                    0x2 => opcodes::op2000(self),
                    0x3 => {
                        opcodes::op3000(self);
                        Ok(())
                    },
                    0x4 => {
                        opcodes::op4000(self);
                        Ok(())
                    },
                    0x5 => {
                        opcodes::op5000(self);
                        Ok(())
                    },
                    0x6 => {
                        opcodes::op6000(self);
                        Ok(())
                    },
                    0x7 => {
                        opcodes::op7000(self);
                        Ok(())
                    },
                    0x8 => opcodes::op8000(self),
                    0x9 => {
                        opcodes::op9000(self);
                        Ok(())
                    },
                    0xA => {
                        opcodes::opa000(self);
                        Ok(())
                    },
                    0xB => {
                        opcodes::opb000(self);
                        Ok(())
                    },
                    0xC => {
                        opcodes::opc000(self);
                        Ok(())
                    },
                    0xD => opcodes::opd000(self),
                    0xE => opcodes::ope000(self),
                    // the leading nibble of a 16-bit word has no value
                    // beyond 0xF, so this arm is exactly the F family
                    _ => opcodes::opf000(self),
                };
                let ghost done = *self;
                match outcome {
                    Ok(()) => {
                        if self.delay_timer > 0 {
                            self.delay_timer = self.delay_timer - 1;
                        }
                        if self.sound_timer > 0 {
                            self.sound_timer = self.sound_timer - 1;
                        }
                        proof {
                            if op >> 12 == 0xD {
                                lemma_draw_same_inputs(*old(self), mid, op);
                            }
                            if op >> 12 == 0xC {
                                let rb = choose|rb: u8|
                                    eff_set_reg(
                                        mid,
                                        done,
                                        op_x(mid.current_opcode),
                                        (op_nn(mid.current_opcode) & rb),
                                    );
                                assert(eff_set_reg(
                                    *old(self),
                                    *self,
                                    op_x(op),
                                    (op_nn(op) & rb),
                                ));
                            }
                        }
                        Ok(())
                    },
                    Err(e) => Err(e),
                }
            },
        }
    }
}

} // verus!
