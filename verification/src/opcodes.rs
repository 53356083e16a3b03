//! The instruction handlers. Each one reads the instruction word from the
//! machine's instruction latch (`current_opcode`) and mutates the machine
//! as its contract states; the program counter rules here are relative to
//! the handler's own entry state, since
//! [`crate::machine::Chip8::step`] advances the counter past the fetched
//! word before dispatching.

use crate::errors::Chip8Error;
use crate::machine::{zero_vec, Chip8, Mode, FONT_START, MEM_SIZE, REGISTER_VF, SCREEN_CELLS};
use crate::machine::{SCREEN_HEIGHT, SCREEN_WIDTH};
use crate::model::{
    alu_op_defined, blank_screen, cell_loc, coll_before, draw_collision, draw_hits, draw_x0,
    draw_y0, eff_alu, eff_await, eff_bcd, eff_call, eff_cls, eff_draw, eff_load_regs, eff_ret,
    eff_set_index, eff_set_reg, eff_store_regs, flip, hits_before, lemma_cell_loc_bound,
    lemma_cell_loc_inj, lemma_op_field_bounds, op_n, op_nn, op_nnn, op_x, op_y, same_opcode,
    same_payload, same_pc, same_timers, sprite_bit, wrap_add16, wrap_add8,
};
use vstd::prelude::*;

verus! {

/// The X operand of an instruction word: a register index.
pub fn get_register_x(opcode: u16) -> (r: u8)
    ensures
        r as int == op_x(opcode),
        r < 16,
{
    proof {
        lemma_op_field_bounds();
    }
    ((opcode & 0x0F00) >> 8) as u8
}

/// The Y operand of an instruction word: a register index.
pub fn get_register_y(opcode: u16) -> (r: u8)
    ensures
        r as int == op_y(opcode),
        r < 16,
{
    proof {
        lemma_op_field_bounds();
    }
    ((opcode & 0x00F0) >> 4) as u8
}

/// `00E0`: clear the screen; `00EE`: return from a subroutine.
pub fn op0000(c8: &mut Chip8) -> (r: Result<(), Chip8Error>)
    requires
        old(c8).wf(),
    ensures
        final(c8).wf(),
        same_timers(*old(c8), *final(c8)),
        same_opcode(*old(c8), *final(c8)),
        ({
            let op = old(c8).current_opcode;
            match r {
                Ok(()) => if op_nn(op) == 0xE0 {
                    eff_cls(*old(c8), *final(c8)) && same_pc(*old(c8), *final(c8))
                } else {
                    &&& op_nn(op) == 0xEE
                    &&& eff_ret(*old(c8), *final(c8))
                    &&& final(c8).program_counter == old(c8).stack@.last()
                },
                Err(e) => *final(c8) == *old(c8) && ((e == Chip8Error::DecodeError && op_nn(op)
                    != 0xE0 && op_nn(op) != 0xEE) || (e == Chip8Error::StackUnderflow && op_nn(op)
                    == 0xEE && old(c8).stack@.len() == 0)),
            }
        }),
{
    proof {
        lemma_op_field_bounds();
    }
    let nn = c8.current_opcode & 0x00FF;
    if nn == 0xE0 {
        c8.screen = zero_vec(SCREEN_CELLS);
        proof {
            assert(c8.screen@ =~= blank_screen());
        }
        Ok(())
    } else if nn == 0xEE {
        match c8.stack.pop() {
            Some(addr) => {
                c8.program_counter = addr;
                Ok(())
            },
            None => Err(Chip8Error::StackUnderflow),
        }
    } else {
        Err(Chip8Error::DecodeError)
    }
}

/// `1NNN`: jump.
pub fn op1000(c8: &mut Chip8)
    requires
        old(c8).wf(),
    ensures
        final(c8).wf(),
        same_payload(*old(c8), *final(c8)),
        same_timers(*old(c8), *final(c8)),
        same_opcode(*old(c8), *final(c8)),
        final(c8).program_counter == op_nnn(old(c8).current_opcode),
{
    c8.program_counter = c8.current_opcode & 0x0FFF;
}

/// `2NNN`: call the subroutine at NNN, pushing the return address (the
/// program counter as it stands on entry).
pub fn op2000(c8: &mut Chip8) -> (r: Result<(), Chip8Error>)
    requires
        old(c8).wf(),
    ensures
        final(c8).wf(),
        same_timers(*old(c8), *final(c8)),
        same_opcode(*old(c8), *final(c8)),
        match r {
            Ok(()) => eff_call(*old(c8), *final(c8), old(c8).program_counter) && final(c8).program_counter == op_nnn(old(c8).current_opcode),
            Err(e) => *final(c8) == *old(c8) && e == Chip8Error::StackOverflow && old(c8).stack@.len() >= crate::stack::STACK_CAPACITY,
        },
{
    let ret = c8.program_counter;
    match c8.stack.push(ret) {
        Ok(()) => {
            c8.program_counter = c8.current_opcode & 0x0FFF;
            Ok(())
        },
        Err(e) => Err(e),
    }
}

/// `3XNN`: skip the next instruction if register X equals NN.
pub fn op3000(c8: &mut Chip8)
    requires
        old(c8).wf(),
    ensures
        final(c8).wf(),
        same_payload(*old(c8), *final(c8)),
        same_timers(*old(c8), *final(c8)),
        same_opcode(*old(c8), *final(c8)),
        final(c8).program_counter == (if old(c8).registers@[op_x(old(c8).current_opcode)]
            == op_nn(old(c8).current_opcode) {
            wrap_add16(old(c8).program_counter, 2)
        } else {
            old(c8).program_counter
        }),
{
    let nn = (c8.current_opcode & 0x00FF) as u8;
    let reg_index = get_register_x(c8.current_opcode);
    if nn == c8.registers[reg_index as usize] {
        c8.program_counter = c8.program_counter.wrapping_add(2);
    }
}

/// `4XNN`: skip the next instruction if register X differs from NN.
pub fn op4000(c8: &mut Chip8)
    requires
        old(c8).wf(),
    ensures
        final(c8).wf(),
        same_payload(*old(c8), *final(c8)),
        same_timers(*old(c8), *final(c8)),
        same_opcode(*old(c8), *final(c8)),
        final(c8).program_counter == (if old(c8).registers@[op_x(old(c8).current_opcode)]
            != op_nn(old(c8).current_opcode) {
            wrap_add16(old(c8).program_counter, 2)
        } else {
            old(c8).program_counter
        }),
{
    let nn = (c8.current_opcode & 0x00FF) as u8;
    let reg_index = get_register_x(c8.current_opcode);
    if nn != c8.registers[reg_index as usize] {
        c8.program_counter = c8.program_counter.wrapping_add(2);
    }
}

/// `5XY0`: skip the next instruction if registers X and Y are equal.
pub fn op5000(c8: &mut Chip8)
    requires
        old(c8).wf(),
    ensures
        final(c8).wf(),
        same_payload(*old(c8), *final(c8)),
        same_timers(*old(c8), *final(c8)),
        same_opcode(*old(c8), *final(c8)),
        final(c8).program_counter == (if old(c8).registers@[op_x(old(c8).current_opcode)] == old(c8).registers@[op_y(old(c8).current_opcode)] {
            wrap_add16(old(c8).program_counter, 2)
        } else {
            old(c8).program_counter
        }),
{
    let reg_index_x = get_register_x(c8.current_opcode);
    let reg_index_y = get_register_y(c8.current_opcode);
    if c8.registers[reg_index_x as usize] == c8.registers[reg_index_y as usize] {
        c8.program_counter = c8.program_counter.wrapping_add(2);
    }
}

/// `6XNN`: set register X to NN.
pub fn op6000(c8: &mut Chip8)
    requires
        old(c8).wf(),
    ensures
        final(c8).wf(),
        eff_set_reg(
            *old(c8),
            *final(c8),
            op_x(old(c8).current_opcode),
            op_nn(old(c8).current_opcode),
        ),
        same_pc(*old(c8), *final(c8)),
        same_timers(*old(c8), *final(c8)),
        same_opcode(*old(c8), *final(c8)),
{
    let reg_index = get_register_x(c8.current_opcode);
    c8.registers[reg_index as usize] = (c8.current_opcode & 0x00FF) as u8;
}

/// `7XNN`: add NN to register X, wrapping at 8 bits, with no flag effect.
pub fn op7000(c8: &mut Chip8)
    requires
        old(c8).wf(),
    ensures
        final(c8).wf(),
        eff_set_reg(
            *old(c8),
            *final(c8),
            op_x(old(c8).current_opcode),
            wrap_add8(
                old(c8).registers@[op_x(old(c8).current_opcode)],
                op_nn(old(c8).current_opcode),
            ),
        ),
        same_pc(*old(c8), *final(c8)),
        same_timers(*old(c8), *final(c8)),
        same_opcode(*old(c8), *final(c8)),
{
    let reg_index = get_register_x(c8.current_opcode);
    let nn = (c8.current_opcode & 0x00FF) as u8;
    c8.registers[reg_index as usize] = c8.registers[reg_index as usize].wrapping_add(nn);
}

/// The `8XY?` register-register family: assignment, bitwise operations,
/// add and subtract with flag results, and shifts.
pub fn op8000(c8: &mut Chip8) -> (r: Result<(), Chip8Error>)
    requires
        old(c8).wf(),
    ensures
        final(c8).wf(),
        same_timers(*old(c8), *final(c8)),
        same_opcode(*old(c8), *final(c8)),
        ({
            let op = old(c8).current_opcode;
            match r {
                Ok(()) => alu_op_defined(op) && eff_alu(*old(c8), *final(c8), op) && same_pc(
                    *old(c8),
                    *final(c8),
                ),
                Err(e) => *final(c8) == *old(c8) && e == Chip8Error::DecodeError && !alu_op_defined(
                    op,
                ),
            }
        }),
{
    proof {
        lemma_op_field_bounds();
    }
    let x = get_register_x(c8.current_opcode) as usize;
    let y = get_register_y(c8.current_opcode) as usize;
    let vx = c8.registers[x];
    let vy = c8.registers[y];
    match c8.current_opcode & 0x000F {
        0x0 => {
            c8.registers[x] = vy;
            Ok(())
        },
        0x1 => {
            c8.registers[x] = vx | vy;
            Ok(())
        },
        0x2 => {
            c8.registers[x] = vx & vy;
            Ok(())
        },
        0x3 => {
            c8.registers[x] = vx ^ vy;
            Ok(())
        },
        0x4 => {
            c8.registers[REGISTER_VF] = if (vx as u16) + (vy as u16) > 255 {
                1
            } else {
                0
            };
            c8.registers[x] = vx.wrapping_add(vy);
            Ok(())
        },
        0x5 => {
            c8.registers[REGISTER_VF] = if vx >= vy {
                1
            } else {
                0
            };
            c8.registers[x] = vx.wrapping_sub(vy);
            Ok(())
        },
        0x6 => {
            c8.registers[REGISTER_VF] = vx & 0x01;
            c8.registers[x] = vx >> 1;
            Ok(())
        },
        0x7 => {
            c8.registers[REGISTER_VF] = if vy >= vx {
                1
            } else {
                0
            };
            c8.registers[x] = vy.wrapping_sub(vx);
            Ok(())
        },
        0xE => {
            c8.registers[REGISTER_VF] = (vx & 0x80) >> 7;
            c8.registers[x] = vx << 1;
            Ok(())
        },
        _ => Err(Chip8Error::DecodeError),
    }
}

/// `9XY0`: skip the next instruction if registers X and Y differ.
pub fn op9000(c8: &mut Chip8)
    requires
        old(c8).wf(),
    ensures
        final(c8).wf(),
        same_payload(*old(c8), *final(c8)),
        same_timers(*old(c8), *final(c8)),
        same_opcode(*old(c8), *final(c8)),
        final(c8).program_counter == (if old(c8).registers@[op_x(old(c8).current_opcode)] != old(c8).registers@[op_y(old(c8).current_opcode)] {
            wrap_add16(old(c8).program_counter, 2)
        } else {
            old(c8).program_counter
        }),
{
    let reg_index_x = get_register_x(c8.current_opcode);
    let reg_index_y = get_register_y(c8.current_opcode);
    if c8.registers[reg_index_x as usize] != c8.registers[reg_index_y as usize] {
        c8.program_counter = c8.program_counter.wrapping_add(2);
    }
}

/// `ANNN`: set the index register to NNN.
pub fn opa000(c8: &mut Chip8)
    requires
        old(c8).wf(),
    ensures
        final(c8).wf(),
        eff_set_index(*old(c8), *final(c8), op_nnn(old(c8).current_opcode)),
        same_pc(*old(c8), *final(c8)),
        same_timers(*old(c8), *final(c8)),
        same_opcode(*old(c8), *final(c8)),
{
    c8.index_register = c8.current_opcode & 0x0FFF;
}

/// `BNNN`: jump to NNN plus register 0.
pub fn opb000(c8: &mut Chip8)
    requires
        old(c8).wf(),
    ensures
        final(c8).wf(),
        same_payload(*old(c8), *final(c8)),
        same_timers(*old(c8), *final(c8)),
        same_opcode(*old(c8), *final(c8)),
        final(c8).program_counter == op_nnn(old(c8).current_opcode) + old(c8).registers@[0],
{
    proof {
        lemma_op_field_bounds();
    }
    let reg_val = c8.registers[0];
    let addr = c8.current_opcode & 0x0FFF;
    c8.program_counter = reg_val as u16 + addr;
}

/// Relies on `rand::random::<u8>`: one byte from the thread-local
/// generator. The value is random, so nothing is promised of it.
#[verifier::external_body]
fn random_byte() -> u8 {
    rand::random::<u8>()
}

/// `CXNN` with the random byte supplied as an argument: set register X
/// to NN masked by that byte. This is the deterministic core of
/// [`opc000`] and is verified for every possible byte.
pub fn opc000_with(c8: &mut Chip8, rb: u8)
    requires
        old(c8).wf(),
    ensures
        final(c8).wf(),
        eff_set_reg(
            *old(c8),
            *final(c8),
            op_x(old(c8).current_opcode),
            (op_nn(old(c8).current_opcode) & rb),
        ),
        same_pc(*old(c8), *final(c8)),
        same_timers(*old(c8), *final(c8)),
        same_opcode(*old(c8), *final(c8)),
{
    let x = get_register_x(c8.current_opcode);
    let nn = (c8.current_opcode & 0x00FF) as u8;
    c8.registers[x as usize] = nn & rb;
}

/// `CXNN`: set register X to NN masked by a random byte. Whatever byte
/// the randomness source hands back, the result is NN masked by it.
pub fn opc000(c8: &mut Chip8)
    requires
        old(c8).wf(),
    ensures
        final(c8).wf(),
        exists|rb: u8|
            eff_set_reg(
                *old(c8),
                *final(c8),
                op_x(old(c8).current_opcode),
                (op_nn(old(c8).current_opcode) & rb),
            ),
        same_pc(*old(c8), *final(c8)),
        same_timers(*old(c8), *final(c8)),
        same_opcode(*old(c8), *final(c8)),
{
    let rb = random_byte();
    opc000_with(c8, rb);
}

/// `EX9E` / `EXA1`: skip the next instruction if the key indexed by
/// register X is pressed / is not pressed.
pub fn ope000(c8: &mut Chip8) -> (r: Result<(), Chip8Error>)
    requires
        old(c8).wf(),
    ensures
        final(c8).wf(),
        same_timers(*old(c8), *final(c8)),
        same_opcode(*old(c8), *final(c8)),
        ({
            let op = old(c8).current_opcode;
            let nn = op_nn(op);
            let vx = old(c8).registers@[op_x(op)];
            match r {
                Ok(()) => {
                    &&& (nn == 0x9E || nn == 0xA1)
                    &&& vx < 16
                    &&& same_payload(*old(c8), *final(c8))
                    &&& final(c8).program_counter == (if (old(c8).keys@[vx as int] == 1) == (nn
                        == 0x9E) {
                        wrap_add16(old(c8).program_counter, 2)
                    } else {
                        old(c8).program_counter
                    })
                },
                Err(e) => *final(c8) == *old(c8) && ((e == Chip8Error::DecodeError && nn != 0x9E
                    && nn != 0xA1) || (e == Chip8Error::MemoryOutOfBounds && (nn == 0x9E || nn
                    == 0xA1) && vx >= 16)),
            }
        }),
{
    proof {
        lemma_op_field_bounds();
    }
    let reg_index = get_register_x(c8.current_opcode);
    let key = c8.registers[reg_index as usize];
    let nn = c8.current_opcode & 0x00FF;
    if nn == 0x9E || nn == 0xA1 {
        if key >= 16 {
            return Err(Chip8Error::MemoryOutOfBounds);
        }
        let pressed = c8.keys[key as usize] == 1;
        let skip = if nn == 0x9E {
            pressed
        } else {
            !pressed
        };
        if skip {
            c8.program_counter = c8.program_counter.wrapping_add(2);
        }
        Ok(())
    } else {
        Err(Chip8Error::DecodeError)
    }
}

} // verus!

verus! {

/// The `FX??` family: timer reads and writes, key wait, index-register
/// arithmetic, font lookup, decimal decomposition, and register-block
/// transfers to and from memory.
pub fn opf000(c8: &mut Chip8) -> (r: Result<(), Chip8Error>)
    requires
        old(c8).wf(),
    ensures
        final(c8).wf(),
        same_opcode(*old(c8), *final(c8)),
        ({
            let op = old(c8).current_opcode;
            let nn = op_nn(op);
            let x = op_x(op);
            let vx = old(c8).registers@[x];
            match r {
                Ok(()) => if nn == 0x07 {
                    &&& eff_set_reg(*old(c8), *final(c8), x, old(c8).delay_timer)
                    &&& same_pc(*old(c8), *final(c8))
                    &&& same_timers(*old(c8), *final(c8))
                } else if nn == 0x0A {
                    &&& eff_await(*old(c8), *final(c8), op)
                    &&& same_pc(*old(c8), *final(c8))
                    &&& same_timers(*old(c8), *final(c8))
                } else if nn == 0x15 {
                    &&& same_payload(*old(c8), *final(c8))
                    &&& same_pc(*old(c8), *final(c8))
                    &&& final(c8).delay_timer == vx
                    &&& final(c8).sound_timer == old(c8).sound_timer
                } else if nn == 0x18 {
                    &&& same_payload(*old(c8), *final(c8))
                    &&& same_pc(*old(c8), *final(c8))
                    &&& final(c8).delay_timer == old(c8).delay_timer
                    &&& final(c8).sound_timer == vx
                } else if nn == 0x1E {
                    &&& eff_set_index(
                        *old(c8),
                        *final(c8),
                        wrap_add16(old(c8).index_register, vx as u16),
                    )
                    &&& same_pc(*old(c8), *final(c8))
                    &&& same_timers(*old(c8), *final(c8))
                } else if nn == 0x29 {
                    &&& eff_set_index(*old(c8), *final(c8), (FONT_START + 5 * vx) as u16)
                    &&& same_pc(*old(c8), *final(c8))
                    &&& same_timers(*old(c8), *final(c8))
                } else if nn == 0x33 {
                    &&& eff_bcd(*old(c8), *final(c8), op)
                    &&& same_pc(*old(c8), *final(c8))
                    &&& same_timers(*old(c8), *final(c8))
                } else if nn == 0x55 {
                    &&& eff_store_regs(*old(c8), *final(c8), op)
                    &&& same_pc(*old(c8), *final(c8))
                    &&& same_timers(*old(c8), *final(c8))
                } else {
                    &&& nn == 0x65
                    &&& eff_load_regs(*old(c8), *final(c8), op)
                    &&& same_pc(*old(c8), *final(c8))
                    &&& same_timers(*old(c8), *final(c8))
                },
                Err(e) => *final(c8) == *old(c8) && ((e == Chip8Error::DecodeError && nn != 0x07
                    && nn != 0x0A && nn != 0x15 && nn != 0x18 && nn != 0x1E && nn != 0x29 && nn
                    != 0x33 && nn != 0x55 && nn != 0x65) || (e == Chip8Error::MemoryOutOfBounds
                    && nn == 0x33 && old(c8).index_register + 2 >= MEM_SIZE) || (e
                    == Chip8Error::MemoryOutOfBounds && (nn == 0x55 || nn == 0x65) && old(
                    c8,
                ).index_register + x >= MEM_SIZE)),
            }
        }),
{
    proof {
        lemma_op_field_bounds();
    }
    let nn = c8.current_opcode & 0x00FF;
    match nn {
        0x07 => {
            let x = get_register_x(c8.current_opcode);
            c8.registers[x as usize] = c8.delay_timer;
            Ok(())
        },
        0x0A => {
            let x = get_register_x(c8.current_opcode);
            c8.mode = Mode::AwaitingKey(x);
            Ok(())
        },
        0x15 => {
            let x = get_register_x(c8.current_opcode);
            c8.delay_timer = c8.registers[x as usize];
            Ok(())
        },
        0x18 => {
            let x = get_register_x(c8.current_opcode);
            c8.sound_timer = c8.registers[x as usize];
            Ok(())
        },
        0x1E => {
            let x = get_register_x(c8.current_opcode);
            let vx = c8.registers[x as usize];
            c8.index_register = c8.index_register.wrapping_add(vx as u16);
            Ok(())
        },
        0x29 => {
            let x = get_register_x(c8.current_opcode);
            let character = c8.registers[x as usize];
            c8.index_register = FONT_START as u16 + 5 * (character as u16);
            Ok(())
        },
        0x33 => {
            let x = get_register_x(c8.current_opcode);
            let v = c8.registers[x as usize];
            let i0 = c8.index_register as usize;
            if i0 + 2 >= MEM_SIZE {
                return Err(Chip8Error::MemoryOutOfBounds);
            }
            c8.memory[i0] = v / 100;
            c8.memory[i0 + 1] = (v / 10) % 10;
            c8.memory[i0 + 2] = v % 10;
            Ok(())
        },
        0x55 => {
            let x = get_register_x(c8.current_opcode) as usize;
            let i0 = c8.index_register as usize;
            if i0 + x >= MEM_SIZE {
                return Err(Chip8Error::MemoryOutOfBounds);
            }
            let mut i: usize = 0;
            while i <= x
                invariant
                    old(c8).wf(),
                    x == op_x(old(c8).current_opcode),
                    x < 16,
                    i0 == old(c8).index_register,
                    i0 + x < MEM_SIZE,
                    i <= x + 1,
                    c8.registers@.len() == 16,
                    c8.memory@.len() == MEM_SIZE,
                    forall|j: int| 0 <= j < i ==> c8.memory@[i0 + j] == old(c8).registers@[j],
                    forall|j: int|
                        0 <= j < MEM_SIZE && !(i0 <= j < i0 + i) ==> c8.memory@[j] == old(
                            c8,
                        ).memory@[j],
                    c8.registers == old(c8).registers,
                    c8.index_register == old(c8).index_register,
                    c8.stack == old(c8).stack,
                    c8.current_opcode == old(c8).current_opcode,
                    c8.program_counter == old(c8).program_counter,
                    c8.delay_timer == old(c8).delay_timer,
                    c8.sound_timer == old(c8).sound_timer,
                    c8.screen == old(c8).screen,
                    c8.keys == old(c8).keys,
                    c8.mode == old(c8).mode,
                decreases x + 1 - i,
            {
                c8.memory[i0 + i] = c8.registers[i];
                i = i + 1;
            }
            Ok(())
        },
        0x65 => {
            let x = get_register_x(c8.current_opcode) as usize;
            let i0 = c8.index_register as usize;
            if i0 + x >= MEM_SIZE {
                return Err(Chip8Error::MemoryOutOfBounds);
            }
            let mut i: usize = 0;
            while i <= x
                invariant
                    old(c8).wf(),
                    x == op_x(old(c8).current_opcode),
                    x < 16,
                    i0 == old(c8).index_register,
                    i0 + x < MEM_SIZE,
                    i <= x + 1,
                    c8.registers@.len() == 16,
                    forall|j: int| 0 <= j < i ==> c8.registers@[j] == old(c8).memory@[i0 + j],
                    forall|j: int| i <= j < 16 ==> c8.registers@[j] == old(c8).registers@[j],
                    c8.memory == old(c8).memory,
                    c8.index_register == old(c8).index_register,
                    c8.stack == old(c8).stack,
                    c8.current_opcode == old(c8).current_opcode,
                    c8.program_counter == old(c8).program_counter,
                    c8.delay_timer == old(c8).delay_timer,
                    c8.sound_timer == old(c8).sound_timer,
                    c8.screen == old(c8).screen,
                    c8.keys == old(c8).keys,
                    c8.mode == old(c8).mode,
                decreases x + 1 - i,
            {
                c8.registers[i] = c8.memory[i0 + i];
                i = i + 1;
            }
            Ok(())
        },
        _ => Err(Chip8Error::DecodeError),
    }
}

} // verus!

verus! {

/// `DXYN`: XOR an 8-pixel-wide, N-row sprite read from memory at the
/// index register onto the screen at (register X, register Y), both
/// axes wrapping, and set the flag register to 1 exactly when some lit
/// cell was toggled off.
pub fn opd000(c8: &mut Chip8) -> (r: Result<(), Chip8Error>)
    requires
        old(c8).wf(),
    ensures
        final(c8).wf(),
        same_timers(*old(c8), *final(c8)),
        same_opcode(*old(c8), *final(c8)),
        ({
            let op = old(c8).current_opcode;
            match r {
                Ok(()) => eff_draw(*old(c8), *final(c8), op) && same_pc(*old(c8), *final(c8)),
                Err(e) => *final(c8) == *old(c8) && e == Chip8Error::MemoryOutOfBounds && op_n(op)
                    > 0 && old(c8).index_register + op_n(op) > MEM_SIZE,
            }
        }),
{
    proof {
        lemma_op_field_bounds();
    }
    let ghost pre = *old(c8);
    let op = c8.current_opcode;
    let x_ix = get_register_x(op);
    let y_ix = get_register_y(op);
    let x0 = c8.registers[x_ix as usize];
    let y0 = c8.registers[y_ix as usize];
    let n = (op & 0x000F) as usize;
    let i0 = c8.index_register as usize;
    if n > 0 && i0 + n > MEM_SIZE {
        return Err(Chip8Error::MemoryOutOfBounds);
    }
    let mut flipped = false;
    let mut row: usize = 0;
    while row < n
        invariant
            pre.wf(),
            pre == *old(c8),
            op == pre.current_opcode,
            n == op_n(op),
            i0 == pre.index_register,
            n > 0 ==> i0 + n <= MEM_SIZE,
            x0 == draw_x0(pre, op),
            y0 == draw_y0(pre, op),
            row <= n,
            c8.memory == pre.memory,
            c8.registers == pre.registers,
            c8.stack == pre.stack,
            c8.index_register == pre.index_register,
            c8.current_opcode == pre.current_opcode,
            c8.program_counter == pre.program_counter,
            c8.delay_timer == pre.delay_timer,
            c8.sound_timer == pre.sound_timer,
            c8.keys == pre.keys,
            c8.mode == pre.mode,
            c8.screen@.len() == SCREEN_CELLS,
            forall|l: int| 0 <= l < SCREEN_CELLS ==> c8.screen@[l] == 0 || c8.screen@[l] == 1,
            forall|l: int|
                0 <= l < SCREEN_CELLS ==> c8.screen@[l] == (if hits_before(
                    pre,
                    op,
                    l,
                    row as int,
                    0,
                ) {
                    flip(pre.screen@[l])
                } else {
                    pre.screen@[l]
                }),
            flipped == coll_before(pre, op, row as int, 0),
        decreases n - row,
    {
        let pixels = c8.memory[i0 + row];
        let mut col: usize = 0;
        while col < 8
            invariant
                pre.wf(),
                pre == *old(c8),
                op == pre.current_opcode,
                n == op_n(op),
                i0 == pre.index_register,
                i0 + n <= MEM_SIZE,
                x0 == draw_x0(pre, op),
                y0 == draw_y0(pre, op),
                row < n,
                col <= 8,
                pixels == pre.memory@[i0 + row],
                c8.memory == pre.memory,
                c8.registers == pre.registers,
                c8.stack == pre.stack,
                c8.index_register == pre.index_register,
                c8.current_opcode == pre.current_opcode,
                c8.program_counter == pre.program_counter,
                c8.delay_timer == pre.delay_timer,
                c8.sound_timer == pre.sound_timer,
                c8.keys == pre.keys,
                c8.mode == pre.mode,
                c8.screen@.len() == SCREEN_CELLS,
                forall|l: int| 0 <= l < SCREEN_CELLS ==> c8.screen@[l] == 0 || c8.screen@[l] == 1,
                forall|l: int|
                    0 <= l < SCREEN_CELLS ==> c8.screen@[l] == (if hits_before(
                        pre,
                        op,
                        l,
                        row as int,
                        col as int,
                    ) {
                        flip(pre.screen@[l])
                    } else {
                        pre.screen@[l]
                    }),
                flipped == coll_before(pre, op, row as int, col as int),
            decreases 8 - col,
        {
            let mask: u8 = 0x80u8 >> (col as u8);
            if pixels & mask != 0 {
                proof {
                    assert(sprite_bit(pre.memory@[i0 + row], col as int));
                }
                let lx = (x0 as usize + col) % SCREEN_WIDTH;
                let ly = (y0 as usize + row) % SCREEN_HEIGHT;
                let loc = lx + SCREEN_WIDTH * ly;
                proof {
                    lemma_cell_loc_bound(x0 as int, y0 as int, row as int, col as int);
                    assert(loc == cell_loc(x0 as int, y0 as int, row as int, col as int));
                    assert(!hits_before(pre, op, loc as int, row as int, col as int)) by {
                        if hits_before(pre, op, loc as int, row as int, col as int) {
                            lemma_op_field_bounds();
                            let (rr, cc) = choose|rr: int, cc: int|
                                0 <= rr < op_n(op) && 0 <= cc < 8 && (rr < row as int || (rr
                                    == row as int && cc < col as int)) && sprite_bit(
                                    pre.memory@[pre.index_register + rr],
                                    cc,
                                ) && cell_loc(draw_x0(pre, op), draw_y0(pre, op), rr, cc)
                                    == loc as int;
                            lemma_cell_loc_inj(
                                x0 as int,
                                y0 as int,
                                rr,
                                cc,
                                row as int,
                                col as int,
                            );
                        }
                    };
                }
                let cur = c8.screen[loc];
                if cur != 0 {
                    flipped = true;
                }
                c8.screen[loc] = if cur == 1 {
                    0u8
                } else {
                    1u8
                };
                proof {
                    let r0 = row as int;
                    let c0 = col as int;
                    assert(hits_before(pre, op, loc as int, r0, c0 + 1));
                    assert forall|l: int| 0 <= l < SCREEN_CELLS && l != loc as int implies
                        hits_before(pre, op, l, r0, c0 + 1) == hits_before(pre, op, l, r0, c0) by {
                        if hits_before(pre, op, l, r0, c0 + 1) {
                            let (rr, cc) = choose|rr: int, cc: int|
                                0 <= rr < op_n(op) && 0 <= cc < 8 && (rr < r0 || (rr == r0 && cc
                                    < c0 + 1)) && sprite_bit(
                                    pre.memory@[pre.index_register + rr],
                                    cc,
                                ) && cell_loc(draw_x0(pre, op), draw_y0(pre, op), rr, cc) == l;
                            if rr == r0 && cc == c0 {
                                assert(l == loc as int);
                            } else {
                                assert(hits_before(pre, op, l, r0, c0));
                            }
                        }
                        if hits_before(pre, op, l, r0, c0) {
                            let (rr, cc) = choose|rr: int, cc: int|
                                0 <= rr < op_n(op) && 0 <= cc < 8 && (rr < r0 || (rr == r0 && cc
                                    < c0)) && sprite_bit(
                                    pre.memory@[pre.index_register + rr],
                                    cc,
                                ) && cell_loc(draw_x0(pre, op), draw_y0(pre, op), rr, cc) == l;
                            assert(hits_before(pre, op, l, r0, c0 + 1));
                        }
                    };
                    assert(coll_before(pre, op, r0, c0 + 1) == (coll_before(pre, op, r0, c0) || (
                    pre.screen@[loc as int] == 1))) by {
                        if coll_before(pre, op, r0, c0 + 1) {
                            let (rr, cc) = choose|rr: int, cc: int|
                                0 <= rr < op_n(op) && 0 <= cc < 8 && (rr < r0 || (rr == r0 && cc
                                    < c0 + 1)) && sprite_bit(
                                    pre.memory@[pre.index_register + rr],
                                    cc,
                                ) && pre.screen@[cell_loc(
                                    draw_x0(pre, op),
                                    draw_y0(pre, op),
                                    rr,
                                    cc,
                                )] == 1;
                            if rr == r0 && cc == c0 {
                                assert(pre.screen@[loc as int] == 1);
                            } else {
                                assert(coll_before(pre, op, r0, c0));
                            }
                        }
                        if coll_before(pre, op, r0, c0) {
                            let (rr, cc) = choose|rr: int, cc: int|
                                0 <= rr < op_n(op) && 0 <= cc < 8 && (rr < r0 || (rr == r0 && cc
                                    < c0)) && sprite_bit(
                                    pre.memory@[pre.index_register + rr],
                                    cc,
                                ) && pre.screen@[cell_loc(
                                    draw_x0(pre, op),
                                    draw_y0(pre, op),
                                    rr,
                                    cc,
                                )] == 1;
                            assert(coll_before(pre, op, r0, c0 + 1));
                        }
                        if pre.screen@[loc as int] == 1 {
                            assert(coll_before(pre, op, r0, c0 + 1));
                        }
                    };
                }
            } else {
                proof {
                    let r0 = row as int;
                    let c0 = col as int;
                    assert(!sprite_bit(pre.memory@[i0 + row], col as int));
                    assert forall|l: int| 0 <= l < SCREEN_CELLS implies hits_before(
                        pre,
                        op,
                        l,
                        r0,
                        c0 + 1,
                    ) == hits_before(pre, op, l, r0, c0) by {
                        if hits_before(pre, op, l, r0, c0 + 1) {
                            let (rr, cc) = choose|rr: int, cc: int|
                                0 <= rr < op_n(op) && 0 <= cc < 8 && (rr < r0 || (rr == r0 && cc
                                    < c0 + 1)) && sprite_bit(
                                    pre.memory@[pre.index_register + rr],
                                    cc,
                                ) && cell_loc(draw_x0(pre, op), draw_y0(pre, op), rr, cc) == l;
                            assert(hits_before(pre, op, l, r0, c0));
                        }
                        if hits_before(pre, op, l, r0, c0) {
                            let (rr, cc) = choose|rr: int, cc: int|
                                0 <= rr < op_n(op) && 0 <= cc < 8 && (rr < r0 || (rr == r0 && cc
                                    < c0)) && sprite_bit(
                                    pre.memory@[pre.index_register + rr],
                                    cc,
                                ) && cell_loc(draw_x0(pre, op), draw_y0(pre, op), rr, cc) == l;
                            assert(hits_before(pre, op, l, r0, c0 + 1));
                        }
                    };
                    assert(coll_before(pre, op, r0, c0 + 1) == coll_before(pre, op, r0, c0)) by {
                        if coll_before(pre, op, r0, c0 + 1) {
                            let (rr, cc) = choose|rr: int, cc: int|
                                0 <= rr < op_n(op) && 0 <= cc < 8 && (rr < r0 || (rr == r0 && cc
                                    < c0 + 1)) && sprite_bit(
                                    pre.memory@[pre.index_register + rr],
                                    cc,
                                ) && pre.screen@[cell_loc(
                                    draw_x0(pre, op),
                                    draw_y0(pre, op),
                                    rr,
                                    cc,
                                )] == 1;
                            assert(coll_before(pre, op, r0, c0));
                        }
                        if coll_before(pre, op, r0, c0) {
                            let (rr, cc) = choose|rr: int, cc: int|
                                0 <= rr < op_n(op) && 0 <= cc < 8 && (rr < r0 || (rr == r0 && cc
                                    < c0)) && sprite_bit(
                                    pre.memory@[pre.index_register + rr],
                                    cc,
                                ) && pre.screen@[cell_loc(
                                    draw_x0(pre, op),
                                    draw_y0(pre, op),
                                    rr,
                                    cc,
                                )] == 1;
                            assert(coll_before(pre, op, r0, c0 + 1));
                        }
                    };
                }
            }
            col = col + 1;
        }
        proof {
            let r0 = row as int;
            assert forall|l: int| 0 <= l < SCREEN_CELLS implies hits_before(pre, op, l, r0 + 1, 0)
                == hits_before(pre, op, l, r0, 8) by {
                if hits_before(pre, op, l, r0 + 1, 0) {
                    let (rr, cc) = choose|rr: int, cc: int|
                        0 <= rr < op_n(op) && 0 <= cc < 8 && (rr < r0 + 1 || (rr == r0 + 1 && cc
                            < 0)) && sprite_bit(pre.memory@[pre.index_register + rr], cc)
                            && cell_loc(draw_x0(pre, op), draw_y0(pre, op), rr, cc) == l;
                    assert(hits_before(pre, op, l, r0, 8));
                }
                if hits_before(pre, op, l, r0, 8) {
                    let (rr, cc) = choose|rr: int, cc: int|
                        0 <= rr < op_n(op) && 0 <= cc < 8 && (rr < r0 || (rr == r0 && cc < 8))
                            && sprite_bit(pre.memory@[pre.index_register + rr], cc) && cell_loc(
                            draw_x0(pre, op),
                            draw_y0(pre, op),
                            rr,
                            cc,
                        ) == l;
                    assert(hits_before(pre, op, l, r0 + 1, 0));
                }
            };
            assert(coll_before(pre, op, r0 + 1, 0) == coll_before(pre, op, r0, 8)) by {
                if coll_before(pre, op, r0 + 1, 0) {
                    let (rr, cc) = choose|rr: int, cc: int|
                        0 <= rr < op_n(op) && 0 <= cc < 8 && (rr < r0 + 1 || (rr == r0 + 1 && cc
                            < 0)) && sprite_bit(pre.memory@[pre.index_register + rr], cc)
                            && pre.screen@[cell_loc(draw_x0(pre, op), draw_y0(pre, op), rr, cc)]
                            == 1;
                    assert(coll_before(pre, op, r0, 8));
                }
                if coll_before(pre, op, r0, 8) {
                    let (rr, cc) = choose|rr: int, cc: int|
                        0 <= rr < op_n(op) && 0 <= cc < 8 && (rr < r0 || (rr == r0 && cc < 8))
                            && sprite_bit(pre.memory@[pre.index_register + rr], cc)
                            && pre.screen@[cell_loc(draw_x0(pre, op), draw_y0(pre, op), rr, cc)]
                            == 1;
                    assert(coll_before(pre, op, r0 + 1, 0));
                }
            };
        }
        row = row + 1;
    }
    proof {
        let n0 = n as int;
        assert forall|l: int| 0 <= l < SCREEN_CELLS implies hits_before(pre, op, l, n0, 0)
            == draw_hits(pre, op, l) by {
            if hits_before(pre, op, l, n0, 0) {
                let (rr, cc) = choose|rr: int, cc: int|
                    0 <= rr < op_n(op) && 0 <= cc < 8 && (rr < n0 || (rr == n0 && cc < 0))
                        && sprite_bit(pre.memory@[pre.index_register + rr], cc) && cell_loc(
                        draw_x0(pre, op),
                        draw_y0(pre, op),
                        rr,
                        cc,
                    ) == l;
                assert(draw_hits(pre, op, l));
            }
            if draw_hits(pre, op, l) {
                let (rr, cc) = choose|rr: int, cc: int|
                    0 <= rr < op_n(op) && 0 <= cc < 8 && sprite_bit(
                        pre.memory@[pre.index_register + rr],
                        cc,
                    ) && cell_loc(draw_x0(pre, op), draw_y0(pre, op), rr, cc) == l;
                assert(hits_before(pre, op, l, n0, 0));
            }
        };
        assert(coll_before(pre, op, n as int, 0) == draw_collision(pre, op)) by {
            if coll_before(pre, op, n as int, 0) {
                let (rr, cc) = choose|rr: int, cc: int|
                    0 <= rr < op_n(op) && 0 <= cc < 8 && (rr < n as int || (rr == n as int && cc
                        < 0)) && sprite_bit(pre.memory@[pre.index_register + rr], cc)
                        && pre.screen@[cell_loc(draw_x0(pre, op), draw_y0(pre, op), rr, cc)] == 1;
                assert(draw_collision(pre, op));
            }
            if draw_collision(pre, op) {
                let (rr, cc) = choose|rr: int, cc: int|
                    0 <= rr < op_n(op) && 0 <= cc < 8 && sprite_bit(
                        pre.memory@[pre.index_register + rr],
                        cc,
                    ) && pre.screen@[cell_loc(draw_x0(pre, op), draw_y0(pre, op), rr, cc)] == 1;
                assert(coll_before(pre, op, n as int, 0));
            }
        };
    }
    c8.registers[REGISTER_VF] = if flipped {
        1
    } else {
        0
    };
    Ok(())
}

} // verus!
