//! The mathematical model of the machine: how each instruction word is
//! split into fields, and the transition relation of every instruction and
//! of one whole fetch-decode-execute step.
//!
//! Each `eff_*` predicate relates a pre-state and a post-state and speaks
//! only of the state an instruction's body touches (registers, memory,
//! screen, call stack, index register, mode, keys); the program counter,
//! the timers and the instruction latch are constrained separately by the
//! contracts of the handlers and of [`crate::machine::Chip8::step`].

use crate::errors::Chip8Error;
use crate::machine::{Chip8, Mode, FONT_START, MEM_SIZE, PROGRAM_START, SCREEN_CELLS};
use crate::stack::STACK_CAPACITY;
use vstd::prelude::*;

verus! {

// ---------------------------------------------------------------------
// Instruction word fields.
// ---------------------------------------------------------------------
/// The leading nibble of an instruction word: its family.
pub open spec fn op_family(op: u16) -> u16 {
    op >> 12
}

/// The X operand: bits 11..8, a register index.
pub open spec fn op_x(op: u16) -> int {
    ((op & 0x0F00) >> 8) as int
}

/// The Y operand: bits 7..4, a register index.
pub open spec fn op_y(op: u16) -> int {
    ((op & 0x00F0) >> 4) as int
}

/// The N operand: the trailing nibble.
pub open spec fn op_n(op: u16) -> int {
    (op & 0x000F) as int
}

/// The NN operand: the trailing byte.
pub open spec fn op_nn(op: u16) -> u8 {
    (op & 0x00FF) as u8
}

/// The NNN operand: the trailing 12 bits, an address.
pub open spec fn op_nnn(op: u16) -> u16 {
    op & 0x0FFF
}

/// Ranges of the instruction word fields.
pub proof fn lemma_op_field_bounds()
    by (bit_vector)
    ensures
        forall|op: u16| #[trigger] ((op & 0x0F00) >> 8) < 16,
        forall|op: u16| #[trigger] ((op & 0x00F0) >> 4) < 16,
        forall|op: u16| #[trigger] (op & 0x000F) < 16,
        forall|op: u16| #[trigger] (op & 0x00FF) < 256,
        forall|op: u16| #[trigger] (op & 0x0FFF) < 4096,
        forall|op: u16| #[trigger] (op >> 12) < 16,
{
}

// ---------------------------------------------------------------------
// Small arithmetic helpers.
// ---------------------------------------------------------------------
/// Addition of two bytes, wrapped to 8 bits.
pub open spec fn wrap_add8(a: u8, b: u8) -> u8 {
    ((a + b) % 256) as u8
}

/// Subtraction of two bytes, wrapped to 8 bits.
pub open spec fn wrap_sub8(a: u8, b: u8) -> u8 {
    if a >= b {
        (a - b) as u8
    } else {
        (a + 256 - b) as u8
    }
}

/// Addition of two 16-bit words, wrapped to 16 bits.
pub open spec fn wrap_add16(a: u16, b: u16) -> u16 {
    ((a + b) % 0x10000) as u16
}

/// One timer tick: decrement, floored at zero.
pub open spec fn dec_timer(t: u8) -> u8 {
    if t > 0 {
        (t - 1) as u8
    } else {
        0
    }
}

/// The carry flag of an 8-bit addition.
pub open spec fn carry8(a: u8, b: u8) -> u8 {
    if a + b > 255 {
        1u8
    } else {
        0u8
    }
}

/// The not-borrow flag of an 8-bit subtraction `a - b`.
pub open spec fn not_borrow8(a: u8, b: u8) -> u8 {
    if a >= b {
        1u8
    } else {
        0u8
    }
}

/// A monochrome cell toggled by a sprite pixel.
pub open spec fn flip(v: u8) -> u8 {
    if v == 1 {
        0u8
    } else {
        1u8
    }
}

// ---------------------------------------------------------------------
// Frame helpers: which parts of the state two machines share.
// ---------------------------------------------------------------------
pub open spec fn same_regs(pre: Chip8, post: Chip8) -> bool {
    post.registers@ == pre.registers@
}

pub open spec fn same_mem(pre: Chip8, post: Chip8) -> bool {
    post.memory@ == pre.memory@
}

pub open spec fn same_screen(pre: Chip8, post: Chip8) -> bool {
    post.screen@ == pre.screen@
}

pub open spec fn same_stack(pre: Chip8, post: Chip8) -> bool {
    post.stack@ == pre.stack@
}

pub open spec fn same_index(pre: Chip8, post: Chip8) -> bool {
    post.index_register == pre.index_register
}

pub open spec fn same_mode(pre: Chip8, post: Chip8) -> bool {
    post.mode == pre.mode
}

pub open spec fn same_keys(pre: Chip8, post: Chip8) -> bool {
    post.keys@ == pre.keys@
}

pub open spec fn same_pc(pre: Chip8, post: Chip8) -> bool {
    post.program_counter == pre.program_counter
}

pub open spec fn same_timers(pre: Chip8, post: Chip8) -> bool {
    post.delay_timer == pre.delay_timer && post.sound_timer == pre.sound_timer
}

pub open spec fn same_opcode(pre: Chip8, post: Chip8) -> bool {
    post.current_opcode == pre.current_opcode
}

/// Everything an instruction body may touch is unchanged.
pub open spec fn same_payload(pre: Chip8, post: Chip8) -> bool {
    &&& same_regs(pre, post)
    &&& same_mem(pre, post)
    &&& same_screen(pre, post)
    &&& same_stack(pre, post)
    &&& same_index(pre, post)
    &&& same_mode(pre, post)
    &&& same_keys(pre, post)
}

/// Both timers decrement by one, floored at zero.
pub open spec fn ticked(pre: Chip8, post: Chip8) -> bool {
    post.delay_timer == dec_timer(pre.delay_timer) && post.sound_timer == dec_timer(
        pre.sound_timer,
    )
}

// ---------------------------------------------------------------------
// Per-instruction effects on the touched state.
// ---------------------------------------------------------------------
/// An all-dark framebuffer.
pub open spec fn blank_screen() -> Seq<u8> {
    Seq::new(SCREEN_CELLS as nat, |i: int| 0u8)
}

/// `00E0`: the screen is cleared.
pub open spec fn eff_cls(pre: Chip8, post: Chip8) -> bool {
    &&& post.screen@ == blank_screen()
    &&& same_regs(pre, post)
    &&& same_mem(pre, post)
    &&& same_stack(pre, post)
    &&& same_index(pre, post)
    &&& same_mode(pre, post)
    &&& same_keys(pre, post)
}

/// `00EE`: the top return address leaves the stack.
pub open spec fn eff_ret(pre: Chip8, post: Chip8) -> bool {
    &&& pre.stack@.len() > 0
    &&& post.stack@ == pre.stack@.drop_last()
    &&& same_regs(pre, post)
    &&& same_mem(pre, post)
    &&& same_screen(pre, post)
    &&& same_index(pre, post)
    &&& same_mode(pre, post)
    &&& same_keys(pre, post)
}

/// `2NNN`: the return address is pushed.
pub open spec fn eff_call(pre: Chip8, post: Chip8, ret_addr: u16) -> bool {
    &&& pre.stack@.len() < STACK_CAPACITY
    &&& post.stack@ == pre.stack@.push(ret_addr)
    &&& same_regs(pre, post)
    &&& same_mem(pre, post)
    &&& same_screen(pre, post)
    &&& same_index(pre, post)
    &&& same_mode(pre, post)
    &&& same_keys(pre, post)
}

/// One general-purpose register takes a new value.
pub open spec fn eff_set_reg(pre: Chip8, post: Chip8, x: int, v: u8) -> bool {
    &&& post.registers@ == pre.registers@.update(x, v)
    &&& same_mem(pre, post)
    &&& same_screen(pre, post)
    &&& same_stack(pre, post)
    &&& same_index(pre, post)
    &&& same_mode(pre, post)
    &&& same_keys(pre, post)
}

/// The index register takes a new value.
pub open spec fn eff_set_index(pre: Chip8, post: Chip8, v: u16) -> bool {
    &&& post.index_register == v
    &&& same_regs(pre, post)
    &&& same_mem(pre, post)
    &&& same_screen(pre, post)
    &&& same_stack(pre, post)
    &&& same_mode(pre, post)
    &&& same_keys(pre, post)
}

/// Whether the trailing nibble of an `8XY?` word names an operation.
pub open spec fn alu_op_defined(op: u16) -> bool {
    op_n(op) <= 7 || op_n(op) == 0xE
}

/// The `8XY?` register-register family. The flag register is written
/// first, from the operand values read before any mutation; the
/// destination register is written second, so on a flag-producing
/// operation with X = 0xF the destination write wins.
pub open spec fn eff_alu(pre: Chip8, post: Chip8, op: u16) -> bool {
    let x = op_x(op);
    let vx = pre.registers@[x];
    let vy = pre.registers@[op_y(op)];
    let low = op_n(op);
    &&& if low == 0 {
        post.registers@ == pre.registers@.update(x, vy)
    } else if low == 1 {
        post.registers@ == pre.registers@.update(x, vx | vy)
    } else if low == 2 {
        post.registers@ == pre.registers@.update(x, vx & vy)
    } else if low == 3 {
        post.registers@ == pre.registers@.update(x, vx ^ vy)
    } else if low == 4 {
        post.registers@ == pre.registers@.update(15, carry8(vx, vy)).update(x, wrap_add8(vx, vy))
    } else if low == 5 {
        post.registers@ == pre.registers@.update(15, not_borrow8(vx, vy)).update(
            x,
            wrap_sub8(vx, vy),
        )
    } else if low == 6 {
        post.registers@ == pre.registers@.update(15, vx & 1).update(x, vx >> 1)
    } else if low == 7 {
        post.registers@ == pre.registers@.update(15, not_borrow8(vy, vx)).update(
            x,
            wrap_sub8(vy, vx),
        )
    } else if low == 0xE {
        post.registers@ == pre.registers@.update(15, (vx & 0x80) >> 7).update(x, vx << 1)
    } else {
        false
    }
    &&& same_mem(pre, post)
    &&& same_screen(pre, post)
    &&& same_stack(pre, post)
    &&& same_index(pre, post)
    &&& same_mode(pre, post)
    &&& same_keys(pre, post)
}

/// `FX0A`: execution suspends until a key is pressed.
pub open spec fn eff_await(pre: Chip8, post: Chip8, op: u16) -> bool {
    &&& post.mode == Mode::AwaitingKey(op_x(op) as u8)
    &&& same_regs(pre, post)
    &&& same_mem(pre, post)
    &&& same_screen(pre, post)
    &&& same_stack(pre, post)
    &&& same_index(pre, post)
    &&& same_keys(pre, post)
}

/// `FX33`: the decimal digits of register X land at the index register.
pub open spec fn eff_bcd(pre: Chip8, post: Chip8, op: u16) -> bool {
    let v = pre.registers@[op_x(op)];
    let i0 = pre.index_register as int;
    &&& i0 + 2 < MEM_SIZE
    &&& post.memory@ == pre.memory@.update(i0, (v / 100) as u8).update(
        i0 + 1,
        ((v / 10) % 10) as u8,
    ).update(i0 + 2, (v % 10) as u8)
    &&& same_regs(pre, post)
    &&& same_screen(pre, post)
    &&& same_stack(pre, post)
    &&& same_index(pre, post)
    &&& same_mode(pre, post)
    &&& same_keys(pre, post)
}

/// `FX55`: registers 0..=X are copied to memory at the index register.
pub open spec fn eff_store_regs(pre: Chip8, post: Chip8, op: u16) -> bool {
    let x = op_x(op);
    let i0 = pre.index_register as int;
    &&& i0 + x < MEM_SIZE
    &&& post.memory@.len() == pre.memory@.len()
    &&& forall|j: int| 0 <= j <= x ==> post.memory@[i0 + j] == pre.registers@[j]
    &&& forall|j: int|
        0 <= j < pre.memory@.len() && !(i0 <= j <= i0 + x) ==> post.memory@[j] == pre.memory@[j]
    &&& same_regs(pre, post)
    &&& same_screen(pre, post)
    &&& same_stack(pre, post)
    &&& same_index(pre, post)
    &&& same_mode(pre, post)
    &&& same_keys(pre, post)
}

/// `FX65`: registers 0..=X are filled from memory at the index register.
pub open spec fn eff_load_regs(pre: Chip8, post: Chip8, op: u16) -> bool {
    let x = op_x(op);
    let i0 = pre.index_register as int;
    &&& i0 + x < MEM_SIZE
    &&& post.registers@.len() == pre.registers@.len()
    &&& forall|j: int| 0 <= j <= x ==> post.registers@[j] == pre.memory@[i0 + j]
    &&& forall|j: int|
        x < j < pre.registers@.len() ==> post.registers@[j] == pre.registers@[j]
    &&& same_mem(pre, post)
    &&& same_screen(pre, post)
    &&& same_stack(pre, post)
    &&& same_index(pre, post)
    &&& same_mode(pre, post)
    &&& same_keys(pre, post)
}

// ---------------------------------------------------------------------
// The draw instruction.
// ---------------------------------------------------------------------
/// The framebuffer position of sprite pixel (row `r`, column `c`) for a
/// sprite anchored at (`x0`, `y0`); both axes wrap.
pub open spec fn cell_loc(x0: int, y0: int, r: int, c: int) -> int {
    (x0 + c) % 64 + 64 * ((y0 + r) % 32)
}

/// Whether column `c` of a sprite row byte is a set pixel.
pub open spec fn sprite_bit(b: u8, c: int) -> bool {
    b & (0x80u8 >> (c as u8)) != 0
}

/// The anchor column of a draw: the value of register X.
pub open spec fn draw_x0(pre: Chip8, op: u16) -> int {
    pre.registers@[op_x(op)] as int
}

/// The anchor row of a draw: the value of register Y.
pub open spec fn draw_y0(pre: Chip8, op: u16) -> int {
    pre.registers@[op_y(op)] as int
}

/// Whether the draw described by `op` toggles framebuffer cell `loc`.
pub open spec fn draw_hits(pre: Chip8, op: u16, loc: int) -> bool {
    exists|r: int, c: int|
        0 <= r < op_n(op) && 0 <= c < 8 && sprite_bit(
            pre.memory@[pre.index_register + r],
            c,
        ) && cell_loc(draw_x0(pre, op), draw_y0(pre, op), r, c) == loc
}

/// Whether the draw described by `op` toggles some lit cell.
pub open spec fn draw_collision(pre: Chip8, op: u16) -> bool {
    exists|r: int, c: int|
        0 <= r < op_n(op) && 0 <= c < 8 && sprite_bit(pre.memory@[pre.index_register + r], c)
            && pre.screen@[cell_loc(draw_x0(pre, op), draw_y0(pre, op), r, c)] == 1
}

/// `DXYN`: every cell covered by a set sprite pixel is toggled, every
/// other cell is kept, and the flag register reports whether a lit cell
/// was toggled off.
pub open spec fn eff_draw(pre: Chip8, post: Chip8, op: u16) -> bool {
    let n = op_n(op);
    let i0 = pre.index_register as int;
    &&& n > 0 ==> i0 + n <= MEM_SIZE
    &&& post.screen@.len() == pre.screen@.len()
    &&& forall|loc: int|
        0 <= loc < pre.screen@.len() ==> post.screen@[loc] == (if draw_hits(pre, op, loc) {
            flip(pre.screen@[loc])
        } else {
            pre.screen@[loc]
        })
    &&& post.registers@ == pre.registers@.update(
        15,
        if draw_collision(pre, op) {
            1u8
        } else {
            0u8
        },
    )
    &&& same_mem(pre, post)
    &&& same_stack(pre, post)
    &&& same_index(pre, post)
    &&& same_mode(pre, post)
    &&& same_keys(pre, post)
}

// ---------------------------------------------------------------------
// Key wait.
// ---------------------------------------------------------------------
/// `k` is the lowest-numbered pressed key.
pub open spec fn lowest_pressed(keys: Seq<u8>, k: int) -> bool {
    &&& 0 <= k < 16
    &&& keys[k] == 1
    &&& forall|j: int| 0 <= j < k ==> keys[j] != 1
}

/// One step taken while the machine awaits a key: if some key is
/// pressed, its index lands in register `x` and execution resumes;
/// otherwise nothing happens, not even a timer tick, since the machine
/// is not advancing emulated time.
pub open spec fn step_awaiting(pre: Chip8, post: Chip8, x: u8) -> bool {
    if exists|k: int| lowest_pressed(pre.keys@, k) {
        exists|k: int|
            {
                &&& lowest_pressed(pre.keys@, k)
                &&& post.registers@ == pre.registers@.update(x as int, k as u8)
                &&& post.mode == Mode::Running
                &&& same_mem(pre, post)
                &&& same_screen(pre, post)
                &&& same_stack(pre, post)
                &&& same_index(pre, post)
                &&& same_keys(pre, post)
                &&& same_pc(pre, post)
                &&& same_timers(pre, post)
                &&& same_opcode(pre, post)
            }
    } else {
        post == pre
    }
}

// ---------------------------------------------------------------------
// One whole step.
// ---------------------------------------------------------------------
/// The big-endian instruction word at `pc`.
pub open spec fn fetch_word(mem: Seq<u8>, pc: u16) -> u16
    recommends
        pc as int + 1 < mem.len(),
{
    (mem[pc as int] as u16) << 8 | (mem[pc as int + 1] as u16)
}

/// A successful step taken in running mode, dispatching the fetched
/// word `op`: the effect of the instruction, the program counter rule
/// (advance by 2, by 4 on a taken skip, or an explicit transfer), and
/// one timer tick.
pub open spec fn step_exec_ok(pre: Chip8, post: Chip8, op: u16) -> bool {
    let fam = op_family(op);
    let nn = op_nn(op);
    let x = op_x(op);
    let vx = pre.registers@[x];
    &&& post.current_opcode == op
    &&& if fam == 0x0 {
        if nn == 0xE0 {
            &&& eff_cls(pre, post)
            &&& post.program_counter == pre.program_counter + 2
            &&& ticked(pre, post)
        } else {
            &&& nn == 0xEE
            &&& eff_ret(pre, post)
            &&& post.program_counter == pre.stack@.last()
            &&& ticked(pre, post)
        }
    } else if fam == 0x1 {
        &&& same_payload(pre, post)
        &&& post.program_counter == op_nnn(op)
        &&& ticked(pre, post)
    } else if fam == 0x2 {
        &&& eff_call(pre, post, (pre.program_counter + 2) as u16)
        &&& post.program_counter == op_nnn(op)
        &&& ticked(pre, post)
    } else if fam == 0x3 {
        &&& same_payload(pre, post)
        &&& post.program_counter == pre.program_counter + 2 + (if vx == nn {
            2int
        } else {
            0int
        })
        &&& ticked(pre, post)
    } else if fam == 0x4 {
        &&& same_payload(pre, post)
        &&& post.program_counter == pre.program_counter + 2 + (if vx != nn {
            2int
        } else {
            0int
        })
        &&& ticked(pre, post)
    } else if fam == 0x5 {
        &&& same_payload(pre, post)
        &&& post.program_counter == pre.program_counter + 2 + (if vx == pre.registers@[op_y(op)] {
            2int
        } else {
            0int
        })
        &&& ticked(pre, post)
    } else if fam == 0x6 {
        &&& eff_set_reg(pre, post, x, nn)
        &&& post.program_counter == pre.program_counter + 2
        &&& ticked(pre, post)
    } else if fam == 0x7 {
        &&& eff_set_reg(pre, post, x, wrap_add8(vx, nn))
        &&& post.program_counter == pre.program_counter + 2
        &&& ticked(pre, post)
    } else if fam == 0x8 {
        &&& alu_op_defined(op)
        &&& eff_alu(pre, post, op)
        &&& post.program_counter == pre.program_counter + 2
        &&& ticked(pre, post)
    } else if fam == 0x9 {
        &&& same_payload(pre, post)
        &&& post.program_counter == pre.program_counter + 2 + (if vx != pre.registers@[op_y(op)] {
            2int
        } else {
            0int
        })
        &&& ticked(pre, post)
    } else if fam == 0xA {
        &&& eff_set_index(pre, post, op_nnn(op))
        &&& post.program_counter == pre.program_counter + 2
        &&& ticked(pre, post)
    } else if fam == 0xB {
        &&& same_payload(pre, post)
        &&& post.program_counter == op_nnn(op) + pre.registers@[0]
        &&& ticked(pre, post)
    } else if fam == 0xC {
        &&& (exists|rb: u8| eff_set_reg(pre, post, x, (nn & rb)))
        &&& post.program_counter == pre.program_counter + 2
        &&& ticked(pre, post)
    } else if fam == 0xD {
        &&& eff_draw(pre, post, op)
        &&& post.program_counter == pre.program_counter + 2
        &&& ticked(pre, post)
    } else if fam == 0xE {
        &&& (nn == 0x9E || nn == 0xA1)
        &&& vx < 16
        &&& same_payload(pre, post)
        &&& {
            let pressed = pre.keys@[vx as int] == 1;
            post.program_counter == pre.program_counter + 2 + (if pressed == (nn == 0x9E) {
                2int
            } else {
                0int
            })
        }
        &&& ticked(pre, post)
    } else {
        &&& fam == 0xF
        &&& if nn == 0x07 {
            &&& eff_set_reg(pre, post, x, pre.delay_timer)
            &&& post.program_counter == pre.program_counter + 2
            &&& ticked(pre, post)
        } else if nn == 0x0A {
            &&& eff_await(pre, post, op)
            &&& post.program_counter == pre.program_counter + 2
            &&& ticked(pre, post)
        } else if nn == 0x15 {
            &&& same_payload(pre, post)
            &&& post.program_counter == pre.program_counter + 2
            &&& post.delay_timer == dec_timer(vx)
            &&& post.sound_timer == dec_timer(pre.sound_timer)
        } else if nn == 0x18 {
            &&& same_payload(pre, post)
            &&& post.program_counter == pre.program_counter + 2
            &&& post.delay_timer == dec_timer(pre.delay_timer)
            &&& post.sound_timer == dec_timer(vx)
        } else if nn == 0x1E {
            &&& eff_set_index(pre, post, wrap_add16(pre.index_register, vx as u16))
            &&& post.program_counter == pre.program_counter + 2
            &&& ticked(pre, post)
        } else if nn == 0x29 {
            &&& eff_set_index(pre, post, (FONT_START + 5 * vx) as u16)
            &&& post.program_counter == pre.program_counter + 2
            &&& ticked(pre, post)
        } else if nn == 0x33 {
            &&& eff_bcd(pre, post, op)
            &&& post.program_counter == pre.program_counter + 2
            &&& ticked(pre, post)
        } else if nn == 0x55 {
            &&& eff_store_regs(pre, post, op)
            &&& post.program_counter == pre.program_counter + 2
            &&& ticked(pre, post)
        } else {
            &&& nn == 0x65
            &&& eff_load_regs(pre, post, op)
            &&& post.program_counter == pre.program_counter + 2
            &&& ticked(pre, post)
        }
    }
}

/// The full relation of one successful step.
pub open spec fn step_ok(pre: Chip8, post: Chip8) -> bool {
    match pre.mode {
        Mode::AwaitingKey(x) => step_awaiting(pre, post, x),
        Mode::Running => {
            &&& pre.program_counter as int + 1 < MEM_SIZE
            &&& step_exec_ok(pre, post, fetch_word(pre.memory@, pre.program_counter))
        },
    }
}

/// On which fetched words, in which states, a dispatched instruction
/// fails, and with which error.
pub open spec fn err_cond(pre: Chip8, op: u16, e: Chip8Error) -> bool {
    let fam = op_family(op);
    let nn = op_nn(op);
    let i0 = pre.index_register as int;
    if fam == 0x0 {
        if nn == 0xE0 {
            false
        } else if nn == 0xEE {
            e == Chip8Error::StackUnderflow && pre.stack@.len() == 0
        } else {
            e == Chip8Error::DecodeError
        }
    } else if fam == 0x2 {
        e == Chip8Error::StackOverflow && pre.stack@.len() >= STACK_CAPACITY
    } else if fam == 0x8 {
        e == Chip8Error::DecodeError && !alu_op_defined(op)
    } else if fam == 0xD {
        e == Chip8Error::MemoryOutOfBounds && op_n(op) > 0 && i0 + op_n(op) > MEM_SIZE
    } else if fam == 0xE {
        if nn == 0x9E || nn == 0xA1 {
            e == Chip8Error::MemoryOutOfBounds && pre.registers@[op_x(op)] >= 16
        } else {
            e == Chip8Error::DecodeError
        }
    } else if fam == 0xF {
        if nn == 0x07 || nn == 0x0A || nn == 0x15 || nn == 0x18 || nn == 0x1E || nn == 0x29 {
            false
        } else if nn == 0x33 {
            e == Chip8Error::MemoryOutOfBounds && i0 + 2 >= MEM_SIZE
        } else if nn == 0x55 || nn == 0x65 {
            e == Chip8Error::MemoryOutOfBounds && i0 + op_x(op) >= MEM_SIZE
        } else {
            e == Chip8Error::DecodeError
        }
    } else {
        false
    }
}

/// The full relation of one failing step: if the program counter cannot
/// be fetched from, nothing changes at all; otherwise the instruction
/// latch holds the fetched word and the program counter has advanced
/// past it, but no other state moved and the timers did not tick.
pub open spec fn step_err(pre: Chip8, post: Chip8, e: Chip8Error) -> bool {
    match pre.mode {
        Mode::AwaitingKey(_) => false,
        Mode::Running => {
            if pre.program_counter as int + 1 >= MEM_SIZE {
                e == Chip8Error::MemoryOutOfBounds && post == pre
            } else {
                let op = fetch_word(pre.memory@, pre.program_counter);
                &&& post.current_opcode == op
                &&& post.program_counter == pre.program_counter + 2
                &&& same_payload(pre, post)
                &&& same_timers(pre, post)
                &&& err_cond(pre, op, e)
            }
        },
    }
}

// ---------------------------------------------------------------------
// Initial state and program loading.
// ---------------------------------------------------------------------
/// The built-in font table: 16 glyphs of 5 bytes each.
pub open spec fn font_seq() -> Seq<u8> {
    seq![
        0xF0u8, 0x90, 0x90, 0x90, 0xF0,  // 0
        0x20, 0x60, 0x20, 0x20, 0x70,  // 1
        0xF0, 0x10, 0xF0, 0x80, 0xF0,  // 2
        0xF0, 0x10, 0xF0, 0x10, 0xF0,  // 3
        0x90, 0x90, 0xF0, 0x10, 0x10,  // 4
        0xF0, 0x80, 0xF0, 0x10, 0xF0,  // 5
        0xF0, 0x80, 0xF0, 0x90, 0xF0,  // 6
        0xF0, 0x10, 0x20, 0x40, 0x40,  // 7
        0xF0, 0x90, 0xF0, 0x90, 0xF0,  // 8
        0xF0, 0x90, 0xF0, 0x10, 0xF0,  // 9
        0xF0, 0x90, 0xF0, 0x90, 0x90,  // A
        0xE0, 0x90, 0xE0, 0x90, 0xE0,  // B
        0xF0, 0x80, 0x80, 0x80, 0xF0,  // C
        0xE0, 0x90, 0x90, 0x90, 0xE0,  // D
        0xF0, 0x80, 0xF0, 0x80, 0xF0,  // E
        0xF0, 0x80, 0xF0, 0x80, 0x80,  // F
    ]
}

/// A freshly initialized machine: memory zeroed but for the font table,
/// every register, timer, key and screen cell zero, the stack empty, and
/// the program counter at the program origin.
pub open spec fn is_initial(c: Chip8) -> bool {
    &&& c.memory@.len() == MEM_SIZE
    &&& forall|i: int|
        0 <= i < MEM_SIZE && !(FONT_START <= i < FONT_START + 80) ==> c.memory@[i] == 0
    &&& forall|i: int| 0 <= i < 80 ==> c.memory@[FONT_START + i] == font_seq()[i]
    &&& c.registers@.len() == 16
    &&& forall|i: int| 0 <= i < 16 ==> c.registers@[i] == 0
    &&& c.index_register == 0
    &&& c.stack@.len() == 0
    &&& c.current_opcode == 0
    &&& c.program_counter == PROGRAM_START
    &&& c.delay_timer == 0
    &&& c.sound_timer == 0
    &&& c.screen@ == blank_screen()
    &&& c.keys@.len() == 16
    &&& forall|i: int| 0 <= i < 16 ==> c.keys@[i] == 0
    &&& c.mode == Mode::Running
}

/// A program image of `data` placed at the program origin; all other
/// memory and all other machine state kept.
pub open spec fn load_effect(pre: Chip8, post: Chip8, data: Seq<u8>) -> bool {
    &&& post.memory@.len() == pre.memory@.len()
    &&& forall|i: int|
        0 <= i < data.len() ==> post.memory@[PROGRAM_START + i] == data[i]
    &&& forall|j: int|
        0 <= j < pre.memory@.len() && !(PROGRAM_START <= j < PROGRAM_START + data.len())
            ==> post.memory@[j] == pre.memory@[j]
    &&& same_regs(pre, post)
    &&& same_screen(pre, post)
    &&& same_stack(pre, post)
    &&& same_index(pre, post)
    &&& same_mode(pre, post)
    &&& same_keys(pre, post)
    &&& same_pc(pre, post)
    &&& same_timers(pre, post)
    &&& same_opcode(pre, post)
}

} // verus!

verus! {

/// Whether some sprite pixel lexicographically before row `r`, column
/// `c` toggles framebuffer cell `loc`; drives the draw loop's invariant.
pub open spec fn hits_before(pre: Chip8, op: u16, loc: int, r: int, c: int) -> bool {
    exists|rr: int, cc: int|
        0 <= rr < op_n(op) && 0 <= cc < 8 && (rr < r || (rr == r && cc < c)) && sprite_bit(
            pre.memory@[pre.index_register + rr],
            cc,
        ) && cell_loc(draw_x0(pre, op), draw_y0(pre, op), rr, cc) == loc
}

/// Whether some sprite pixel lexicographically before row `r`, column
/// `c` toggles a lit cell; drives the draw loop's collision flag.
pub open spec fn coll_before(pre: Chip8, op: u16, r: int, c: int) -> bool {
    exists|rr: int, cc: int|
        0 <= rr < op_n(op) && 0 <= cc < 8 && (rr < r || (rr == r && cc < c)) && sprite_bit(
            pre.memory@[pre.index_register + rr],
            cc,
        ) && pre.screen@[cell_loc(draw_x0(pre, op), draw_y0(pre, op), rr, cc)] == 1
}

/// A sprite pixel's framebuffer position is a valid cell index.
pub proof fn lemma_cell_loc_bound(x0: int, y0: int, r: int, c: int)
    requires
        0 <= x0,
        0 <= y0,
        0 <= r,
        0 <= c,
    ensures
        0 <= cell_loc(x0, y0, r, c) < 2048,
{
    vstd::arithmetic::div_mod::lemma_mod_bound(x0 + c, 64);
    vstd::arithmetic::div_mod::lemma_mod_bound(y0 + r, 32);
}

/// Distinct pixels of one sprite land on distinct framebuffer cells:
/// the 8 columns are fewer than the screen's width and the at most 15
/// rows fewer than its height, so the wrap cannot fold two together.
pub proof fn lemma_cell_loc_inj(x0: int, y0: int, r1: int, c1: int, r2: int, c2: int)
    requires
        0 <= x0,
        0 <= y0,
        0 <= r1 < 16,
        0 <= c1 < 8,
        0 <= r2 < 16,
        0 <= c2 < 8,
        cell_loc(x0, y0, r1, c1) == cell_loc(x0, y0, r2, c2),
    ensures
        r1 == r2,
        c1 == c2,
{
    vstd::arithmetic::div_mod::lemma_mod_bound(x0 + c1, 64);
    vstd::arithmetic::div_mod::lemma_mod_bound(x0 + c2, 64);
    vstd::arithmetic::div_mod::lemma_mod_bound(y0 + r1, 32);
    vstd::arithmetic::div_mod::lemma_mod_bound(y0 + r2, 32);
    assert((x0 + c1) % 64 == (x0 + c2) % 64);
    assert((y0 + r1) % 32 == (y0 + r2) % 32);
    vstd::arithmetic::div_mod::lemma_fundamental_div_mod(x0 + c1, 64);
    vstd::arithmetic::div_mod::lemma_fundamental_div_mod(x0 + c2, 64);
    vstd::arithmetic::div_mod::lemma_fundamental_div_mod(y0 + r1, 32);
    vstd::arithmetic::div_mod::lemma_fundamental_div_mod(y0 + r2, 32);
}

} // verus!

verus! {

/// The cells a draw touches and whether it collides depend only on the
/// memory, screen, registers and index register of the pre-state; two
/// states equal in those parts describe the same draw.
pub proof fn lemma_draw_same_inputs(a: Chip8, b: Chip8, op: u16)
    requires
        a.memory@ == b.memory@,
        a.screen@ == b.screen@,
        a.registers@ == b.registers@,
        a.index_register == b.index_register,
    ensures
        forall|l: int| #[trigger] draw_hits(a, op, l) == draw_hits(b, op, l),
        draw_collision(a, op) == draw_collision(b, op),
{
    assert forall|l: int| #[trigger] draw_hits(a, op, l) == draw_hits(b, op, l) by {
        if draw_hits(a, op, l) {
            let (rr, cc) = choose|rr: int, cc: int|
                0 <= rr < op_n(op) && 0 <= cc < 8 && sprite_bit(
                    a.memory@[a.index_register + rr],
                    cc,
                ) && cell_loc(draw_x0(a, op), draw_y0(a, op), rr, cc) == l;
            assert(sprite_bit(b.memory@[b.index_register + rr], cc));
            assert(cell_loc(draw_x0(b, op), draw_y0(b, op), rr, cc) == l);
            assert(draw_hits(b, op, l));
        }
        if draw_hits(b, op, l) {
            let (rr, cc) = choose|rr: int, cc: int|
                0 <= rr < op_n(op) && 0 <= cc < 8 && sprite_bit(
                    b.memory@[b.index_register + rr],
                    cc,
                ) && cell_loc(draw_x0(b, op), draw_y0(b, op), rr, cc) == l;
            assert(sprite_bit(a.memory@[a.index_register + rr], cc));
            assert(cell_loc(draw_x0(a, op), draw_y0(a, op), rr, cc) == l);
            assert(draw_hits(a, op, l));
        }
    };
    assert(draw_collision(a, op) == draw_collision(b, op)) by {
        if draw_collision(a, op) {
            let (rr, cc) = choose|rr: int, cc: int|
                0 <= rr < op_n(op) && 0 <= cc < 8 && sprite_bit(
                    a.memory@[a.index_register + rr],
                    cc,
                ) && a.screen@[cell_loc(draw_x0(a, op), draw_y0(a, op), rr, cc)] == 1;
            assert(sprite_bit(b.memory@[b.index_register + rr], cc));
            assert(b.screen@[cell_loc(draw_x0(b, op), draw_y0(b, op), rr, cc)] == 1);
            assert(draw_collision(b, op));
        }
        if draw_collision(b, op) {
            let (rr, cc) = choose|rr: int, cc: int|
                0 <= rr < op_n(op) && 0 <= cc < 8 && sprite_bit(
                    b.memory@[b.index_register + rr],
                    cc,
                ) && b.screen@[cell_loc(draw_x0(b, op), draw_y0(b, op), rr, cc)] == 1;
            assert(sprite_bit(a.memory@[a.index_register + rr], cc));
            assert(a.screen@[cell_loc(draw_x0(a, op), draw_y0(a, op), rr, cc)] == 1);
            assert(draw_collision(a, op));
        }
    };
}

} // verus!

verus! {

/// Which cells a draw touches depends only on the sprite bytes, the
/// index register and the two anchor coordinates, not on the screen.
pub proof fn lemma_draw_hits_inputs(a: Chip8, b: Chip8, op: u16)
    requires
        a.memory@ == b.memory@,
        a.index_register == b.index_register,
        draw_x0(a, op) == draw_x0(b, op),
        draw_y0(a, op) == draw_y0(b, op),
    ensures
        forall|l: int| #[trigger] draw_hits(a, op, l) == draw_hits(b, op, l),
{
    assert forall|l: int| #[trigger] draw_hits(a, op, l) == draw_hits(b, op, l) by {
        if draw_hits(a, op, l) {
            let (rr, cc) = choose|rr: int, cc: int|
                0 <= rr < op_n(op) && 0 <= cc < 8 && sprite_bit(
                    a.memory@[a.index_register + rr],
                    cc,
                ) && cell_loc(draw_x0(a, op), draw_y0(a, op), rr, cc) == l;
            assert(sprite_bit(b.memory@[b.index_register + rr], cc));
            assert(cell_loc(draw_x0(b, op), draw_y0(b, op), rr, cc) == l);
            assert(draw_hits(b, op, l));
        }
        if draw_hits(b, op, l) {
            let (rr, cc) = choose|rr: int, cc: int|
                0 <= rr < op_n(op) && 0 <= cc < 8 && sprite_bit(
                    b.memory@[b.index_register + rr],
                    cc,
                ) && cell_loc(draw_x0(b, op), draw_y0(b, op), rr, cc) == l;
            assert(sprite_bit(a.memory@[a.index_register + rr], cc));
            assert(cell_loc(draw_x0(a, op), draw_y0(a, op), rr, cc) == l);
            assert(draw_hits(a, op, l));
        }
    };
}

} // verus!
