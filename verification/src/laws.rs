//! Laws that relate several operations of the machine, stated over the
//! transition relations of [`crate::model`] and proved once and for all.

use crate::machine::{Chip8, Mode, FONT_START, PROGRAM_START};
use crate::model::{
    cell_loc, draw_hits, draw_x0, draw_y0, eff_draw, fetch_word, flip, font_seq, is_initial,
    lemma_cell_loc_bound, lemma_draw_hits_inputs, lemma_op_field_bounds, load_effect, op_family,
    op_n, op_nn, op_x, op_y, sprite_bit, step_ok, wrap_add8,
};
use vstd::prelude::*;

verus! {

/// After a program image is loaded into a freshly initialized machine
/// and before any step runs, memory from the origin holds exactly the
/// loaded bytes, and the font region still holds its seeded values.
pub proof fn lemma_loaded_image(s0: Chip8, s1: Chip8, data: Seq<u8>)
    requires
        is_initial(s0),
        load_effect(s0, s1, data),
    ensures
        forall|i: int| 0 <= i < data.len() ==> s1.memory@[PROGRAM_START + i] == data[i],
        forall|i: int| 0 <= i < 80 ==> s1.memory@[FONT_START + i] == font_seq()[i],
{
}

/// Setting a register with `6XNN` and then adding one to it with `7X01`
/// leaves the register at NN + 1 wrapped to 8 bits, and, as long as X is
/// not the flag register itself, leaves the flag register untouched.
pub proof fn lemma_set_then_add_one(s0: Chip8, s1: Chip8, s2: Chip8)
    requires
        s0.wf(),
        s0.mode == Mode::Running,
        step_ok(s0, s1),
        step_ok(s1, s2),
        op_family(fetch_word(s0.memory@, s0.program_counter)) == 0x6,
        ({
            let op0 = fetch_word(s0.memory@, s0.program_counter);
            let op1 = fetch_word(s1.memory@, s1.program_counter);
            &&& op_family(op1) == 0x7
            &&& op_x(op1) == op_x(op0)
            &&& op_nn(op1) == 1
        }),
    ensures
        ({
            let op0 = fetch_word(s0.memory@, s0.program_counter);
            &&& s2.registers@[op_x(op0)] == wrap_add8(op_nn(op0), 1)
            &&& op_x(op0) != 15 ==> s2.registers@[15] == s0.registers@[15]
        }),
{
    lemma_op_field_bounds();
}

/// Drawing the identical sprite at the identical location twice restores
/// every cell to its value before the first draw, and the second draw
/// reports a collision exactly when the first draw lit a dark cell. The
/// operand registers must not be the flag register, which the first draw
/// overwrites.
pub proof fn lemma_draw_twice(s0: Chip8, s1: Chip8, s2: Chip8, op: u16)
    requires
        s0.wf(),
        op_x(op) != 15,
        op_y(op) != 15,
        eff_draw(s0, s1, op),
        eff_draw(s1, s2, op),
    ensures
        forall|l: int| 0 <= l < s0.screen@.len() ==> s2.screen@[l] == s0.screen@[l],
        s2.registers@[15] == 1 <==> (exists|l: int|
            0 <= l < s0.screen@.len() && #[trigger] draw_hits(s0, op, l) && s0.screen@[l] == 0),
{
    lemma_op_field_bounds();
    assert(draw_x0(s1, op) == draw_x0(s0, op));
    assert(draw_y0(s1, op) == draw_y0(s0, op));
    lemma_draw_hits_inputs(s0, s1, op);
    assert forall|l: int| 0 <= l < s0.screen@.len() implies s2.screen@[l] == s0.screen@[l] by {
        if draw_hits(s0, op, l) {
            assert(s1.screen@[l] == flip(s0.screen@[l]));
            assert(s2.screen@[l] == flip(s1.screen@[l]));
        }
    };
    let coll1 = exists|l: int|
        0 <= l < s0.screen@.len() && #[trigger] draw_hits(s0, op, l) && s0.screen@[l] == 0;
    if s2.registers@[15] == 1 {
        let (rr, cc) = choose|rr: int, cc: int|
            0 <= rr < op_n(op) && 0 <= cc < 8 && sprite_bit(
                s1.memory@[s1.index_register + rr],
                cc,
            ) && s1.screen@[cell_loc(draw_x0(s1, op), draw_y0(s1, op), rr, cc)] == 1;
        let l = cell_loc(draw_x0(s0, op), draw_y0(s0, op), rr, cc);
        lemma_cell_loc_bound(draw_x0(s0, op), draw_y0(s0, op), rr, cc);
        assert(sprite_bit(s0.memory@[s0.index_register + rr], cc));
        assert(draw_hits(s0, op, l));
        assert(s1.screen@[l] == flip(s0.screen@[l]));
        assert(s0.screen@[l] == 0);
    }
    if coll1 {
        let l = choose|l: int|
            0 <= l < s0.screen@.len() && #[trigger] draw_hits(s0, op, l) && s0.screen@[l] == 0;
        assert(draw_hits(s1, op, l));
        let (rr, cc) = choose|rr: int, cc: int|
            0 <= rr < op_n(op) && 0 <= cc < 8 && sprite_bit(
                s1.memory@[s1.index_register + rr],
                cc,
            ) && cell_loc(draw_x0(s1, op), draw_y0(s1, op), rr, cc) == l;
        assert(s1.screen@[l] == flip(s0.screen@[l]));
        assert(s1.screen@[cell_loc(draw_x0(s1, op), draw_y0(s1, op), rr, cc)] == 1);
        assert(s2.registers@[15] == 1);
    }
}

} // verus!
