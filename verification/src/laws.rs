//! General properties of the instruction semantics, proved once and for all
//! over the spec-level transition functions in [`crate::semantics`].

use crate::semantics::{
    covers, dec_timer, draw_flipped, first_key, imm8, lemma_cell_compose, lemma_first_key_bound,
    nib1, nib2, nib3, nib4, step_spec, tick_spec, view_wf, word_at, Fault, MachineView, RAM_SIZE,
};
use vstd::prelude::*;

verus! {

/// The machine's structural invariant survives every successful step: the
/// fixed array sizes, the stack pointer within capacity, and a latched key
/// index naming a real key.
pub proof fn lemma_step_preserves_wf(m: MachineView, op: u16, rnd: u8)
    requires
        view_wf(m),
        step_spec(m, op, rnd) is Ok,
    ensures
        view_wf(step_spec(m, op, rnd)->Ok_0),
{
    lemma_first_key_bound(m.keys, 0);
}

/// Writing an immediate into a register and then reading that register back
/// yields exactly the immediate, for every register index and every value.
pub proof fn lemma_set_then_get(m: MachineView, op: u16, rnd: u8)
    requires
        view_wf(m),
        nib1(op) == 6,
    ensures
        step_spec(m, op, rnd) is Ok,
        step_spec(m, op, rnd)->Ok_0.v[nib2(op)] == imm8(op),
{
}

/// After the shift-right form, VF holds the low bit that Vx had before the
/// update — whatever Vy holds — and Vx becomes Vy shifted right once.  The
/// register VF itself is left out: there the flag write lands on top of the
/// shifted value.
pub proof fn lemma_shift_right(m: MachineView, op: u16, rnd: u8)
    requires
        view_wf(m),
        nib1(op) == 8,
        nib4(op) == 6,
        nib2(op) != 15,
    ensures
        step_spec(m, op, rnd) is Ok,
        step_spec(m, op, rnd)->Ok_0.v[15] == m.v[nib2(op)] & 1,
        step_spec(m, op, rnd)->Ok_0.v[nib2(op)] == m.v[nib3(op)] >> 1u8,
{
}

/// The clear-screen instruction leaves every framebuffer cell unset.
pub proof fn lemma_clear_screen(m: MachineView, op: u16, rnd: u8)
    requires
        view_wf(m),
        nib1(op) == 0,
        nib2(op) == 0,
        nib3(op) == 0xE,
        nib4(op) == 0,
    ensures
        step_spec(m, op, rnd) is Ok,
        forall|j: int|
            0 <= j < m.screen.len() ==> !step_spec(m, op, rnd)->Ok_0.screen[j],
{
}

/// A sprite drawn onto an all-clear framebuffer meets no set cell: VF
/// reports no collision, and the draw-completed flag is lowered for the
/// renderer.
pub proof fn lemma_draw_on_clear(m: MachineView, op: u16, rnd: u8)
    requires
        view_wf(m),
        nib1(op) == 0xD,
        step_spec(m, op, rnd) is Ok,
        forall|j: int| 0 <= j < m.screen.len() ==> !m.screen[j],
    ensures
        step_spec(m, op, rnd)->Ok_0.v[15] == 0,
        !step_spec(m, op, rnd)->Ok_0.draw_completed,
{
    let x0 = m.v[nib2(op)] % 64;
    let y0 = m.v[nib3(op)] % 32;
    if draw_flipped(m.screen, m.ram, m.i as int, x0 as int, y0 as int, 8 * nib4(op)) {
        let (cx, cy) = choose|cx: int, cy: int|
            0 <= cx < 64 && 0 <= cy < 32 && m.screen[cx + 64 * cy] && #[trigger] covers(
                m.ram,
                m.i as int,
                x0 as int,
                y0 as int,
                8 * nib4(op),
                cx,
                cy,
            );
        assert(0 <= cx + 64 * cy < 2048);
        assert(false);
    }
}

/// Drawing the same sprite twice at the same coordinates toggles every
/// affected cell back: the framebuffer ends exactly as it began.  The
/// coordinate registers are taken outside VF, which the first draw
/// overwrites with its flag.
pub proof fn lemma_draw_twice_restores(m: MachineView, op: u16, rnd: u8)
    requires
        view_wf(m),
        nib1(op) == 0xD,
        nib2(op) != 15,
        nib3(op) != 15,
        step_spec(m, op, rnd) is Ok,
    ensures
        step_spec(step_spec(m, op, rnd)->Ok_0, op, rnd) is Ok,
        step_spec(step_spec(m, op, rnd)->Ok_0, op, rnd)->Ok_0.screen == m.screen,
{
    let m1 = step_spec(m, op, rnd)->Ok_0;
    let m2 = step_spec(m1, op, rnd)->Ok_0;
    assert(m2.screen =~= m.screen);
}

/// The second identical draw reports a collision in VF whenever the sprite
/// toggles at least one on-screen cell that was unset before the first
/// draw: the first draw set that cell, and the second meets it.  (A sprite
/// whose every toggled cell was already set is left out: the first draw
/// clears them all and the second then collides with nothing.)
#[verifier::rlimit(60)]
pub proof fn lemma_draw_twice_collides(m: MachineView, op: u16, rnd: u8)
    requires
        view_wf(m),
        nib1(op) == 0xD,
        nib2(op) != 15,
        nib3(op) != 15,
        step_spec(m, op, rnd) is Ok,
        exists|cx: int, cy: int|
            0 <= cx < 64 && 0 <= cy < 32 && !m.screen[cx + 64 * cy] && #[trigger] covers(
                m.ram,
                m.i as int,
                (m.v[nib2(op)] % 64) as int,
                (m.v[nib3(op)] % 32) as int,
                8 * nib4(op),
                cx,
                cy,
            ),
    ensures
        step_spec(step_spec(m, op, rnd)->Ok_0, op, rnd) is Ok,
        step_spec(step_spec(m, op, rnd)->Ok_0, op, rnd)->Ok_0.v[15] == 1,
{
    let x0 = (m.v[nib2(op)] % 64) as int;
    let y0 = (m.v[nib3(op)] % 32) as int;
    let k = 8 * nib4(op);
    let m1 = step_spec(m, op, rnd)->Ok_0;
    let (cx, cy) = choose|cx: int, cy: int|
        0 <= cx < 64 && 0 <= cy < 32 && !m.screen[cx + 64 * cy] && #[trigger] covers(
            m.ram,
            m.i as int,
            x0,
            y0,
            k,
            cx,
            cy,
        );
    let idx = cx + 64 * cy;
    assert(0 <= idx < 2048);
    lemma_cell_compose(cx, cy);
    assert(m1.screen[idx] == (m.screen[idx] != covers(m.ram, m.i as int, x0, y0, k, cx, cy)));
    assert(m1.screen[idx]);
    assert(m1.ram == m.ram && m1.i == m.i);
    assert(m1.v[nib2(op)] == m.v[nib2(op)] && m1.v[nib3(op)] == m.v[nib3(op)]);
    assert(draw_flipped(m1.screen, m1.ram, m1.i as int, x0, y0, k));
}

/// With no key down, the wait-for-key instruction rewinds the program
/// counter over itself: a tick that fetches it changes nothing at all, so
/// the same instruction is fetched again on the next step.
pub proof fn lemma_key_wait_busy(m: MachineView, rnd: u8)
    requires
        view_wf(m),
        m.waiting is None,
        m.pc + 1 < RAM_SIZE,
        nib1(word_at(m)) == 0xF,
        nib3(word_at(m)) == 0,
        nib4(word_at(m)) == 0xA,
        first_key(m.keys) is None,
    ensures
        tick_spec(m, rnd) == Ok::<MachineView, Fault>(m),
{
    let m1 = MachineView { pc: (m.pc + 2) as u16, ..m };
    assert(step_spec(m1, word_at(m), rnd)->Ok_0 =~= m);
}

/// With keys down, the wait-for-key instruction stores the lowest pressed
/// key, engages the latch on that key, and while the latch is set every
/// later tick is a no-op.
pub proof fn lemma_key_wait_latch(m: MachineView, rnd: u8, rnd2: u8)
    requires
        view_wf(m),
        m.waiting is None,
        m.pc + 1 < RAM_SIZE,
        nib1(word_at(m)) == 0xF,
        nib3(word_at(m)) == 0,
        nib4(word_at(m)) == 0xA,
        first_key(m.keys) is Some,
    ensures
        tick_spec(m, rnd) is Ok,
        tick_spec(m, rnd)->Ok_0.v[nib2(word_at(m))] == first_key(m.keys)->0,
        tick_spec(m, rnd)->Ok_0.waiting == Some(first_key(m.keys)->0),
        tick_spec(tick_spec(m, rnd)->Ok_0, rnd2) == Ok::<MachineView, Fault>(
            tick_spec(m, rnd)->Ok_0,
        ),
{
    lemma_first_key_bound(m.keys, 0);
}

/// A timer tick never takes a timer below zero, and a timer at zero stays
/// at zero under any number of further ticks.
pub proof fn lemma_timer_floor(t: u8)
    ensures
        dec_timer(t) <= t,
        t == 0 ==> dec_timer(t) == 0,
{
}

/// Storing V0..Vx at I and then loading V0..Vx back from the same address
/// restores every register — those above x were never touched — and each
/// of the two transfers advances I by exactly x + 1.
pub proof fn lemma_store_load_round_trip(m: MachineView, op_store: u16, op_load: u16, rnd: u8)
    requires
        view_wf(m),
        nib1(op_store) == 0xF,
        nib3(op_store) == 5,
        nib4(op_store) == 5,
        nib1(op_load) == 0xF,
        nib3(op_load) == 6,
        nib4(op_load) == 5,
        nib2(op_load) == nib2(op_store),
        m.i + nib2(op_store) < RAM_SIZE,
    ensures
        ({
            let x = nib2(op_store);
            let m1 = step_spec(m, op_store, rnd)->Ok_0;
            let ma = MachineView { i: m.i, ..m1 };
            &&& step_spec(m, op_store, rnd) is Ok
            &&& m1.i == m.i + x + 1
            &&& step_spec(ma, op_load, rnd) is Ok
            &&& step_spec(ma, op_load, rnd)->Ok_0.v == m.v
            &&& step_spec(ma, op_load, rnd)->Ok_0.i == m.i + x + 1
        }),
{
    let x = nib2(op_store);
    let m1 = step_spec(m, op_store, rnd)->Ok_0;
    let ma = MachineView { i: m.i, ..m1 };
    let m2 = step_spec(ma, op_load, rnd)->Ok_0;
    assert(m2.v =~= m.v);
}

} // verus!

