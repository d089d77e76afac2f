//! The executable machine and its verified operations.

use crate::semantics::{
    covers, dec_timer, draw_flipped, draw_screen, first_key, first_key_from, font_seq,
    initial_state, lemma_cell_compose, lemma_cell_decomp, lemma_flipped_mono, lemma_flipped_same,
    load_ram, nib1, nib2, nib3, nib4, imm8, addr12, skip2, sprite_bit, step_spec, tick_spec,
    view_wf, word_at, Fault, MachineView, FONT_BYTES, MAX_ROM_BYTES, NUM_KEYS, NUM_REGS, RAM_SIZE,
    SCREEN_HEIGHT, SCREEN_WIDTH, STACK_SIZE, START_ADDR,
};
use vstd::prelude::*;
use vstd::wrapping::u16_specs;
use vstd::wrapping::u8_specs;

verus! {

/// The owned, self-contained machine state.
pub struct Emulator {
    pc: u16,
    ram: Vec<u8>,
    screen: Vec<bool>,
    v_reg: Vec<u8>,
    i_reg: u16,
    stack: Vec<u16>,
    sp: u16,
    keys: Vec<bool>,
    dt: u8,
    /// Sound timer: audible while positive.
    pub st: u8,
    /// Set false by a sprite draw; the external renderer sets it back to
    /// true once it has consumed the frame.
    pub draw_completed: bool,
    waiting_for_key_release: Option<u8>,
}

impl View for Emulator {
    type V = MachineView;

    closed spec fn view(&self) -> MachineView {
        MachineView {
            pc: self.pc,
            ram: self.ram@,
            screen: self.screen@,
            v: self.v_reg@,
            i: self.i_reg,
            stack: self.stack@,
            sp: self.sp,
            keys: self.keys@,
            dt: self.dt,
            st: self.st,
            draw_completed: self.draw_completed,
            waiting: self.waiting_for_key_release,
        }
    }
}

/// A vector of `n` copies of `value`.
fn filled<T: Copy>(n: usize, value: T) -> (v: Vec<T>)
    ensures
        v@.len() == n,
        forall|j: int| 0 <= j < n ==> v@[j] == value,
{
    let mut v: Vec<T> = Vec::new();
    while v.len() < n
        invariant
            v@.len() <= n,
            forall|j: int| 0 <= j < v@.len() ==> v@[j] == value,
        decreases n - v@.len(),
    {
        v.push(value);
    }
    v
}

impl Emulator {
    /// The machine's structural invariant.
    pub open spec fn wf(&self) -> bool {
        view_wf(self@)
    }

    /// A fresh machine: zeroed state with the font installed and the
    /// program counter at the start address.
    pub fn new() -> (r: Emulator)
        ensures
            r.wf(),
            r@ == initial_state(),
    {
        let mut e = Emulator {
            pc: START_ADDR,
            ram: filled(RAM_SIZE, 0u8),
            screen: filled(SCREEN_WIDTH * SCREEN_HEIGHT, false),
            v_reg: filled(NUM_REGS, 0u8),
            i_reg: 0,
            stack: filled(STACK_SIZE, 0u16),
            sp: 0,
            keys: filled(NUM_KEYS, false),
            dt: 0,
            st: 0,
            draw_completed: true,
            waiting_for_key_release: None,
        };
        e.install_font();
        proof {
            assert(e@ =~= initial_state());
        }
        e
    }

    /// Copy the 80 font bytes over the base of memory.
    fn install_font(&mut self)
        requires
            old(self)@.ram.len() == RAM_SIZE,
        ensures
            final(self)@ == (MachineView {
                ram: Seq::new(
                    RAM_SIZE as nat,
                    |a: int| if a < FONT_BYTES { font_seq()[a] } else { old(self)@.ram[a] },
                ),
                ..old(self)@
            }),
    {
        let font = font_data();
        let mut j: usize = 0;
        while j < FONT_BYTES
            invariant
                j <= FONT_BYTES,
                font@ == font_seq(),
                self@.ram.len() == RAM_SIZE,
                self@ == (MachineView { ram: self@.ram, ..old(self)@ }),
                forall|a: int|
                    0 <= a < RAM_SIZE ==> self@.ram[a] == if a < j {
                        font_seq()[a]
                    } else {
                        old(self)@.ram[a]
                    },
            decreases FONT_BYTES - j,
        {
            let b = font[j];
            self.ram.set(j, b);
            j += 1;
        }
        proof {
            assert(self@.ram =~= Seq::new(
                RAM_SIZE as nat,
                |a: int| if a < FONT_BYTES { font_seq()[a] } else { old(self)@.ram[a] },
            ));
            assert(self@ =~= (MachineView {
                ram: Seq::new(
                    RAM_SIZE as nat,
                    |a: int| if a < FONT_BYTES { font_seq()[a] } else { old(self)@.ram[a] },
                ),
                ..old(self)@
            }));
        }
    }

    /// Re-zero and re-seed exactly as construction does, preserving no
    /// prior state.
    pub fn reset(&mut self)
        ensures
            final(self).wf(),
            final(self)@ == initial_state(),
    {
        self.pc = START_ADDR;
        self.ram = filled(RAM_SIZE, 0u8);
        self.screen = filled(SCREEN_WIDTH * SCREEN_HEIGHT, false);
        self.v_reg = filled(NUM_REGS, 0u8);
        self.i_reg = 0;
        self.sp = 0;
        self.stack = filled(STACK_SIZE, 0u16);
        self.keys = filled(NUM_KEYS, false);
        self.dt = 0;
        self.st = 0;
        self.draw_completed = true;
        self.waiting_for_key_release = None;
        self.install_font();
        proof {
            assert(self@ =~= initial_state());
        }
    }

    /// Copy a program image into memory starting at the start address.  The
    /// caller guarantees that the image fits in the 3584 bytes above it.
    pub fn load_rom(&mut self, data: &[u8])
        requires
            old(self).wf(),
            data@.len() <= MAX_ROM_BYTES,
        ensures
            final(self).wf(),
            final(self)@ == (MachineView { ram: load_ram(old(self)@.ram, data@), ..old(self)@ }),
    {
        let base = START_ADDR as usize;
        let mut j: usize = 0;
        while j < data.len()
            invariant
                j <= data@.len(),
                data@.len() <= MAX_ROM_BYTES,
                self@.ram.len() == RAM_SIZE,
                self@ == (MachineView { ram: self@.ram, ..old(self)@ }),
                base == START_ADDR,
                forall|a: int|
                    0 <= a < RAM_SIZE ==> self@.ram[a] == if base <= a < base + j {
                        data@[a - base]
                    } else {
                        old(self)@.ram[a]
                    },
            decreases data@.len() - j,
        {
            let b = data[j];
            self.ram.set(base + j, b);
            j += 1;
        }
        proof {
            assert(self@.ram =~= load_ram(old(self)@.ram, data@));
            assert(self@ =~= (MachineView { ram: load_ram(old(self)@.ram, data@), ..old(self)@ }));
        }
    }

    /// Store a return address in the next free stack slot.
    pub fn push(&mut self, val: u16)
        requires
            old(self).wf(),
            old(self)@.sp < STACK_SIZE,
        ensures
            final(self).wf(),
            final(self)@ == (MachineView {
                stack: old(self)@.stack.update(old(self)@.sp as int, val),
                sp: (old(self)@.sp + 1) as u16,
                ..old(self)@
            }),
    {
        let sp = self.sp as usize;
        self.stack.set(sp, val);
        self.sp = self.sp + 1;
        proof {
            assert(self@ =~= (MachineView {
                stack: old(self)@.stack.update(old(self)@.sp as int, val),
                sp: (old(self)@.sp + 1) as u16,
                ..old(self)@
            }));
        }
    }

    /// Take the most recently stored return address back off the stack.
    pub fn pop(&mut self) -> (r: u16)
        requires
            old(self).wf(),
            old(self)@.sp > 0,
        ensures
            final(self).wf(),
            r == old(self)@.stack[old(self)@.sp - 1],
            final(self)@ == (MachineView { sp: (old(self)@.sp - 1) as u16, ..old(self)@ }),
    {
        self.sp = self.sp - 1;
        let r = self.stack[self.sp as usize];
        proof {
            assert(self@ =~= (MachineView { sp: (old(self)@.sp - 1) as u16, ..old(self)@ }));
        }
        r
    }

    /// Is any key currently down?
    pub fn is_key_pressed(&self) -> (r: bool)
        requires
            self.wf(),
        ensures
            r == exists|k: int| 0 <= k < NUM_KEYS && self@.keys[k],
    {
        let mut ki: usize = 0;
        let mut found = false;
        while ki < NUM_KEYS
            invariant
                ki <= NUM_KEYS,
                self@.keys.len() == NUM_KEYS,
                found == exists|k: int| 0 <= k < ki && self@.keys[k],
            decreases NUM_KEYS - ki,
        {
            if self.keys[ki] {
                found = true;
            }
            ki += 1;
        }
        found
    }

    /// Record a key going down or up; releasing the latched key clears the
    /// key-wait latch, any other key's transitions leave it alone.
    pub fn keypress(&mut self, idx: usize, pressed: bool)
        requires
            old(self).wf(),
            idx < NUM_KEYS,
        ensures
            final(self).wf(),
            final(self)@ == (MachineView {
                keys: old(self)@.keys.update(idx as int, pressed),
                waiting: if !pressed && old(self)@.waiting == Some(idx as u8) {
                    None
                } else {
                    old(self)@.waiting
                },
                ..old(self)@
            }),
    {
        self.keys.set(idx, pressed);
        if !pressed {
            match self.waiting_for_key_release {
                Some(k) => {
                    if k as usize == idx {
                        self.waiting_for_key_release = None;
                    }
                },
                None => {},
            }
        }
        proof {
            assert(self@ =~= (MachineView {
                keys: old(self)@.keys.update(idx as int, pressed),
                waiting: if !pressed && old(self)@.waiting == Some(idx as u8) {
                    None
                } else {
                    old(self)@.waiting
                },
                ..old(self)@
            }));
        }
    }

    /// Decrement both timers once, floored at zero.
    pub fn tick_timers(&mut self)
        requires
            old(self).wf(),
        ensures
            final(self).wf(),
            final(self)@ == (MachineView {
                dt: dec_timer(old(self)@.dt),
                st: dec_timer(old(self)@.st),
                ..old(self)@
            }),
    {
        if self.dt > 0 {
            self.dt = self.dt - 1;
        }
        if self.st > 0 {
            self.st = self.st - 1;
        }
        proof {
            assert(self@ =~= (MachineView {
                dt: dec_timer(old(self)@.dt),
                st: dec_timer(old(self)@.st),
                ..old(self)@
            }));
        }
    }

    /// A read-only view of the framebuffer, row-major, 64 cells per row.
    pub fn get_display(&self) -> (r: &[bool])
        ensures
            r@ == self@.screen,
    {
        self.screen.as_slice()
    }

    /// The value of general register `idx`.
    pub fn register(&self, idx: usize) -> (r: u8)
        requires
            self.wf(),
            idx < NUM_REGS,
        ensures
            r == self@.v[idx as int],
    {
        self.v_reg[idx]
    }

    /// The program counter.
    pub fn program_counter(&self) -> (r: u16)
        ensures
            r == self@.pc,
    {
        self.pc
    }

    /// The index register I.
    pub fn index_register(&self) -> (r: u16)
        ensures
            r == self@.i,
    {
        self.i_reg
    }

    /// The delay timer.
    pub fn delay_timer(&self) -> (r: u8)
        ensures
            r == self@.dt,
    {
        self.dt
    }

    /// The byte of memory at `addr`.
    pub fn ram_byte(&self, addr: usize) -> (r: u8)
        requires
            self.wf(),
            addr < RAM_SIZE,
        ensures
            r == self@.ram[addr as int],
    {
        self.ram[addr]
    }

    /// The key index the machine is suspended on, if any.
    pub fn waiting_key(&self) -> (r: Option<u8>)
        ensures
            r == self@.waiting,
    {
        self.waiting_for_key_release
    }

    /// XOR-composite an `n`-row sprite read from memory at I onto the
    /// framebuffer at `(x0, y0)`, clipping at the right and bottom edges.
    /// Returns whether any cell was toggled from set to unset.
    fn draw_sprite(&mut self, x0: usize, y0: usize, n: usize) -> (flipped: bool)
        requires
            old(self).wf(),
            x0 < SCREEN_WIDTH,
            y0 < SCREEN_HEIGHT,
            n < 16,
            n > 0 ==> old(self)@.i + n <= RAM_SIZE,
        ensures
            final(self).wf(),
            flipped == draw_flipped(
                old(self)@.screen,
                old(self)@.ram,
                old(self)@.i as int,
                x0 as int,
                y0 as int,
                8 * n as int,
            ),
            final(self)@ == (MachineView {
                screen: draw_screen(
                    old(self)@.screen,
                    old(self)@.ram,
                    old(self)@.i as int,
                    x0 as int,
                    y0 as int,
                    8 * n as int,
                ),
                ..old(self)@
            }),
    {
        let ghost m0 = self@;
        let ghost i0 = self@.i as int;
        let ghost xs = x0 as int;
        let ghost ys = y0 as int;
        let mut flipped = false;
        let mut y_line: usize = 0;
        while y_line < n
            invariant
                view_wf(m0),
                x0 < SCREEN_WIDTH,
                y0 < SCREEN_HEIGHT,
                n < 16,
                y_line <= n,
                n > 0 ==> i0 + n <= RAM_SIZE,
                i0 == m0.i as int,
                xs == x0 as int,
                ys == y0 as int,
                self@ == (MachineView { screen: self@.screen, ..m0 }),
                self@.screen.len() == SCREEN_WIDTH * SCREEN_HEIGHT,
                forall|j: int|
                    0 <= j < 2048 ==> self@.screen[j] == (m0.screen[j] != covers(
                        m0.ram,
                        i0,
                        xs,
                        ys,
                        8 * y_line as int,
                        j % 64,
                        j / 64,
                    )),
                flipped == draw_flipped(m0.screen, m0.ram, i0, xs, ys, 8 * y_line as int),
            decreases n - y_line,
        {
            let addr = self.i_reg as usize + y_line;
            let pixels = self.ram[addr];
            let mut x_line: usize = 0;
            while x_line < 8
                invariant
                    view_wf(m0),
                    x0 < SCREEN_WIDTH,
                    y0 < SCREEN_HEIGHT,
                    n < 16,
                    y_line < n,
                    x_line <= 8,
                    i0 + n <= RAM_SIZE,
                    i0 == m0.i as int,
                    xs == x0 as int,
                    ys == y0 as int,
                    pixels == m0.ram[i0 + y_line],
                    self@ == (MachineView { screen: self@.screen, ..m0 }),
                    self@.screen.len() == SCREEN_WIDTH * SCREEN_HEIGHT,
                    forall|j: int|
                        0 <= j < 2048 ==> self@.screen[j] == (m0.screen[j] != covers(
                            m0.ram,
                            i0,
                            xs,
                            ys,
                            8 * y_line as int + x_line as int,
                            j % 64,
                            j / 64,
                        )),
                    flipped == draw_flipped(
                        m0.screen,
                        m0.ram,
                        i0,
                        xs,
                        ys,
                        8 * y_line as int + x_line as int,
                    ),
                decreases 8 - x_line,
            {
                let ghost l = y_line as int;
                let ghost b = x_line as int;
                let ghost k = 8 * l + b;
                let bit = pixels & (0x80u8 >> (x_line as u8));
                let xx = x0 + x_line;
                let yy = y0 + y_line;
                proof {
                    assert((bit != 0) == sprite_bit(m0.ram[i0 + l], b));
                }
                if bit != 0 && xx < SCREEN_WIDTH && yy < SCREEN_HEIGHT {
                    let idx = xx + SCREEN_WIDTH * yy;
                    proof {
                        lemma_cell_compose(xx as int, yy as int);
                    }
                    let cur = self.screen[idx];
                    let ghost was_flipped = flipped;
                    self.screen.set(idx, !cur);
                    if cur {
                        flipped = true;
                    }
                    proof {
                        assert(!covers(m0.ram, i0, xs, ys, k, idx as int % 64, idx as int / 64));
                        assert(cur == m0.screen[idx as int]);
                        assert forall|j: int| 0 <= j < 2048 implies self@.screen[j] == (
                        m0.screen[j] != covers(
                            m0.ram,
                            i0,
                            xs,
                            ys,
                            k + 1,
                            j % 64,
                            j / 64,
                        )) by {
                            lemma_cell_decomp(j);
                            if j == idx as int {
                                assert(covers(m0.ram, i0, xs, ys, k + 1, j % 64, j / 64));
                            } else {
                                assert(covers(m0.ram, i0, xs, ys, k + 1, j % 64, j / 64)
                                    == covers(m0.ram, i0, xs, ys, k, j % 64, j / 64));
                            }
                        }
                        if was_flipped {
                            lemma_flipped_mono(m0.screen, m0.ram, i0, xs, ys, k, k + 1);
                        } else if cur {
                            assert(covers(m0.ram, i0, xs, ys, k + 1, xx as int, yy as int));
                            assert(m0.screen[xx as int + 64 * (yy as int)]);
                            assert(draw_flipped(m0.screen, m0.ram, i0, xs, ys, k + 1));
                        } else {
                            if draw_flipped(m0.screen, m0.ram, i0, xs, ys, k + 1) {
                                let (cx, cy) = choose|cx: int, cy: int|
                                    0 <= cx < 64 && 0 <= cy < 32 && m0.screen[cx + 64 * cy]
                                        && #[trigger] covers(m0.ram, i0, xs, ys, k + 1, cx, cy);
                                lemma_cell_compose(cx, cy);
                                if covers(m0.ram, i0, xs, ys, k, cx, cy) {
                                    assert(draw_flipped(m0.screen, m0.ram, i0, xs, ys, k));
                                    assert(false);
                                } else {
                                    assert(cx == xx as int && cy == yy as int);
                                    assert(false);
                                }
                            }
                        }
                    }
                } else {
                    proof {
                        assert forall|cx: int, cy: int|
                            0 <= cx < 64 && 0 <= cy < 32 implies (covers(
                            m0.ram,
                            i0,
                            xs,
                            ys,
                            k + 1,
                            cx,
                            cy,
                        ) == covers(m0.ram, i0, xs, ys, k, cx, cy)) by {
                            if covers(m0.ram, i0, xs, ys, k + 1, cx, cy) && !covers(
                                m0.ram,
                                i0,
                                xs,
                                ys,
                                k,
                                cx,
                                cy,
                            ) {
                                assert(cy - ys == l && cx - xs == b);
                                assert(false);
                            }
                        }
                        assert forall|j: int| 0 <= j < 2048 implies self@.screen[j] == (
                        m0.screen[j] != covers(
                            m0.ram,
                            i0,
                            xs,
                            ys,
                            k + 1,
                            j % 64,
                            j / 64,
                        )) by {
                            lemma_cell_decomp(j);
                        }
                        lemma_flipped_same(m0.screen, m0.ram, i0, xs, ys, k + 1, k);
                    }
                }
                x_line += 1;
            }
            y_line += 1;
        }
        proof {
            assert(self@.screen =~= draw_screen(m0.screen, m0.ram, i0, xs, ys, 8 * n as int));
            assert(self@ =~= (MachineView {
                screen: draw_screen(m0.screen, m0.ram, i0, xs, ys, 8 * n as int),
                ..m0
            }));
        }
        flipped
    }

    /// Decode and apply one instruction word, the program counter already
    /// advanced past it.  On success the new state is `step_spec` of the old
    /// one for some random byte; on a fault the machine is unchanged and
    /// `step_spec` reports the same fault whatever the random byte.
    #[verifier::rlimit(60)]
    fn execute(&mut self, op: u16) -> (r: Result<(), Fault>)
        requires
            old(self).wf(),
        ensures
            final(self).wf(),
            match r {
                Ok(()) => exists|rnd: u8|
                    #[trigger] step_spec(old(self)@, op, rnd) == Ok::<MachineView, Fault>(
                        final(self)@,
                    ),
                Err(f) => final(self)@ == old(self)@ && forall|rnd: u8|
                    #[trigger] step_spec(old(self)@, op, rnd) == Err::<MachineView, Fault>(f),
            },
    {
        let ghost m0 = self@;
        let d1 = op / 0x1000;
        let d2 = (op / 0x100) % 0x10;
        let d3 = (op / 0x10) % 0x10;
        let d4 = op % 0x10;
        let x = d2 as usize;
        let y = d3 as usize;
        let nn = (op % 0x100) as u8;
        let nnn = op % 0x1000;
        proof {
            assert(d1 == nib1(op) && d2 == nib2(op) && d3 == nib3(op) && d4 == nib4(op));
            assert(nn == imm8(op) && nnn == addr12(op));
            assert(x < NUM_REGS && y < NUM_REGS);
        }
        match (d1, d2, d3, d4) {
            // 0000: no operation
            (0, 0, 0, 0) => {
                proof {
                    assert(step_spec(m0, op, 0u8) == Ok::<MachineView, Fault>(self@));
                }
                Ok(())
            },
            // 00E0: clear the framebuffer
            (0, 0, 0xE, 0) => {
                self.screen = filled(SCREEN_WIDTH * SCREEN_HEIGHT, false);
                proof {
                    assert(step_spec(m0, op, 0u8) == Ok::<MachineView, Fault>(self@)) by {
                        assert(self@.screen =~= Seq::new(m0.screen.len(), |idx: int| false));
                        assert(self@ =~= (MachineView {
                            screen: Seq::new(m0.screen.len(), |idx: int| false),
                            ..m0
                        }));
                    };
                }
                Ok(())
            },
            // 00EE: return from subroutine
            (0, 0, 0xE, 0xE) => {
                if self.sp == 0 {
                    proof {
                        assert(forall|rnd: u8|
                            step_spec(m0, op, rnd) == Err::<MachineView, Fault>(
                                Fault::StackUnderflow,
                            ));
                    }
                    return Err(Fault::StackUnderflow);
                }
                let ret = self.pop();
                self.pc = ret;
                proof {
                    assert(step_spec(m0, op, 0u8) == Ok::<MachineView, Fault>(self@)) by {
                        assert(self@ =~= (MachineView {
                            pc: m0.stack[m0.sp - 1],
                            sp: (m0.sp - 1) as u16,
                            ..m0
                        }));
                    };
                }
                Ok(())
            },
            // 1nnn: jump
            (1, _, _, _) => {
                self.pc = nnn;
                proof {
                    assert(step_spec(m0, op, 0u8) == Ok::<MachineView, Fault>(self@)) by {
                        assert(self@ =~= (MachineView { pc: addr12(op), ..m0 }));
                    };
                }
                Ok(())
            },
            // 2nnn: call subroutine
            (2, _, _, _) => {
                if self.sp as usize >= STACK_SIZE {
                    proof {
                        assert(forall|rnd: u8|
                            step_spec(m0, op, rnd) == Err::<MachineView, Fault>(
                                Fault::StackOverflow,
                            ));
                    }
                    return Err(Fault::StackOverflow);
                }
                let pc_now = self.pc;
                self.push(pc_now);
                self.pc = nnn;
                proof {
                    assert(step_spec(m0, op, 0u8) == Ok::<MachineView, Fault>(self@)) by {
                        assert(self@ =~= (MachineView {
                            stack: m0.stack.update(m0.sp as int, m0.pc),
                            sp: (m0.sp + 1) as u16,
                            pc: addr12(op),
                            ..m0
                        }));
                    };
                }
                Ok(())
            },
            // 3xnn: skip if Vx == nn
            (3, _, _, _) => {
                if self.v_reg[x] == nn {
                    self.pc = self.pc.wrapping_add(2);
                }
                proof {
                    assert(step_spec(m0, op, 0u8) == Ok::<MachineView, Fault>(self@)) by {
                        if m0.v[x as int] == imm8(op) {
                            assert(self@ =~= skip2(m0));
                        } else {
                            assert(self@ =~= m0);
                        }
                    };
                }
                Ok(())
            },
            // 4xnn: skip if Vx != nn
            (4, _, _, _) => {
                if self.v_reg[x] != nn {
                    self.pc = self.pc.wrapping_add(2);
                }
                proof {
                    assert(step_spec(m0, op, 0u8) == Ok::<MachineView, Fault>(self@)) by {
                        if m0.v[x as int] != imm8(op) {
                            assert(self@ =~= skip2(m0));
                        } else {
                            assert(self@ =~= m0);
                        }
                    };
                }
                Ok(())
            },
            // 5xy0: skip if Vx == Vy
            (5, _, _, 0) => {
                if self.v_reg[x] == self.v_reg[y] {
                    self.pc = self.pc.wrapping_add(2);
                }
                proof {
                    assert(step_spec(m0, op, 0u8) == Ok::<MachineView, Fault>(self@)) by {
                        if m0.v[x as int] == m0.v[y as int] {
                            assert(self@ =~= skip2(m0));
                        } else {
                            assert(self@ =~= m0);
                        }
                    };
                }
                Ok(())
            },
            // 6xnn: Vx = nn
            (6, _, _, _) => {
                self.v_reg.set(x, nn);
                proof {
                    assert(step_spec(m0, op, 0u8) == Ok::<MachineView, Fault>(self@)) by {
                        assert(self@ =~= (MachineView { v: m0.v.update(x as int, imm8(op)), ..m0 }));
                    };
                }
                Ok(())
            },
            // 7xnn: Vx += nn, wrapping, no flag
            (7, _, _, _) => {
                let vx = self.v_reg[x];
                self.v_reg.set(x, vx.wrapping_add(nn));
                proof {
                    assert(step_spec(m0, op, 0u8) == Ok::<MachineView, Fault>(self@)) by {
                        assert(self@ =~= (MachineView {
                            v: m0.v.update(
                                x as int,
                                u8_specs::wrapping_add(m0.v[x as int], imm8(op)),
                            ),
                            ..m0
                        }));
                    };
                }
                Ok(())
            },
            // 8xy0: Vx = Vy
            (8, _, _, 0) => {
                let vy = self.v_reg[y];
                self.v_reg.set(x, vy);
                proof {
                    assert(step_spec(m0, op, 0u8) == Ok::<MachineView, Fault>(self@)) by {
                        assert(self@ =~= (MachineView {
                            v: m0.v.update(x as int, m0.v[y as int]),
                            ..m0
                        }));
                    };
                }
                Ok(())
            },
            // 8xy1: VF = 0, then Vx |= Vy
            (8, _, _, 1) => {
                self.v_reg.set(15, 0);
                let vx = self.v_reg[x];
                let vy = self.v_reg[y];
                self.v_reg.set(x, vx | vy);
                proof {
                    let v1 = m0.v.update(15, 0u8);
                    assert(step_spec(m0, op, 0u8) == Ok::<MachineView, Fault>(self@)) by {
                        assert(self@ =~= (MachineView {
                            v: v1.update(x as int, v1[x as int] | v1[y as int]),
                            ..m0
                        }));
                    };
                }
                Ok(())
            },
            // 8xy2: VF = 0, then Vx &= Vy
            (8, _, _, 2) => {
                self.v_reg.set(15, 0);
                let vx = self.v_reg[x];
                let vy = self.v_reg[y];
                self.v_reg.set(x, vx & vy);
                proof {
                    let v1 = m0.v.update(15, 0u8);
                    assert(step_spec(m0, op, 0u8) == Ok::<MachineView, Fault>(self@)) by {
                        assert(self@ =~= (MachineView {
                            v: v1.update(x as int, v1[x as int] & v1[y as int]),
                            ..m0
                        }));
                    };
                }
                Ok(())
            },
            // 8xy3: VF = 0, then Vx ^= Vy
            (8, _, _, 3) => {
                self.v_reg.set(15, 0);
                let vx = self.v_reg[x];
                let vy = self.v_reg[y];
                self.v_reg.set(x, vx ^ vy);
                proof {
                    let v1 = m0.v.update(15, 0u8);
                    assert(step_spec(m0, op, 0u8) == Ok::<MachineView, Fault>(self@)) by {
                        assert(self@ =~= (MachineView {
                            v: v1.update(x as int, v1[x as int] ^ v1[y as int]),
                            ..m0
                        }));
                    };
                }
                Ok(())
            },
            // 8xy4: Vx += Vy; VF = 1 on carry out of 8 bits, else 0
            (8, _, _, 4) => {
                let vx = self.v_reg[x];
                let vy = self.v_reg[y];
                let sum = vx.wrapping_add(vy);
                let carry: u8 = if (vx as u16) + (vy as u16) > 0xFF {
                    1
                } else {
                    0
                };
                self.v_reg.set(x, sum);
                self.v_reg.set(15, carry);
                proof {
                    assert(step_spec(m0, op, 0u8) == Ok::<MachineView, Fault>(self@)) by {
                        assert(self@ =~= (MachineView {
                            v: m0.v.update(
                                x as int,
                                u8_specs::wrapping_add(m0.v[x as int], m0.v[y as int]),
                            ).update(15, if m0.v[x as int] + m0.v[y as int] > 0xFF {
                                1u8
                            } else {
                                0u8
                            }),
                            ..m0
                        }));
                    };
                }
                Ok(())
            },
            // 8xy5: Vx -= Vy; VF = 0 on borrow, else 1
            (8, _, _, 5) => {
                let vx = self.v_reg[x];
                let vy = self.v_reg[y];
                let diff = vx.wrapping_sub(vy);
                let no_borrow: u8 = if vx < vy {
                    0
                } else {
                    1
                };
                self.v_reg.set(x, diff);
                self.v_reg.set(15, no_borrow);
                proof {
                    assert(step_spec(m0, op, 0u8) == Ok::<MachineView, Fault>(self@)) by {
                        assert(self@ =~= (MachineView {
                            v: m0.v.update(
                                x as int,
                                u8_specs::wrapping_sub(m0.v[x as int], m0.v[y as int]),
                            ).update(15, if m0.v[x as int] < m0.v[y as int] {
                                0u8
                            } else {
                                1u8
                            }),
                            ..m0
                        }));
                    };
                }
                Ok(())
            },
            // 8xy6: VF = low bit of the old Vx; Vx = Vy >> 1
            (8, _, _, 6) => {
                let lsb = self.v_reg[x] & 1;
                let vy = self.v_reg[y];
                self.v_reg.set(x, vy >> 1u8);
                self.v_reg.set(15, lsb);
                proof {
                    assert(step_spec(m0, op, 0u8) == Ok::<MachineView, Fault>(self@)) by {
                        assert(self@ =~= (MachineView {
                            v: m0.v.update(x as int, m0.v[y as int] >> 1u8).update(
                                15,
                                m0.v[x as int] & 1,
                            ),
                            ..m0
                        }));
                    };
                }
                Ok(())
            },
            // 8xy7: Vx = Vy - Vx; VF = 0 on borrow, else 1
            (8, _, _, 7) => {
                let vx = self.v_reg[x];
                let vy = self.v_reg[y];
                let diff = vy.wrapping_sub(vx);
                let no_borrow: u8 = if vy < vx {
                    0
                } else {
                    1
                };
                self.v_reg.set(x, diff);
                self.v_reg.set(15, no_borrow);
                proof {
                    assert(step_spec(m0, op, 0u8) == Ok::<MachineView, Fault>(self@)) by {
                        assert(self@ =~= (MachineView {
                            v: m0.v.update(
                                x as int,
                                u8_specs::wrapping_sub(m0.v[y as int], m0.v[x as int]),
                            ).update(15, if m0.v[y as int] < m0.v[x as int] {
                                0u8
                            } else {
                                1u8
                            }),
                            ..m0
                        }));
                    };
                }
                Ok(())
            },
            // 8xyE: VF = high bit of Vy; Vx = Vy << 1
            (8, _, _, 0xE) => {
                let vy = self.v_reg[y];
                let msb = (vy >> 7u8) & 1;
                self.v_reg.set(x, vy << 1u8);
                self.v_reg.set(15, msb);
                proof {
                    assert(step_spec(m0, op, 0u8) == Ok::<MachineView, Fault>(self@)) by {
                        assert(self@ =~= (MachineView {
                            v: m0.v.update(x as int, m0.v[y as int] << 1u8).update(
                                15,
                                (m0.v[y as int] >> 7u8) & 1,
                            ),
                            ..m0
                        }));
                    };
                }
                Ok(())
            },
            // 9xy0: skip if Vx != Vy
            (9, _, _, 0) => {
                if self.v_reg[x] != self.v_reg[y] {
                    self.pc = self.pc.wrapping_add(2);
                }
                proof {
                    assert(step_spec(m0, op, 0u8) == Ok::<MachineView, Fault>(self@)) by {
                        if m0.v[x as int] != m0.v[y as int] {
                            assert(self@ =~= skip2(m0));
                        } else {
                            assert(self@ =~= m0);
                        }
                    };
                }
                Ok(())
            },
            // Annn: I = nnn
            (0xA, _, _, _) => {
                self.i_reg = nnn;
                proof {
                    assert(step_spec(m0, op, 0u8) == Ok::<MachineView, Fault>(self@)) by {
                        assert(self@ =~= (MachineView { i: addr12(op), ..m0 }));
                    };
                }
                Ok(())
            },
            // Bnnn: jump to V0 + nnn
            (0xB, _, _, _) => {
                self.pc = (self.v_reg[0] as u16) + nnn;
                proof {
                    assert(step_spec(m0, op, 0u8) == Ok::<MachineView, Fault>(self@)) by {
                        assert(self@ =~= (MachineView { pc: (m0.v[0] + addr12(op)) as u16, ..m0 }));
                    };
                }
                Ok(())
            },
            // Cxnn: Vx = random byte AND nn
            (0xC, _, _, _) => {
                let r = random_byte();
                self.v_reg.set(x, r & nn);
                proof {
                    assert(step_spec(m0, op, r) == Ok::<MachineView, Fault>(self@)) by {
                        assert(self@ =~= (MachineView {
                            v: m0.v.update(x as int, r & imm8(op)),
                            ..m0
                        }));
                    };
                }
                Ok(())
            },
            // Dxyn: draw an n-row sprite from memory at I
            (0xD, _, _, _) => {
                let x0 = (self.v_reg[x] as usize) % SCREEN_WIDTH;
                let y0 = (self.v_reg[y] as usize) % SCREEN_HEIGHT;
                let rows = d4 as usize;
                if rows > 0 && self.i_reg as usize + rows > RAM_SIZE {
                    proof {
                        assert(forall|rnd: u8|
                            step_spec(m0, op, rnd) == Err::<MachineView, Fault>(
                                Fault::MemoryOutOfBounds,
                            ));
                    }
                    return Err(Fault::MemoryOutOfBounds);
                }
                let flipped = self.draw_sprite(x0, y0, rows);
                self.v_reg.set(
                    15,
                    if flipped {
                        1
                    } else {
                        0
                    },
                );
                self.draw_completed = false;
                proof {
                    let ghost k = 8 * nib4(op);
                    let ghost scr2 = draw_screen(
                        m0.screen,
                        m0.ram,
                        m0.i as int,
                        x0 as int,
                        y0 as int,
                        k,
                    );
                    let ghost vf: u8 = if draw_flipped(
                        m0.screen,
                        m0.ram,
                        m0.i as int,
                        x0 as int,
                        y0 as int,
                        k,
                    ) {
                        1u8
                    } else {
                        0u8
                    };
                    assert(step_spec(m0, op, 0u8) == Ok::<MachineView, Fault>(self@)) by {
                        assert(self@ =~= (MachineView {
                            screen: scr2,
                            v: m0.v.update(15, vf),
                            draw_completed: false,
                            ..m0
                        }));
                    };
                }
                Ok(())
            },
            // Ex9E: skip if key[Vx] is down
            (0xE, _, 9, 0xE) => {
                let vx = self.v_reg[x];
                if vx as usize >= NUM_KEYS {
                    proof {
                        assert(forall|rnd: u8|
                            step_spec(m0, op, rnd) == Err::<MachineView, Fault>(
                                Fault::KeyOutOfRange,
                            ));
                    }
                    return Err(Fault::KeyOutOfRange);
                }
                if self.keys[vx as usize] {
                    self.pc = self.pc.wrapping_add(2);
                }
                proof {
                    assert(step_spec(m0, op, 0u8) == Ok::<MachineView, Fault>(self@)) by {
                        if m0.keys[m0.v[x as int] as int] {
                            assert(self@ =~= skip2(m0));
                        } else {
                            assert(self@ =~= m0);
                        }
                    };
                }
                Ok(())
            },
            // ExA1: skip if key[Vx] is up
            (0xE, _, 0xA, 1) => {
                let vx = self.v_reg[x];
                if vx as usize >= NUM_KEYS {
                    proof {
                        assert(forall|rnd: u8|
                            step_spec(m0, op, rnd) == Err::<MachineView, Fault>(
                                Fault::KeyOutOfRange,
                            ));
                    }
                    return Err(Fault::KeyOutOfRange);
                }
                if !self.keys[vx as usize] {
                    self.pc = self.pc.wrapping_add(2);
                }
                proof {
                    assert(step_spec(m0, op, 0u8) == Ok::<MachineView, Fault>(self@)) by {
                        if !m0.keys[m0.v[x as int] as int] {
                            assert(self@ =~= skip2(m0));
                        } else {
                            assert(self@ =~= m0);
                        }
                    };
                }
                Ok(())
            },
            // Fx07: Vx = delay timer
            (0xF, _, 0, 7) => {
                let dt = self.dt;
                self.v_reg.set(x, dt);
                proof {
                    assert(step_spec(m0, op, 0u8) == Ok::<MachineView, Fault>(self@)) by {
                        assert(self@ =~= (MachineView { v: m0.v.update(x as int, m0.dt), ..m0 }));
                    };
                }
                Ok(())
            },
            // Fx0A: wait for a key; latch on the lowest pressed key, or
            // rewind the program counter to retry this instruction
            (0xF, _, 0, 0xA) => {
                let mut found: Option<u8> = None;
                let mut ki: usize = 0;
                while ki < NUM_KEYS
                    invariant
                        ki <= NUM_KEYS,
                        view_wf(m0),
                        self@ == m0,
                        match found {
                            None => first_key(m0.keys) == first_key_from(m0.keys, ki as int),
                            Some(k) => k < NUM_KEYS && first_key(m0.keys) == Some(k),
                        },
                    decreases NUM_KEYS - ki,
                {
                    if found.is_none() && self.keys[ki] {
                        found = Some(ki as u8);
                    }
                    ki += 1;
                }
                match found {
                    Some(k) => {
                        self.v_reg.set(x, k);
                        self.waiting_for_key_release = Some(k);
                        proof {
                            assert(step_spec(m0, op, 0u8) == Ok::<MachineView, Fault>(self@)) by {
                                assert(self@ =~= (MachineView {
                                    v: m0.v.update(x as int, k),
                                    waiting: Some(k),
                                    ..m0
                                }));
                            };
                        }
                    },
                    None => {
                        self.pc = self.pc.wrapping_sub(2);
                        proof {
                            assert(step_spec(m0, op, 0u8) == Ok::<MachineView, Fault>(self@)) by {
                                assert(self@ =~= (MachineView {
                                    pc: u16_specs::wrapping_sub(m0.pc, 2),
                                    ..m0
                                }));
                            };
                        }
                    },
                }
                Ok(())
            },
            // Fx15: delay timer = Vx
            (0xF, _, 1, 5) => {
                self.dt = self.v_reg[x];
                proof {
                    assert(step_spec(m0, op, 0u8) == Ok::<MachineView, Fault>(self@)) by {
                        assert(self@ =~= (MachineView { dt: m0.v[x as int], ..m0 }));
                    };
                }
                Ok(())
            },
            // Fx18: sound timer = Vx
            (0xF, _, 1, 8) => {
                self.st = self.v_reg[x];
                proof {
                    assert(step_spec(m0, op, 0u8) == Ok::<MachineView, Fault>(self@)) by {
                        assert(self@ =~= (MachineView { st: m0.v[x as int], ..m0 }));
                    };
                }
                Ok(())
            },
            // Fx1E: I += Vx, wrapping at 16 bits
            (0xF, _, 1, 0xE) => {
                let vx = self.v_reg[x];
                self.i_reg = self.i_reg.wrapping_add(vx as u16);
                proof {
                    assert(step_spec(m0, op, 0u8) == Ok::<MachineView, Fault>(self@)) by {
                        assert(self@ =~= (MachineView {
                            i: u16_specs::wrapping_add(m0.i, m0.v[x as int] as u16),
                            ..m0
                        }));
                    };
                }
                Ok(())
            },
            // Fx29: I = address of the built-in glyph for digit Vx
            (0xF, _, 2, 9) => {
                let vx = self.v_reg[x];
                self.i_reg = (vx as u16) * 5;
                proof {
                    assert(step_spec(m0, op, 0u8) == Ok::<MachineView, Fault>(self@)) by {
                        assert(self@ =~= (MachineView { i: (m0.v[x as int] * 5) as u16, ..m0 }));
                    };
                }
                Ok(())
            },
            // Fx33: the three decimal digits of Vx into memory at I
            (0xF, _, 3, 3) => {
                if self.i_reg as usize + 2 >= RAM_SIZE {
                    proof {
                        assert(forall|rnd: u8|
                            step_spec(m0, op, rnd) == Err::<MachineView, Fault>(
                                Fault::MemoryOutOfBounds,
                            ));
                    }
                    return Err(Fault::MemoryOutOfBounds);
                }
                let vx = self.v_reg[x];
                let base = self.i_reg as usize;
                self.ram.set(base, vx / 100);
                self.ram.set(base + 1, (vx % 100) / 10);
                self.ram.set(base + 2, vx % 10);
                proof {
                    assert(step_spec(m0, op, 0u8) == Ok::<MachineView, Fault>(self@)) by {
                        assert(self@ =~= (MachineView {
                            ram: m0.ram.update(m0.i as int, (m0.v[x as int] / 100) as u8).update(
                                m0.i as int + 1,
                                ((m0.v[x as int] % 100) / 10) as u8,
                            ).update(m0.i as int + 2, (m0.v[x as int] % 10) as u8),
                            ..m0
                        }));
                    };
                }
                Ok(())
            },
            // Fx55: store V0..Vx into memory at I; I += x + 1
            (0xF, _, 5, 5) => {
                if self.i_reg as usize + x >= RAM_SIZE {
                    proof {
                        assert(forall|rnd: u8|
                            step_spec(m0, op, rnd) == Err::<MachineView, Fault>(
                                Fault::MemoryOutOfBounds,
                            ));
                    }
                    return Err(Fault::MemoryOutOfBounds);
                }
                let base = self.i_reg as usize;
                let mut idx: usize = 0;
                while idx <= x
                    invariant
                        idx <= x + 1,
                        x < NUM_REGS,
                        view_wf(m0),
                        base == m0.i as int,
                        base + x < RAM_SIZE,
                        self@ == (MachineView { ram: self@.ram, ..m0 }),
                        self@.ram.len() == RAM_SIZE,
                        forall|a: int|
                            0 <= a < RAM_SIZE ==> self@.ram[a] == (if base <= a < base + idx {
                                m0.v[a - base]
                            } else {
                                m0.ram[a]
                            }),
                    decreases x + 1 - idx,
                {
                    let vv = self.v_reg[idx];
                    self.ram.set(base + idx, vv);
                    idx += 1;
                }
                self.i_reg = self.i_reg + (x as u16) + 1;
                proof {
                    let ghost xg = nib2(op);
                    assert(step_spec(m0, op, 0u8) == Ok::<MachineView, Fault>(self@)) by {
                        assert(self@.ram =~= Seq::new(
                            m0.ram.len(),
                            |a: int|
                                if m0.i <= a <= m0.i + xg {
                                    m0.v[a - m0.i]
                                } else {
                                    m0.ram[a]
                                },
                        ));
                        assert(self@ =~= (MachineView {
                            ram: Seq::new(
                                m0.ram.len(),
                                |a: int|
                                    if m0.i <= a <= m0.i + xg {
                                        m0.v[a - m0.i]
                                    } else {
                                        m0.ram[a]
                                    },
                            ),
                            i: (m0.i + xg + 1) as u16,
                            ..m0
                        }));
                    };
                }
                Ok(())
            },
            // Fx65: load memory at I into V0..Vx; I += x + 1
            (0xF, _, 6, 5) => {
                if self.i_reg as usize + x >= RAM_SIZE {
                    proof {
                        assert(forall|rnd: u8|
                            step_spec(m0, op, rnd) == Err::<MachineView, Fault>(
                                Fault::MemoryOutOfBounds,
                            ));
                    }
                    return Err(Fault::MemoryOutOfBounds);
                }
                let base = self.i_reg as usize;
                let mut idx: usize = 0;
                while idx <= x
                    invariant
                        idx <= x + 1,
                        x < NUM_REGS,
                        view_wf(m0),
                        base == m0.i as int,
                        base + x < RAM_SIZE,
                        self@ == (MachineView { v: self@.v, ..m0 }),
                        self@.v.len() == NUM_REGS,
                        forall|rr: int|
                            0 <= rr < NUM_REGS ==> self@.v[rr] == (if 0 <= rr < idx {
                                m0.ram[m0.i + rr]
                            } else {
                                m0.v[rr]
                            }),
                    decreases x + 1 - idx,
                {
                    let b = self.ram[base + idx];
                    self.v_reg.set(idx, b);
                    idx += 1;
                }
                self.i_reg = self.i_reg + (x as u16) + 1;
                proof {
                    let ghost xg = nib2(op);
                    assert(step_spec(m0, op, 0u8) == Ok::<MachineView, Fault>(self@)) by {
                        assert(self@.v =~= Seq::new(
                            m0.v.len(),
                            |rr: int|
                                if 0 <= rr <= xg {
                                    m0.ram[m0.i + rr]
                                } else {
                                    m0.v[rr]
                                },
                        ));
                        assert(self@ =~= (MachineView {
                            v: Seq::new(
                                m0.v.len(),
                                |rr: int|
                                    if 0 <= rr <= xg {
                                        m0.ram[m0.i + rr]
                                    } else {
                                        m0.v[rr]
                                    },
                            ),
                            i: (m0.i + xg + 1) as u16,
                            ..m0
                        }));
                    };
                }
                Ok(())
            },
            // anything else: a fatal, unrecognized instruction word
            (_, _, _, _) => {
                proof {
                    assert(forall|rnd: u8|
                        step_spec(m0, op, rnd) == Err::<MachineView, Fault>(
                            Fault::UnknownOpcode(op),
                        ));
                }
                Err(Fault::UnknownOpcode(op))
            },
        }
    }

    /// Fetch the two bytes at the program counter as one big-endian word and
    /// advance the counter past them.
    fn fetch(&mut self) -> (r: Result<u16, Fault>)
        requires
            old(self).wf(),
        ensures
            final(self).wf(),
            match r {
                Ok(op) => old(self)@.pc + 1 < RAM_SIZE && op == word_at(old(self)@)
                    && final(self)@ == (MachineView {
                    pc: (old(self)@.pc + 2) as u16,
                    ..old(self)@
                }),
                Err(f) => f == Fault::MemoryOutOfBounds && old(self)@.pc + 1 >= RAM_SIZE
                    && final(self)@ == old(self)@,
            },
    {
        let pc = self.pc as usize;
        if pc + 1 >= RAM_SIZE {
            return Err(Fault::MemoryOutOfBounds);
        }
        let hi = self.ram[pc];
        let lo = self.ram[pc + 1];
        let op = (hi as u16) * 0x100 + (lo as u16);
        self.pc = self.pc + 2;
        proof {
            assert(self@ =~= (MachineView { pc: (old(self)@.pc + 2) as u16, ..old(self)@ }));
        }
        Ok(op)
    }

    /// Advance the machine by exactly one instruction, or do nothing while
    /// the key-wait latch is set.  On success the new state is `tick_spec`
    /// of the old one for some random byte; a fault leaves the machine
    /// exactly as it was, and `tick_spec` reports that fault whatever the
    /// random byte.
    pub fn tick(&mut self) -> (r: Result<(), Fault>)
        requires
            old(self).wf(),
        ensures
            final(self).wf(),
            match r {
                Ok(()) => exists|rnd: u8|
                    #[trigger] tick_spec(old(self)@, rnd) == Ok::<MachineView, Fault>(final(self)@),
                Err(f) => final(self)@ == old(self)@ && forall|rnd: u8|
                    #[trigger] tick_spec(old(self)@, rnd) == Err::<MachineView, Fault>(f),
            },
    {
        if self.waiting_for_key_release.is_some() {
            proof {
                assert(tick_spec(self@, 0u8) == Ok::<MachineView, Fault>(self@));
            }
            return Ok(());
        }
        let ghost m0 = self@;
        let op = match self.fetch() {
            Ok(op) => op,
            Err(f) => {
                proof {
                    assert(forall|rnd: u8|
                        tick_spec(m0, rnd) == Err::<MachineView, Fault>(
                            Fault::MemoryOutOfBounds,
                        ));
                }
                return Err(f);
            },
        };
        let ghost m1 = self@;
        let res = self.execute(op);
        match res {
            Ok(()) => {
                proof {
                    let rnd = choose|rnd: u8|
                        #[trigger] step_spec(m1, op, rnd) == Ok::<MachineView, Fault>(self@);
                    assert(tick_spec(m0, rnd) == Ok::<MachineView, Fault>(self@));
                }
                Ok(())
            },
            Err(f) => {
                self.pc = self.pc.wrapping_sub(2);
                proof {
                    assert(self@ =~= m0);
                    assert forall|rnd: u8| #[trigger] tick_spec(m0, rnd) == Err::<
                        MachineView,
                        Fault,
                    >(f) by {
                        assert(step_spec(m1, op, rnd) == Err::<MachineView, Fault>(f));
                    }
                }
                Err(f)
            },
        }
    }

    /// True while the sound timer is positive: the audio collaborator keeps
    /// its tone playing exactly while this holds.
    pub fn sound_active(&self) -> (r: bool)
        ensures
            r == (self@.st > 0),
    {
        self.st > 0
    }
}

/// Relies on rand::random: one uniformly drawn byte.  Nothing is assumed
/// about its value; callers state what holds whatever comes back.
#[verifier::external_body]
fn random_byte() -> u8 {
    rand::random()
}

/// The font rows as bytes, equal to the spec-level font sequence.
fn font_data() -> (v: Vec<u8>)
    ensures
        v@ == font_seq(),
{
    let v: Vec<u8> = vec![
        0xF0u8, 0x90, 0x90, 0x90, 0xF0,
        0x20, 0x60, 0x20, 0x20, 0x70,
        0xF0, 0x10, 0xF0, 0x80, 0xF0,
        0xF0, 0x10, 0xF0, 0x10, 0xF0,
        0x90, 0x90, 0xF0, 0x10, 0x10,
        0xF0, 0x80, 0xF0, 0x10, 0xF0,
        0xF0, 0x80, 0xF0, 0x90, 0xF0,
        0xF0, 0x10, 0x20, 0x40, 0x40,
        0xF0, 0x90, 0xF0, 0x90, 0xF0,
        0xF0, 0x90, 0xF0, 0x10, 0xF0,
        0xF0, 0x90, 0xF0, 0x90, 0x90,
        0xE0, 0x90, 0xE0, 0x90, 0xE0,
        0xF0, 0x80, 0x80, 0x80, 0xF0,
        0xE0, 0x90, 0x90, 0x90, 0xE0,
        0xF0, 0x80, 0xF0, 0x80, 0xF0,
        0xF0, 0x80, 0xF0, 0x80, 0x80,
    ];
    proof {
        assert(v@ =~= font_seq());
    }
    v
}

} // verus!
