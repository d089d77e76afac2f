//! The instruction-set semantics: a mathematical view of the machine state
//! and spec-level transition functions for the fetch/decode/execute cycle.
//!
//! Every executable operation on [`crate::machine::Emulator`] is specified
//! against these definitions, and the laws in [`crate::laws`] are proved
//! from them alone.

use vstd::prelude::*;
use vstd::wrapping::u16_specs;
use vstd::wrapping::u8_specs;

verus! {

pub const SCREEN_WIDTH: usize = 64;

pub const SCREEN_HEIGHT: usize = 32;

pub const RAM_SIZE: usize = 4096;

pub const NUM_REGS: usize = 16;

pub const STACK_SIZE: usize = 16;

pub const NUM_KEYS: usize = 16;

pub const START_ADDR: u16 = 0x200;

pub const FONT_BYTES: usize = 80;

pub const MAX_ROM_BYTES: usize = 3584;

/// A fatal condition: the machine is not expected to continue after one of
/// these is reported.
#[derive(Clone, Copy, Debug, PartialEq, Eq, Structural)]
pub enum Fault {
    /// The fetched instruction word matches none of the recognized forms.
    UnknownOpcode(u16),
    /// An instruction addressed memory at or beyond the 4096-byte space.
    MemoryOutOfBounds,
    /// A subroutine call arrived with all 16 stack slots in use.
    StackOverflow,
    /// A subroutine return arrived with an empty call stack.
    StackUnderflow,
    /// A key test took its key index from a register holding 16 or more.
    KeyOutOfRange,
}

/// The machine state as mathematical values: sequences for the fixed-size
/// arrays, plain integers and booleans for the rest.
#[verifier::ext_equal]
pub ghost struct MachineView {
    /// Program counter.
    pub pc: u16,
    /// The 4096 bytes of memory.
    pub ram: Seq<u8>,
    /// The 64x32 framebuffer, row-major.
    pub screen: Seq<bool>,
    /// The sixteen general registers V0..VF.
    pub v: Seq<u8>,
    /// The index register I.
    pub i: u16,
    /// The sixteen call-stack slots.
    pub stack: Seq<u16>,
    /// The stack pointer: number of slots in use.
    pub sp: u16,
    /// The sixteen key flags.
    pub keys: Seq<bool>,
    /// Delay timer.
    pub dt: u8,
    /// Sound timer.
    pub st: u8,
    /// Set false by a sprite draw; set true by the external renderer.
    pub draw_completed: bool,
    /// The key-wait latch: `Some(k)` while execution is suspended until
    /// key `k` is released.
    pub waiting: Option<u8>,
}

/// Well-formedness: the fixed sizes of the machine's arrays, the stack
/// pointer within capacity, and a latched key index naming a real key.
pub open spec fn view_wf(m: MachineView) -> bool {
    &&& m.ram.len() == RAM_SIZE
    &&& m.screen.len() == SCREEN_WIDTH * SCREEN_HEIGHT
    &&& m.v.len() == NUM_REGS
    &&& m.stack.len() == STACK_SIZE
    &&& m.sp <= STACK_SIZE
    &&& m.keys.len() == NUM_KEYS
    &&& (m.waiting matches Some(k) ==> k < NUM_KEYS)
}

/// Highest nibble of an instruction word.
pub open spec fn nib1(op: u16) -> int {
    op as int / 0x1000
}

/// Second nibble (the register index usually called x).
pub open spec fn nib2(op: u16) -> int {
    (op as int / 0x100) % 0x10
}

/// Third nibble (the register index usually called y).
pub open spec fn nib3(op: u16) -> int {
    (op as int / 0x10) % 0x10
}

/// Lowest nibble.
pub open spec fn nib4(op: u16) -> int {
    op as int % 0x10
}

/// Low byte of an instruction word.
pub open spec fn imm8(op: u16) -> u8 {
    (op as int % 0x100) as u8
}

/// Low 12 bits of an instruction word.
pub open spec fn addr12(op: u16) -> u16 {
    (op as int % 0x1000) as u16
}

/// The instruction word stored big-endian at the program counter.
pub open spec fn word_at(m: MachineView) -> u16 {
    (m.ram[m.pc as int] as int * 0x100 + m.ram[m.pc as int + 1] as int) as u16
}

/// The machine with the next instruction skipped.
pub open spec fn skip2(m: MachineView) -> MachineView {
    MachineView { pc: u16_specs::wrapping_add(m.pc, 2), ..m }
}

/// One external timer tick on a single timer: down by one, floored at zero.
pub open spec fn dec_timer(t: u8) -> u8 {
    if t > 0 {
        (t - 1) as u8
    } else {
        0
    }
}

/// Is bit `b` (0 = leftmost) of sprite byte `p` set?
pub open spec fn sprite_bit(p: u8, b: int) -> bool
    recommends
        0 <= b < 8,
{
    p & (0x80u8 >> (b as u8)) != 0
}

/// Does the sprite at `(x0, y0)`, `8 * lines + bits < k` of it drawn so far,
/// toggle the framebuffer cell at `(cx, cy)`?  Sprite bits that fall off the
/// right or bottom edge of the screen match no cell within range and so are
/// clipped, not wrapped.
pub open spec fn covers(
    ram: Seq<u8>,
    i: int,
    x0: int,
    y0: int,
    k: int,
    cx: int,
    cy: int,
) -> bool {
    let l = cy - y0;
    let b = cx - x0;
    &&& 0 <= l
    &&& 0 <= b < 8
    &&& 8 * l + b < k
    &&& sprite_bit(ram[i + l], b)
}

/// The framebuffer after the first `k` sprite bits (raster order) have been
/// XOR-composited at `(x0, y0)`.
pub open spec fn draw_screen(
    scr: Seq<bool>,
    ram: Seq<u8>,
    i: int,
    x0: int,
    y0: int,
    k: int,
) -> Seq<bool> {
    Seq::new(
        scr.len(),
        |idx: int| scr[idx] != covers(ram, i, x0, y0, k, idx % 64, idx / 64),
    )
}

/// Did any of the first `k` sprite bits toggle a cell that was set?
pub open spec fn draw_flipped(
    scr: Seq<bool>,
    ram: Seq<u8>,
    i: int,
    x0: int,
    y0: int,
    k: int,
) -> bool {
    exists|cx: int, cy: int|
        0 <= cx < 64 && 0 <= cy < 32 && scr[cx + 64 * cy] && #[trigger] covers(
            ram,
            i,
            x0,
            y0,
            k,
            cx,
            cy,
        )
}

/// The lowest-numbered pressed key at or above index `k`, if any.
pub open spec fn first_key_from(keys: Seq<bool>, k: int) -> Option<u8>
    decreases NUM_KEYS - k,
{
    if k < 0 || k >= NUM_KEYS {
        None
    } else if keys[k] {
        Some(k as u8)
    } else {
        first_key_from(keys, k + 1)
    }
}

/// The lowest-numbered pressed key, if any.
pub open spec fn first_key(keys: Seq<bool>) -> Option<u8> {
    first_key_from(keys, 0)
}

/// The effect of one decoded instruction on machine state `m`, whose program
/// counter has already been advanced past the instruction word `op`.  The
/// byte `rnd` stands for the random draw consumed by the `Cxnn` instruction
/// and is ignored by every other form.  `Err` reports the fatal conditions:
/// an unrecognized word, an out-of-range memory or key access, and stack
/// overflow or underflow.
pub open spec fn step_spec(m: MachineView, op: u16, rnd: u8) -> Result<MachineView, Fault> {
    let d1 = nib1(op);
    let d2 = nib2(op);
    let d3 = nib3(op);
    let d4 = nib4(op);
    let x = nib2(op);
    let y = nib3(op);
    let nn = imm8(op);
    let nnn = addr12(op);
    if d1 == 0 && d2 == 0 && d3 == 0 && d4 == 0 {
        // 0000: no operation
        Ok(m)
    } else if d1 == 0 && d2 == 0 && d3 == 0xE && d4 == 0 {
        // 00E0: clear the framebuffer
        Ok(MachineView { screen: Seq::new(m.screen.len(), |idx: int| false), ..m })
    } else if d1 == 0 && d2 == 0 && d3 == 0xE && d4 == 0xE {
        // 00EE: return from subroutine
        if m.sp == 0 {
            Err(Fault::StackUnderflow)
        } else {
            Ok(MachineView { pc: m.stack[m.sp - 1], sp: (m.sp - 1) as u16, ..m })
        }
    } else if d1 == 1 {
        // 1nnn: jump
        Ok(MachineView { pc: nnn, ..m })
    } else if d1 == 2 {
        // 2nnn: call subroutine
        if m.sp >= STACK_SIZE {
            Err(Fault::StackOverflow)
        } else {
            Ok(
                MachineView {
                    stack: m.stack.update(m.sp as int, m.pc),
                    sp: (m.sp + 1) as u16,
                    pc: nnn,
                    ..m
                },
            )
        }
    } else if d1 == 3 {
        // 3xnn: skip if Vx == nn
        Ok(if m.v[x] == nn { skip2(m) } else { m })
    } else if d1 == 4 {
        // 4xnn: skip if Vx != nn
        Ok(if m.v[x] != nn { skip2(m) } else { m })
    } else if d1 == 5 && d4 == 0 {
        // 5xy0: skip if Vx == Vy
        Ok(if m.v[x] == m.v[y] { skip2(m) } else { m })
    } else if d1 == 6 {
        // 6xnn: Vx = nn
        Ok(MachineView { v: m.v.update(x, nn), ..m })
    } else if d1 == 7 {
        // 7xnn: Vx += nn, wrapping, no flag
        Ok(MachineView { v: m.v.update(x, u8_specs::wrapping_add(m.v[x], nn)), ..m })
    } else if d1 == 8 && d4 == 0 {
        // 8xy0: Vx = Vy
        Ok(MachineView { v: m.v.update(x, m.v[y]), ..m })
    } else if d1 == 8 && d4 == 1 {
        // 8xy1: VF = 0, then Vx |= Vy
        let v1 = m.v.update(15, 0u8);
        Ok(MachineView { v: v1.update(x, v1[x] | v1[y]), ..m })
    } else if d1 == 8 && d4 == 2 {
        // 8xy2: VF = 0, then Vx &= Vy
        let v1 = m.v.update(15, 0u8);
        Ok(MachineView { v: v1.update(x, v1[x] & v1[y]), ..m })
    } else if d1 == 8 && d4 == 3 {
        // 8xy3: VF = 0, then Vx ^= Vy
        let v1 = m.v.update(15, 0u8);
        Ok(MachineView { v: v1.update(x, v1[x] ^ v1[y]), ..m })
    } else if d1 == 8 && d4 == 4 {
        // 8xy4: Vx += Vy; VF = 1 on carry out of 8 bits, else 0
        let sum = u8_specs::wrapping_add(m.v[x], m.v[y]);
        let carry: u8 = if m.v[x] + m.v[y] > 0xFF { 1 } else { 0 };
        Ok(MachineView { v: m.v.update(x, sum).update(15, carry), ..m })
    } else if d1 == 8 && d4 == 5 {
        // 8xy5: Vx -= Vy; VF = 0 on borrow, else 1
        let diff = u8_specs::wrapping_sub(m.v[x], m.v[y]);
        let no_borrow: u8 = if m.v[x] < m.v[y] { 0 } else { 1 };
        Ok(MachineView { v: m.v.update(x, diff).update(15, no_borrow), ..m })
    } else if d1 == 8 && d4 == 6 {
        // 8xy6: VF = low bit of the old Vx; Vx = Vy >> 1
        let lsb = m.v[x] & 1;
        Ok(MachineView { v: m.v.update(x, m.v[y] >> 1u8).update(15, lsb), ..m })
    } else if d1 == 8 && d4 == 7 {
        // 8xy7: Vx = Vy - Vx; VF = 0 on borrow, else 1
        let diff = u8_specs::wrapping_sub(m.v[y], m.v[x]);
        let no_borrow: u8 = if m.v[y] < m.v[x] { 0 } else { 1 };
        Ok(MachineView { v: m.v.update(x, diff).update(15, no_borrow), ..m })
    } else if d1 == 8 && d4 == 0xE {
        // 8xyE: VF = high bit of Vy; Vx = Vy << 1
        let msb = (m.v[y] >> 7u8) & 1;
        Ok(MachineView { v: m.v.update(x, m.v[y] << 1u8).update(15, msb), ..m })
    } else if d1 == 9 && d4 == 0 {
        // 9xy0: skip if Vx != Vy
        Ok(if m.v[x] != m.v[y] { skip2(m) } else { m })
    } else if d1 == 0xA {
        // Annn: I = nnn
        Ok(MachineView { i: nnn, ..m })
    } else if d1 == 0xB {
        // Bnnn: jump to V0 + nnn
        Ok(MachineView { pc: (m.v[0] + nnn) as u16, ..m })
    } else if d1 == 0xC {
        // Cxnn: Vx = random byte AND nn
        Ok(MachineView { v: m.v.update(x, rnd & nn), ..m })
    } else if d1 == 0xD {
        // Dxyn: draw an n-row sprite from memory[I..] at (Vx % 64, Vy % 32)
        let x0 = m.v[x] % 64;
        let y0 = m.v[y] % 32;
        if d4 > 0 && m.i + d4 > RAM_SIZE {
            Err(Fault::MemoryOutOfBounds)
        } else {
            let flipped = draw_flipped(m.screen, m.ram, m.i as int, x0 as int, y0 as int, 8 * d4);
            Ok(
                MachineView {
                    screen: draw_screen(m.screen, m.ram, m.i as int, x0 as int, y0 as int, 8 * d4),
                    v: m.v.update(15, if flipped { 1u8 } else { 0u8 }),
                    draw_completed: false,
                    ..m
                },
            )
        }
    } else if d1 == 0xE && d3 == 9 && d4 == 0xE {
        // Ex9E: skip if key[Vx] is down
        if m.v[x] >= NUM_KEYS {
            Err(Fault::KeyOutOfRange)
        } else {
            Ok(if m.keys[m.v[x] as int] { skip2(m) } else { m })
        }
    } else if d1 == 0xE && d3 == 0xA && d4 == 1 {
        // ExA1: skip if key[Vx] is up
        if m.v[x] >= NUM_KEYS {
            Err(Fault::KeyOutOfRange)
        } else {
            Ok(if !m.keys[m.v[x] as int] { skip2(m) } else { m })
        }
    } else if d1 == 0xF && d3 == 0 && d4 == 7 {
        // Fx07: Vx = delay timer
        Ok(MachineView { v: m.v.update(x, m.dt), ..m })
    } else if d1 == 0xF && d3 == 0 && d4 == 0xA {
        // Fx0A: wait for a key; latch on the lowest pressed key, or rewind
        match first_key(m.keys) {
            Some(k) => Ok(MachineView { v: m.v.update(x, k), waiting: Some(k), ..m }),
            None => Ok(MachineView { pc: u16_specs::wrapping_sub(m.pc, 2), ..m }),
        }
    } else if d1 == 0xF && d3 == 1 && d4 == 5 {
        // Fx15: delay timer = Vx
        Ok(MachineView { dt: m.v[x], ..m })
    } else if d1 == 0xF && d3 == 1 && d4 == 8 {
        // Fx18: sound timer = Vx
        Ok(MachineView { st: m.v[x], ..m })
    } else if d1 == 0xF && d3 == 1 && d4 == 0xE {
        // Fx1E: I += Vx, wrapping at 16 bits
        Ok(MachineView { i: u16_specs::wrapping_add(m.i, m.v[x] as u16), ..m })
    } else if d1 == 0xF && d3 == 2 && d4 == 9 {
        // Fx29: I = address of the built-in glyph for digit Vx
        Ok(MachineView { i: (m.v[x] * 5) as u16, ..m })
    } else if d1 == 0xF && d3 == 3 && d4 == 3 {
        // Fx33: binary-coded decimal of Vx into memory[I..I+3)
        if m.i + 2 >= RAM_SIZE {
            Err(Fault::MemoryOutOfBounds)
        } else {
            let vx = m.v[x];
            Ok(
                MachineView {
                    ram: m.ram.update(m.i as int, (vx / 100) as u8).update(
                        m.i as int + 1,
                        ((vx % 100) / 10) as u8,
                    ).update(m.i as int + 2, (vx % 10) as u8),
                    ..m
                },
            )
        }
    } else if d1 == 0xF && d3 == 5 && d4 == 5 {
        // Fx55: store V0..Vx into memory at I; I += x + 1
        if m.i + x >= RAM_SIZE {
            Err(Fault::MemoryOutOfBounds)
        } else {
            Ok(
                MachineView {
                    ram: Seq::new(
                        m.ram.len(),
                        |a: int|
                            if m.i <= a <= m.i + x {
                                m.v[a - m.i]
                            } else {
                                m.ram[a]
                            },
                    ),
                    i: (m.i + x + 1) as u16,
                    ..m
                },
            )
        }
    } else if d1 == 0xF && d3 == 6 && d4 == 5 {
        // Fx65: load memory at I into V0..Vx; I += x + 1
        if m.i + x >= RAM_SIZE {
            Err(Fault::MemoryOutOfBounds)
        } else {
            Ok(
                MachineView {
                    v: Seq::new(
                        m.v.len(),
                        |r: int|
                            if 0 <= r <= x {
                                m.ram[m.i + r]
                            } else {
                                m.v[r]
                            },
                    ),
                    i: (m.i + x + 1) as u16,
                    ..m
                },
            )
        }
    } else {
        Err(Fault::UnknownOpcode(op))
    }
}

/// One call of the single-step operation: a no-op while the key-wait latch
/// is set; otherwise fetch the word at the program counter, advance the
/// counter by two, and execute the word.  Fetching at the last byte of
/// memory (or beyond) is itself an out-of-bounds fault.
pub open spec fn tick_spec(m: MachineView, rnd: u8) -> Result<MachineView, Fault> {
    if m.waiting is Some {
        Ok(m)
    } else if m.pc + 1 >= RAM_SIZE {
        Err(Fault::MemoryOutOfBounds)
    } else {
        step_spec(MachineView { pc: (m.pc + 2) as u16, ..m }, word_at(m), rnd)
    }
}

/// The machine as constructed: font in the low 80 bytes, everything else
/// zeroed, program counter at the conventional start address, and the
/// draw-completed flag set so the driver may step at once.
pub open spec fn initial_state() -> MachineView {
    MachineView {
        pc: START_ADDR,
        ram: Seq::new(RAM_SIZE as nat, |a: int| if a < FONT_BYTES { font_seq()[a] } else { 0u8 }),
        screen: Seq::new((SCREEN_WIDTH * SCREEN_HEIGHT) as nat, |idx: int| false),
        v: Seq::new(NUM_REGS as nat, |r: int| 0u8),
        i: 0,
        stack: Seq::new(STACK_SIZE as nat, |s: int| 0u16),
        sp: 0,
        keys: Seq::new(NUM_KEYS as nat, |k: int| false),
        dt: 0,
        st: 0,
        draw_completed: true,
        waiting: None,
    }
}

/// Memory after a program image has been copied in at the start address.
pub open spec fn load_ram(ram: Seq<u8>, data: Seq<u8>) -> Seq<u8> {
    Seq::new(
        ram.len(),
        |a: int|
            if START_ADDR <= a < START_ADDR + data.len() {
                data[a - START_ADDR]
            } else {
                ram[a]
            },
    )
}

/// The built-in 80-byte glyph font: five bytes of sprite rows for each of
/// the hexadecimal digits 0 through F.
pub open spec fn font_seq() -> Seq<u8> {
    seq![
        0xF0u8, 0x90, 0x90, 0x90, 0xF0,
        0x20, 0x60, 0x20, 0x20, 0x70,
        0xF0, 0x10, 0xF0, 0x80, 0xF0,
        0xF0, 0x10, 0xF0, 0x10, 0xF0,
        0x90, 0x90, 0xF0, 0x10, 0x10,
        0xF0, 0x80, 0xF0, 0x10, 0xF0,
        0xF0, 0x80, 0xF0, 0x90, 0xF0,
        0xF0, 0x10, 0x20, 0x40, 0x40,
        0xF0, 0x90, 0xF0, 0x90, 0xF0,
        0xF0, 0x90, 0xF0, 0x10, 0xF0,
        0xF0, 0x90, 0xF0, 0x90, 0x90,
        0xE0, 0x90, 0xE0, 0x90, 0xE0,
        0xF0, 0x80, 0x80, 0x80, 0xF0,
        0xE0, 0x90, 0x90, 0x90, 0xE0,
        0xF0, 0x80, 0xF0, 0x80, 0xF0,
        0xF0, 0x80, 0xF0, 0x80, 0x80,
    ]
}

/// A pressed key found by the scan names a real key at or after the start
/// of the scan.
pub proof fn lemma_first_key_bound(keys: Seq<bool>, k: int)
    requires
        0 <= k <= NUM_KEYS,
    ensures
        first_key_from(keys, k) matches Some(j) ==> k <= j < NUM_KEYS && keys[j as int],
    decreases NUM_KEYS - k,
{
    if k < NUM_KEYS && !keys[k] {
        lemma_first_key_bound(keys, k + 1);
    }
}

/// Two draw prefixes that toggle exactly the same cells flip a set cell
/// under one iff they do under the other.
pub proof fn lemma_flipped_same(
    scr: Seq<bool>,
    ram: Seq<u8>,
    i: int,
    x0: int,
    y0: int,
    k1: int,
    k2: int,
)
    requires
        forall|cx: int, cy: int|
            #![trigger covers(ram, i, x0, y0, k1, cx, cy)]
            #![trigger covers(ram, i, x0, y0, k2, cx, cy)]
            0 <= cx < 64 && 0 <= cy < 32 ==> (covers(ram, i, x0, y0, k1, cx, cy) == covers(
                ram,
                i,
                x0,
                y0,
                k2,
                cx,
                cy,
            )),
    ensures
        draw_flipped(scr, ram, i, x0, y0, k1) == draw_flipped(scr, ram, i, x0, y0, k2),
{
    if draw_flipped(scr, ram, i, x0, y0, k1) {
        let (cx, cy) = choose|cx: int, cy: int|
            0 <= cx < 64 && 0 <= cy < 32 && scr[cx + 64 * cy] && #[trigger] covers(
                ram,
                i,
                x0,
                y0,
                k1,
                cx,
                cy,
            );
        assert(covers(ram, i, x0, y0, k2, cx, cy));
        assert(draw_flipped(scr, ram, i, x0, y0, k2));
    }
    if draw_flipped(scr, ram, i, x0, y0, k2) {
        let (cx, cy) = choose|cx: int, cy: int|
            0 <= cx < 64 && 0 <= cy < 32 && scr[cx + 64 * cy] && #[trigger] covers(
                ram,
                i,
                x0,
                y0,
                k2,
                cx,
                cy,
            );
        assert(covers(ram, i, x0, y0, k1, cx, cy));
        assert(draw_flipped(scr, ram, i, x0, y0, k1));
    }
}

/// A cell flipped by a draw prefix stays flipped as the prefix grows.
pub proof fn lemma_flipped_mono(
    scr: Seq<bool>,
    ram: Seq<u8>,
    i: int,
    x0: int,
    y0: int,
    k1: int,
    k2: int,
)
    requires
        k1 <= k2,
        draw_flipped(scr, ram, i, x0, y0, k1),
    ensures
        draw_flipped(scr, ram, i, x0, y0, k2),
{
    let (cx, cy) = choose|cx: int, cy: int|
        0 <= cx < 64 && 0 <= cy < 32 && scr[cx + 64 * cy] && #[trigger] covers(
            ram,
            i,
            x0,
            y0,
            k1,
            cx,
            cy,
        );
    assert(covers(ram, i, x0, y0, k2, cx, cy));
    assert(draw_flipped(scr, ram, i, x0, y0, k2));
}

/// A framebuffer cell index splits into a column below 64 and a row below 32.
pub proof fn lemma_cell_decomp(idx: int)
    requires
        0 <= idx < 2048,
    ensures
        idx == (idx % 64) + 64 * (idx / 64),
        0 <= idx % 64 < 64,
        0 <= idx / 64 < 32,
{
    vstd::arithmetic::div_mod::lemma_fundamental_div_mod(idx, 64);
    vstd::arithmetic::div_mod::lemma_mod_bound(idx, 64);
}

/// Column and row below their bounds give back the cell index they came from.
pub proof fn lemma_cell_compose(cx: int, cy: int)
    requires
        0 <= cx < 64,
        0 <= cy < 32,
    ensures
        (cx + 64 * cy) % 64 == cx,
        (cx + 64 * cy) / 64 == cy,
        0 <= cx + 64 * cy < 2048,
{
    vstd::arithmetic::div_mod::lemma_fundamental_div_mod_converse(cx + 64 * cy, 64, cy, cx);
}

} // verus!
