//! A verified core for a CHIP-8 style virtual machine: 4096 bytes of memory,
//! sixteen 8-bit registers, a 16-entry call stack, a 64x32 monochrome
//! framebuffer, a 16-key input matrix and two countdown timers.
//!
//! The host (window, audio and input handling) drives the core through the
//! public surface of [`machine::Emulator`]: load a program, deliver key
//! events, advance one instruction at a time, decrement the timers, and read
//! the framebuffer and sound-timer state back out.

pub mod laws;
pub mod machine;
pub mod semantics;

pub use machine::Emulator;
pub use semantics::Fault;
pub use semantics::MachineView;
pub use semantics::SCREEN_HEIGHT;
pub use semantics::SCREEN_WIDTH;
