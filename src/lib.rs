//! Core of a dual-CPU handheld-console emulator: the ARM/Thumb interpreter
//! of the ARM9, its memory controller, and the register-window devices that
//! the controller dispatches to.
//!
//! - `psr`, `shifter`: status registers, condition codes, the barrel shifter.
//! - `cpu`: register file, banked registers, mode switching.
//! - `arm`, `thumb`: instruction handlers, each with its state transition.
//! - `interpreter`, `decode_cache`: decoding, exceptions, step and run.
//! - `mem`, `regpage`, `io`, `rsa`: the address map and the devices on it.
//! - `hwcore`, `fs`: the ARM9 memory map, loading, the debugger's handle.
//! - `laws`: properties of whole instruction classes.

pub mod psr;
pub mod shifter;
pub mod regpage;
pub mod rsa;
pub mod io;
pub mod mem;
pub mod cpu;
pub mod arm;
pub mod thumb;
pub mod interpreter;
pub mod decode_cache;
pub mod fs;
pub mod hwcore;
pub mod laws;
