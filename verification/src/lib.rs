//! ChaOS: the scheduling, task set-up, system-call and timer logic of a small
//! preemptive real-time OS for Cortex-M, with its contracts proved.
//! Register access, inline assembly and code generation stand outside this
//! library; they hand it plain values and carry out what it decides.

pub mod task;
pub mod scheduler;
pub mod os;
pub mod systick;
pub mod chaos;
pub mod exceptions;
pub mod syscalls;
pub mod demo;
pub mod macros;
