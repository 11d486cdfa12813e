//! The logic of the stand-alone demonstration program: three tasks with
//! statically allocated stacks, switched in turn on every SysTick.
use vstd::prelude::*;

verus! {

/// Number of tasks of the demonstration program.
pub const TASKS: usize = 3;

/// Size, in words, of each task's stack.
pub const TCB_STACK_SIZE: usize = 300;

/// Time slice in microseconds.
pub const QUANTA_US: u32 = 100 * 1_000;

/// Frequency of the bus that drives SysTick.
pub const BUS_FREQ: u32 = 16 * 1_000_000;

/// Microseconds in a second.
pub const US_SCALER: u32 = 1_000_000;

/// The system calls of the demonstration program.
#[derive(Clone, Copy, Debug, PartialEq, Eq, Structural)]
pub enum Syscalls {
    /// `svc #0`: give up the rest of the time slice.
    Sleep,
    /// Any other operand.
    Unknown,
}

/// The system call an `svc` operand stands for.
pub open spec fn decode_syscall(v: u8) -> Syscalls {
    if v == 0 {
        Syscalls::Sleep
    } else {
        Syscalls::Unknown
    }
}

impl Syscalls {
    /// The code of the system call.
    pub fn val(&self) -> (v: u8)
        ensures
            v == (match *self {
                Syscalls::Sleep => 0u8,
                Syscalls::Unknown => 1u8,
            }),
    {
        match self {
            Syscalls::Sleep => 0,
            Syscalls::Unknown => 1,
        }
    }
}

impl From<u8> for Syscalls {
    fn from(val: u8) -> (s: Self) {
        match val {
            0 => Syscalls::Sleep,
            _ => Syscalls::Unknown,
        }
    }
}

impl vstd::std_specs::convert::FromSpecImpl<u8> for Syscalls {
    open spec fn obeys_from_spec() -> bool {
        true
    }

    open spec fn from_spec(v: u8) -> Self {
        decode_syscall(v)
    }
}

/// The SysTick reload register value of the demonstration program: the
/// calibrated counts in 10 ms where the hardware reports them, else the
/// time slice times the counts in a microsecond; minus one.
pub fn reset_timer(calibrated_ticks: u32) -> (reload: u32)
    ensures
        reload == (if calibrated_ticks == 0 {
            QUANTA_US * (BUS_FREQ / US_SCALER)
        } else {
            calibrated_ticks as int
        }) - 1,
{
    let reload = match calibrated_ticks {
        0 => QUANTA_US * (BUS_FREQ / US_SCALER),
        x => x,
    };
    reload - 1
}

/// The task switched to after task `current`: the next in table order,
/// wrapping around.
pub fn next_tcb_index(current: usize) -> (next: usize)
    requires
        current < TASKS,
    ensures
        next == (current + 1) % (TASKS as int),
        next < TASKS,
{
    (current + 1) % TASKS
}

/// The system call handler of the demonstration program: for `Sleep`,
/// the timer reload with which the timer is restarted before the context
/// switch; `None` for any other call, which is ignored.
pub fn sv_call_handler(code: u8, calibrated_ticks: u32) -> (r: Option<u32>)
    ensures
        decode_syscall(code) == Syscalls::Sleep ==> r == Some(
            ((if calibrated_ticks == 0 {
                QUANTA_US * (BUS_FREQ / US_SCALER)
            } else {
                calibrated_ticks as int
            }) - 1) as u32,
        ),
        decode_syscall(code) == Syscalls::Unknown ==> r.is_none(),
{
    let syscall_code = Syscalls::from(code);
    match syscall_code {
        Syscalls::Sleep => Some(reset_timer(calibrated_ticks)),
        Syscalls::Unknown => None,
    }
}

/// Word index in a task's stack of its initial saved stack pointer.
pub const INITIAL_SP_WORD: usize = TCB_STACK_SIZE - 18;

/// The words of a task's initial stack, as (word index, value): xPSR with
/// the Thumb bit, the entry point `fn_addr` as PC, CONTROL for an
/// unprivileged task on the process stack without FP context, and
/// EXC_RETURN to thread mode on the process stack.
pub fn initial_stack_words(fn_addr: u32) -> (words: [(usize, u32); 4])
    ensures
        words@ == seq![
            ((TCB_STACK_SIZE - 1) as usize, 0x0100_0000u32),
            ((TCB_STACK_SIZE - 2) as usize, fn_addr),
            ((TCB_STACK_SIZE - 17) as usize, 0x3u32),
            ((TCB_STACK_SIZE - 18) as usize, 0xFFFF_FFFDu32),
        ],
{
    let words = [
        (TCB_STACK_SIZE - 1, 0x0100_0000),
        (TCB_STACK_SIZE - 2, fn_addr),
        (TCB_STACK_SIZE - 17, 0x3),
        (TCB_STACK_SIZE - 18, 0xFFFF_FFFD),
    ];
    proof {
        assert(words@ =~= seq![words[0], words[1], words[2], words[3]]);
    }
    words
}

/// The task that runs first in the demonstration program.
pub const FIRST_TASK: usize = 1;

} // verus!
