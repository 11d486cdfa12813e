use vstd::prelude::*;
use crate::os::Os;
use crate::scheduler::{initial_regs, with_state};
use crate::task::TaskState;

verus! {

/// The system calls, by the immediate operand of the `svc` instruction.
#[derive(Clone, Copy, Debug, PartialEq, Eq, Structural)]
pub enum Syscalls {
    /// `svc #0`: program the timer and start the first task.
    Setup,
    /// `svc #1`: give up the rest of the time slice.
    Sleep,
    /// Any other operand: ignored.
    Unknown,
}

/// The code of a system call.
pub open spec fn syscall_code(s: Syscalls) -> u8 {
    match s {
        Syscalls::Setup => 0,
        Syscalls::Sleep => 1,
        Syscalls::Unknown => 2,
    }
}

/// The system call an `svc` operand stands for.
pub open spec fn decode_syscall(v: u8) -> Syscalls {
    if v == 0 {
        Syscalls::Setup
    } else if v == 1 {
        Syscalls::Sleep
    } else {
        Syscalls::Unknown
    }
}

impl Syscalls {
    /// The code of the system call.
    pub fn val(&self) -> (v: u8)
        ensures
            v == syscall_code(*self),
    {
        match self {
            Syscalls::Setup => 0,
            Syscalls::Sleep => 1,
            Syscalls::Unknown => 2,
        }
    }
}

impl From<u8> for Syscalls {
    fn from(val: u8) -> (s: Self) {
        match val {
            0 => Syscalls::Setup,
            1 => Syscalls::Sleep,
            _ => Syscalls::Unknown,
        }
    }
}

impl vstd::std_specs::convert::FromSpecImpl<u8> for Syscalls {
    open spec fn obeys_from_spec() -> bool {
        true
    }

    open spec fn from_spec(v: u8) -> Self {
        decode_syscall(v)
    }
}

/// Decoding a code gives back the system call it is the code of, and the
/// code of a decoded operand is the operand itself for the known calls.
pub proof fn lemma_syscall_code_roundtrip(s: Syscalls, v: u8)
    ensures
        s != Syscalls::Unknown ==> decode_syscall(syscall_code(s)) == s,
        v < 2 ==> syscall_code(decode_syscall(v)) == v,
        v >= 2 ==> decode_syscall(v) == Syscalls::Unknown,
{
}

/// Word offset, from the stack pointer the SVCall handler is given, of the
/// stacked PC: the exception frame on the process stack starts at the
/// stack pointer, while on the main stack the handler's entry has pushed
/// two more words.
pub fn stacked_pc_offset(from_process_stack: bool) -> (offset: usize)
    ensures
        offset == if from_process_stack { 6usize } else { 8usize },
{
    if from_process_stack {
        6
    } else {
        8
    }
}

/// What the SVCall handler has to carry out for a system call.
#[derive(Clone, Copy, Debug)]
pub enum SvCallAction {
    /// Load the timer with `reload`, then, if `regs` holds the first task's
    /// stack pointer, CONTROL and EXC_RETURN, return into that task.
    Setup { reload: u32, regs: Option<(u32, u32, u32)> },
    /// Pend a context switch and load the timer with `reload`.
    Sleep { reload: u32 },
    /// Nothing.
    Ignore,
}

/// The `Setup` system call: the timer reload for a time slice, and the
/// first task, now running, with its registers.
pub fn handle_setup_call<O: Os>(os: &mut O) -> (r: (u32, Option<(u32, u32, u32)>))
    requires
        old(os).wf(),
        1 <= old(os).slice_ticks() <= u32::MAX,
    ensures
        final(os).wf(),
        r.0 == old(os).slice_ticks() - 1,
        final(os).slice_ticks() == old(os).slice_ticks(),
        match r.1 {
            Some(regs) => {
                &&& 0 <= final(os).current() < final(os).task_seq().len()
                &&& final(os).task_seq()[final(os).current()].state == TaskState::Running
                &&& regs == initial_regs(final(os).task_seq()[final(os).current()])
            },
            None => true,
        },
        match old(os).start_target() {
            Some(i) => {
                &&& r.1 is Some
                &&& final(os).current() == i
                &&& final(os).task_seq() == with_state(old(os).task_seq(), i, TaskState::Running)
            },
            None => {
                &&& r.1 is None
                &&& final(os).task_seq() == old(os).task_seq()
                &&& final(os).current() == old(os).current()
            },
        },
{
    let reload = os.reset_timer();
    let regs = os.get_initial_task_regs();
    (reload, regs)
}

/// The `Sleep` system call: the timer reload for a fresh time slice (the
/// caller also pends a context switch).
pub fn handle_sleep_call<O: Os>(os: &mut O) -> (reload: u32)
    requires
        1 <= old(os).slice_ticks() <= u32::MAX,
    ensures
        reload == old(os).slice_ticks() - 1,
        final(os).task_seq() == old(os).task_seq(),
        final(os).current() == old(os).current(),
        final(os).wf() == old(os).wf(),
        final(os).slice_ticks() == old(os).slice_ticks(),
{
    os.reset_timer()
}

/// The SVCall handler's decision for the system call whose `svc` operand
/// is `code`.
pub fn sv_call_handler<O: Os>(os: &mut O, code: u8) -> (action: SvCallAction)
    requires
        old(os).wf(),
        code < 2 ==> 1 <= old(os).slice_ticks() <= u32::MAX,
    ensures
        final(os).wf(),
        final(os).slice_ticks() == old(os).slice_ticks(),
        match decode_syscall(code) {
            Syscalls::Setup => {
                &&& action matches SvCallAction::Setup { reload, regs }
                &&& reload == old(os).slice_ticks() - 1
                &&& match regs {
                    Some(rg) => {
                        &&& 0 <= final(os).current() < final(os).task_seq().len()
                        &&& final(os).task_seq()[final(os).current()].state == TaskState::Running
                        &&& rg == initial_regs(final(os).task_seq()[final(os).current()])
                    },
                    None => true,
                }
                &&& match old(os).start_target() {
                    Some(i) => {
                        &&& regs is Some
                        &&& final(os).current() == i
                        &&& final(os).task_seq() == with_state(old(os).task_seq(), i, TaskState::Running)
                    },
                    None => {
                        &&& regs is None
                        &&& final(os).task_seq() == old(os).task_seq()
                        &&& final(os).current() == old(os).current()
                    },
                }
            },
            Syscalls::Sleep => {
                &&& action == SvCallAction::Sleep { reload: (old(os).slice_ticks() - 1) as u32 }
                &&& final(os).task_seq() == old(os).task_seq()
                &&& final(os).current() == old(os).current()
            },
            Syscalls::Unknown => {
                &&& action == SvCallAction::Ignore
                &&& final(os).task_seq() == old(os).task_seq()
                &&& final(os).current() == old(os).current()
            },
        },
{
    let syscall_code = Syscalls::from(code);
    match syscall_code {
        Syscalls::Setup => {
            let (reload, regs) = handle_setup_call(os);
            SvCallAction::Setup { reload, regs }
        },
        Syscalls::Sleep => {
            let reload = handle_sleep_call(os);
            SvCallAction::Sleep { reload }
        },
        Syscalls::Unknown => SvCallAction::Ignore,
    }
}

} // verus!
