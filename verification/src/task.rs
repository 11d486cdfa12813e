use vstd::prelude::*;

verus! {

/// The life-cycle state of a task.
#[derive(Clone, Copy, Debug, PartialEq, Eq, Structural)]
pub enum TaskState {
    /// The task is currently running.
    Running,
    /// The task is not running, but is scheduled.
    Enabled,
    /// The task is not running and is not scheduled.
    Disabled,
}

/// A task control block.
///
/// `stack_addr` is the address of the saved context on the task's stack
/// (the process stack pointer to restore); `fn_addr` is the entry point.
#[derive(Clone, Copy, Debug, PartialEq, Eq, Structural)]
pub struct Task {
    pub stack_size: u32,
    pub stack_addr: u32,
    pub id: u32,
    pub prio: u32,
    pub fn_addr: u32,
    pub privileged: bool,
    pub fp: bool,
    pub state: TaskState,
}

/// One 32-bit word of a task's initial stack frame: the value that has to be
/// stored at `addr` before the task is first switched to.
#[derive(Clone, Copy, Debug, PartialEq, Eq, Structural)]
pub struct FrameWord {
    pub addr: u32,
    pub value: u32,
}

/// The xPSR value a task starts with (only the Thumb bit set).
pub const INITIAL_XPSR: u32 = 0x0100_0000;

/// EXC_RETURN of a task without floating-point context: thread mode,
/// process stack, basic exception frame.
pub const EXC_RETURN_BASIC: u32 = 0xFFFF_FFFD;

/// EXC_RETURN of a task with floating-point context: thread mode, process
/// stack, extended exception frame (holding s0-s15 and FPSCR).
pub const EXC_RETURN_FP: u32 = 0xFFFF_FFED;

/// The EXC_RETURN value a task starts with.
pub open spec fn exc_return_spec(fp: bool) -> u32 {
    if fp { EXC_RETURN_FP } else { EXC_RETURN_BASIC }
}

/// The CONTROL register value a task runs with: SPSEL set (process
/// stack), nPRIV set unless the task is privileged, FPCA set when the task
/// starts with floating-point context.
pub open spec fn ctrl_spec(privileged: bool, fp: bool) -> u32 {
    ((if privileged { 0x2int } else { 0x3int }) + (if fp { 0x4int } else { 0int })) as u32
}

/// The CONTROL value's bits: nPRIV (bit 0) is set exactly for an
/// unprivileged task, SPSEL (bit 1) always (tasks run on the process
/// stack), FPCA (bit 2) exactly for a task with floating-point context, and
/// no other bit. EXC_RETURN returns to thread mode on the process stack
/// (low nibble 0xD) and asks for the extended frame (bit 4 clear) exactly
/// for such a task.
pub proof fn lemma_ctrl_and_exc_return_bits(privileged: bool, fp: bool)
    ensures
        ctrl_spec(privileged, fp) % 2 == (if privileged { 0int } else { 1int }),
        (ctrl_spec(privileged, fp) / 2) % 2 == 1,
        ctrl_spec(privileged, fp) / 4 == (if fp { 1int } else { 0int }),
        exc_return_spec(fp) % 16 == 0xD,
        (exc_return_spec(fp) / 16) % 2 == (if fp { 0int } else { 1int }),
        exc_return_spec(fp) / 32 == 0x7FF_FFFF,
{
}

/// Size in bytes of the context the context switch saves in software below
/// the exception frame: EXC_RETURN, CONTROL and r4-r11, and, for a task with
/// floating-point context, s16-s31.
pub open spec fn saved_context_bytes(fp: bool) -> int {
    if fp { 104 } else { 40 }
}

/// Size in bytes of a task's initial stack frame: the software-saved
/// context and the exception frame the hardware pops (8 words, or 26 with
/// floating-point context).
pub open spec fn frame_bytes(fp: bool) -> int {
    if fp { 208 } else { 72 }
}

/// The 8-byte aligned top of a stack that starts at `stack_addr` and holds
/// `stack_size` bytes.
pub open spec fn aligned_stack_top(stack_addr: u32, stack_size: u32) -> int {
    ((stack_addr + stack_size) / 8) * 8
}

/// The inputs on which `Task::new` can lay out a stack frame: the end of the
/// stack fits in 32 bits, and the stack holds the initial frame below its
/// aligned top.
pub open spec fn new_task_inputs_ok(stack_addr: u32, stack_size: u32, fp: bool) -> bool {
    &&& stack_addr + stack_size <= u32::MAX
    &&& stack_addr + frame_bytes(fp) <= aligned_stack_top(stack_addr, stack_size)
}

/// The address of the initial frame (the task's first saved stack pointer).
pub open spec fn frame_base(stack_addr: u32, stack_size: u32, fp: bool) -> int {
    aligned_stack_top(stack_addr, stack_size) - frame_bytes(fp)
}

impl Task {
    /// Builds a task whose stack holds an initial frame, so that the first
    /// context switch to it starts executing at `fn_addr`.
    ///
    /// The frame is laid out at the top of the stack, aligned to 8 bytes;
    /// the task's `stack_addr` is its base and `stack_size` the bytes of the
    /// stack left below it. Returns the task and the four words of the
    /// initial frame, in the order they are to be written: xPSR and PC of
    /// the exception frame, CONTROL and EXC_RETURN of the saved context.
    pub fn new(
        stack_size: u32,
        stack_addr: u32,
        id: u32,
        prio: u32,
        fn_addr: u32,
        privileged: bool,
        fp: bool,
        disabled: bool,
    ) -> (res: (Task, [FrameWord; 4]))
        requires
            new_task_inputs_ok(stack_addr, stack_size, fp),
        ensures
            ({
                let base = frame_base(stack_addr, stack_size, fp);
                let hw = base + saved_context_bytes(fp);
                let (task, frame) = res;
                &&& task.stack_addr == base
                &&& task.stack_size == base - stack_addr
                &&& stack_addr <= task.stack_addr
                &&& task.stack_addr + frame_bytes(fp) <= stack_addr + stack_size
                &&& task.stack_addr % 8 == 0
                &&& task.id == id
                &&& task.prio == prio
                &&& task.fn_addr == fn_addr
                &&& task.privileged == privileged
                &&& task.fp == fp
                &&& task.state == (if disabled { TaskState::Disabled } else { TaskState::Enabled })
                &&& frame@ == seq![
                    FrameWord { addr: (hw + 28) as u32, value: INITIAL_XPSR },
                    FrameWord { addr: (hw + 24) as u32, value: fn_addr },
                    FrameWord { addr: (base + 4) as u32, value: ctrl_spec(privileged, fp) },
                    FrameWord { addr: base as u32, value: exc_return_spec(fp) },
                ]
            }),
    {
        let state = if disabled {
            TaskState::Disabled
        } else {
            TaskState::Enabled
        };
        let mut task = Task { stack_size, stack_addr, id, prio, fn_addr, privileged, fp, state };
        let end: u32 = stack_addr + stack_size;
        let top: u32 = (end / 8) * 8;
        proof {
            assert(top <= end && top % 8 == 0) by (nonlinear_arith)
                requires top == (end / 8) * 8;
        }
        let frame_len: u32 = if fp { 208 } else { 72 };
        let saved: u32 = if fp { 104 } else { 40 };
        let base: u32 = top - frame_len;
        let frame = [
            FrameWord { addr: base + saved + 28, value: INITIAL_XPSR },
            FrameWord { addr: base + saved + 24, value: task.fn_addr },
            FrameWord { addr: base + 4, value: task.get_ctrl() },
            FrameWord { addr: base, value: task.get_exc_return() },
        ];
        task.stack_addr = base;
        task.stack_size = base - stack_addr;
        proof {
            assert(frame@ =~= seq![frame[0], frame[1], frame[2], frame[3]]);
        }
        (task, frame)
    }

    /// The CONTROL register value the task runs with.
    pub fn get_ctrl(&self) -> (ctrl: u32)
        ensures
            ctrl == ctrl_spec(self.privileged, self.fp),
    {
        let base: u32 = if self.privileged {
            0x2
        } else {
            0x3
        };
        if self.fp {
            base + 0x4
        } else {
            base
        }
    }

    /// The EXC_RETURN value the task starts with.
    pub fn get_exc_return(&self) -> (exc_return: u32)
        ensures
            exc_return == exc_return_spec(self.fp),
    {
        if self.fp {
            EXC_RETURN_FP
        } else {
            EXC_RETURN_BASIC
        }
    }
}

} // verus!
