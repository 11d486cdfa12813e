use vstd::prelude::*;
use crate::scheduler::{initial_regs, with_state};
use crate::task::{Task, TaskState};

verus! {

/// What the exception handlers ask of the running system: the timer
/// reload for a time slice, the first task's registers, and the pair of
/// tasks of each context switch.
pub trait Os {
    /// The task table.
    spec fn task_seq(&self) -> Seq<Task>;

    /// Index of the task that runs.
    spec fn current(&self) -> int;

    /// The system's internal invariant.
    spec fn wf(&self) -> bool;

    /// The task that `get_initial_task_regs` starts, or `None` when no
    /// task can be started.
    spec fn start_target(&self) -> Option<int>;

    /// The task that `get_switch_pair` switches to, or `None` when no
    /// switch is to be made.
    spec fn switch_target(&self) -> Option<int>;

    /// Length of a time slice in SysTick counts.
    spec fn slice_ticks(&self) -> int;

    /// Returns the SysTick reload register value for one time slice.
    fn reset_timer(&mut self) -> (reload: u32)
        requires
            1 <= old(self).slice_ticks() <= u32::MAX,
        ensures
            reload == old(self).slice_ticks() - 1,
            final(self).task_seq() == old(self).task_seq(),
            final(self).current() == old(self).current(),
            final(self).wf() == old(self).wf(),
            final(self).slice_ticks() == old(self).slice_ticks(),
            final(self).start_target() == old(self).start_target(),
            final(self).switch_target() == old(self).switch_target(),
    ;

    /// Picks the first task and marks it running; returns its stack
    /// pointer, CONTROL and EXC_RETURN, or `None` when no task can start.
    fn get_initial_task_regs(&mut self) -> (r: Option<(u32, u32, u32)>)
        requires
            old(self).wf(),
        ensures
            final(self).wf(),
            match r {
                Some(regs) => {
                    &&& 0 <= final(self).current() < final(self).task_seq().len()
                    &&& final(self).task_seq()[final(self).current()].state == TaskState::Running
                    &&& regs == initial_regs(final(self).task_seq()[final(self).current()])
                },
                None => true,
            },
            match old(self).start_target() {
                Some(i) => {
                    &&& r is Some
                    &&& final(self).current() == i
                    &&& final(self).task_seq() == with_state(old(self).task_seq(), i, TaskState::Running)
                },
                None => {
                    &&& r is None
                    &&& final(self).task_seq() == old(self).task_seq()
                    &&& final(self).current() == old(self).current()
                },
            },
            final(self).slice_ticks() == old(self).slice_ticks(),
            final(self).task_seq().len() == old(self).task_seq().len(),
    ;

    /// Picks the pair of tasks of the next context switch: `Some((prev,
    /// next))`, the task switched out and the task switched in, or `None`
    /// when no switch is to be made.
    fn get_switch_pair(&mut self) -> (r: Option<(usize, usize)>)
        requires
            old(self).wf(),
        ensures
            final(self).wf(),
            final(self).slice_ticks() == old(self).slice_ticks(),
            final(self).task_seq() == old(self).task_seq(),
            match r {
                Some((p, n)) => {
                    &&& p == old(self).current()
                    &&& n == final(self).current()
                    &&& p != n
                    &&& p < final(self).task_seq().len()
                    &&& n < final(self).task_seq().len()
                },
                None => final(self).current() == old(self).current(),
            },
            match old(self).switch_target() {
                Some(n) => r matches Some((p, q)) && q == n,
                None => r is None,
            },
    ;

    /// The task at index `idx`.
    fn get_task(&self, idx: usize) -> (t: Task)
        requires
            self.wf(),
            idx < self.task_seq().len(),
        ensures
            t == self.task_seq()[idx as int],
    ;

    /// Replaces the task at index `idx`.
    fn set_task(&mut self, idx: usize, t: Task)
        requires
            old(self).wf(),
            idx < old(self).task_seq().len(),
        ensures
            final(self).wf(),
            final(self).task_seq() == old(self).task_seq().update(idx as int, t),
            final(self).current() == old(self).current(),
            final(self).slice_ticks() == old(self).slice_ticks(),
    ;
}

} // verus!
