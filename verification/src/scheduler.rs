use vstd::prelude::*;
use crate::task::{ctrl_spec, exc_return_spec, saved_context_bytes, Task, TaskState};

verus! {

/// Whether a task is waiting to be scheduled.
pub open spec fn is_enabled(t: Task) -> bool {
    t.state == TaskState::Enabled
}

/// Number of steps from index `from` to index `to` when walking a table of
/// `n` entries forwards, wrapping around at its end (both in `0..n`).
pub open spec fn cyclic_dist(from: int, to: int, n: int) -> int {
    if from <= to {
        to - from
    } else {
        to - from + n
    }
}

/// `i` is the first enabled task met when walking `tasks` cyclically,
/// starting at index `from` itself.
pub open spec fn is_next_enabled(tasks: Seq<Task>, from: int, i: int) -> bool {
    &&& 0 <= i < tasks.len()
    &&& is_enabled(tasks[i])
    &&& forall|j: int|
        0 <= j < tasks.len() && cyclic_dist(from, j, tasks.len() as int) < cyclic_dist(
            from,
            i,
            tasks.len() as int,
        ) ==> !is_enabled(#[trigger] tasks[j])
}

/// No task of `tasks` is enabled.
pub open spec fn none_enabled(tasks: Seq<Task>) -> bool {
    forall|j: int| 0 <= j < tasks.len() ==> !is_enabled(#[trigger] tasks[j])
}

/// Every task in the `Running` state stands at index `cur`.
pub open spec fn only_current_running(tasks: Seq<Task>, cur: int) -> bool {
    forall|j: int| 0 <= j < tasks.len() && j != cur ==> (#[trigger] tasks[j]).state != TaskState::Running
}

/// The process stack pointer a task is started with: the address of the
/// exception frame, just past its software-saved context, computed with the
/// 32-bit address arithmetic of the target.
pub open spec fn initial_psp(t: Task) -> u32 {
    if t.stack_addr + saved_context_bytes(t.fp) > u32::MAX {
        (t.stack_addr + saved_context_bytes(t.fp) - 0x1_0000_0000) as u32
    } else {
        (t.stack_addr + saved_context_bytes(t.fp)) as u32
    }
}

/// The registers a task is started with: process stack pointer, CONTROL and
/// EXC_RETURN.
pub open spec fn initial_regs(t: Task) -> (u32, u32, u32) {
    (initial_psp(t), ctrl_spec(t.privileged, t.fp), exc_return_spec(t.fp))
}

/// `tasks[i]` with its state set to `s`.
pub open spec fn with_state(tasks: Seq<Task>, i: int, s: TaskState) -> Seq<Task> {
    tasks.update(i, Task { state: s, ..tasks[i] })
}

/// The first enabled task met when walking `tasks` cyclically from `from`,
/// or `None` when no task is enabled.
pub open spec fn next_enabled(tasks: Seq<Task>, from: int) -> Option<int> {
    if exists|i: int| is_next_enabled(tasks, from, i) {
        Some(choose|i: int| is_next_enabled(tasks, from, i))
    } else {
        None
    }
}

/// Index `x` of a table of `n` entries, counted from index `r` instead of 0.
pub open spec fn shift_index(x: int, r: int, n: int) -> int {
    if x >= r {
        x - r
    } else {
        x - r + n
    }
}

/// The table `tasks` rotated to start at index `r`: entry `j` of the result
/// is entry `j + r` (wrapping around) of `tasks`.
pub open spec fn rotate_tasks(tasks: Seq<Task>, r: int) -> Seq<Task> {
    Seq::new(
        tasks.len(),
        |j: int|
            if j + r < tasks.len() {
                tasks[j + r]
            } else {
                tasks[j + r - tasks.len()]
            },
    )
}

proof fn lemma_rotated_next_enabled(tasks: Seq<Task>, r: int, from: int, i: int)
    requires
        0 <= r < tasks.len(),
        0 <= from < tasks.len(),
        is_next_enabled(tasks, from, i),
    ensures
        is_next_enabled(
            rotate_tasks(tasks, r),
            shift_index(from, r, tasks.len() as int),
            shift_index(i, r, tasks.len() as int),
        ),
{
    let n = tasks.len() as int;
    let rt = rotate_tasks(tasks, r);
    let f2 = shift_index(from, r, n);
    let i2 = shift_index(i, r, n);
    assert(rt[i2] == tasks[i]);
    assert forall|j2: int|
        0 <= j2 < n && cyclic_dist(f2, j2, n) < cyclic_dist(f2, i2, n) implies !is_enabled(#[trigger] rt[j2]) by {
        let j = if j2 + r < n { j2 + r } else { j2 + r - n };
        assert(rt[j2] == tasks[j]);
        assert(shift_index(j, r, n) == j2);
        assert(cyclic_dist(from, j, n) < cyclic_dist(from, i, n));
    }
}

proof fn lemma_rotated_back(tasks: Seq<Task>, r: int, from: int, i2: int)
    requires
        0 <= r < tasks.len(),
        0 <= from < tasks.len(),
        is_next_enabled(rotate_tasks(tasks, r), shift_index(from, r, tasks.len() as int), i2),
    ensures
        is_next_enabled(tasks, from, if i2 + r < tasks.len() { i2 + r } else { i2 + r - tasks.len() }),
{
    let n = tasks.len() as int;
    let rt = rotate_tasks(tasks, r);
    let f2 = shift_index(from, r, n);
    let i = if i2 + r < n { i2 + r } else { i2 + r - n };
    assert(rt[i2] == tasks[i]);
    assert(shift_index(i, r, n) == i2);
    assert forall|j: int| 0 <= j < n && cyclic_dist(from, j, n) < cyclic_dist(from, i, n) implies !is_enabled(
        #[trigger] tasks[j],
    ) by {
        let j2 = shift_index(j, r, n);
        assert(rt[j2] == tasks[j]);
        assert(cyclic_dist(f2, j2, n) < cyclic_dist(f2, i2, n));
    }
}

/// Rotating the task ring together with the current position rotates the
/// round-robin choice: the next enabled task of the rotated table is the
/// rotated next enabled task of the table.
pub proof fn lemma_next_enabled_rotation(tasks: Seq<Task>, r: int, from: int)
    requires
        0 <= r < tasks.len(),
        0 <= from < tasks.len(),
    ensures
        next_enabled(rotate_tasks(tasks, r), shift_index(from, r, tasks.len() as int)) == match next_enabled(
            tasks,
            from,
        ) {
            Some(i) => Some(shift_index(i, r, tasks.len() as int)),
            None => None::<int>,
        },
{
    let n = tasks.len() as int;
    let rt = rotate_tasks(tasks, r);
    let f2 = shift_index(from, r, n);
    if exists|i: int| is_next_enabled(tasks, from, i) {
        let i = choose|i: int| is_next_enabled(tasks, from, i);
        lemma_rotated_next_enabled(tasks, r, from, i);
        let c = choose|c: int| is_next_enabled(rt, f2, c);
        lemma_next_enabled_unique(rt, f2, c, shift_index(i, r, n));
    } else {
        if exists|i2: int| is_next_enabled(rt, f2, i2) {
            let i2 = choose|i2: int| is_next_enabled(rt, f2, i2);
            lemma_rotated_back(tasks, r, from, i2);
        }
    }
}

/// No task of `tasks` is running.
pub open spec fn none_running(tasks: Seq<Task>) -> bool {
    forall|j: int| 0 <= j < tasks.len() ==> (#[trigger] tasks[j]).state != TaskState::Running
}

/// The next enabled task is unique: at most one index is the first enabled
/// task met when walking the table cyclically from a given position.
pub proof fn lemma_next_enabled_unique(tasks: Seq<Task>, from: int, i: int, j: int)
    requires
        0 <= from < tasks.len(),
        is_next_enabled(tasks, from, i),
        is_next_enabled(tasks, from, j),
    ensures
        i == j,
{
    let n = tasks.len() as int;
    if cyclic_dist(from, i, n) < cyclic_dist(from, j, n) {
        assert(!is_enabled(tasks[i]));
    } else if cyclic_dist(from, j, n) < cyclic_dist(from, i, n) {
        assert(!is_enabled(tasks[j]));
    }
}

/// `next_enabled` is what a walk over the table finds: the first enabled
/// task in cyclic order, or `None` exactly when no task is enabled.
pub proof fn lemma_next_enabled_matches(tasks: Seq<Task>, from: int, r: Option<usize>)
    requires
        0 <= from < tasks.len(),
        match r {
            Some(i) => is_next_enabled(tasks, from, i as int),
            None => none_enabled(tasks),
        },
    ensures
        next_enabled(tasks, from) == match r {
            Some(i) => Some(i as int),
            None => None::<int>,
        },
{
    match r {
        Some(i) => {
            let c = choose|c: int| is_next_enabled(tasks, from, c);
            lemma_next_enabled_unique(tasks, from, c, i as int);
        },
        None => {
            if exists|i: int| is_next_enabled(tasks, from, i) {
                let c = choose|c: int| is_next_enabled(tasks, from, c);
                assert(!is_enabled(tasks[c]));
            }
        },
    }
}

/// Round-robin progress: a switch from `p` to the next enabled task `n`
/// brings every other enabled task strictly nearer, in table order, to the
/// running position. An enabled task that stays enabled is therefore
/// switched to within fewer switches than there are tasks.
pub proof fn lemma_switch_brings_waiting_tasks_closer(tasks: Seq<Task>, p: int, n: int, j: int)
    requires
        0 <= p < tasks.len(),
        is_next_enabled(tasks, p, n),
        p != n,
        0 <= j < tasks.len(),
        is_enabled(tasks[j]),
        j != n,
    ensures
        cyclic_dist(n, j, tasks.len() as int) < cyclic_dist(p, j, tasks.len() as int),
{
    let len = tasks.len() as int;
    assert(!(cyclic_dist(p, j, len) < cyclic_dist(p, n, len)));
}

/// A policy that decides which of `N` tasks runs next.
///
/// The scheduler owns the task table. It is asked for the task to start
/// with, and at each preemption point for the pair (task switched out,
/// task switched in); the caller updates the two tasks through `get_task`
/// and `set_task` and performs the switch.
pub trait Scheduler<const N: usize>: Sized {
    /// The task table.
    spec fn task_seq(&self) -> Seq<Task>;

    /// Index of the task that runs (or is to run first).
    spec fn current(&self) -> int;

    /// The time slice in microseconds.
    spec fn quanta(&self) -> u32;

    /// The scheduler's internal invariant.
    spec fn wf(&self) -> bool;

    /// The task that `get_initial_task_regs` starts, or `None` when no
    /// task can be started.
    spec fn start_target(&self) -> Option<int>;

    /// The task that `get_switch_pair` switches to, or `None` when no
    /// switch is to be made.
    spec fn switch_target(&self) -> Option<int>;

    /// Creates a scheduler over `tasks` with the time slice `quanta_us`.
    fn init_with_tasks(tasks: [Task; N], quanta_us: u32) -> (s: Self)
        ensures
            N > 0 ==> s.wf(),
            s.task_seq() == tasks@,
            s.quanta() == quanta_us,
    ;

    /// Picks the task to start with and marks it running; returns its
    /// stack pointer, CONTROL and EXC_RETURN values, or `None` when no task
    /// can be started.
    fn get_initial_task_regs(&mut self) -> (r: Option<(u32, u32, u32)>)
        requires
            old(self).wf(),
        ensures
            final(self).wf(),
            match r {
                Some(regs) => {
                    &&& 0 <= final(self).current() < final(self).task_seq().len()
                    &&& final(self).task_seq()[final(self).current()].state == TaskState::Running
                    &&& regs == initial_regs(final(self).task_seq()[final(self).current()])
                },
                None => true,
            },
            match old(self).start_target() {
                Some(i) => {
                    &&& r is Some
                    &&& final(self).current() == i
                    &&& final(self).task_seq() == with_state(old(self).task_seq(), i, TaskState::Running)
                },
                None => {
                    &&& r is None
                    &&& final(self).task_seq() == old(self).task_seq()
                    &&& final(self).current() == old(self).current()
                },
            },
            final(self).quanta() == old(self).quanta(),
            final(self).task_seq().len() == old(self).task_seq().len(),
    ;

    /// Picks the next task to run. Returns `Some((prev, next))`, the indices
    /// of the task switched out (the one that ran) and the task switched in
    /// (now current), or `None` when no switch is to be made. The task table
    /// itself is left unchanged.
    fn get_switch_pair(&mut self) -> (r: Option<(usize, usize)>)
        requires
            old(self).wf(),
        ensures
            final(self).wf(),
            final(self).quanta() == old(self).quanta(),
            final(self).task_seq() == old(self).task_seq(),
            match r {
                Some((p, n)) => {
                    &&& p == old(self).current()
                    &&& n == final(self).current()
                    &&& p != n
                    &&& p < final(self).task_seq().len()
                    &&& n < final(self).task_seq().len()
                },
                None => final(self).current() == old(self).current(),
            },
            match old(self).switch_target() {
                Some(n) => r matches Some((p, q)) && q == n,
                None => r is None,
            },
    ;

    /// The time slice in microseconds.
    fn get_quanta_us(&self) -> (q: u32)
        ensures
            q == self.quanta(),
    ;

    /// The task at index `idx`.
    fn get_task(&self, idx: usize) -> (t: Task)
        requires
            self.wf(),
            idx < self.task_seq().len(),
        ensures
            t == self.task_seq()[idx as int],
    ;

    /// Replaces the task at index `idx`.
    fn set_task(&mut self, idx: usize, t: Task)
        requires
            old(self).wf(),
            idx < old(self).task_seq().len(),
        ensures
            final(self).wf(),
            final(self).task_seq() == old(self).task_seq().update(idx as int, t),
            final(self).current() == old(self).current(),
            final(self).quanta() == old(self).quanta(),
    ;
}

/// The round-robin scheduler: tasks take turns in table order, each
/// switch moving to the first enabled task after the current one.
pub struct RRScheduler<const N: usize> {
    tasks: [Task; N],
    current_task_idx: usize,
    quanta_us: u32,
}

proof fn lemma_step_mod(x: int, n: int)
    requires
        0 <= x < n,
    ensures
        (x + 1) % n == if x + 1 < n { x + 1 } else { 0 },
{
    if x + 1 < n {
        vstd::arithmetic::div_mod::lemma_small_mod((x + 1) as nat, n as nat);
    } else {
        vstd::arithmetic::div_mod::lemma_mod_self_0(n);
    }
}

impl<const N: usize> RRScheduler<N> {
    /// The index of the first enabled task met when walking the table
    /// cyclically from the current task (the current task included), or
    /// `None` when no task is enabled.
    pub fn get_next_enabled_task_index(&self) -> (r: Option<usize>)
        requires
            self.wf(),
        ensures
            match r {
                Some(i) => is_next_enabled(self.task_seq(), self.current(), i as int),
                None => none_enabled(self.task_seq()),
            },
    {
        let old_idx = self.current_task_idx;
        let mut next_idx = self.current_task_idx;
        let ghost tasks = self.tasks@;
        let ghost mut k: int = 0;
        loop
            invariant
                N > 0,
                old_idx < N,
                old_idx == self.current_task_idx,
                next_idx < N,
                tasks == self.tasks@,
                tasks.len() == N,
                0 <= k < N,
                k == cyclic_dist(old_idx as int, next_idx as int, N as int),
                forall|j: int|
                    0 <= j < N && cyclic_dist(old_idx as int, j, N as int) < k ==> !is_enabled(
                        #[trigger] tasks[j],
                    ),
            decreases N - k,
        {
            if self.tasks[next_idx].state == TaskState::Enabled {
                assert(is_enabled(tasks[next_idx as int]));
                assert(is_next_enabled(tasks, old_idx as int, next_idx as int));
                return Some(next_idx);
            }
            proof {
                lemma_step_mod(next_idx as int, N as int);
            }
            next_idx = (next_idx + 1) % N;
            if next_idx == old_idx {
                proof {
                    assert forall|j: int| 0 <= j < N implies !is_enabled(#[trigger] tasks[j]) by {
                        assert(cyclic_dist(old_idx as int, j, N as int) < N);
                    }
                }
                return None;
            }
            proof {
                k = k + 1;
            }
        }
    }

    /// The task table has `N` entries, and a well-formed scheduler's current
    /// task is one of them.
    pub proof fn lemma_wf(&self)
        ensures
            self.task_seq().len() == N,
            self.wf() <==> 0 <= self.current() < N,
    {
    }

    /// The round-robin choices: a start goes to the first enabled task met
    /// walking the table from the current one, a switch to that task unless
    /// it is the current one.
    pub proof fn lemma_rr_targets(&self)
        ensures
            self.start_target() == next_enabled(self.task_seq(), self.current()),
            self.switch_target() == match next_enabled(self.task_seq(), self.current()) {
                Some(n) => if n != self.current() {
                    Some(n)
                } else {
                    None::<int>
                },
                None => None::<int>,
            },
    {
    }

    /// Index of the current task.
    pub fn current_task_idx(&self) -> (i: usize)
        ensures
            i == self.current(),
    {
        self.current_task_idx
    }
}

impl<const N: usize> Scheduler<N> for RRScheduler<N> {
    closed spec fn task_seq(&self) -> Seq<Task> {
        self.tasks@
    }

    closed spec fn current(&self) -> int {
        self.current_task_idx as int
    }

    closed spec fn quanta(&self) -> u32 {
        self.quanta_us
    }

    closed spec fn wf(&self) -> bool {
        self.current_task_idx < N
    }

    closed spec fn start_target(&self) -> Option<int> {
        next_enabled(self.tasks@, self.current_task_idx as int)
    }

    closed spec fn switch_target(&self) -> Option<int> {
        match next_enabled(self.tasks@, self.current_task_idx as int) {
            Some(n) => if n != self.current_task_idx as int {
                Some(n)
            } else {
                None
            },
            None => None,
        }
    }

    fn init_with_tasks(tasks: [Task; N], quanta_us: u32) -> (s: Self)
        ensures
            s.current() == 0,
    {
        let current_task_idx: usize = 0;
        RRScheduler { tasks, current_task_idx, quanta_us }
    }

    fn get_initial_task_regs(&mut self) -> (r: Option<(u32, u32, u32)>)
        ensures
            match r {
                Some(regs) => {
                    &&& is_next_enabled(old(self).task_seq(), old(self).current(), final(self).current())
                    &&& final(self).task_seq() == with_state(
                        old(self).task_seq(),
                        final(self).current(),
                        TaskState::Running,
                    )
                    &&& regs == initial_regs(old(self).task_seq()[final(self).current()])
                },
                None => {
                    &&& none_enabled(old(self).task_seq())
                    &&& *final(self) == *old(self)
                },
            },
            none_running(old(self).task_seq()) ==> only_current_running(
                final(self).task_seq(),
                final(self).current(),
            ),
    {
        let next_idx = self.get_next_enabled_task_index();
        proof {
            lemma_next_enabled_matches(self.tasks@, self.current_task_idx as int, next_idx);
        }
        if next_idx.is_none() {
            return None;
        }
        self.current_task_idx = next_idx.unwrap();
        let mut task = self.tasks[self.current_task_idx];
        let saved: u32 = if task.fp { 104 } else { 40 };
        let psp = task.stack_addr.wrapping_add(saved);
        let ctrl = task.get_ctrl();
        let exc_return = task.get_exc_return();
        task.state = TaskState::Running;
        self.tasks[self.current_task_idx] = task;
        proof {
            assert(self.tasks@ =~= with_state(old(self).tasks@, self.current_task_idx as int, TaskState::Running));
        }
        Some((psp, ctrl, exc_return))
    }

    fn get_switch_pair(&mut self) -> (r: Option<(usize, usize)>)
        ensures
            match r {
                Some((p, n)) => is_next_enabled(old(self).task_seq(), p as int, n as int),
                None => {
                    ||| none_enabled(old(self).task_seq())
                    ||| is_next_enabled(old(self).task_seq(), old(self).current(), old(self).current())
                },
            },
    {
        let next_idx = self.get_next_enabled_task_index();
        proof {
            lemma_next_enabled_matches(self.tasks@, self.current_task_idx as int, next_idx);
        }
        if next_idx.is_none() {
            return None;
        }
        let old_idx = self.current_task_idx;
        self.current_task_idx = next_idx.unwrap();
        if old_idx > self.current_task_idx {
            Some((old_idx, self.current_task_idx))
        } else if self.current_task_idx > old_idx {
            Some((old_idx, self.current_task_idx))
        } else {
            None
        }
    }

    fn get_quanta_us(&self) -> (q: u32) {
        self.quanta_us
    }

    fn get_task(&self, idx: usize) -> (t: Task) {
        self.tasks[idx]
    }

    fn set_task(&mut self, idx: usize, t: Task) {
        self.tasks[idx] = t;
    }
}

} // verus!
