use vstd::prelude::*;
use crate::os::Os;
use crate::scheduler::{
    cyclic_dist, is_enabled, is_next_enabled, lemma_next_enabled_unique, lemma_switch_brings_waiting_tasks_closer,
    only_current_running, with_state,
};
use crate::task::{Task, TaskState};

verus! {

/// The task table after a switch from `p` to `n`: the task switched out
/// goes back to `Enabled` if it was running, and the task switched in runs.
pub open spec fn switched_tasks(tasks: Seq<Task>, p: int, n: int) -> Seq<Task> {
    let after_prev = if tasks[p].state == TaskState::Running {
        with_state(tasks, p, TaskState::Enabled)
    } else {
        tasks
    };
    with_state(after_prev, n, TaskState::Running)
}

/// A context switch leaves the task table as it was but for the states of
/// the two tasks, and, where the task switched in was not disabled, no task
/// is enabled or disabled by it: each task's state is `Disabled` after the
/// switch exactly when it was before.
pub proof fn lemma_switch_keeps_task_set(tasks: Seq<Task>, p: int, n: int)
    requires
        0 <= p < tasks.len(),
        0 <= n < tasks.len(),
        p != n,
    ensures
        switched_tasks(tasks, p, n).len() == tasks.len(),
        forall|i: int|
            0 <= i < tasks.len() ==> (Task { state: tasks[i].state, ..#[trigger] switched_tasks(tasks, p, n)[i] }) == tasks[i],
        tasks[n].state != TaskState::Disabled ==> forall|i: int|
            0 <= i < tasks.len() ==> ((#[trigger] switched_tasks(tasks, p, n)[i]).state == TaskState::Disabled
                <==> tasks[i].state == TaskState::Disabled),
{
}

/// The scheduling part of the PendSV handler: asks for the pair of tasks
/// to switch between and updates their states. Returns the pair, whose
/// saved stack pointers the caller then exchanges in the context switch,
/// or `None` when no switch is to be made.
pub fn do_pendsv_exception<O: Os>(os: &mut O) -> (r: Option<(usize, usize)>)
    requires
        old(os).wf(),
    ensures
        final(os).wf(),
        final(os).slice_ticks() == old(os).slice_ticks(),
        match r {
            Some((p, n)) => {
                &&& p == old(os).current()
                &&& n == final(os).current()
                &&& p != n
                &&& p < old(os).task_seq().len()
                &&& n < old(os).task_seq().len()
                &&& final(os).task_seq() == switched_tasks(old(os).task_seq(), p as int, n as int)
            },
            None => {
                &&& final(os).task_seq() == old(os).task_seq()
                &&& final(os).current() == old(os).current()
            },
        },
        match old(os).switch_target() {
            Some(n) => r matches Some((p, q)) && q == n,
            None => r is None,
        },
        only_current_running(old(os).task_seq(), old(os).current()) ==> only_current_running(
            final(os).task_seq(),
            final(os).current(),
        ),
{
    let pair = os.get_switch_pair();
    match pair {
        None => None,
        Some((prev_idx, next_idx)) => {
            let ghost tasks = os.task_seq();
            let mut prev = os.get_task(prev_idx);
            if prev.state == TaskState::Running {
                prev.state = TaskState::Enabled;
                os.set_task(prev_idx, prev);
            }
            let mut next = os.get_task(next_idx);
            next.state = TaskState::Running;
            os.set_task(next_idx, next);
            proof {
                assert(os.task_seq() =~= switched_tasks(tasks, prev_idx as int, next_idx as int));
            }
            Some((prev_idx, next_idx))
        },
    }
}

/// The task a round-robin switch from `from` moves to: the first enabled
/// task met walking the table cyclically from `from`.
pub open spec fn rr_next(tasks: Seq<Task>, from: int) -> int {
    choose|i: int| is_next_enabled(tasks, from, i)
}

/// The task that the round-robin scheduler's `get_switch_pair` picks is
/// `rr_next`: a switch of `rr_after` is the switch the system performs.
pub proof fn lemma_rr_next_is_switch_target(tasks: Seq<Task>, from: int, n: int)
    requires
        0 <= from < tasks.len(),
        is_next_enabled(tasks, from, n),
    ensures
        rr_next(tasks, from) == n,
{
    lemma_next_enabled_unique(tasks, from, rr_next(tasks, from), n);
}

/// The task table and the running position after `k` PendSV switches of a
/// round-robin system that starts with `tasks` running task `cur`: each
/// switch moves to the next enabled task and updates the two states, as
/// `get_switch_pair` and `do_pendsv_exception` do; where there is none to
/// switch to, nothing changes.
pub open spec fn rr_after(tasks: Seq<Task>, cur: int, k: nat) -> (Seq<Task>, int)
    decreases k,
{
    if k == 0 {
        (tasks, cur)
    } else {
        let (t, c) = rr_after(tasks, cur, (k - 1) as nat);
        if (exists|i: int| is_next_enabled(t, c, i)) && rr_next(t, c) != c {
            (switched_tasks(t, c, rr_next(t, c)), rr_next(t, c))
        } else {
            (t, c)
        }
    }
}

/// Where some task is enabled, there is a first one in cyclic order.
pub proof fn lemma_next_enabled_exists(tasks: Seq<Task>, from: int, j: int)
    requires
        0 <= from < tasks.len(),
        0 <= j < tasks.len(),
        is_enabled(tasks[j]),
    ensures
        exists|i: int| is_next_enabled(tasks, from, i),
    decreases cyclic_dist(from, j, tasks.len() as int),
{
    let n = tasks.len() as int;
    if is_next_enabled(tasks, from, j) {
    } else {
        let k = choose|k: int|
            0 <= k < n && cyclic_dist(from, k, n) < cyclic_dist(from, j, n) && is_enabled(#[trigger] tasks[k]);
        lemma_next_enabled_exists(tasks, from, k);
    }
}

proof fn lemma_rr_waiting(tasks: Seq<Task>, cur: int, j: int)
    requires
        0 <= cur < tasks.len(),
        0 <= j < tasks.len(),
        tasks[cur].state == TaskState::Running,
        is_enabled(tasks[j]),
    ensures
        exists|k: nat| k <= cyclic_dist(cur, j, tasks.len() as int) && (#[trigger] rr_after(tasks, cur, k)).1 == j,
    decreases cyclic_dist(cur, j, tasks.len() as int),
{
    let len = tasks.len() as int;
    lemma_next_enabled_exists(tasks, cur, j);
    let n = rr_next(tasks, cur);
    assert(is_next_enabled(tasks, cur, n));
    assert(n != cur);
    let t1 = switched_tasks(tasks, cur, n);
    assert(rr_after(tasks, cur, 0) == (tasks, cur));
    assert(rr_after(tasks, cur, 1) == (t1, n));
    if n == j {
        assert(rr_after(tasks, cur, 1).1 == j);
    } else {
        lemma_switch_brings_waiting_tasks_closer(tasks, cur, n, j);
        assert(t1[j] == tasks[j]);
        assert(t1[n].state == TaskState::Running);
        lemma_rr_waiting(t1, n, j);
        let k = choose|k: nat| k <= cyclic_dist(n, j, len) && (#[trigger] rr_after(t1, n, k)).1 == j;
        lemma_rr_after_shift(tasks, cur, k);
        assert(rr_after(tasks, cur, k + 1).1 == j);
    }
}

proof fn lemma_rr_after_shift(tasks: Seq<Task>, cur: int, k: nat)
    ensures
        rr_after(tasks, cur, k + 1) == rr_after(rr_after(tasks, cur, 1).0, rr_after(tasks, cur, 1).1, k),
    decreases k,
{
    if k > 0 {
        lemma_rr_after_shift(tasks, cur, (k - 1) as nat);
        assert(rr_after(tasks, cur, k + 1) == rr_after(tasks, cur, ((k + 1) - 1) as nat + 1));
    }
}

/// Bounded waiting: in a round-robin system whose running task is `cur`,
/// a task `j` that is enabled runs after fewer PendSV switches than there
/// are tasks (at most as many as it stands places after `cur`).
pub proof fn lemma_round_robin_bounded_waiting(tasks: Seq<Task>, cur: int, j: int)
    requires
        0 <= cur < tasks.len(),
        0 <= j < tasks.len(),
        tasks[cur].state == TaskState::Running,
        is_enabled(tasks[j]),
    ensures
        exists|k: nat| k < tasks.len() && (#[trigger] rr_after(tasks, cur, k)).1 == j,
{
    lemma_rr_waiting(tasks, cur, j);
}

} // verus!
