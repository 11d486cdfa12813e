use chaos::chaos::ChaOS;
use chaos::exceptions::do_pendsv_exception;
use chaos::os::Os;
use chaos::scheduler::{RRScheduler, Scheduler};
use chaos::task::{Task, TaskState};

fn task(id: u32, stack_addr: u32, privileged: bool, state: TaskState) -> Task {
    Task { stack_size: 256, stack_addr, id, prio: 0, fn_addr: 0x0800_0000 + id, privileged, fp: false, state }
}

#[test]
fn initial_task_regs_of_fp_task() {
    let (t, _) = Task::new(512, 0x2000_0000, 0, 0, 0x100, false, true, false);
    let mut s = RRScheduler::<1>::init_with_tasks([t], 1);
    assert_eq!(s.get_initial_task_regs(), Some((t.stack_addr + 104, 0x7, 0xFFFF_FFED)));
}

#[test]
fn initial_task_regs_of_new_task() {
    let (t, frame) = Task::new(500, 0x2000_0000, 0, 0, 0x0800_0101, false, false, false);
    let mut s = RRScheduler::<1>::init_with_tasks([t], 1);
    let (psp, ctrl, exc) = s.get_initial_task_regs().unwrap();
    // the stacked PC and xPSR sit at words 6 and 7 of the exception frame
    assert_eq!(frame[1].addr, psp + 24);
    assert_eq!(frame[0].addr, psp + 28);
    assert_eq!(frame[2].value, ctrl);
    assert_eq!(frame[3].value, exc);
}

fn three(states: [TaskState; 3]) -> [Task; 3] {
    [task(0, 0x2000_0000, false, states[0]), task(1, 0x2000_1000, true, states[1]), task(2, 0x2000_2000, false, states[2])]
}

#[test]
fn next_enabled_starts_at_current() {
    let s = RRScheduler::<3>::init_with_tasks(three([TaskState::Enabled; 3]), 10_000);
    assert_eq!(s.get_next_enabled_task_index(), Some(0));
    assert_eq!(s.get_quanta_us(), 10_000);
}

#[test]
fn next_enabled_skips_disabled_and_running() {
    let s = RRScheduler::<3>::init_with_tasks(three([TaskState::Running, TaskState::Disabled, TaskState::Enabled]), 1);
    assert_eq!(s.get_next_enabled_task_index(), Some(2));
}

#[test]
fn next_enabled_none_when_nothing_enabled() {
    let s = RRScheduler::<3>::init_with_tasks(three([TaskState::Disabled, TaskState::Running, TaskState::Disabled]), 1);
    assert_eq!(s.get_next_enabled_task_index(), None);
}

#[test]
fn initial_task_regs_start_first_enabled_task() {
    let mut s = RRScheduler::<3>::init_with_tasks(three([TaskState::Disabled, TaskState::Enabled, TaskState::Enabled]), 1);
    let regs = s.get_initial_task_regs();
    assert_eq!(regs, Some((0x2000_1000 + 40, 0x2, 0xFFFF_FFFD)));
    assert_eq!(s.current_task_idx(), 1);
    assert_eq!(s.get_task(1).state, TaskState::Running);
    assert_eq!(s.get_task(2).state, TaskState::Enabled);
}

#[test]
fn initial_task_regs_none_without_enabled_task() {
    let mut s = RRScheduler::<3>::init_with_tasks(three([TaskState::Disabled; 3]), 1);
    assert_eq!(s.get_initial_task_regs(), None);
    assert_eq!(s.current_task_idx(), 0);
}

#[test]
fn initial_psp_wraps_at_top_of_address_space() {
    let mut tasks = three([TaskState::Enabled; 3]);
    tasks[0].stack_addr = u32::MAX - 9;
    let mut s = RRScheduler::<3>::init_with_tasks(tasks, 1);
    assert_eq!(s.get_initial_task_regs(), Some((30, 0x3, 0xFFFF_FFFD)));
}

#[test]
fn switch_pair_goes_round_robin() {
    let mut s = RRScheduler::<3>::init_with_tasks(three([TaskState::Enabled; 3]), 1);
    s.get_initial_task_regs();
    assert_eq!(s.get_switch_pair(), Some((0, 1)));
    assert_eq!(s.current_task_idx(), 1);
    // task 0 stays `Running` as the scheduler does not change states itself,
    // so from task 1 the next enabled task is 1 itself: no switch.
    assert_eq!(s.get_switch_pair(), None);
}

#[test]
fn switch_pair_none_when_only_current_runs() {
    let mut s = RRScheduler::<3>::init_with_tasks(three([TaskState::Enabled, TaskState::Disabled, TaskState::Disabled]), 1);
    s.get_initial_task_regs();
    assert_eq!(s.get_switch_pair(), None);
    assert_eq!(s.current_task_idx(), 0);
}

#[test]
fn pendsv_rotates_through_enabled_tasks() {
    let sched = RRScheduler::<3>::init_with_tasks(three([TaskState::Enabled, TaskState::Disabled, TaskState::Enabled]), 10_000);
    let mut os = ChaOS::init(sched, 16_000_000, 160_000);
    assert!(os.get_initial_task_regs().is_some());
    assert_eq!(do_pendsv_exception(&mut os), Some((0, 2)));
    assert_eq!(os.get_task(0).state, TaskState::Enabled);
    assert_eq!(os.get_task(1).state, TaskState::Disabled);
    assert_eq!(os.get_task(2).state, TaskState::Running);
    assert_eq!(do_pendsv_exception(&mut os), Some((2, 0)));
    assert_eq!(os.get_task(0).state, TaskState::Running);
    assert_eq!(os.get_task(2).state, TaskState::Enabled);
}

#[test]
fn pendsv_without_other_enabled_task_keeps_running_task() {
    let sched = RRScheduler::<3>::init_with_tasks(three([TaskState::Disabled, TaskState::Enabled, TaskState::Disabled]), 10_000);
    let mut os = ChaOS::init(sched, 16_000_000, 160_000);
    os.get_initial_task_regs();
    assert_eq!(do_pendsv_exception(&mut os), None);
    assert_eq!(os.get_task(1).state, TaskState::Running);
}

#[test]
fn every_enabled_task_runs_within_a_round() {
    // four tasks, all enabled: each switch moves one step on, so every task
    // runs once in four switches
    let tasks = [
        task(0, 0x2000_0000, false, TaskState::Enabled),
        task(1, 0x2000_1000, false, TaskState::Enabled),
        task(2, 0x2000_2000, false, TaskState::Enabled),
        task(3, 0x2000_3000, false, TaskState::Enabled),
    ];
    let sched = RRScheduler::<4>::init_with_tasks(tasks, 10_000);
    let mut os = ChaOS::init(sched, 16_000_000, 160_000);
    os.get_initial_task_regs();
    let mut seen = Vec::new();
    for _ in 0..4 {
        let (_, next) = do_pendsv_exception(&mut os).unwrap();
        seen.push(next);
    }
    assert_eq!(seen, vec![1, 2, 3, 0]);
}

#[test]
fn set_task_replaces_one_task() {
    let mut s = RRScheduler::<3>::init_with_tasks(three([TaskState::Enabled; 3]), 1);
    let mut t = s.get_task(2);
    t.state = TaskState::Disabled;
    s.set_task(2, t);
    assert_eq!(s.get_task(2).state, TaskState::Disabled);
    assert_eq!(s.get_task(1).state, TaskState::Enabled);
}
