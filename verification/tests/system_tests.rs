use chaos::chaos::ChaOS;
use chaos::demo;
use chaos::os::Os;
use chaos::scheduler::{RRScheduler, Scheduler};
use chaos::syscalls::{handle_setup_call, handle_sleep_call, stacked_pc_offset, sv_call_handler, SvCallAction, Syscalls};
use chaos::systick;
use chaos::task::{Task, TaskState};

fn os_with(states: [TaskState; 2], quanta_us: u32, calibrated: u32) -> ChaOS<RRScheduler<2>, 2> {
    let tasks = [
        Task { stack_size: 256, stack_addr: 0x2000_0000, id: 0, prio: 0, fn_addr: 0x100, privileged: false, fp: false, state: states[0] },
        Task { stack_size: 256, stack_addr: 0x2000_1000, id: 1, prio: 0, fn_addr: 0x200, privileged: true, fp: false, state: states[1] },
    ];
    ChaOS::init(RRScheduler::<2>::init_with_tasks(tasks, quanta_us), 16_000_000, calibrated)
}

#[test]
fn reload_is_slice_in_ticks_minus_one() {
    // 10 ms slice, 160 000 counts per 10 ms: 10 * 16 000 counts
    assert_eq!(systick::reset_timer(10_000, 160_000), 159_999);
    // 1.5 ms at 16 MHz: 24 000 counts
    assert_eq!(systick::reset_timer(1_500, 160_000), 23_999);
    // slices under a millisecond are counted in microseconds
    assert_eq!(systick::reset_timer(250, 160_000), 3_999);
    // the count is rounded down
    assert_eq!(systick::reset_timer(2_999, 25), 6);
}

#[test]
fn os_reload_uses_calibration() {
    let mut os = os_with([TaskState::Enabled; 2], 10_000, 160_000);
    assert_eq!(os.reset_timer(), 159_999);
}

#[test]
fn os_reload_falls_back_to_bus_frequency() {
    // no calibration: 16 MHz / 100 = 160 000 counts per 10 ms
    let mut os = os_with([TaskState::Enabled; 2], 10_000, 0);
    assert!(os.timer_reload_fits());
    assert_eq!(os.reset_timer(), 159_999);
}

#[test]
fn syscall_codes_round_trip() {
    assert_eq!(Syscalls::from(0), Syscalls::Setup);
    assert_eq!(Syscalls::from(1), Syscalls::Sleep);
    assert_eq!(Syscalls::from(2), Syscalls::Unknown);
    assert_eq!(Syscalls::from(200), Syscalls::Unknown);
    assert_eq!(Syscalls::Setup.val(), 0);
    assert_eq!(Syscalls::Sleep.val(), 1);
    assert_eq!(Syscalls::Unknown.val(), 2);
    for s in [Syscalls::Setup, Syscalls::Sleep] {
        assert_eq!(Syscalls::from(s.val()), s);
    }
}

#[test]
fn stacked_pc_offset_depends_on_stack() {
    assert_eq!(stacked_pc_offset(true), 6);
    assert_eq!(stacked_pc_offset(false), 8);
}

#[test]
fn setup_call_programs_timer_and_starts_task() {
    let mut os = os_with([TaskState::Disabled, TaskState::Enabled], 10_000, 160_000);
    let (reload, regs) = handle_setup_call(&mut os);
    assert_eq!(reload, 159_999);
    assert_eq!(regs, Some((0x2000_1000 + 40, 0x2, 0xFFFF_FFFD)));
    assert_eq!(os.get_task(1).state, TaskState::Running);
}

#[test]
fn sleep_call_only_reloads_timer() {
    let mut os = os_with([TaskState::Enabled; 2], 20_000, 160_000);
    assert_eq!(handle_sleep_call(&mut os), 320_000 - 1);
    assert_eq!(os.get_task(0).state, TaskState::Enabled);
}

#[test]
fn sv_call_dispatches_on_code() {
    let mut os = os_with([TaskState::Enabled; 2], 10_000, 160_000);
    match sv_call_handler(&mut os, 1) {
        SvCallAction::Sleep { reload } => assert_eq!(reload, 159_999),
        other => panic!("unexpected {:?}", other),
    }
    assert!(matches!(sv_call_handler(&mut os, 7), SvCallAction::Ignore));
    match sv_call_handler(&mut os, 0) {
        SvCallAction::Setup { reload, regs } => {
            assert_eq!(reload, 159_999);
            assert_eq!(regs, Some((0x2000_0000 + 40, 0x3, 0xFFFF_FFFD)));
        },
        other => panic!("unexpected {:?}", other),
    }
}

#[test]
fn setup_call_without_enabled_task() {
    let mut os = os_with([TaskState::Disabled; 2], 10_000, 160_000);
    let (reload, regs) = handle_setup_call(&mut os);
    assert_eq!(reload, 159_999);
    assert_eq!(regs, None);
}

#[test]
fn demo_reload_and_rotation() {
    assert_eq!(demo::reset_timer(0), 1_600_000 - 1);
    assert_eq!(demo::reset_timer(160_000), 159_999);
    assert_eq!(demo::next_tcb_index(0), 1);
    assert_eq!(demo::next_tcb_index(2), 0);
}

#[test]
fn demo_syscalls() {
    assert_eq!(demo::Syscalls::from(0), demo::Syscalls::Sleep);
    assert_eq!(demo::Syscalls::from(9), demo::Syscalls::Unknown);
    assert_eq!(demo::Syscalls::Sleep.val(), 0);
    assert_eq!(demo::Syscalls::Unknown.val(), 1);
    assert_eq!(demo::sv_call_handler(0, 0), Some(1_599_999));
    assert_eq!(demo::sv_call_handler(3, 0), None);
}

#[test]
fn demo_initial_stack() {
    let words = demo::initial_stack_words(0x0800_0201);
    assert_eq!(words, [(299, 0x0100_0000), (298, 0x0800_0201), (283, 0x3), (282, 0xFFFF_FFFD)]);
    assert_eq!(demo::INITIAL_SP_WORD, 282);
}
