use chaos::task::{FrameWord, Task, TaskState};

#[test]
fn new_task_lays_out_initial_frame() {
    // stack 0x2000_0000 .. 0x2000_0200 (the 512 bytes of a `stack_size = 512` task)
    let (task, frame) = Task::new(512, 0x2000_0000, 7, 2, 0x0800_0101, false, false, false);
    assert_eq!(task.stack_addr, 0x2000_0200 - 72);
    assert_eq!(task.stack_size, 512 - 72);
    assert_eq!(task.id, 7);
    assert_eq!(task.prio, 2);
    assert_eq!(task.fn_addr, 0x0800_0101);
    assert_eq!(task.state, TaskState::Enabled);
    assert_eq!(
        frame,
        [
            FrameWord { addr: 0x2000_01FC, value: 0x0100_0000 },
            FrameWord { addr: 0x2000_01F8, value: 0x0800_0101 },
            FrameWord { addr: 0x2000_01BC, value: 0x3 },
            FrameWord { addr: 0x2000_01B8, value: 0xFFFF_FFFD },
        ]
    );
}

#[test]
fn new_task_aligns_stack_top_down_to_eight() {
    let (task, frame) = Task::new(207, 0x2000_0004, 1, 0, 0x0800_0101, false, false, false);
    // 0x2000_0004 + 207 = 0x2000_00D3, aligned down to 0x2000_00D0
    assert_eq!(task.stack_addr, 0x2000_0088);
    assert_eq!(task.stack_size, 0x84);
    assert_eq!(frame[0], FrameWord { addr: 0x2000_00CC, value: 0x0100_0000 });
    assert_eq!(frame[1], FrameWord { addr: 0x2000_00C8, value: 0x0800_0101 });
    assert_eq!(frame[2], FrameWord { addr: 0x2000_008C, value: 0x3 });
    assert_eq!(frame[3], FrameWord { addr: 0x2000_0088, value: 0xFFFF_FFFD });
}

#[test]
fn new_task_smallest_stack() {
    // exactly one frame fits
    let (task, _) = Task::new(72, 0x2000_0000, 0, 0, 0x100, true, false, true);
    assert_eq!(task.stack_addr, 0x2000_0000);
    assert_eq!(task.stack_size, 0);
    assert_eq!(task.state, TaskState::Disabled);
    assert!(task.privileged);
}

#[test]
fn fp_task_starts_with_extended_frame() {
    let (task, frame) = Task::new(512, 0x2000_0000, 0, 0, 0x0800_0101, true, true, false);
    assert_eq!(task.stack_addr, 0x2000_0200 - 208);
    assert_eq!(task.stack_size, 512 - 208);
    assert_eq!(task.get_ctrl(), 0x6);
    assert_eq!(task.get_exc_return(), 0xFFFF_FFED);
    assert_eq!(
        frame,
        [
            FrameWord { addr: 0x2000_0200 - 208 + 104 + 28, value: 0x0100_0000 },
            FrameWord { addr: 0x2000_0200 - 208 + 104 + 24, value: 0x0800_0101 },
            FrameWord { addr: 0x2000_0200 - 208 + 4, value: 0x6 },
            FrameWord { addr: 0x2000_0200 - 208, value: 0xFFFF_FFED },
        ]
    );
}

#[test]
fn ctrl_depends_on_privilege_and_fp() {
    let (unpriv, _) = Task::new(512, 0x2000_0000, 0, 0, 0, false, false, false);
    let (priv_task, _) = Task::new(512, 0x2000_0000, 0, 0, 0, true, false, false);
    let (fp_task, _) = Task::new(512, 0x2000_0000, 0, 0, 0, false, true, false);
    assert_eq!(unpriv.get_ctrl(), 0x3);
    assert_eq!(priv_task.get_ctrl(), 0x2);
    assert_eq!(fp_task.get_ctrl(), 0x7);
    assert_eq!(unpriv.get_exc_return(), 0xFFFF_FFFD);
}
