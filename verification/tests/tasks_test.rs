use catos::tasks::{
    prepare_stack, slot_guard, stack_frame, Scheduler, TaskState, STACK_BOTTOM, STACK_TOP, TASK_STACK_REGION,
};

#[test]
fn init_holds_only_the_shell() {
    let s = Scheduler::init();
    assert_eq!(s.tasks.len(), 1);
    assert_eq!(s.current, 0);
    assert_eq!(s.tasks[0].name, "shell");
    assert_eq!(s.tasks[0].stack_bottom, 0xffff_a000_0000_1000);
    assert_eq!(s.tasks[0].stack_top, 0xffff_a000_0001_1000);
    assert_eq!(STACK_BOTTOM, 0xffff_a000_0000_1000);
    assert_eq!(STACK_TOP, STACK_BOTTOM + 16 * 4096);
    assert_eq!(s.tasks[0].state, TaskState::Ready);
}

#[test]
fn stack_slots_are_laid_out_per_id() {
    assert_eq!(slot_guard(0), TASK_STACK_REGION);
    assert_eq!(slot_guard(3), 0xffff_b000_0000_0000 + 3 * 64 * 4096);
    let f = stack_frame(2);
    assert_eq!(f.guard, 0xffff_b000_0008_0000);
    assert_eq!(f.bottom, 0xffff_b000_0008_1000);
    assert_eq!(f.top, 0xffff_b000_0009_1000);
    assert_eq!(f.rsp, f.top - 80);
    assert_eq!(f.entry_slot, f.top - 32);
    assert_eq!(f.exit_slot, f.top - 24);
    assert_eq!(prepare_stack(1000), 920);
}

#[test]
fn spawn_appends_ready_tasks() {
    let mut s = Scheduler::init();
    let a = s.spawn_task("doom");
    let b = s.spawn_task("fbtest");
    assert_eq!((a, b), (1, 2));
    assert_eq!(s.tasks[1].name, "doom");
    assert_eq!(s.tasks[2].id, 2);
    assert_eq!(s.tasks[2].stack_bottom, slot_guard(2) + 4096);
    assert_eq!(s.tasks[2].rsp, stack_frame(2).rsp);
    assert_eq!(s.tasks[2].state, TaskState::Ready);
    assert_eq!(s.current, 0);
}

#[test]
fn schedule_is_round_robin() {
    let mut s = Scheduler::init();
    assert_eq!(s.schedule(0), None);
    s.spawn_task("a");
    s.spawn_task("b");
    assert_eq!(s.schedule(0), Some((0, 1)));
    assert_eq!(s.schedule(0), Some((1, 2)));
    assert_eq!(s.schedule(0), Some((2, 0)));
    assert_eq!(s.current, 0);
}

#[test]
fn schedule_skips_dead_and_sleeping_tasks() {
    let mut s = Scheduler::init();
    s.spawn_task("a");
    s.spawn_task("b");
    s.spawn_task("c");
    s.tasks[1].state = TaskState::Dead;
    s.tasks[2].state = TaskState::Blocked { until: 50 };
    assert_eq!(s.schedule(10), Some((0, 3)));
    assert_eq!(s.schedule(10), Some((3, 0)));
    assert_eq!(s.schedule(50), Some((0, 2)));
    assert_eq!(s.tasks[2].state, TaskState::Ready);
}

#[test]
fn nothing_runnable_keeps_current() {
    let mut s = Scheduler::init();
    s.spawn_task("a");
    s.tasks[1].state = TaskState::Dead;
    assert_eq!(s.schedule(5), None);
    assert_eq!(s.current, 0);
}

#[test]
fn sleep_blocks_until_wake_tick() {
    let mut s = Scheduler::init();
    s.spawn_task("a");
    assert_eq!(s.schedule(0), Some((0, 1)));
    // 250 ms at 100 Hz is 25 ticks.
    assert_eq!(s.sleep(100, 250), Some((1, 0)));
    assert_eq!(s.tasks[1].state, TaskState::Blocked { until: 125 });
    assert_eq!(s.schedule(124), None);
    assert_eq!(s.schedule(125), Some((0, 1)));
}

#[test]
fn sleep_with_nobody_else_stays() {
    let mut s = Scheduler::init();
    assert_eq!(s.sleep(7, 10), None);
    assert_eq!(s.tasks[0].state, TaskState::Blocked { until: 8 });
}

#[test]
fn block_and_wake() {
    let mut s = Scheduler::init();
    s.spawn_task("a");
    assert_eq!(s.block_task(0, 3), Some((0, 1)));
    assert_eq!(s.tasks[0].state, TaskState::Blocked { until: u64::MAX });
    assert_eq!(s.schedule(1_000_000), None);
    s.wake(0);
    assert_eq!(s.tasks[0].state, TaskState::Ready);
    assert_eq!(s.schedule(1_000_000), Some((1, 0)));
}

#[test]
fn exit_marks_current_dead() {
    let mut s = Scheduler::init();
    s.spawn_task("a");
    s.schedule(0);
    s.exit_current();
    assert_eq!(s.tasks[1].state, TaskState::Dead);
    assert_eq!(s.schedule(0), Some((1, 0)));
    assert_eq!(s.schedule(0), None);
}

#[test]
fn stack_slots_run_out_at_the_top_of_the_address_space() {
    assert!(catos::tasks::slot_available(0));
    assert!(catos::tasks::slot_available(1000));
    assert!(!catos::tasks::slot_available(u64::MAX));
    assert!(catos::tasks::slot_available(0x1000_0000));
    assert!(!catos::tasks::slot_available(0x2000_0000));
}

#[test]
fn a_ready_task_runs_within_n_minus_one_passes() {
    let mut s = Scheduler::init();
    for name in ["a", "b", "c", "d"] {
        s.spawn_task(name);
    }
    // Task 4 is the farthest from the shell; every other task stays ready.
    let mut passes = 0;
    while s.current != 4 {
        s.schedule(0);
        passes += 1;
    }
    assert!(passes <= s.tasks.len() - 1);
    assert_eq!(passes, 4);
}
