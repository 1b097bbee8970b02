use task_core::id::{kernel_stack_position, RecycleAllocator, KERNEL_STACK_SIZE};
use task_core::kernel::{add_initproc, suspend_current_and_run_next, Kernel, SchedulePolicy};
use task_core::syscall::{sys_exit, sys_yield};
use task_core::task::TaskStatus;

#[test]
fn allocator_prefers_smallest_recycled_id() {
    let mut a = RecycleAllocator::new();
    assert_eq!(a.allocate(), 0);
    assert_eq!(a.allocate(), 1);
    assert_eq!(a.allocate(), 2);
    a.deallocate(1);
    assert_eq!(a.allocate(), 1);
    a.deallocate(2);
    a.deallocate(0);
    assert_eq!(a.allocate(), 0);
    assert_eq!(a.allocate(), 2);
    assert_eq!(a.allocate(), 3);
}

#[test]
fn kernel_stack_position_is_a_function_of_the_slot() {
    let (bottom0, top0) = kernel_stack_position(0);
    assert_eq!(top0, 0xffff_f000);
    assert_eq!(bottom0, top0 - KERNEL_STACK_SIZE);
    let (bottom1, top1) = kernel_stack_position(1);
    assert_eq!(top1, top0 - (KERNEL_STACK_SIZE + task_core::PAGE_SIZE));
    assert_eq!(bottom1, top1 - KERNEL_STACK_SIZE);
}

#[test]
fn spawned_tasks_get_fresh_sequential_pids() {
    let mut k = Kernel::new();
    let a = k.spawn_task(0, 8);
    let b = k.spawn_task(0, 8);
    let c = k.spawn_task(a, 8);
    assert_eq!(k.tasks[a].pid, 1);
    assert_eq!(k.tasks[b].pid, 2);
    assert_eq!(k.tasks[c].pid, 3);
    assert_eq!(k.tasks[a].parent, Some(0));
    assert_eq!(k.tasks[c].parent, Some(a));
    assert_eq!(k.tasks[0].children, vec![a, b]);
    assert_eq!(k.tasks[a].children, vec![c]);
}

#[test]
fn yield_requeues_the_current_task() {
    let mut k = Kernel::new();
    add_initproc(&mut k);
    assert_eq!(k.run_next_task(SchedulePolicy::Fifo), Some(0));
    assert_eq!(sys_yield(&mut k), 0);
    assert_eq!(k.current_task(), None);
    assert_eq!(k.tasks[0].status, TaskStatus::Ready);
    assert_eq!(k.manager.ready_queue, vec![0]);
}

#[test]
fn exit_moves_every_child_to_init_exactly_once() {
    let mut k = Kernel::new();
    add_initproc(&mut k);
    assert_eq!(k.run_next_task(SchedulePolicy::Fifo), Some(0));
    let parent = k.spawn_task(0, 8);
    let kid_a = k.spawn_task(parent, 8);
    let kid_b = k.spawn_task(parent, 8);
    assert_eq!(k.tasks[parent].children, vec![kid_a, kid_b]);
    // hand the hart to the parent, then let it exit
    suspend_current_and_run_next(&mut k);
    assert_eq!(k.run_next_task(SchedulePolicy::Fifo), Some(parent));
    sys_exit(&mut k, 42);
    assert_eq!(k.tasks[parent].status, TaskStatus::Zombie);
    assert_eq!(k.tasks[parent].exit_code, 42);
    assert!(k.tasks[parent].children.is_empty());
    assert!(k.tasks[parent].memory_set.areas.is_empty());
    // init owns the orphans: its own child first, then both grandchildren,
    // each exactly once
    assert_eq!(k.tasks[0].children, vec![parent, kid_a, kid_b]);
    assert_eq!(k.tasks[kid_a].parent, Some(0));
    assert_eq!(k.tasks[kid_b].parent, Some(0));
}

#[test]
fn exit_reclaims_the_address_space() {
    let mut k = Kernel::new();
    add_initproc(&mut k);
    assert_eq!(k.run_next_task(SchedulePolicy::Fifo), Some(0));
    let worker = k.spawn_task(0, 8);
    suspend_current_and_run_next(&mut k);
    assert_eq!(k.run_next_task(SchedulePolicy::Fifo), Some(worker));
    assert_eq!(task_core::syscall::sys_mmap(&mut k, 0x10000, 4096, 0x3), 0);
    assert_eq!(k.tasks[worker].memory_set.areas.len(), 1);
    sys_exit(&mut k, 0);
    assert!(k.tasks[worker].memory_set.areas.is_empty());
}

#[test]
fn wait_child_reaps_a_zombie_child_once() {
    let mut k = Kernel::new();
    add_initproc(&mut k);
    assert_eq!(k.run_next_task(SchedulePolicy::Fifo), Some(0));
    let worker = k.spawn_task(0, 8);
    let worker_pid = k.tasks[worker].pid;
    suspend_current_and_run_next(&mut k);
    assert_eq!(k.run_next_task(SchedulePolicy::Fifo), Some(worker));
    sys_exit(&mut k, -7);
    // init runs again and reaps the zombie
    assert_eq!(k.run_next_task(SchedulePolicy::Fifo), Some(0));
    assert_eq!(k.wait_child(worker_pid), Some(-7));
    assert!(!k.tasks[0].children.contains(&worker));
    // a second reap of the same pid finds nothing
    assert_eq!(k.wait_child(worker_pid), None);
}

#[test]
fn wait_child_ignores_children_that_still_run() {
    let mut k = Kernel::new();
    add_initproc(&mut k);
    assert_eq!(k.run_next_task(SchedulePolicy::Fifo), Some(0));
    let worker = k.spawn_task(0, 8);
    let worker_pid = k.tasks[worker].pid;
    // the child is Ready, not a Zombie: nothing to reap
    assert_eq!(k.wait_child(worker_pid), None);
    assert_eq!(k.tasks[0].children, vec![worker]);
}

#[test]
fn syscall_counter_saturates_nowhere_in_normal_use() {
    let mut k = Kernel::new();
    add_initproc(&mut k);
    assert_eq!(k.run_next_task(SchedulePolicy::Fifo), Some(0));
    for _ in 0..100 {
        task_core::kernel::increment_syscall_stat(&mut k, 0);
    }
    assert_eq!(k.tasks[0].syscall_stats[0], 100);
}
