use task_core::kernel::{add_initproc, Kernel, SchedulePolicy};
use task_core::mem::{MemorySet, PERM_R, PERM_U};
use task_core::syscall::{sys_get_time, sys_mmap, sys_munmap, sys_sbrk, sys_task_info};
use task_core::PAGE_SIZE;

fn kernel_with_running_init() -> Kernel {
    let mut k = Kernel::new();
    add_initproc(&mut k);
    let t = k.run_next_task(SchedulePolicy::Fifo).unwrap();
    assert_eq!(t, 0);
    k
}

#[test]
fn mmap_rejects_misaligned_start() {
    let mut k = kernel_with_running_init();
    assert_eq!(sys_mmap(&mut k, PAGE_SIZE + 1, 100, 0x3), -1);
    assert!(k.tasks[0].memory_set.areas.is_empty());
}

#[test]
fn mmap_rejects_prot_without_rwx_bits() {
    let mut k = kernel_with_running_init();
    assert_eq!(sys_mmap(&mut k, 0x10000, 100, 0x0), -1);
    assert!(k.tasks[0].memory_set.areas.is_empty());
}

#[test]
fn mmap_rejects_prot_with_extra_bits() {
    let mut k = kernel_with_running_init();
    assert_eq!(sys_mmap(&mut k, 0x10000, 100, 0x8), -1);
    assert_eq!(sys_mmap(&mut k, 0x10000, 100, 0xb), -1);
    assert!(k.tasks[0].memory_set.areas.is_empty());
}

#[test]
fn mmap_rejects_overlap_with_existing_mapping() {
    let mut k = kernel_with_running_init();
    assert_eq!(sys_mmap(&mut k, 0x10000, 2 * PAGE_SIZE, 0x3), 0);
    // same range, a strict sub-range, and a straddling range all collide
    assert_eq!(sys_mmap(&mut k, 0x10000, PAGE_SIZE, 0x1), -1);
    assert_eq!(sys_mmap(&mut k, 0x11000, 1, 0x1), -1);
    assert_eq!(sys_mmap(&mut k, 0x11000, 2 * PAGE_SIZE, 0x1), -1);
    // the mapping was never silently replaced
    assert_eq!(k.tasks[0].memory_set.areas.len(), 1);
}

#[test]
fn mmap_rounds_length_up_to_whole_pages() {
    let mut k = kernel_with_running_init();
    assert_eq!(sys_mmap(&mut k, 0x10000, 1, 0x7), 0);
    let area = k.tasks[0].memory_set.areas[0];
    assert_eq!(area.start, 0x10000);
    assert_eq!(area.end, 0x10000 + PAGE_SIZE);
}

#[test]
fn mmap_then_munmap_of_exact_range_succeeds() {
    let mut k = kernel_with_running_init();
    assert_eq!(sys_mmap(&mut k, 0x10000, 3 * PAGE_SIZE - 17, 0x3), 0);
    assert_eq!(sys_munmap(&mut k, 0x10000, 3 * PAGE_SIZE - 17), 0);
    assert!(k.tasks[0].memory_set.areas.is_empty());
}

#[test]
fn munmap_of_already_freed_range_fails() {
    let mut k = kernel_with_running_init();
    assert_eq!(sys_mmap(&mut k, 0x10000, PAGE_SIZE, 0x3), 0);
    assert_eq!(sys_munmap(&mut k, 0x10000, PAGE_SIZE), 0);
    assert_eq!(sys_munmap(&mut k, 0x10000, PAGE_SIZE), -1);
}

#[test]
fn munmap_of_never_mapped_range_fails() {
    let mut k = kernel_with_running_init();
    assert_eq!(sys_munmap(&mut k, 0x40000, PAGE_SIZE), -1);
}

#[test]
fn munmap_of_partial_or_oversized_range_fails() {
    let mut k = kernel_with_running_init();
    assert_eq!(sys_mmap(&mut k, 0x10000, 2 * PAGE_SIZE, 0x3), 0);
    // one page out of a two-page area does not match it exactly
    assert_eq!(sys_munmap(&mut k, 0x10000, PAGE_SIZE), -1);
    // a range reaching past the area is not fully tiled either
    assert_eq!(sys_munmap(&mut k, 0x10000, 3 * PAGE_SIZE), -1);
    assert_eq!(k.tasks[0].memory_set.areas.len(), 1);
}

#[test]
fn munmap_spanning_two_adjacent_areas_succeeds() {
    let mut k = kernel_with_running_init();
    assert_eq!(sys_mmap(&mut k, 0x10000, PAGE_SIZE, 0x3), 0);
    assert_eq!(sys_mmap(&mut k, 0x11000, PAGE_SIZE, 0x5), 0);
    assert_eq!(sys_munmap(&mut k, 0x10000, 2 * PAGE_SIZE), 0);
    assert!(k.tasks[0].memory_set.areas.is_empty());
}

#[test]
fn sbrk_grow_then_shrink_below_floor_fails() {
    let mut k = kernel_with_running_init();
    // initial brk is 0: growing by one page returns the old boundary
    assert_eq!(sys_sbrk(&mut k, 4096), 0);
    assert_eq!(k.tasks[0].program_brk, 4096);
    // shrinking past the floor fails and changes nothing
    assert_eq!(sys_sbrk(&mut k, -8192), -1);
    assert_eq!(k.tasks[0].program_brk, 4096);
    // a shrink back to the floor itself is allowed
    assert_eq!(sys_sbrk(&mut k, -4096), 4096);
    assert_eq!(k.tasks[0].program_brk, 0);
}

#[test]
fn zero_length_requests_round_to_nothing_and_succeed() {
    let mut k = kernel_with_running_init();
    assert_eq!(sys_mmap(&mut k, 0x10000, 0, 0x3), 0);
    assert!(k.tasks[0].memory_set.areas.is_empty());
    assert_eq!(sys_munmap(&mut k, 0x10000, 0), 0);
    // misalignment is still rejected first
    assert_eq!(sys_mmap(&mut k, 0x10001, 0, 0x3), -1);
}

#[test]
fn memory_set_conflict_checks_are_exact() {
    let mut ms = MemorySet::new();
    assert!(!ms.is_conflict(0x1000, 0x2000));
    ms.insert_framed_area(0x1000, 0x3000, PERM_U | PERM_R);
    assert!(ms.is_conflict(0x1000, 0x3000));
    assert!(ms.is_conflict(0x2000, 0x4000));
    assert!(!ms.is_conflict(0x3000, 0x4000));
    assert!(!ms.is_conflict(0x0, 0x1000));
    // reclaiming the exact range empties the set; a repeat finds nothing
    assert!(ms.recycle_map_area(0x1000, 0x3000));
    assert!(!ms.recycle_map_area(0x1000, 0x3000));
    assert!(!ms.is_conflict(0x1000, 0x3000));
}

#[test]
fn get_time_splits_microseconds() {
    let tv = sys_get_time(3_123_456);
    assert_eq!(tv.sec, 3);
    assert_eq!(tv.usec, 123_456);
    let tv = sys_get_time(999_999);
    assert_eq!(tv.sec, 0);
    assert_eq!(tv.usec, 999_999);
    let tv = sys_get_time(2_000_000);
    assert_eq!(tv.sec, 2);
    assert_eq!(tv.usec, 0);
}

#[test]
fn task_info_reports_status_counters_and_time() {
    let mut k = kernel_with_running_init();
    task_core::kernel::increment_syscall_stat(&mut k, 64);
    task_core::kernel::increment_syscall_stat(&mut k, 64);
    task_core::kernel::increment_syscall_stat(&mut k, 169);
    let info = sys_task_info(&k, 1234).unwrap();
    assert_eq!(info.status, task_core::task::TaskStatus::Running);
    assert_eq!(info.syscall_times[64], 2);
    assert_eq!(info.syscall_times[169], 1);
    assert_eq!(info.syscall_times[0], 0);
    assert_eq!(info.time, 1234);
}
