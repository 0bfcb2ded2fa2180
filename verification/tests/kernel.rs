use arcaea::kernel::allocator::{BitmapAllocator, POOL_START, PAGE_SIZE};
use arcaea::kernel::context::TrapFrame;
use arcaea::kernel::lca_driver::init;
use arcaea::kernel::paging::{gigapage_entry, map_boot_gigapages, satp_value, PageTable};
use arcaea::kernel::sbi::{sbi_print, sbi_print_char, sbi_println, SbiCall};
use arcaea::kernel::task::{Task, TaskState};

#[test]
fn trap_frame_starts_zeroed() {
    let f = TrapFrame::new();
    assert_eq!(f.ra, 0);
    assert_eq!(f.sp, 0);
    assert_eq!(f.t6, 0);
    assert_eq!(f.sepc, 0);
    assert_eq!(f.sstatus, 0);
}

#[test]
fn new_task_is_ready_with_aligned_stack() {
    let t = Task::new(7, 0x8020_1000, 0x1003);
    assert_eq!(t.id, 7);
    assert_eq!(t.state, TaskState::Ready);
    assert_eq!(t.context.sp, 0x2000);
    assert_eq!(t.context.sepc, 0x8020_1000);
    assert_eq!(t.context.sstatus, 0x102);
    assert!(t.kernel_stack.iter().all(|b| *b == 0));
}

#[test]
fn page_table_starts_invalid_and_boot_map_sets_two_gigapages() {
    let mut pt = PageTable::new();
    assert!(pt.entries.iter().all(|e| e.0 == 0));
    map_boot_gigapages(&mut pt);
    assert_eq!(pt.entries[0].0, 0xCF);
    assert_eq!(pt.entries[2].0, 0x2000_00CF);
    assert_eq!(pt.entries[1].0, 0);
    assert_eq!(gigapage_entry(0x8000_0000).0, 0x2000_00CF);
    assert_eq!(satp_value(0x8020_3000), (8u64 << 60) | 0x80203);
}

#[test]
fn sbi_console_calls() {
    assert_eq!(sbi_print_char(b'A'), SbiCall { eid: 1, fid: 0, arg0: 65 });
    let calls = sbi_print("hi");
    assert_eq!(calls.iter().map(|c| c.arg0).collect::<Vec<_>>(), vec![104, 105]);
    let calls = sbi_println("x");
    assert_eq!(calls.iter().map(|c| c.arg0).collect::<Vec<_>>(), vec![120, 13, 10]);
}

#[test]
fn lca_driver_reports_success() {
    let log = init();
    assert_eq!(log.len(), 6);
    assert_eq!(log[3], "[LCA] Verification PASSED! Dynamic Memory R/W OK.");
    assert_eq!(log[5], "[LCA] Crystal Storage Online.");
}

#[test]
fn allocator_hands_out_lowest_free_pages() {
    let mut a = BitmapAllocator::new();
    assert_eq!(a.allocate(16), 0, "uninitialized allocator gives null");
    a.init();
    assert_eq!(a.allocate(16), POOL_START);
    assert_eq!(a.allocate(PAGE_SIZE), POOL_START + PAGE_SIZE);
    assert_eq!(a.allocate(PAGE_SIZE + 1), 0, "more than a page is refused");
    a.free(POOL_START);
    assert_eq!(a.allocate_page(), Some(POOL_START));
    assert_eq!(a.allocate_page(), Some(POOL_START + 2 * PAGE_SIZE));
    a.free(0x1000);
    assert_eq!(a.allocate_page(), Some(POOL_START + 3 * PAGE_SIZE));
}

#[test]
fn allocator_runs_out_after_all_pages() {
    let mut a = BitmapAllocator::new();
    a.init();
    for i in 0..1024 {
        assert_eq!(a.allocate_page(), Some(POOL_START + i * PAGE_SIZE));
    }
    assert_eq!(a.allocate_page(), None);
    a.deallocate_page(POOL_START + 517 * PAGE_SIZE + 12);
    assert_eq!(a.allocate_page(), Some(POOL_START + 517 * PAGE_SIZE));
}

use arcaea::kernel::log::TrapLog;
use arcaea::kernel::trap::rust_trap_handler;

fn printed(calls: &[SbiCall]) -> Vec<u8> {
    calls.iter().map(|c| c.arg0 as u8).collect()
}

#[test]
fn trap_log_flushes_what_was_written_in_order() {
    let mut log = TrapLog::new();
    log.trap_log_write("ab");
    log.trap_log_write_hex(0x1f);
    log.trap_log_write("!");
    let calls = log.flush_logs();
    assert_eq!(printed(&calls), b"ab0x000000000000001f!".to_vec());
    assert!(calls.iter().all(|c| c.eid == 1 && c.fid == 0));
    assert!(log.flush_logs().is_empty());
}

#[test]
fn trap_log_drops_what_does_not_fit() {
    let mut log = TrapLog::new();
    let long = "x".repeat(600);
    log.trap_log_write(&long);
    log.trap_log_write("y");
    let out = printed(&log.flush_logs());
    assert_eq!(out.len(), 511);
    assert!(out.iter().all(|b| *b == b'x'));
    // The ring wraps around after a flush.
    log.trap_log_write("hello");
    assert_eq!(printed(&log.flush_logs()), b"hello".to_vec());
}

#[test]
fn hex_digits_are_lowercase_and_padded() {
    let mut log = TrapLog::new();
    log.trap_log_write_hex(0xDEAD_BEEF_0000_0009);
    assert_eq!(printed(&log.flush_logs()), b"0xdeadbeef00000009".to_vec());
}

#[test]
fn trap_handler_logs_exceptions_and_skips_the_instruction() {
    let mut log = TrapLog::new();
    assert_eq!(rust_trap_handler(&mut log, 9, 0x8020_0000), Some(0x8020_0004));
    let text = String::from_utf8(printed(&log.flush_logs())).unwrap();
    assert_eq!(
        text,
        "\r\n[TRAP] Exception detected! scause=0x0000000000000009\r\n[TRAP] Type: Environment Call (ecall)\r\n"
    );
    rust_trap_handler(&mut log, 13, 0);
    let text = String::from_utf8(printed(&log.flush_logs())).unwrap();
    assert!(text.ends_with("[TRAP] Type: Load Access Fault\r\n"));
    rust_trap_handler(&mut log, 3, 0);
    let text = String::from_utf8(printed(&log.flush_logs())).unwrap();
    assert!(text.ends_with("[TRAP] Type: Breakpoint (ebreak)\r\n"));
    rust_trap_handler(&mut log, 2, 0);
    let text = String::from_utf8(printed(&log.flush_logs())).unwrap();
    assert!(text.ends_with("[TRAP] Type: Unknown Exception\r\n"));
}

#[test]
fn trap_handler_ignores_interrupts() {
    let mut log = TrapLog::new();
    assert_eq!(rust_trap_handler(&mut log, 0x8000_0000_0000_0005, 0x100), None);
    assert!(log.flush_logs().is_empty());
}

#[test]
fn freeing_the_page_just_allocated_restores_the_allocator() {
    let mut a = BitmapAllocator::new();
    a.init();
    a.allocate_page();
    a.allocate_page();
    a.free(POOL_START);
    let first = a.allocate_page();
    assert_eq!(first, Some(POOL_START));
    a.deallocate_page(first.unwrap());
    // The same page comes back, then the next free one after it.
    assert_eq!(a.allocate_page(), Some(POOL_START));
    assert_eq!(a.allocate_page(), Some(POOL_START + 2 * PAGE_SIZE));
}
