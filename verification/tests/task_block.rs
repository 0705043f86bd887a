use task_sync::task::task::{vpn_range, AreaPlan, BrkRequest, TaskControlBlock, TaskStatus};

fn tcb() -> TaskControlBlock {
    TaskControlBlock::new(0x10000, 0x80123, 0x8000_0000_0008_0000, 0xffff_f000)
}

#[test]
fn new_task_is_ready_with_an_empty_heap() {
    let t = tcb();
    assert!(t.task_status == TaskStatus::Ready);
    assert_eq!(t.base_size, 0x10000);
    assert_eq!(t.heap_bottom, 0x10000);
    assert_eq!(t.program_brk, 0x10000);
    assert_eq!(t.get_trap_cx(), 0x80123);
    assert_eq!(t.get_user_token(), 0x8000_0000_0008_0000);
}

#[test]
fn program_break_moves() {
    let mut t = tcb();
    assert_eq!(
        t.brk_request(4096),
        Some(BrkRequest { shrink: false, heap_bottom: 0x10000, new_end: 0x11000 })
    );
    assert_eq!(t.change_program_brk(4096, true), Some(0x10000));
    assert_eq!(t.program_brk, 0x11000);
    assert_eq!(t.change_program_brk(4096, false), None);
    assert_eq!(t.program_brk, 0x11000);
    assert_eq!(t.brk_request(-8192), None);
    assert_eq!(t.change_program_brk(-8192, true), None);
    assert_eq!(t.program_brk, 0x11000);
    assert_eq!(
        t.brk_request(-4096),
        Some(BrkRequest { shrink: true, heap_bottom: 0x10000, new_end: 0x10000 })
    );
    assert_eq!(t.change_program_brk(-4096, true), Some(0x11000));
    assert_eq!(t.program_brk, 0x10000);
}

#[test]
fn page_ranges() {
    assert_eq!(vpn_range(0x1000, 0x1001), (1, 3));
    assert_eq!(vpn_range(0x1000, 0), (1, 1));
    assert_eq!(vpn_range(0, 0), (0, 0));
    assert_eq!(vpn_range(0x1800, 0x800), (1, 2));
}

#[test]
fn map_refuses_bad_requests() {
    let t = tcb();
    let refused = AreaPlan { ret: -1, first_vpn: 0, pages: 0, flags: 0 };
    assert_eq!(t.map_new_area_by_address(0x1000, 0x1000, 0, &vec![None]), refused);
    assert_eq!(t.map_new_area_by_address(0x1000, 0x1000, 8, &vec![None]), refused);
    assert_eq!(t.map_new_area_by_address(0x1001, 0x1000, 1, &vec![None, None]), refused);
}

#[test]
fn map_stops_at_a_mapped_page() {
    let t = tcb();
    assert_eq!(
        t.map_new_area_by_address(0x1000, 0x3000, 3, &vec![None, Some(false), Some(true)]),
        AreaPlan { ret: -1, first_vpn: 1, pages: 2, flags: 0x16 }
    );
    assert_eq!(
        t.map_new_area_by_address(0x2000, 0x2001, 7, &vec![None, None, Some(false)]),
        AreaPlan { ret: 0, first_vpn: 2, pages: 3, flags: 0x1e }
    );
}

#[test]
fn unmap_stops_at_an_unmapped_page() {
    let t = tcb();
    assert_eq!(
        t.unmap_area_by_address(0x1000, 0x2000, &vec![Some(true), Some(false)]),
        AreaPlan { ret: -1, first_vpn: 1, pages: 1, flags: 0 }
    );
    assert_eq!(
        t.unmap_area_by_address(0x1800, 0x1000, &vec![Some(true), Some(true)]),
        AreaPlan { ret: 0, first_vpn: 1, pages: 2, flags: 0 }
    );
}

#[test]
fn unmap_after_a_successful_map_takes_the_same_pages() {
    let t = tcb();
    let map = t.map_new_area_by_address(0x3000, 0x2000, 3, &vec![None, Some(false)]);
    assert_eq!(map, AreaPlan { ret: 0, first_vpn: 3, pages: 2, flags: 0x16 });
    let unmap = t.unmap_area_by_address(0x3000, 0x2000, &vec![Some(true), Some(true)]);
    assert_eq!(unmap, AreaPlan { ret: 0, first_vpn: 3, pages: 2, flags: 0 });
}
