//! Types related to task management: the control block of a task, its
//! program break, and the checks of its map and unmap requests.
use vstd::prelude::*;

verus! {

/// Bytes in a page.
pub const PAGE_SIZE: usize = 4096;

/// The user-accessible bit of a page-table entry's flags.
pub const PTE_USER: u8 = 0x10;

/// Task status: UnInit, Ready, Running, Exited.
#[derive(Clone, Copy, PartialEq, Eq, Structural, Debug)]
pub enum TaskStatus {
    /// Uninitialized.
    UnInit,
    /// Ready to run.
    Ready,
    /// Running.
    Running,
    /// Exited.
    Exited,
}

/// The task control block (TCB) of a task, with its address space held by
/// the values that the library reads of it.
pub struct TaskControlBlock {
    /// Top of the task's kernel stack, where its context returns to user mode.
    pub kernel_stack_top: usize,
    /// Maintain the execution status of the current task.
    pub task_status: TaskStatus,
    /// The token (page-table root) of the application address space.
    pub user_token: usize,
    /// The phys page number of the trap context.
    pub trap_cx_ppn: usize,
    /// The size (top address) of the program loaded from the ELF file.
    pub base_size: usize,
    /// Heap bottom.
    pub heap_bottom: usize,
    /// Program break.
    pub program_brk: usize,
}

/// How the program break is to be moved: the heap, from `heap_bottom`,
/// shrinks or grows so that it ends at `new_end`.
#[derive(Clone, Copy, PartialEq, Eq, Structural, Debug)]
pub struct BrkRequest {
    /// The heap shrinks (the break moves down) rather than grows.
    pub shrink: bool,
    /// Heap bottom.
    pub heap_bottom: usize,
    /// Where the heap is to end.
    pub new_end: usize,
}

/// What a map or unmap request comes to: the syscall's return value, and
/// the pages from `first_vpn` on, `pages` of them, that are mapped (with
/// `flags`) or unmapped before it returns.
#[derive(Clone, Copy, PartialEq, Eq, Structural, Debug)]
pub struct AreaPlan {
    /// The syscall's return value: 0, or -1 for a refused request.
    pub ret: isize,
    /// The first virtual page number of the range.
    pub first_vpn: usize,
    /// How many pages, from `first_vpn` on, are mapped or unmapped.
    pub pages: usize,
    /// Page-table-entry flags for the mapped pages.
    pub flags: u8,
}

/// The page holding address `va`.
pub open spec fn vpn_floor(va: int) -> int {
    va / PAGE_SIZE as int
}

/// The first page at or above address `va`.
pub open spec fn vpn_ceil(va: int) -> int {
    if va == 0 {
        0
    } else {
        (va - 1 + PAGE_SIZE) / PAGE_SIZE as int
    }
}

/// The page range of `[start, start + len)` can be computed without overflow.
pub open spec fn area_in_range(start: usize, len: usize) -> bool {
    start + len + PAGE_SIZE - 1 <= usize::MAX
}

/// The first index at or after `k` whose page-table entry exists and is
/// valid, or the length when there is none.
pub open spec fn first_valid(ptes: Seq<Option<bool>>, k: int) -> int
    decreases ptes.len() - k,
{
    if k < 0 || k >= ptes.len() {
        ptes.len() as int
    } else if ptes[k] == Some(true) {
        k
    } else {
        first_valid(ptes, k + 1)
    }
}

/// The first index at or after `k` whose page-table entry is missing or not
/// valid, or the length when there is none.
pub open spec fn first_not_valid(ptes: Seq<Option<bool>>, k: int) -> int
    decreases ptes.len() - k,
{
    if k < 0 || k >= ptes.len() {
        ptes.len() as int
    } else if ptes[k] != Some(true) {
        k
    } else {
        first_not_valid(ptes, k + 1)
    }
}

/// A permission word names only the read, write and execute bits, and at
/// least one of them.
pub open spec fn port_ok(port: usize) -> bool {
    !(port == 0 || port & !0x7usize != 0)
}

/// The page-table-entry flags for permission word `port`: its bits moved
/// up past the valid bit, and the user bit.
pub open spec fn port_flags(port: usize) -> u8 {
    ((port << 1usize) as u8) | PTE_USER
}

/// The decision on a map request for `[start, start + len)` with
/// permissions `port`, where `ptes` tells, page by page from the first of
/// the range, whether an entry exists and is valid: refused (-1) for a bad
/// `port` or an unaligned `start`; otherwise the pages up to the first that
/// is already mapped are mapped, and the result is -1 if there is one, else 0.
pub open spec fn map_plan(start: usize, len: usize, port: usize, ptes: Seq<Option<bool>>) -> AreaPlan {
    if !port_ok(port) || start % PAGE_SIZE != 0 {
        AreaPlan { ret: -1isize, first_vpn: 0, pages: 0, flags: 0 }
    } else {
        let stop = first_valid(ptes, 0);
        AreaPlan {
            ret: if stop < ptes.len() {
                -1isize
            } else {
                0isize
            },
            first_vpn: vpn_floor(start as int) as usize,
            pages: stop as usize,
            flags: port_flags(port),
        }
    }
}

/// The decision on an unmap request for `[start, start + len)`, where
/// `ptes` tells, page by page from the first of the range, whether an entry
/// exists and is valid: the pages up to the first that is not valid are
/// unmapped, and the result is -1 if there is one, else 0.
pub open spec fn unmap_plan(start: usize, ptes: Seq<Option<bool>>) -> AreaPlan {
    let stop = first_not_valid(ptes, 0);
    AreaPlan {
        ret: if stop < ptes.len() {
            -1isize
        } else {
            0isize
        },
        first_vpn: vpn_floor(start as int) as usize,
        pages: stop as usize,
        flags: 0,
    }
}

/// The break moved by `size`: `brk` read as a signed address, plus `size`.
pub open spec fn moved_brk(brk: usize, size: i32) -> int {
    (brk as isize) as int + size as int
}

/// The break move by `size` stays in the range of a signed address.
pub open spec fn brk_move_fits(brk: usize, size: i32) -> bool {
    isize::MIN <= moved_brk(brk, size) <= isize::MAX
}

/// Where a break move by `size` from `brk` over a heap from `heap_bottom`
/// (both read as signed addresses) leaves the break, and what it returns:
/// below the heap bottom it is refused; otherwise, when the address space
/// could be resized, the break moves and the old one is returned; else
/// nothing changes.
pub open spec fn brk_after(heap_bottom: usize, brk: usize, size: i32, resized: bool) -> (
    usize,
    Option<usize>,
) {
    let new_brk = moved_brk(brk, size);
    if new_brk < (heap_bottom as isize) as int {
        (brk, None)
    } else if resized {
        ((new_brk as isize) as usize, Some(brk))
    } else {
        (brk, None)
    }
}

/// The page range `[floor(start), ceil(start + len))` of an area.
pub fn vpn_range(start: usize, len: usize) -> (range: (usize, usize))
    requires
        area_in_range(start, len),
    ensures
        range.0 as int == vpn_floor(start as int),
        range.1 as int == vpn_ceil(start + len),
        range.0 <= range.1,
{
    let end = start + len;
    let first = start / PAGE_SIZE;
    let last = if end == 0 {
        0
    } else {
        (end - 1 + PAGE_SIZE) / PAGE_SIZE
    };
    assert(first <= last) by (nonlinear_arith)
        requires
            first == start / 4096,
            end >= start,
            end == 0 ==> last == 0,
            end != 0 ==> last == (end - 1 + 4096) / 4096,
    ;
    (first, last)
}

impl TaskControlBlock {
    /// Get the trap context: the physical page it is kept in.
    pub fn get_trap_cx(&self) -> (ppn: usize)
        ensures
            ppn == self.trap_cx_ppn,
    {
        self.trap_cx_ppn
    }

    /// Get the user token.
    pub fn get_user_token(&self) -> (token: usize)
        ensures
            token == self.user_token,
    {
        self.user_token
    }

    /// A ready task for a program loaded with its user stack at `user_sp`:
    /// the heap starts, empty, at the top of the program.
    pub fn new(user_sp: usize, trap_cx_ppn: usize, user_token: usize, kernel_stack_top: usize) -> (tcb: Self)
        ensures
            tcb.task_status == TaskStatus::Ready,
            tcb.kernel_stack_top == kernel_stack_top,
            tcb.user_token == user_token,
            tcb.trap_cx_ppn == trap_cx_ppn,
            tcb.base_size == user_sp,
            tcb.heap_bottom == user_sp,
            tcb.program_brk == user_sp,
    {
        TaskControlBlock {
            kernel_stack_top,
            task_status: TaskStatus::Ready,
            user_token,
            trap_cx_ppn,
            base_size: user_sp,
            heap_bottom: user_sp,
            program_brk: user_sp,
        }
    }

    /// How the address space must be resized to move the program break by
    /// `size`; `None` when the break would go below the heap bottom.
    pub fn brk_request(&self, size: i32) -> (req: Option<BrkRequest>)
        requires
            brk_move_fits(self.program_brk, size),
        ensures
            moved_brk(self.program_brk, size) < (self.heap_bottom as isize) as int ==> req is None,
            moved_brk(self.program_brk, size) >= (self.heap_bottom as isize) as int ==> req == Some(
                BrkRequest {
                    shrink: size < 0,
                    heap_bottom: self.heap_bottom,
                    new_end: (moved_brk(self.program_brk, size) as isize) as usize,
                },
            ),
    {
        let new_brk = (#[verifier::truncate] (self.program_brk as isize)) + size as isize;
        if new_brk < #[verifier::truncate] (self.heap_bottom as isize) {
            return None;
        }
        Some(
            BrkRequest {
                shrink: size < 0,
                heap_bottom: self.heap_bottom,
                new_end: #[verifier::truncate] (new_brk as usize),
            },
        )
    }

    /// Change the location of the program break by `size`, where `resized`
    /// tells whether the address space was resized as `brk_request` asked.
    /// Returns the old break, or `None` if it failed.
    pub fn change_program_brk(&mut self, size: i32, resized: bool) -> (old_break: Option<usize>)
        requires
            brk_move_fits(old(self).program_brk, size),
        ensures
            (final(self).program_brk, old_break) == brk_after(
                old(self).heap_bottom,
                old(self).program_brk,
                size,
                resized,
            ),
            final(self).heap_bottom == old(self).heap_bottom,
            final(self).base_size == old(self).base_size,
            final(self).task_status == old(self).task_status,
            final(self).user_token == old(self).user_token,
            final(self).trap_cx_ppn == old(self).trap_cx_ppn,
            final(self).kernel_stack_top == old(self).kernel_stack_top,
    {
        let old_break = self.program_brk;
        let new_brk = (#[verifier::truncate] (self.program_brk as isize)) + size as isize;
        if new_brk < #[verifier::truncate] (self.heap_bottom as isize) {
            return None;
        }
        if resized {
            self.program_brk = #[verifier::truncate] (new_brk as usize);
            Some(old_break)
        } else {
            None
        }
    }

    /// Map a new area `[start, start + len)` with permissions `port`
    /// (execute, write, read in bits 2, 1, 0): what is mapped and what the
    /// syscall returns, given, for each page of the range from the first,
    /// whether a page-table entry exists and is valid.
    pub fn map_new_area_by_address(
        &self,
        start: usize,
        len: usize,
        port: usize,
        ptes: &Vec<Option<bool>>,
    ) -> (plan: AreaPlan)
        requires
            port_ok(port) && start % PAGE_SIZE == 0 ==> area_in_range(start, len) && ptes@.len()
                == vpn_ceil(start + len) - vpn_floor(start as int),
        ensures
            plan == map_plan(start, len, port, ptes@),
    {
        if port == 0 || (port & !0x7 != 0) {
            return AreaPlan { ret: -1, first_vpn: 0, pages: 0, flags: 0 };
        }
        if start % PAGE_SIZE != 0 {
            return AreaPlan { ret: -1, first_vpn: 0, pages: 0, flags: 0 };
        }
        let (first, _last) = vpn_range(start, len);
        let mut k: usize = 0;
        while k < ptes.len()
            invariant
                k <= ptes@.len(),
                first_valid(ptes@, 0) == first_valid(ptes@, k as int),
            ensures
                k <= ptes@.len(),
                first_valid(ptes@, 0) == first_valid(ptes@, k as int),
                k < ptes@.len() ==> ptes@[k as int] == Some(true),
            decreases ptes@.len() - k,
        {
            if ptes[k] == Some(true) {
                break;
            }
            k += 1;
        }
        let flags: u8 = (#[verifier::truncate] ((port << 1) as u8)) | PTE_USER;
        AreaPlan { ret: if k < ptes.len() { -1 } else { 0 }, first_vpn: first, pages: k, flags }
    }

    /// Unmap the area `[start, start + len)`: what is unmapped and what the
    /// syscall returns, given, for each page of the range from the first,
    /// whether a page-table entry exists and is valid.
    pub fn unmap_area_by_address(&self, start: usize, len: usize, ptes: &Vec<Option<bool>>) -> (plan:
        AreaPlan)
        requires
            area_in_range(start, len),
            ptes@.len() == vpn_ceil(start + len) - vpn_floor(start as int),
            first_not_valid(ptes@, 0) < ptes@.len() ==> ptes@[first_not_valid(ptes@, 0)] is Some,
        ensures
            plan == unmap_plan(start, ptes@),
    {
        let (first, _last) = vpn_range(start, len);
        let mut k: usize = 0;
        while k < ptes.len()
            invariant
                k <= ptes@.len(),
                first_not_valid(ptes@, 0) == first_not_valid(ptes@, k as int),
            ensures
                k <= ptes@.len(),
                first_not_valid(ptes@, 0) == first_not_valid(ptes@, k as int),
                k < ptes@.len() ==> ptes@[k as int] != Some(true),
            decreases ptes@.len() - k,
        {
            if ptes[k] != Some(true) {
                break;
            }
            k += 1;
        }
        AreaPlan { ret: if k < ptes.len() { -1 } else { 0 }, first_vpn: first, pages: k, flags: 0 }
    }
}

/// Moving the break up by `size` and then back down by as much, with both
/// resizes done, returns the break where it was, and the second move
/// returns where the first one left it.
pub proof fn lemma_brk_grow_then_shrink(heap_bottom: usize, brk: usize, size: i32)
    requires
        heap_bottom <= brk,
        size >= 0,
        brk + size <= isize::MAX,
    ensures
        brk_after(heap_bottom, brk_after(heap_bottom, brk, size, true).0, (0 - size) as i32, true)
            == (brk, Some((brk + size) as usize)),
{
}

/// The scan for a valid entry stops within the entries, or at their end.
proof fn lemma_first_valid_bound(ptes: Seq<Option<bool>>, k: int)
    requires
        0 <= k,
    ensures
        first_valid(ptes, k) <= ptes.len(),
        k <= ptes.len() ==> k <= first_valid(ptes, k),
        first_valid(ptes, k) < ptes.len() ==> ptes[first_valid(ptes, k)] == Some(true),
    decreases ptes.len() - k,
{
    if k < ptes.len() && ptes[k] != Some(true) {
        lemma_first_valid_bound(ptes, k + 1);
    }
}

/// With no valid entry from `k` on, the scan for one runs to the end.
proof fn lemma_first_valid_none(ptes: Seq<Option<bool>>, k: int)
    requires
        0 <= k <= ptes.len(),
        first_valid(ptes, k) == ptes.len(),
    ensures
        forall|j: int| k <= j < ptes.len() ==> #[trigger] ptes[j] != Some(true),
    decreases ptes.len() - k,
{
    if k < ptes.len() {
        lemma_first_valid_none(ptes, k + 1);
    }
}

/// With every entry from `k` on valid, the scan for an invalid one runs to
/// the end.
proof fn lemma_first_not_valid_all(ptes: Seq<Option<bool>>, k: int)
    requires
        0 <= k <= ptes.len(),
        forall|j: int| k <= j < ptes.len() ==> #[trigger] ptes[j] == Some(true),
    ensures
        first_not_valid(ptes, k) == ptes.len(),
    decreases ptes.len() - k,
{
    if k < ptes.len() {
        lemma_first_not_valid_all(ptes, k + 1);
    }
}

/// An area whose map request succeeded had no page mapped before, and has
/// every page mapped after; an unmap request for it then succeeds, and
/// unmaps the very pages that were mapped.
pub proof fn lemma_map_then_unmap(start: usize, len: usize, port: usize, ptes: Seq<Option<bool>>)
    requires
        map_plan(start, len, port, ptes).ret == 0,
        ptes.len() <= usize::MAX,
    ensures
        forall|j: int| 0 <= j < ptes.len() ==> #[trigger] ptes[j] != Some(true),
        map_plan(start, len, port, ptes).pages == ptes.len(),
        unmap_plan(start, Seq::new(ptes.len(), |j: int| Some(true))) == (AreaPlan {
            ret: 0,
            first_vpn: map_plan(start, len, port, ptes).first_vpn,
            pages: map_plan(start, len, port, ptes).pages,
            flags: 0,
        }),
{
    lemma_first_valid_bound(ptes, 0);
    lemma_first_valid_none(ptes, 0);
    lemma_first_not_valid_all(Seq::new(ptes.len(), |j: int| Some(true)), 0);
}

/// The flags of a mapped area follow the permission word bit by bit: the
/// read, write and execute bits (1, 2, 4 of the flags) are set exactly when
/// `port` asks for reading, writing and executing (bits 0, 1, 2 of `port`);
/// the user bit (0x10) is always set; the valid bit and the bits above the
/// user bit never are. So a read-only request never maps a writable page.
pub proof fn lemma_map_flags_follow_port(start: usize, len: usize, port: usize, ptes: Seq<Option<bool>>)
    requires
        port_ok(port),
        start % PAGE_SIZE == 0,
    ensures
        map_plan(start, len, port, ptes).flags & 0x01u8 == 0,
        (map_plan(start, len, port, ptes).flags & 0x02u8 != 0) == (port & 1usize != 0),
        (map_plan(start, len, port, ptes).flags & 0x04u8 != 0) == (port & 2usize != 0),
        (map_plan(start, len, port, ptes).flags & 0x08u8 != 0) == (port & 4usize != 0),
        map_plan(start, len, port, ptes).flags & 0x10u8 != 0,
        map_plan(start, len, port, ptes).flags & 0xe0u8 == 0,
{
    let f = map_plan(start, len, port, ptes).flags;
    assert(f == ((port << 1usize) as u8) | 0x10u8);
    assert(port & !0x7usize == 0);
    assert(((((port << 1usize) as u8) | 0x10u8) & 0x01u8 == 0) && (((((port << 1usize) as u8)
        | 0x10u8) & 0x02u8 != 0) == (port & 1usize != 0)) && (((((port << 1usize) as u8)
        | 0x10u8) & 0x04u8 != 0) == (port & 2usize != 0)) && (((((port << 1usize) as u8)
        | 0x10u8) & 0x08u8 != 0) == (port & 4usize != 0)) && ((((port << 1usize) as u8)
        | 0x10u8) & 0x10u8 != 0) && ((((port << 1usize) as u8) | 0x10u8) & 0xe0u8 == 0))
        by (bit_vector)
        requires
            port & !0x7usize == 0,
    ;
}

/// A request that passes the checks maps pages from the page holding
/// `start` on, in order, exactly up to the first page that is already
/// mapped: none of the pages it maps was mapped, and the page after them,
/// if within the area, was. It succeeds exactly when it maps them all.
pub proof fn lemma_map_pages(start: usize, len: usize, port: usize, ptes: Seq<Option<bool>>)
    requires
        port_ok(port),
        start % PAGE_SIZE == 0,
        ptes.len() <= usize::MAX,
    ensures
        map_plan(start, len, port, ptes).first_vpn * PAGE_SIZE == start,
        map_plan(start, len, port, ptes).pages <= ptes.len(),
        forall|j: int|
            0 <= j < map_plan(start, len, port, ptes).pages ==> #[trigger] ptes[j] != Some(true),
        map_plan(start, len, port, ptes).pages < ptes.len() ==> ptes[map_plan(
            start,
            len,
            port,
            ptes,
        ).pages as int] == Some(true),
        (map_plan(start, len, port, ptes).ret == 0) == (map_plan(start, len, port, ptes).pages
            == ptes.len()),
        map_plan(start, len, port, ptes).ret == 0 || map_plan(start, len, port, ptes).ret == -1,
{
    lemma_first_valid_bound(ptes, 0);
    lemma_first_valid_prefix(ptes, 0);
    let stop = first_valid(ptes, 0);
    assert(stop as usize as int == stop);
}

/// No valid entry comes before the first valid one.
proof fn lemma_first_valid_prefix(ptes: Seq<Option<bool>>, k: int)
    requires
        0 <= k,
    ensures
        forall|j: int| k <= j < first_valid(ptes, k) ==> #[trigger] ptes[j] != Some(true),
    decreases ptes.len() - k,
{
    if k < ptes.len() && ptes[k] != Some(true) {
        lemma_first_valid_prefix(ptes, k + 1);
    }
}

/// No invalid entry comes before the first invalid one.
proof fn lemma_first_not_valid_prefix(ptes: Seq<Option<bool>>, k: int)
    requires
        0 <= k,
    ensures
        first_not_valid(ptes, k) <= ptes.len(),
        k <= ptes.len() ==> k <= first_not_valid(ptes, k),
        first_not_valid(ptes, k) < ptes.len() ==> ptes[first_not_valid(ptes, k)] != Some(true),
        forall|j: int| k <= j < first_not_valid(ptes, k) ==> #[trigger] ptes[j] == Some(true),
    decreases ptes.len() - k,
{
    if k < ptes.len() && ptes[k] == Some(true) {
        lemma_first_not_valid_prefix(ptes, k + 1);
    }
}

/// An unmap request unmaps pages from the page holding `start` on, in
/// order, exactly up to the first that is not mapped: all of them were
/// mapped, and the page after them, if within the area, was not. It
/// succeeds exactly when it unmaps them all, and sets no flags.
pub proof fn lemma_unmap_pages(start: usize, ptes: Seq<Option<bool>>)
    requires
        ptes.len() <= usize::MAX,
    ensures
        unmap_plan(start, ptes).first_vpn == start / PAGE_SIZE,
        unmap_plan(start, ptes).pages <= ptes.len(),
        forall|j: int| 0 <= j < unmap_plan(start, ptes).pages ==> #[trigger] ptes[j] == Some(true),
        unmap_plan(start, ptes).pages < ptes.len() ==> ptes[unmap_plan(start, ptes).pages as int]
            != Some(true),
        (unmap_plan(start, ptes).ret == 0) == (unmap_plan(start, ptes).pages == ptes.len()),
        unmap_plan(start, ptes).ret == 0 || unmap_plan(start, ptes).ret == -1,
        unmap_plan(start, ptes).flags == 0,
{
    lemma_first_not_valid_prefix(ptes, 0);
    let stop = first_not_valid(ptes, 0);
    assert(stop as usize as int == stop);
}

/// A break move that goes through returns the break as it was before the
/// call and leaves the break at the old one plus `size`, growing or
/// shrinking; one that does not go through returns nothing and leaves the
/// break where it was. A move goes through exactly when the address space
/// was resized and the break stays at or above the heap bottom.
pub proof fn lemma_brk_move(heap_bottom: usize, brk: usize, size: i32, resized: bool)
    requires
        heap_bottom <= isize::MAX,
        brk <= isize::MAX,
        brk + size <= isize::MAX,
    ensures
        resized && brk + size >= heap_bottom ==> brk_after(heap_bottom, brk, size, resized)
            == (((brk + size) as usize), Some(brk)),
        !(resized && brk + size >= heap_bottom) ==> brk_after(heap_bottom, brk, size, resized)
            == (brk, None::<usize>),
{
}

/// Two break moves in a row that both go through: the second returns where
/// the first left the break, so no memory is handed out twice.
pub proof fn lemma_brk_moves_chain(heap_bottom: usize, brk: usize, first: i32, second: i32)
    requires
        heap_bottom <= brk <= isize::MAX,
        heap_bottom <= brk + first <= isize::MAX,
        heap_bottom <= brk + first + second <= isize::MAX,
    ensures
        brk_after(heap_bottom, brk_after(heap_bottom, brk, first, true).0, second, true) == (
            (brk + first + second) as usize,
            Some((brk + first) as usize),
        ),
{
}

} // verus!
