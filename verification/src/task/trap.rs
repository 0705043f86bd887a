//! The trap context a thread starts from.
use vstd::prelude::*;

verus! {

/// Index of the stack pointer among the general registers.
pub const REG_SP: usize = 2;

/// Index of the first argument register among the general registers.
pub const REG_A0: usize = 10;

/// The registers saved when a thread traps into the kernel, and what the
/// kernel needs to take the trap.
pub struct TrapContext {
    /// General registers `x0` to `x31`.
    pub x: [usize; 32],
    /// Where the thread resumes in user mode.
    pub sepc: usize,
    /// Token of the kernel address space.
    pub kernel_satp: usize,
    /// Top of the thread's kernel stack.
    pub kernel_sp: usize,
    /// Address of the trap handler.
    pub trap_handler: usize,
}

/// General registers all zero but the stack pointer, `sp`, and the first
/// argument register, `a0`.
pub open spec fn start_registers(sp: usize, a0: usize) -> Seq<usize> {
    Seq::new(
        32,
        |i: int|
            if i == REG_SP {
                sp
            } else if i == REG_A0 {
                a0
            } else {
                0usize
            },
    )
}

impl TrapContext {
    /// The context a thread enters user mode with: at `entry`, with stack
    /// pointer `sp`, every other register zero, and the kernel's token,
    /// stack top and trap handler.
    pub fn app_init_context(
        entry: usize,
        sp: usize,
        kernel_satp: usize,
        kernel_sp: usize,
        trap_handler: usize,
    ) -> (cx: Self)
        ensures
            cx.x@ == start_registers(sp, 0),
            cx.sepc == entry,
            cx.kernel_satp == kernel_satp,
            cx.kernel_sp == kernel_sp,
            cx.trap_handler == trap_handler,
    {
        let mut x = [0usize; 32];
        x[REG_SP] = sp;
        assert(x@ =~= start_registers(sp, 0));
        TrapContext { x, sepc: entry, kernel_satp, kernel_sp, trap_handler }
    }
}

/// A thread starts with its stack pointer in `x2`, its argument in `x10`,
/// and every other general register zero.
pub proof fn lemma_start_registers(sp: usize, a0: usize)
    ensures
        start_registers(sp, a0).len() == 32,
        start_registers(sp, a0)[2] == sp,
        start_registers(sp, a0)[10] == a0,
        forall|i: int| 0 <= i < 32 && i != 2 && i != 10 ==> #[trigger] start_registers(sp, a0)[i] == 0,
{
}

} // verus!
