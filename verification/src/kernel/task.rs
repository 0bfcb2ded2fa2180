//! Task control blocks.
use vstd::prelude::*;
use super::context::{TrapFrame, zero_frame};

verus! {

/// The states of a task.
#[derive(Debug, Clone, Copy, PartialEq, Eq, Structural)]
pub enum TaskState {
    Ready,
    Running,
    Blocked,
    Dead,
}

/// The size of a task's kernel stack in bytes.
pub const KERNEL_STACK_SIZE: usize = 4096;

/// `sstatus` for a new task: SPP (bit 8) set, so that `sret` returns to
/// supervisor mode, and SIE (bit 1) set, so that interrupts are enabled.
pub const INITIAL_SSTATUS: usize = 0x102;

/// A task control block.
pub struct Task {
    pub id: usize,
    pub state: TaskState,
    pub context: TrapFrame,
    pub kernel_stack: [u8; 4096],
}

/// The stack pointer of a task whose kernel stack starts at `stack_base`: the top
/// of the stack rounded down to 16 bytes, as RISC-V requires.
pub open spec fn initial_sp(stack_base: usize) -> usize {
    ((stack_base + KERNEL_STACK_SIZE) as usize & !0xFusize) as usize
}

impl Task {
    /// A new task, ready to run from `entry_point` on a zeroed kernel stack that
    /// starts at address `stack_base`.
    pub fn new(id: usize, entry_point: usize, stack_base: usize) -> (r: Task)
        requires
            stack_base + KERNEL_STACK_SIZE <= usize::MAX,
        ensures
            r.id == id,
            r.state == TaskState::Ready,
            r.context == (TrapFrame {
                sp: initial_sp(stack_base),
                sepc: entry_point,
                sstatus: INITIAL_SSTATUS,
                ..zero_frame()
            }),
            r.kernel_stack@ == Seq::new(4096, |i: int| 0u8),
            r.context.sp % 16 == 0,
            stack_base + KERNEL_STACK_SIZE - 16 < r.context.sp <= stack_base + KERNEL_STACK_SIZE,
    {
        let mut task = Task {
            id,
            state: TaskState::Ready,
            context: TrapFrame::new(),
            kernel_stack: [0u8; 4096],
        };
        let stack_top = stack_base + KERNEL_STACK_SIZE;
        task.context.sp = stack_top & !0xF;
        task.context.sepc = entry_point;
        task.context.sstatus = (1 << 8) | (1 << 1);
        assert((1usize << 8) | (1usize << 1) == 0x102) by (bit_vector);
        assert((stack_top & !0xFusize) % 16 == 0 && stack_top - 16 < (stack_top & !0xFusize) <= stack_top)
            by (bit_vector);
        assert(task.kernel_stack@ =~= Seq::new(4096, |i: int| 0u8));
        task
    }
}

} // verus!
