//! Tasks and the round-robin scheduler.
//!
//! A `TaskControlBlock` carries everything the kernel keeps per task; the
//! `TaskManager` selects the next task to run by scanning the task ids
//! cyclically, starting just past the current one, for the first `Ready`
//! task.

use vstd::prelude::*;
use crate::address::{PhysPageNum, VirtAddr, VirtPageNum};
use crate::config::{
    KERNEL_STACK_SIZE, PAGE_SIZE, PPN_BOUND, TRAMPOLINE_ADDR, TRAP_CONTEXT_VPN, VA_BOUND,
    VPN_BOUND,
};
use crate::elf::{elf_entry, elf_max_end_vpn, elf_pages_from, elf_phnum, elf_wf};
use crate::frame_allocator::StackFrameAllocator;
use crate::memory_set::{MemorySet, MAP_PERM_R, MAP_PERM_W};
use crate::page_table::PTE_V;
use crate::trap_context::TrapContext;

verus! {

/// Saved kernel-side callee-saved state for a cooperative context switch.
#[derive(Clone, Copy, Debug, PartialEq, Eq)]
pub struct TaskContext {
    /// Return address: where the switched-to task resumes.
    pub ra: u64,
    /// Kernel stack pointer of the task.
    pub sp: u64,
    /// Callee-saved registers `s0..s11`.
    pub s: [u64; 12],
}

impl TaskContext {
    /// The all-zero context used as the discard target of the first switch.
    pub fn empty() -> (r: Self)
        ensures
            r.ra == 0,
            r.sp == 0,
            forall|i: int| 0 <= i < 12 ==> r.s@[i] == 0,
    {
        TaskContext { ra: 0, sp: 0, s: [0; 12] }
    }

    /// A context that, when switched to, returns into the kernel's
    /// trap-return path (at address `trap_return_va`) on the given kernel
    /// stack.
    pub fn goto_trap_return(kstack_ptr: u64, trap_return_va: u64) -> (r: Self)
        ensures
            r.ra == trap_return_va,
            r.sp == kstack_ptr,
            forall|i: int| 0 <= i < 12 ==> r.s@[i] == 0,
    {
        TaskContext { ra: trap_return_va, sp: kstack_ptr, s: [0; 12] }
    }
}

/// The scheduling state of a task.
#[derive(Clone, Copy, Debug, PartialEq, Eq, Structural)]
pub enum TaskStatus {
    /// Runnable, waiting to be picked.
    Ready,
    /// Currently executing.
    Running,
    /// Finished; never scheduled again.
    Exited,
}

/// Everything the kernel keeps about one task.
pub struct TaskControlBlock {
    /// The task's scheduling state.
    pub task_status: TaskStatus,
    /// The kernel-side registers restored when execution resumes here.
    pub task_cx: TaskContext,
    /// The task's address space.
    pub memory_set: MemorySet,
    /// The frame backing the task's trap-context page.
    pub trap_cx_ppn: PhysPageNum,
    /// The task's saved user state, as stored in that frame.
    pub trap_cx: TrapContext,
    /// Size of the task image from address zero to the top of its user
    /// stack.
    pub base_size: u64,
}

impl TaskControlBlock {
    /// The saved user state of the task.
    pub fn get_trap_cx(&self) -> (r: TrapContext)
        ensures
            r == self.trap_cx,
    {
        self.trap_cx
    }

    /// The address-translation token of the task's address space.
    pub fn get_user_token(&self) -> (r: u64)
        requires
            self.memory_set.page_table.root_ppn.0 < PPN_BOUND,
        ensures
            r == 0x8000_0000_0000_0000u64 + self.memory_set.page_table.root_ppn.0,
    {
        self.memory_set.token()
    }
}

/// The kernel stack of task `app_id` sits just below the trampoline page
/// of the 39-bit space, one guard page between consecutive stacks.
proof fn lemma_kernel_stack_mask(x: u64)
    requires
        x <= 0x7F_FFFF_F000,
    ensures
        (0xFFFF_FFFF_FFFF_F000 - x) % 0x80_0000_0000 == 0x7F_FFFF_F000 - x,
{
    let q: int = 0x1FF_FFFF;
    let d: int = 0x80_0000_0000;
    let r: int = 0x7F_FFFF_F000 - x;
    assert(0xFFFF_FFFF_FFFF_F000 - x == q * d + r && 0 <= r < d) by (nonlinear_arith)
        requires
            q == 0x1FF_FFFF,
            d == 0x80_0000_0000,
            r == 0x7F_FFFF_F000 - x,
            x <= 0x7F_FFFF_F000,
    ;
    assert((q * d + r) % d == r) by (nonlinear_arith)
        requires
            0 <= r < d,
    ;
}

impl TaskControlBlock {
    /// Builds the control block of task `app_id` from an ELF image: its
    /// address space from the image, its kernel stack as a new framed area
    /// of the kernel's address space, a kernel context that resumes at the
    /// trap-return path, and a trap context that enters the image at its
    /// entry point on the new user stack.
    #[verifier::rlimit(100)]
    pub fn new(
        app_id: u64,
        elf_data: &[u8],
        trampoline_ppn: PhysPageNum,
        kernel_space: &mut MemorySet,
        fa: &mut StackFrameAllocator,
        trap_handler_va: u64,
        trap_return_va: u64,
        prev_sstatus: u64,
    ) -> (r: Self)
        requires
            old(fa)@.wf(),
            elf_wf(elf_data@),
            old(fa)@.avail() >= 18 + 3 * elf_pages_from(elf_data@, 0),
            trampoline_ppn.0 < PPN_BOUND,
            old(kernel_space).wf(),
            old(kernel_space).owned_by(old(fa)@),
            app_id * (KERNEL_STACK_SIZE + PAGE_SIZE) + KERNEL_STACK_SIZE + PAGE_SIZE
                <= VA_BOUND,
            // the kernel-stack pages of task `app_id` are unmapped so far
            forall|v: u64|
                (VA_BOUND - PAGE_SIZE - app_id * (KERNEL_STACK_SIZE + PAGE_SIZE)
                    - KERNEL_STACK_SIZE) / (PAGE_SIZE as int) <= v < (VA_BOUND - PAGE_SIZE
                    - app_id * (KERNEL_STACK_SIZE + PAGE_SIZE)) / (PAGE_SIZE as int)
                    ==> (#[trigger] old(kernel_space).page_table.translate_spec(v)).is_none(),
        ensures
            final(fa)@.wf(),
            final(kernel_space).wf(),
            final(kernel_space).owned_by(final(fa)@),
            r.task_status == TaskStatus::Ready,
            r.memory_set.wf(),
            r.memory_set.owned_by(final(fa)@),
            // the whole image is loaded
            forall|i: int|
                0 <= i < elf_phnum(elf_data@) && #[trigger] crate::elf::ph_is_load(elf_data@, i)
                    ==> crate::memory_set::segment_loaded(r.memory_set, elf_data@, i),
            // the task first runs at the image's entry point, on its own
            // user stack, in user mode
            r.trap_cx.sepc == elf_entry(elf_data@),
            r.trap_cx.x@[2] == r.base_size,
            r.base_size == (elf_max_end_vpn(elf_data@, elf_phnum(elf_data@)) + 3) * PAGE_SIZE,
            r.trap_cx.spp_is_user(),
            r.trap_cx.trap_handler == trap_handler_va,
            // its first switch returns into the kernel's trap-return path,
            // on its own kernel stack (the top from `kernel_stack_pos`),
            // with the callee-saved registers zeroed
            r.task_cx.ra == trap_return_va,
            r.task_cx.sp == TRAMPOLINE_ADDR - app_id * (KERNEL_STACK_SIZE + PAGE_SIZE),
            forall|i: int| 0 <= i < 12 ==> r.task_cx.s@[i] == 0,
            // the next trap re-enters the kernel on that stack, in the
            // kernel address space
            r.trap_cx.kernel_sp == TRAMPOLINE_ADDR - app_id * (KERNEL_STACK_SIZE + PAGE_SIZE),
            r.trap_cx.kernel_satp == 0x8000_0000_0000_0000u64
                + final(kernel_space).page_table.root_ppn.0,
            // the kernel stack's two pages are now a framed, read/write
            // area of the kernel space; every other kernel mapping is
            // untouched
            final(kernel_space).page_table.root_ppn == old(kernel_space).page_table.root_ppn,
            forall|v: u64|
                (VA_BOUND - PAGE_SIZE - app_id * (KERNEL_STACK_SIZE + PAGE_SIZE)
                    - KERNEL_STACK_SIZE) / (PAGE_SIZE as int) <= v < (VA_BOUND - PAGE_SIZE
                    - app_id * (KERNEL_STACK_SIZE + PAGE_SIZE)) / (PAGE_SIZE as int) ==> {
                    let t = #[trigger] final(kernel_space).page_table.translate_spec(v);
                    t.is_some() && t.unwrap().spec_flags() == (MAP_PERM_R | MAP_PERM_W) | PTE_V
                },
            forall|v2: u64|
                v2 < VPN_BOUND && !((VA_BOUND - PAGE_SIZE - app_id * (KERNEL_STACK_SIZE
                    + PAGE_SIZE) - KERNEL_STACK_SIZE) / (PAGE_SIZE as int) <= v2 < (VA_BOUND
                    - PAGE_SIZE - app_id * (KERNEL_STACK_SIZE + PAGE_SIZE)) / (
                PAGE_SIZE as int))
                    ==> final(kernel_space).page_table.translate_spec(v2)
                        == old(kernel_space).page_table.translate_spec(v2),
            // the trap-context frame is the one mapped at the trap-context
            // page of its address space
            ({
                let t = r.memory_set.page_table.translate_spec(TRAP_CONTEXT_VPN);
                t.is_some() && r.trap_cx_ppn.0 == t.unwrap().spec_ppn()
            }),
    {
        let (memory_set, user_sp, entry) = MemorySet::from_elf(elf_data, trampoline_ppn, fa);
        let trap_cx_ppn = memory_set.translate(VirtPageNum(TRAP_CONTEXT_VPN)).unwrap().ppn();
        let kernel_stack_top_raw = TRAMPOLINE_ADDR - app_id * (KERNEL_STACK_SIZE + PAGE_SIZE);
        let kernel_stack_bottom_raw = kernel_stack_top_raw - KERNEL_STACK_SIZE;
        proof {
            lemma_kernel_stack_mask((app_id * (KERNEL_STACK_SIZE + PAGE_SIZE)) as u64);
            lemma_kernel_stack_mask((app_id * (KERNEL_STACK_SIZE + PAGE_SIZE)
                + KERNEL_STACK_SIZE) as u64);
        }
        let kernel_stack_bottom = VirtAddr::from(kernel_stack_bottom_raw);
        let kernel_stack_top = VirtAddr::from(kernel_stack_top_raw);
        proof {
            let x1 = (app_id * (KERNEL_STACK_SIZE + PAGE_SIZE)) as int;
            assert(x1 % (PAGE_SIZE as int) == 0) by (nonlinear_arith)
                requires
                    x1 == app_id * (KERNEL_STACK_SIZE + PAGE_SIZE),
                    KERNEL_STACK_SIZE == 8192,
                    PAGE_SIZE == 4096,
            ;
            assert(kernel_stack_top.0 == 0x7F_FFFF_F000 - x1);
            assert(kernel_stack_bottom.0 == 0x7F_FFFF_F000 - x1 - KERNEL_STACK_SIZE);
            assert(kernel_stack_bottom.0 % PAGE_SIZE == 0 && (kernel_stack_top.0 + PAGE_SIZE
                - 1) / (PAGE_SIZE as int) - kernel_stack_bottom.0 / PAGE_SIZE == 2
                && kernel_stack_bottom.0 / PAGE_SIZE == kernel_stack_bottom.0 as int
                / (PAGE_SIZE as int) && (kernel_stack_top.0 + PAGE_SIZE - 1) / (
            PAGE_SIZE as int) == kernel_stack_top.0 as int / (PAGE_SIZE as int))
                by (nonlinear_arith)
                requires
                    kernel_stack_bottom.0 == 0x7F_FFFF_F000 - x1 - 8192,
                    kernel_stack_top.0 == kernel_stack_bottom.0 + 8192,
                    x1 % (PAGE_SIZE as int) == 0,
                    0 <= x1 <= 0x7F_FFFF_D000,
                    PAGE_SIZE == 4096,
            ;
        }
        kernel_space.insert_framed_area(
            kernel_stack_bottom,
            kernel_stack_top,
            MAP_PERM_R | MAP_PERM_W,
            fa,
        );
        proof {
            let x1 = (app_id * (KERNEL_STACK_SIZE + PAGE_SIZE)) as int;
            let a = kernel_space.areas@.last();
            assert(a.start() == (VA_BOUND - PAGE_SIZE - x1 - KERNEL_STACK_SIZE) / (
            PAGE_SIZE as int));
            assert(a.end_vpn() == (VA_BOUND - PAGE_SIZE - x1) / (PAGE_SIZE as int));
            assert forall|v: u64| a.start() <= v < a.end_vpn() implies {
                let t = #[trigger] kernel_space.page_table.translate_spec(v);
                t.is_some() && t.unwrap().spec_flags() == (MAP_PERM_R | MAP_PERM_W) | PTE_V
            } by {
                let i = v - a.start();
                assert(kernel_space.page_table.translate_spec(
                    (a.start() + i) as u64,
                ).is_some());
            }
        }
        let kernel_satp = kernel_space.token();
        let trap_cx = TrapContext::init_context(
            entry,
            user_sp,
            kernel_satp,
            kernel_stack_top_raw,
            trap_handler_va,
            prev_sstatus,
        );
        TaskControlBlock {
            task_status: TaskStatus::Ready,
            task_cx: TaskContext::goto_trap_return(kernel_stack_top_raw, trap_return_va),
            memory_set,
            trap_cx_ppn,
            trap_cx,
            base_size: user_sp,
        }
    }
}

/// The task id the scheduler picks, scanning offsets `k, k+1, ..., n` past
/// `current` cyclically and returning the first `Ready` task.
pub open spec fn spec_find_next(st: Seq<TaskStatus>, current: int, k: int) -> Option<int>
    recommends
        st.len() > 0,
        0 <= current < st.len(),
        1 <= k,
    decreases st.len() + 1 - k,
{
    if k > st.len() || k < 1 || st.len() == 0 {
        Option::None
    } else if st[(current + k) % (st.len() as int)] == TaskStatus::Ready {
        Option::Some((current + k) % (st.len() as int))
    } else {
        spec_find_next(st, current, k + 1)
    }
}

/// No task at cyclic offsets `[k, o)` past `current` is ready.
pub open spec fn no_ready_between(st: Seq<TaskStatus>, current: int, k: int, o: int) -> bool {
    forall|m: int|
        k <= m < o ==> #[trigger] st[((current + m) % (st.len() as int))] != TaskStatus::Ready
}

/// What the scheduler's scan yields: the first `Ready` task in cyclic
/// order, or nothing when no task at offsets `[k, n]` is ready.
pub proof fn lemma_find_next_characterization(st: Seq<TaskStatus>, current: int, k: int)
    requires
        st.len() > 0,
        0 <= current < st.len(),
        1 <= k,
    ensures
        match spec_find_next(st, current, k) {
            Option::Some(j) => exists|o: int|
                k <= o <= st.len() && j == (current + o) % (st.len() as int)
                    && st[j] == TaskStatus::Ready && #[trigger] no_ready_between(st, current, k, o),
            Option::None => no_ready_between(st, current, k, st.len() as int + 1),
        },
    decreases st.len() + 1 - k,
{
    let n = st.len() as int;
    if k > n {
        assert(no_ready_between(st, current, k, n + 1));
    } else if st[(current + k) % n] == TaskStatus::Ready {
        let o = k;
        assert(no_ready_between(st, current, k, o));
    } else {
        lemma_find_next_characterization(st, current, k + 1);
        match spec_find_next(st, current, k + 1) {
            Option::Some(j) => {
                let o = choose|o: int|
                    k + 1 <= o <= n && j == (current + o) % n && st[j] == TaskStatus::Ready
                        && #[trigger] no_ready_between(st, current, k + 1, o);
                assert(no_ready_between(st, current, k, o)) by {
                    assert forall|m: int| k <= m < o
                        implies #[trigger] st[((current + m) % n)] != TaskStatus::Ready by {
                        if m > k {
                            assert(no_ready_between(st, current, k + 1, o));
                        }
                    }
                }
            },
            Option::None => {
                assert(no_ready_between(st, current, k + 1, n + 1));
                assert forall|m: int| k <= m < n + 1
                    implies #[trigger] st[((current + m) % n)] != TaskStatus::Ready by {
                    if m > k {
                        assert(no_ready_between(st, current, k + 1, n + 1));
                    }
                }
            },
        }
    }
}

/// The scheduler's scan, when it picks a task, picks one inside the table.
pub proof fn lemma_find_next_in_range(st: Seq<TaskStatus>, current: int, k: int)
    requires
        st.len() > 0,
        0 <= current < st.len(),
        1 <= k,
    ensures
        match spec_find_next(st, current, k) {
            Option::Some(j) => 0 <= j < st.len(),
            Option::None => true,
        },
    decreases st.len() + 1 - k,
{
    if k <= st.len() && st[(current + k) % (st.len() as int)] != TaskStatus::Ready {
        lemma_find_next_in_range(st, current, k + 1);
    }
}

/// Round-robin fairness: the task picked after `current` is the first
/// `Ready` one in cyclic id order starting just past `current`; every task
/// skipped on the way (an `Exited` or `Running` one) is not ready, and in
/// particular, when all other tasks are ready, the cyclic successor runs
/// next.
pub proof fn lemma_round_robin(st: Seq<TaskStatus>, current: int, o: int)
    requires
        st.len() > 0,
        0 <= current < st.len(),
        1 <= o <= st.len(),
        st[(current + o) % (st.len() as int)] == TaskStatus::Ready,
        no_ready_between(st, current, 1, o),
    ensures
        spec_find_next(st, current, 1) == Option::Some((current + o) % (st.len() as int)),
{
    lemma_round_robin_from(st, current, 1, o);
}

/// Helper for `lemma_round_robin`: the scan from offset `k` lands on `o`.
proof fn lemma_round_robin_from(st: Seq<TaskStatus>, current: int, k: int, o: int)
    requires
        st.len() > 0,
        0 <= current < st.len(),
        1 <= k <= o <= st.len(),
        st[(current + o) % (st.len() as int)] == TaskStatus::Ready,
        no_ready_between(st, current, k, o),
    ensures
        spec_find_next(st, current, k) == Option::Some((current + o) % (st.len() as int)),
    decreases o - k,
{
    if k < o {
        assert(st[(current + k) % (st.len() as int)] != TaskStatus::Ready);
        assert(no_ready_between(st, current, k + 1, o)) by {
            assert forall|m: int| k + 1 <= m < o
                implies #[trigger] st[((current + m) % (st.len() as int))] != TaskStatus::Ready by {
                assert(no_ready_between(st, current, k, o));
            }
        }
        lemma_round_robin_from(st, current, k + 1, o);
    }
}

/// The outcome of asking the scheduler for the next task.
#[derive(Clone, Copy, Debug, PartialEq, Eq, Structural)]
pub enum ScheduleOutcome {
    /// Switch from the context of task `prev` to task `next`.
    Switched {
        /// The task whose kernel context receives the outgoing state.
        prev: usize,
        /// The task now marked `Running`.
        next: usize,
    },
    /// No task is ready; the system shuts down.
    AllDone,
}

/// The global task table and the id of the task running now.
pub struct TaskManager {
    /// All tasks, indexed by task id.
    pub tasks: Vec<TaskControlBlock>,
    /// The id of the task currently considered current.
    pub current_task: usize,
}

impl TaskManager {
    /// The scheduling states of all tasks, by task id.
    pub open spec fn statuses(self) -> Seq<TaskStatus> {
        self.tasks@.map(|i: int, t: TaskControlBlock| t.task_status)
    }

    /// The manager holds at least one task and a valid current id.
    pub open spec fn wf(self) -> bool {
        &&& self.tasks@.len() > 0
        &&& self.current_task < self.tasks@.len()
        &&& self.tasks@.len() <= 0x7FFF_FFFF
    }

    /// Marks the current task `Ready` (it yielded or was preempted).
    pub fn mark_current_suspended(&mut self)
        requires
            old(self).wf(),
        ensures
            final(self).wf(),
            final(self).current_task == old(self).current_task,
            final(self).tasks@ == old(self).tasks@.update(
                old(self).current_task as int,
                (TaskControlBlock {
                    task_status: TaskStatus::Ready,
                    ..old(self).tasks@[old(self).current_task as int]
                }),
            ),
    {
        let current = self.current_task;
        let t = &mut self.tasks[current];
        t.task_status = TaskStatus::Ready;
    }

    /// Marks the current task `Exited` (it finished or was killed).
    pub fn mark_current_exited(&mut self)
        requires
            old(self).wf(),
        ensures
            final(self).wf(),
            final(self).current_task == old(self).current_task,
            final(self).tasks@ == old(self).tasks@.update(
                old(self).current_task as int,
                (TaskControlBlock {
                    task_status: TaskStatus::Exited,
                    ..old(self).tasks@[old(self).current_task as int]
                }),
            ),
    {
        let current = self.current_task;
        let t = &mut self.tasks[current];
        t.task_status = TaskStatus::Exited;
    }

    /// The id of the next task to run: the first `Ready` task in cyclic id
    /// order starting just past the current one.
    pub fn find_next_task(&self) -> (r: Option<usize>)
        requires
            self.wf(),
        ensures
            match r {
                Some(j) => j < self.tasks@.len() && spec_find_next(
                    self.statuses(),
                    self.current_task as int,
                    1,
                ) == Option::Some(j as int),
                None => spec_find_next(self.statuses(), self.current_task as int, 1).is_none(),
            },
    {
        let n = self.tasks.len();
        let current = self.current_task;
        let mut k: usize = 1;
        while k <= n
            invariant
                self.wf(),
                n == self.tasks@.len(),
                current == self.current_task,
                1 <= k <= n + 1,
                spec_find_next(self.statuses(), current as int, 1) == spec_find_next(
                    self.statuses(),
                    current as int,
                    k as int,
                ),
            decreases n + 1 - k,
        {
            let id = (current + k) % n;
            let is_ready = match self.tasks[id].task_status {
                TaskStatus::Ready => true,
                _ => false,
            };
            if is_ready {
                proof {
                    assert(self.statuses()[id as int] == TaskStatus::Ready);
                }
                return Some(id);
            }
            proof {
                assert(self.statuses()[id as int] != TaskStatus::Ready);
            }
            k = k + 1;
        }
        None
    }

    /// Picks the next ready task, marks it `Running`, and reports the
    /// context switch to perform; reports `AllDone` when no task is ready.
    pub fn run_next_task(&mut self) -> (r: ScheduleOutcome)
        requires
            old(self).wf(),
        ensures
            final(self).wf(),
            match spec_find_next(old(self).statuses(), old(self).current_task as int, 1) {
                Option::Some(j) => {
                    &&& r == (ScheduleOutcome::Switched {
                        prev: old(self).current_task,
                        next: j as usize,
                    })
                    &&& final(self).current_task == j
                    &&& final(self).tasks@ == old(self).tasks@.update(
                        j,
                        (TaskControlBlock {
                            task_status: TaskStatus::Running,
                            ..old(self).tasks@[j]
                        }),
                    )
                },
                Option::None => r == ScheduleOutcome::AllDone && *final(self) == *old(self),
            },
    {
        match self.find_next_task() {
            Some(next) => {
                let prev = self.current_task;
                let t = &mut self.tasks[next];
                t.task_status = TaskStatus::Running;
                self.current_task = next;
                ScheduleOutcome::Switched { prev, next }
            },
            None => ScheduleOutcome::AllDone,
        }
    }

    /// Starts the first task: task 0 becomes `Running`.
    pub fn run_first_task(&mut self) -> (r: usize)
        requires
            old(self).wf(),
            old(self).current_task == 0,
        ensures
            final(self).wf(),
            r == 0,
            final(self).current_task == 0,
            final(self).tasks@ == old(self).tasks@.update(
                0,
                (TaskControlBlock { task_status: TaskStatus::Running, ..old(self).tasks@[0] }),
            ),
    {
        let t = &mut self.tasks[0];
        t.task_status = TaskStatus::Running;
        0
    }

    /// The address-translation token of the current task's address space.
    pub fn get_current_satp(&self) -> (r: u64)
        requires
            self.wf(),
            self.tasks@[self.current_task as int].memory_set.page_table.root_ppn.0 < PPN_BOUND,
        ensures
            r == 0x8000_0000_0000_0000u64 + self.tasks@[
                self.current_task as int
            ].memory_set.page_table.root_ppn.0,
    {
        self.tasks[self.current_task].get_user_token()
    }

    /// A copy of the current task's saved user state.
    pub fn get_current_trap_cx(&self) -> (r: TrapContext)
        requires
            self.wf(),
        ensures
            r == self.tasks@[self.current_task as int].trap_cx,
    {
        self.tasks[self.current_task].trap_cx
    }

    /// Overwrites the current task's saved user state.
    pub fn set_current_trap_cx(&mut self, cx: TrapContext)
        requires
            old(self).wf(),
        ensures
            final(self).wf(),
            final(self).current_task == old(self).current_task,
            final(self).tasks@ == old(self).tasks@.update(
                old(self).current_task as int,
                (TaskControlBlock {
                    trap_cx: cx,
                    ..old(self).tasks@[old(self).current_task as int]
                }),
            ),
    {
        let current = self.current_task;
        let t = &mut self.tasks[current];
        t.trap_cx = cx;
    }
}

/// Marks the current task `Ready` and switches to the next ready task.
pub fn suspend_current_and_run_next(tm: &mut TaskManager) -> (r: ScheduleOutcome)
    requires
        old(tm).wf(),
    ensures
        final(tm).wf(),
        ({
            let mid = old(tm).tasks@.update(
                old(tm).current_task as int,
                (TaskControlBlock {
                    task_status: TaskStatus::Ready,
                    ..old(tm).tasks@[old(tm).current_task as int]
                }),
            );
            let st = mid.map(|i: int, t: TaskControlBlock| t.task_status);
            match spec_find_next(st, old(tm).current_task as int, 1) {
                Option::Some(j) => {
                    &&& r == (ScheduleOutcome::Switched {
                        prev: old(tm).current_task,
                        next: j as usize,
                    })
                    &&& final(tm).current_task == j
                    &&& final(tm).tasks@ == mid.update(
                        j,
                        (TaskControlBlock { task_status: TaskStatus::Running, ..mid[j] }),
                    )
                },
                Option::None => r == ScheduleOutcome::AllDone && final(tm).tasks@ == mid
                    && final(tm).current_task == old(tm).current_task,
            }
        }),
{
    tm.mark_current_suspended();
    tm.run_next_task()
}

/// Marks the current task `Exited` and switches to the next ready task.
pub fn exit_current_and_run_next(tm: &mut TaskManager) -> (r: ScheduleOutcome)
    requires
        old(tm).wf(),
    ensures
        final(tm).wf(),
        ({
            let mid = old(tm).tasks@.update(
                old(tm).current_task as int,
                (TaskControlBlock {
                    task_status: TaskStatus::Exited,
                    ..old(tm).tasks@[old(tm).current_task as int]
                }),
            );
            let st = mid.map(|i: int, t: TaskControlBlock| t.task_status);
            match spec_find_next(st, old(tm).current_task as int, 1) {
                Option::Some(j) => {
                    &&& r == (ScheduleOutcome::Switched {
                        prev: old(tm).current_task,
                        next: j as usize,
                    })
                    &&& final(tm).current_task == j
                    &&& final(tm).tasks@ == mid.update(
                        j,
                        (TaskControlBlock { task_status: TaskStatus::Running, ..mid[j] }),
                    )
                },
                Option::None => r == ScheduleOutcome::AllDone && final(tm).tasks@ == mid
                    && final(tm).current_task == old(tm).current_task,
            }
        }),
{
    tm.mark_current_exited();
    tm.run_next_task()
}

} // verus!
