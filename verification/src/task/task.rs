//! Task control blocks: the state the kernel keeps for each process.
use vstd::prelude::*;
use std::sync::Arc;
use crate::mm::memory_set::{MemorySet, word_at};
use crate::trap::context::{TrapContext, user_sstatus};
use super::action::{SignalActions, DEFAULT_ACTION_MASK};
use super::context::TaskContext;
use super::pid::{KernelStack, kernel_stack_fits, spec_kernel_stack_position};
use super::signal::{SignalFlags, MAX_SIG};

verus! {

/// The state of a task.
#[derive(Copy, Clone, PartialEq, Eq, Structural, Debug)]
pub enum TaskStatus {
    Ready,
    Running,
    Zombie,
}

/// Another handle to the same open file, through `Arc::clone` of std.
/// Claimed: the handle refers to the same file as `file`, which is what
/// std documents (another pointer to the same allocation).
#[verifier::external_body]
pub(crate) fn clone_file<F>(file: &Arc<F>) -> (r: Arc<F>)
    ensures
        r == *file,
{
    Arc::clone(file)
}

/// Addresses of the kernel that a new user context needs: the kernel's
/// address-space token, the trap handler, the code that returns to user
/// mode, and the value of `sstatus` to start from.
#[derive(Clone, Copy)]
pub struct KernelEnv {
    pub kernel_satp: usize,
    pub trap_handler: usize,
    pub trap_return: usize,
    pub sstatus: u64,
}

/// A loaded program: its address space, the top of its user stack and its
/// entry point.
pub struct LoadedElf {
    pub memory_set: MemorySet,
    pub user_sp: usize,
    pub entry_point: usize,
}

/// The mutable state of a task.
pub struct TaskControlBlockInner<F> {
    /// The saved user registers of the task.
    pub trap_cx: TrapContext,
    pub base_size: usize,
    pub task_cx: TaskContext,
    pub task_status: TaskStatus,
    pub memory_set: MemorySet,
    /// The process id of the parent.
    pub parent: Option<usize>,
    /// The process ids of the children.
    pub children: Vec<usize>,
    pub exit_code: i32,
    pub fd_table: Vec<Option<Arc<F>>>,
    pub signals: SignalFlags,
    pub signal_mask: SignalFlags,
    /// The signal whose user handler runs, or -1.
    pub handling_sig: isize,
    pub signal_actions: SignalActions,
    pub killed: bool,
    pub frozen: bool,
    pub trap_ctx_backup: Option<TrapContext>,
}

/// The first free descriptor of `table`, or its length when none is free.
pub open spec fn first_free_fd<F>(table: Seq<Option<Arc<F>>>) -> int {
    if exists|fd: int| 0 <= fd < table.len() && table[fd] is None {
        choose|fd: int|
            0 <= fd < table.len() && table[fd] is None && forall|k: int|
                0 <= k < fd ==> table[k] is Some
    } else {
        table.len() as int
    }
}

/// `first_free_fd` is the least free descriptor.
pub proof fn lemma_first_free_fd<F>(table: Seq<Option<Arc<F>>>)
    ensures
        0 <= first_free_fd(table) <= table.len(),
        first_free_fd(table) < table.len() ==> table[first_free_fd(table)] is None,
        forall|k: int| 0 <= k < first_free_fd(table) ==> table[k] is Some,
{
    if exists|fd: int| 0 <= fd < table.len() && table[fd] is None {
        let w = choose|fd: int| 0 <= fd < table.len() && table[fd] is None;
        lemma_least_free(table, w);
    }
}

/// Asking for a descriptor again, with the table as the first request left
/// it, gives the same descriptor and leaves the table as it is.
pub proof fn lemma_alloc_fd_twice<F>(table: Seq<Option<Arc<F>>>)
    ensures
        ({
            let fd = first_free_fd(table);
            let after = if fd < table.len() { table } else { table.push(None) };
            &&& fd < after.len()
            &&& first_free_fd(after) == fd
        }),
{
    lemma_first_free_fd(table);
    let fd = first_free_fd(table);
    let after = if fd < table.len() { table } else { table.push(None) };
    lemma_first_free_fd(after);
    let g = first_free_fd(after);
    assert(after[fd] is None);
    if g < fd {
        assert(after[g] == table[g]);
    }
    if g > fd {
        assert(after[fd] is Some);
    }
}

proof fn lemma_least_free<F>(table: Seq<Option<Arc<F>>>, w: int)
    requires
        0 <= w < table.len(),
        table[w] is None,
    ensures
        exists|fd: int|
            0 <= fd < table.len() && table[fd] is None && forall|k: int|
                0 <= k < fd ==> table[k] is Some,
    decreases w,
{
    if exists|k: int| 0 <= k < w && table[k] is None {
        let k = choose|k: int| 0 <= k < w && table[k] is None;
        lemma_least_free(table, k);
    } else {
        assert(forall|k: int| 0 <= k < w ==> table[k] is Some);
    }
}

impl<F> TaskControlBlockInner<F> {
    pub open spec fn wf(&self) -> bool {
        &&& self.memory_set.wf()
        &&& (self.handling_sig == -1 || 0 <= self.handling_sig <= MAX_SIG)
    }

    /// The saved user registers, to be read or changed.
    pub fn get_trap_cx(&mut self) -> (cx: &mut TrapContext)
        ensures
            *cx == old(self).trap_cx,
            *final(self) == (TaskControlBlockInner { trap_cx: *final(cx), ..*old(self) }),
    {
        &mut self.trap_cx
    }

    /// The token of the task's address space.
    pub fn get_user_token(&self) -> (t: usize)
        ensures
            t == self.memory_set.token,
    {
        self.memory_set.token()
    }

    fn get_status(&self) -> (s: TaskStatus)
        ensures
            s == self.task_status,
    {
        self.task_status
    }

    pub fn is_zombie(&self) -> (r: bool)
        ensures
            r == (self.task_status == TaskStatus::Zombie),
    {
        self.get_status() == TaskStatus::Zombie
    }

    /// The least free file descriptor, after appending an empty slot when
    /// every slot is taken.
    pub fn alloc_fd(&mut self) -> (fd: usize)
        requires
            old(self).fd_table@.len() < usize::MAX,
        ensures
            fd == first_free_fd(old(self).fd_table@),
            fd <= old(self).fd_table@.len(),
            fd < final(self).fd_table@.len(),
            final(self).fd_table@[fd as int] is None,
            forall|k: int| 0 <= k < fd ==> old(self).fd_table@[k] is Some,
            fd < old(self).fd_table@.len() ==> final(self).fd_table@ == old(self).fd_table@,
            fd == old(self).fd_table@.len() ==> final(self).fd_table@ == old(
                self,
            ).fd_table@.push(None),
            *final(self) == (TaskControlBlockInner { fd_table: final(self).fd_table, ..*old(self) }),
    {
        proof {
            lemma_first_free_fd(self.fd_table@);
        }
        let mut fd: usize = 0;
        while fd < self.fd_table.len()
            invariant
                fd <= self.fd_table@.len(),
                self.fd_table@ == old(self).fd_table@,
                forall|k: int| 0 <= k < fd ==> self.fd_table@[k] is Some,
            decreases self.fd_table@.len() - fd,
        {
            if self.fd_table[fd].is_none() {
                proof {
                    let f = first_free_fd(self.fd_table@);
                    if f < fd {
                        assert(self.fd_table@[f] is Some);
                    }
                    if f > fd {
                        assert(self.fd_table@[fd as int] is Some);
                    }
                }
                return fd;
            }
            fd = fd + 1;
        }
        self.fd_table.push(None);
        self.fd_table.len() - 1
    }
}

/// The state the kernel keeps for a process.
pub struct TaskControlBlock<F> {
    pub pid: usize,
    pub kernel_stack: KernelStack,
    pub inner: TaskControlBlockInner<F>,
}

/// What a child forked from `parent` with process id `pid` and page-table
/// token `token` starts with: a copy of the parent's address space in the
/// new page table, the parent's registers but for its own kernel stack, the
/// parent's open files, signal mask and actions, no pending signal, no
/// children, ready to return to user mode.
pub open spec fn forked_from<F>(
    child: TaskControlBlock<F>,
    parent: TaskControlBlock<F>,
    pid: usize,
    token: usize,
    env: KernelEnv,
) -> bool {
    &&& child.pid == pid
    &&& child.inner.memory_set.token == token
    &&& child.inner.memory_set.token != parent.inner.memory_set.token
    &&& child.inner.memory_set.pages@ == parent.inner.memory_set.pages@
    &&& child.inner.memory_set.stack_base == parent.inner.memory_set.stack_base
    &&& child.inner.memory_set.stack@ == parent.inner.memory_set.stack@
    &&& child.inner.trap_cx.x == parent.inner.trap_cx.x
    &&& child.inner.trap_cx.sepc == parent.inner.trap_cx.sepc
    &&& child.inner.trap_cx.sstatus == parent.inner.trap_cx.sstatus
    &&& child.inner.trap_cx.kernel_satp == parent.inner.trap_cx.kernel_satp
    &&& child.inner.trap_cx.trap_handler == parent.inner.trap_cx.trap_handler
    &&& child.inner.trap_cx.kernel_sp == TaskControlBlock::<F>::kstack_top(pid)
    &&& child.inner.base_size == parent.inner.base_size
    &&& child.inner.task_cx.ra == env.trap_return
    &&& child.inner.task_cx.sp == TaskControlBlock::<F>::kstack_top(pid)
    &&& forall|i: int| 0 <= i < 12 ==> child.inner.task_cx.s[i] == 0
    &&& child.inner.task_status == TaskStatus::Ready
    &&& child.inner.parent == Some(parent.pid)
    &&& child.inner.children@.len() == 0
    &&& child.inner.exit_code == 0
    &&& child.inner.fd_table@ == parent.inner.fd_table@
    &&& child.inner.signals.bits == 0
    &&& child.inner.signal_mask == parent.inner.signal_mask
    &&& child.inner.handling_sig == -1
    &&& child.inner.signal_actions == parent.inner.signal_actions
    &&& !child.inner.killed
    &&& !child.inner.frozen
    &&& child.inner.trap_ctx_backup is None
}

/// A forked child holds every descriptor of its parent under the same
/// number: the tables have the same length, free slots stay free, and open
/// ones refer to the same files.
pub proof fn lemma_fork_keeps_descriptors<F>(
    child: TaskControlBlock<F>,
    parent: TaskControlBlock<F>,
    pid: usize,
    token: usize,
    env: KernelEnv,
)
    requires
        forked_from(child, parent, pid, token, env),
    ensures
        child.inner.fd_table@.len() == parent.inner.fd_table@.len(),
        forall|fd: int|
            0 <= fd < parent.inner.fd_table@.len() ==> #[trigger] child.inner.fd_table@[fd]
                == parent.inner.fd_table@[fd],
{
}

impl<F> TaskControlBlock<F> {
    pub open spec fn wf(&self) -> bool {
        &&& self.inner.wf()
        &&& self.kernel_stack.pid == self.pid
        &&& kernel_stack_fits(self.pid)
    }

    /// The top of the kernel stack of `pid`.
    pub open spec fn kstack_top(pid: usize) -> usize {
        spec_kernel_stack_position(pid).1
    }

    /// The mutable state of the task.
    pub fn inner_exclusive_access(&mut self) -> (inner: &mut TaskControlBlockInner<F>)
        ensures
            *inner == old(self).inner,
            final(self).inner == *final(inner),
            final(self).pid == old(self).pid,
            final(self).kernel_stack == old(self).kernel_stack,
    {
        &mut self.inner
    }

    /// A new process `pid` that runs the program `elf`, ready to start at its
    /// entry point, with the consoles as its descriptors 0, 1 and 2.
    pub fn new(
        elf: LoadedElf,
        pid: usize,
        env: &KernelEnv,
        stdin: Arc<F>,
        stdout: Arc<F>,
        stderr: Arc<F>,
    ) -> (tcb: Self)
        requires
            elf.memory_set.wf(),
            kernel_stack_fits(pid),
        ensures
            tcb.wf(),
            tcb.pid == pid,
            tcb.inner.trap_cx.x@ == Seq::new(32, |i: int| if i == 2 { elf.user_sp } else { 0usize }),
            tcb.inner.trap_cx.sepc == elf.entry_point,
            tcb.inner.trap_cx.sstatus == user_sstatus(env.sstatus),
            tcb.inner.trap_cx.kernel_satp == env.kernel_satp,
            tcb.inner.trap_cx.kernel_sp == Self::kstack_top(pid),
            tcb.inner.trap_cx.trap_handler == env.trap_handler,
            tcb.inner.base_size == elf.user_sp,
            tcb.inner.task_cx.ra == env.trap_return,
            tcb.inner.task_cx.sp == Self::kstack_top(pid),
            forall|i: int| 0 <= i < 12 ==> tcb.inner.task_cx.s[i] == 0,
            tcb.inner.task_status == TaskStatus::Ready,
            tcb.inner.memory_set == elf.memory_set,
            tcb.inner.parent is None,
            tcb.inner.children@.len() == 0,
            tcb.inner.exit_code == 0,
            tcb.inner.fd_table@ == seq![Some(stdin), Some(stdout), Some(stderr)],
            tcb.inner.signals.bits == 0,
            tcb.inner.signal_mask.bits == 0,
            tcb.inner.handling_sig == -1,
            forall|i: int|
                0 <= i <= MAX_SIG ==> (#[trigger] tcb.inner.signal_actions.table[i]).handler == 0
                    && tcb.inner.signal_actions.table[i].mask.bits == DEFAULT_ACTION_MASK,
            !tcb.inner.killed,
            !tcb.inner.frozen,
            tcb.inner.trap_ctx_backup is None,
    {
        let kernel_stack = KernelStack::new(pid);
        let kernel_stack_top = kernel_stack.get_top();
        let trap_cx = TrapContext::app_init_context(
            elf.entry_point,
            elf.user_sp,
            env.sstatus,
            env.kernel_satp,
            kernel_stack_top,
            env.trap_handler,
        );
        let mut fd_table: Vec<Option<Arc<F>>> = Vec::new();
        fd_table.push(Some(stdin));
        fd_table.push(Some(stdout));
        fd_table.push(Some(stderr));
        TaskControlBlock {
            pid,
            kernel_stack,
            inner: TaskControlBlockInner {
                trap_cx,
                base_size: elf.user_sp,
                task_cx: TaskContext::goto_trap_return(env.trap_return, kernel_stack_top),
                task_status: TaskStatus::Ready,
                memory_set: elf.memory_set,
                parent: None,
                children: Vec::new(),
                exit_code: 0,
                fd_table,
                signals: SignalFlags::empty(),
                signal_mask: SignalFlags::empty(),
                handling_sig: -1,
                signal_actions: SignalActions::default(),
                killed: false,
                frozen: false,
                trap_ctx_backup: None,
            },
        }
    }

    /// A child of this process with the new process id `pid`: a copy of its
    /// address space, in the new page table whose token is `token`, with its
    /// registers and open files, that returns to user mode on its own kernel
    /// stack. The child becomes the last child of this process.
    pub fn fork(&mut self, pid: usize, token: usize, env: &KernelEnv) -> (child: Self)
        requires
            old(self).wf(),
            kernel_stack_fits(pid),
            pid != old(self).pid,
            token != old(self).inner.memory_set.token,
        ensures
            child.wf(),
            child.pid == pid,
            child.pid != final(self).pid,
            final(self).pid == old(self).pid,
            final(self).kernel_stack == old(self).kernel_stack,
            final(self).inner.children@ == old(self).inner.children@.push(pid),
            final(self).inner == (TaskControlBlockInner {
                children: final(self).inner.children,
                ..old(self).inner
            }),
            forked_from(child, *old(self), pid, token, *env),
            child.inner.memory_set.token != final(self).inner.memory_set.token,
    {
        let memory_set = MemorySet::from_existed_user(&self.inner.memory_set, token);
        let kernel_stack = KernelStack::new(pid);
        let kernel_stack_top = kernel_stack.get_top();
        let mut new_fd_table: Vec<Option<Arc<F>>> = Vec::new();
        let mut i: usize = 0;
        while i < self.inner.fd_table.len()
            invariant
                i <= self.inner.fd_table@.len(),
                new_fd_table@ == self.inner.fd_table@.subrange(0, i as int),
            decreases self.inner.fd_table@.len() - i,
        {
            match &self.inner.fd_table[i] {
                Some(file) => {
                    new_fd_table.push(Some(clone_file(file)));
                },
                None => {
                    new_fd_table.push(None);
                },
            }
            i = i + 1;
            assert(new_fd_table@ =~= self.inner.fd_table@.subrange(0, i as int));
        }
        assert(new_fd_table@ =~= self.inner.fd_table@);
        let mut trap_cx = self.inner.trap_cx;
        trap_cx.kernel_sp = kernel_stack_top;
        let child = TaskControlBlock {
            pid,
            kernel_stack,
            inner: TaskControlBlockInner {
                trap_cx,
                base_size: self.inner.base_size,
                task_cx: TaskContext::goto_trap_return(env.trap_return, kernel_stack_top),
                task_status: TaskStatus::Ready,
                memory_set,
                parent: Some(self.pid),
                children: Vec::new(),
                exit_code: 0,
                fd_table: new_fd_table,
                signals: SignalFlags::empty(),
                signal_mask: self.inner.signal_mask,
                handling_sig: -1,
                signal_actions: self.inner.signal_actions,
                killed: false,
                frozen: false,
                trap_ctx_backup: None,
            },
        };
        self.inner.children.push(pid);
        child
    }

    pub fn getpid(&self) -> (pid: usize)
        ensures
            pid == self.pid,
    {
        self.pid
    }
}


/// The bytes that the first `m` arguments take on the user stack, each with
/// its terminating zero.
pub open spec fn strings_size(args: Seq<Vec<u8>>, m: int) -> int
    decreases m,
{
    if m <= 0 {
        0
    } else {
        strings_size(args, m - 1) + args[m - 1]@.len() + 1
    }
}

pub proof fn lemma_strings_size_monotonic(args: Seq<Vec<u8>>, a: int, b: int)
    requires
        0 <= a <= b,
    ensures
        strings_size(args, a) <= strings_size(args, b),
    decreases b - a,
{
    if a < b {
        lemma_strings_size_monotonic(args, a, b - 1);
    }
}

/// Where the argument pointer array starts when the stack top is `user_sp`:
/// one word for each argument and one for the terminating null pointer.
pub open spec fn argv_base(user_sp: usize, args: Seq<Vec<u8>>) -> int {
    user_sp - (args.len() + 1) * 8
}

/// Where the `i`-th argument string starts: the strings are pushed below the
/// pointer array in order, the first highest.
pub open spec fn arg_addr(user_sp: usize, args: Seq<Vec<u8>>, i: int) -> int {
    argv_base(user_sp, args) - strings_size(args, i + 1)
}

/// The lowest byte of the pushed arguments: the start of the last string.
pub open spec fn args_bottom(user_sp: usize, args: Seq<Vec<u8>>) -> int {
    argv_base(user_sp, args) - strings_size(args, args.len() as int)
}

/// The stack pointer after the arguments are pushed, rounded down to a word.
pub open spec fn exec_user_sp(user_sp: usize, args: Seq<Vec<u8>>) -> int {
    let end = argv_base(user_sp, args) - strings_size(args, args.len() as int);
    end - end % 8
}

/// Whether the stack of `ms` below `user_sp` has room for the arguments.
pub open spec fn args_fit(ms: MemorySet, user_sp: usize, args: Seq<Vec<u8>>) -> bool {
    let bottom = argv_base(user_sp, args) - strings_size(args, args.len() as int);
    &&& 0 <= bottom
    &&& ms.in_stack(bottom, user_sp - bottom)
}

/// Whether the stack of `ms` holds the arguments as `exec` lays them out
/// below `user_sp`: the pointer array, null-terminated, and the strings,
/// each zero-terminated.
pub open spec fn argv_laid_out(ms: MemorySet, user_sp: usize, args: Seq<Vec<u8>>) -> bool {
    let base = argv_base(user_sp, args);
    &&& word_at(ms, base + 8 * args.len(), 0u64)
    &&& forall|i: int|
        0 <= i < args.len() ==> #[trigger] word_at(ms, base + 8 * i, arg_addr(user_sp, args, i) as u64)
    &&& forall|i: int, j: int|
        0 <= i < args.len() && 0 <= j < args[i]@.len() ==> #[trigger] ms.stack_byte(
            arg_addr(user_sp, args, i) + j,
        ) == args[i]@[j]
    &&& forall|i: int|
        0 <= i < args.len() ==> #[trigger] ms.stack_byte(arg_addr(user_sp, args, i) + args[i]@.len())
            == 0
}

impl<F> TaskControlBlock<F> {
    /// Replaces the program of this process by `elf`, with the arguments
    /// `args` pushed on its user stack: the user registers restart at the
    /// entry point with `a0` the argument count, `a1` the address of the
    /// argument pointers and the stack pointer below the strings.
    pub fn exec(&mut self, elf: LoadedElf, args: &Vec<Vec<u8>>, env: &KernelEnv)
        requires
            old(self).wf(),
            elf.memory_set.wf(),
            args_fit(elf.memory_set, elf.user_sp, args@),
        ensures
            final(self).wf(),
            final(self).pid == old(self).pid,
            final(self).kernel_stack == old(self).kernel_stack,
            final(self).inner.memory_set.token == elf.memory_set.token,
            final(self).inner.memory_set.pages@ == elf.memory_set.pages@,
            final(self).inner.memory_set.stack_base == elf.memory_set.stack_base,
            final(self).inner.memory_set.stack@.len() == elf.memory_set.stack@.len(),
            argv_laid_out(final(self).inner.memory_set, elf.user_sp, args@),
            forall|a: int|
                elf.memory_set.in_stack(a, 1) && !(args_bottom(elf.user_sp, args@) <= a < elf.user_sp)
                    ==> #[trigger] final(self).inner.memory_set.stack_byte(a) == elf.memory_set.stack_byte(a),
            final(self).inner.base_size == exec_user_sp(elf.user_sp, args@),
            final(self).inner.trap_cx.x@ == Seq::new(
                32,
                |k: int|
                    if k == 2 {
                        exec_user_sp(elf.user_sp, args@) as usize
                    } else if k == 10 {
                        args@.len() as usize
                    } else if k == 11 {
                        argv_base(elf.user_sp, args@) as usize
                    } else {
                        0usize
                    },
            ),
            final(self).inner.trap_cx.sepc == elf.entry_point,
            final(self).inner.trap_cx.sstatus == user_sstatus(env.sstatus),
            final(self).inner.trap_cx.kernel_satp == env.kernel_satp,
            final(self).inner.trap_cx.kernel_sp == Self::kstack_top(old(self).pid),
            final(self).inner.trap_cx.trap_handler == env.trap_handler,
            final(self).inner.task_cx == old(self).inner.task_cx,
            final(self).inner.task_status == old(self).inner.task_status,
            final(self).inner.parent == old(self).inner.parent,
            final(self).inner.children == old(self).inner.children,
            final(self).inner.exit_code == old(self).inner.exit_code,
            final(self).inner.fd_table == old(self).inner.fd_table,
            final(self).inner.signals == old(self).inner.signals,
            final(self).inner.signal_mask == old(self).inner.signal_mask,
            final(self).inner.handling_sig == old(self).inner.handling_sig,
            final(self).inner.signal_actions == old(self).inner.signal_actions,
            final(self).inner.killed == old(self).inner.killed,
            final(self).inner.frozen == old(self).inner.frozen,
            final(self).inner.trap_ctx_backup == old(self).inner.trap_ctx_backup,
    {
        let ghost top = elf.user_sp;
        let ghost a = args@;
        let ghost n = args@.len() as int;
        let LoadedElf { memory_set, user_sp, entry_point } = elf;
        let mut memory_set = memory_set;
        let ghost ms0 = memory_set;
        proof {
            lemma_strings_size_monotonic(a, 0, n);
        }
        let mut user_sp = user_sp;
        let argc = args.len();
        user_sp = user_sp - (argc + 1) * 8;
        let argv_start = user_sp;
        memory_set.write_word(argv_start + argc * 8, 0);
        let mut i: usize = 0;
        while i < argc
            invariant
                argc == n,
                argc == args@.len(),
                a == args@,
                0 <= i <= argc,
                argv_start == argv_base(top, a),
                user_sp == argv_start - strings_size(a, i as int),
                0 <= strings_size(a, i as int) <= strings_size(a, n),
                args_fit(ms0, top, a),
                memory_set.wf(),
                memory_set.token == ms0.token,
                memory_set.pages@ == ms0.pages@,
                memory_set.stack_base == ms0.stack_base,
                memory_set.stack@.len() == ms0.stack@.len(),
                word_at(memory_set, argv_start + 8 * argc, 0u64),
                forall|k: int|
                    0 <= k < i ==> #[trigger] word_at(memory_set, argv_start + 8 * k, arg_addr(top, a, k) as u64),
                forall|k: int, j: int|
                    0 <= k < i && 0 <= j < a[k]@.len() ==> #[trigger] memory_set.stack_byte(
                        arg_addr(top, a, k) + j,
                    ) == a[k]@[j],
                forall|k: int|
                    0 <= k < i ==> #[trigger] memory_set.stack_byte(arg_addr(top, a, k) + a[k]@.len()) == 0,
                forall|b: int|
                    ms0.in_stack(b, 1) && !(user_sp <= b < top) ==> #[trigger] memory_set.stack_byte(b)
                        == ms0.stack_byte(b),
            decreases argc - i,
        {
            proof {
                lemma_strings_size_monotonic(a, i as int + 1, n);
                lemma_strings_size_monotonic(a, 0, i as int + 1);
            }
            let len_i = args[i].len();
            assert(strings_size(a, i as int + 1) == strings_size(a, i as int) + a[i as int]@.len() + 1);
            let ghost before = memory_set;
            user_sp = user_sp - (len_i + 1);
            assert(user_sp == arg_addr(top, a, i as int));
            assert(argv_start + i * 8 + 8 <= top);
            assert(ms0.stack_base <= argv_base(top, a) - strings_size(a, n));
            assert(args_fit(ms0, top, a));
            assert(ms0.in_stack(argv_base(top, a) - strings_size(a, n), top - (argv_base(top, a) - strings_size(a, n))));
            assert(top <= ms0.stack_base + ms0.stack@.len());
            assert(top <= memory_set.stack_base + memory_set.stack@.len());
            assert(memory_set.in_stack(argv_start + i * 8, 8));
            assert(memory_set.in_stack(user_sp as int, len_i as int + 1));
            memory_set.write_word(argv_start + i * 8, user_sp as u64);
            let ghost mid = memory_set;
            memory_set.write_bytes(user_sp, &args[i]);
            let ghost mid2 = memory_set;
            memory_set.write_byte(user_sp + len_i, 0);
            proof {
                let ii = i as int;
                let w_lo = argv_start + 8 * ii;
                // the word of argument i
                assert forall|q: int| 0 <= q < 8 implies #[trigger] memory_set.stack_byte(w_lo + q)
                    == (arg_addr(top, a, ii) as u64 >> ((8 * q) as u64)) as u8 by {
                    assert(mid.stack_byte(w_lo + q) == (arg_addr(top, a, ii) as u64 >> ((8 * q) as u64)) as u8);
                    assert(mid2.stack_byte(w_lo + q) == mid.stack_byte(w_lo + q));
                }
                assert(word_at(memory_set, w_lo, arg_addr(top, a, ii) as u64));
                // the terminating null pointer
                assert forall|q: int| 0 <= q < 8 implies #[trigger] memory_set.stack_byte(argv_start + 8 * argc + q)
                    == (0u64 >> ((8 * q) as u64)) as u8 by {
                    assert(before.stack_byte(argv_start + 8 * argc + q) == (0u64 >> ((8 * q) as u64)) as u8);
                    assert(mid.stack_byte(argv_start + 8 * argc + q) == before.stack_byte(argv_start + 8 * argc + q));
                    assert(mid2.stack_byte(argv_start + 8 * argc + q) == mid.stack_byte(argv_start + 8 * argc + q));
                }
                // the earlier words
                assert forall|k: int| 0 <= k < ii + 1 implies #[trigger] word_at(
                    memory_set,
                    argv_start + 8 * k,
                    arg_addr(top, a, k) as u64,
                ) by {
                    if k < ii {
                        assert(word_at(before, argv_start + 8 * k, arg_addr(top, a, k) as u64));
                        assert forall|q: int| 0 <= q < 8 implies #[trigger] memory_set.stack_byte(argv_start + 8 * k + q)
                            == (arg_addr(top, a, k) as u64 >> ((8 * q) as u64)) as u8 by {
                            assert(before.stack_byte(argv_start + 8 * k + q)
                                == (arg_addr(top, a, k) as u64 >> ((8 * q) as u64)) as u8);
                            assert(mid.stack_byte(argv_start + 8 * k + q) == before.stack_byte(argv_start + 8 * k + q));
                            assert(mid2.stack_byte(argv_start + 8 * k + q) == mid.stack_byte(argv_start + 8 * k + q));
                        }
                    }
                }
                // the strings
                assert forall|k: int, j: int| 0 <= k < ii + 1 && 0 <= j < a[k]@.len() implies
                    #[trigger] memory_set.stack_byte(arg_addr(top, a, k) + j) == a[k]@[j] by {
                    if k < ii {
                        lemma_strings_size_monotonic(a, k + 1, ii);
                        lemma_strings_size_monotonic(a, 0, k);
                        assert(strings_size(a, k + 1) == strings_size(a, k) + a[k]@.len() + 1);
                        assert(before.in_stack(arg_addr(top, a, k) + j, 1));
                        assert(before.stack_byte(arg_addr(top, a, k) + j) == a[k]@[j]);
                        assert(mid.stack_byte(arg_addr(top, a, k) + j) == before.stack_byte(arg_addr(top, a, k) + j));
                        assert(mid2.stack_byte(arg_addr(top, a, k) + j) == mid.stack_byte(arg_addr(top, a, k) + j));
                    } else {
                        assert(mid2.stack_byte(user_sp + j) == a[k]@[j]);
                    }
                }
                assert forall|k: int| 0 <= k < ii + 1 implies #[trigger] memory_set.stack_byte(
                    arg_addr(top, a, k) + a[k]@.len(),
                ) == 0 by {
                    if k < ii {
                        lemma_strings_size_monotonic(a, k + 1, ii);
                        lemma_strings_size_monotonic(a, 0, k);
                        assert(strings_size(a, k + 1) == strings_size(a, k) + a[k]@.len() + 1);
                        assert(before.in_stack(arg_addr(top, a, k) + a[k]@.len(), 1));
                        assert(before.stack_byte(arg_addr(top, a, k) + a[k]@.len()) == 0);
                        assert(mid.stack_byte(arg_addr(top, a, k) + a[k]@.len()) == before.stack_byte(
                            arg_addr(top, a, k) + a[k]@.len(),
                        ));
                        assert(mid2.stack_byte(arg_addr(top, a, k) + a[k]@.len()) == mid.stack_byte(
                            arg_addr(top, a, k) + a[k]@.len(),
                        ));
                    }
                }
                assert forall|b: int| ms0.in_stack(b, 1) && !(user_sp <= b < top) implies
                    #[trigger] memory_set.stack_byte(b) == ms0.stack_byte(b) by {
                    assert(before.stack_byte(b) == ms0.stack_byte(b));
                    assert(mid.stack_byte(b) == before.stack_byte(b));
                    assert(mid2.stack_byte(b) == mid.stack_byte(b));
                }
            }
            i = i + 1;
        }
        user_sp = user_sp - user_sp % 8;
        self.inner.memory_set = memory_set;
        self.inner.base_size = user_sp;
        let kernel_stack_top = self.kernel_stack.get_top();
        let mut trap_cx = TrapContext::app_init_context(
            entry_point,
            user_sp,
            env.sstatus,
            env.kernel_satp,
            kernel_stack_top,
            env.trap_handler,
        );
        trap_cx.x[10] = argc;
        trap_cx.x[11] = argv_start;
        self.inner.trap_cx = trap_cx;
        assert(self.inner.trap_cx.x@ =~= Seq::new(
            32,
            |k: int|
                if k == 2 {
                    exec_user_sp(top, a) as usize
                } else if k == 10 {
                    a.len() as usize
                } else if k == 11 {
                    argv_base(top, a) as usize
                } else {
                    0usize
                },
        ));
    }
}

} // verus!
