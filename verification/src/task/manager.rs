//! The tasks of the kernel: the process table, the ready queue and the task
//! that runs on the processor.
use vstd::prelude::*;
use std::collections::VecDeque;
use super::pid::kernel_stack_fits;
use super::task::{KernelEnv, TaskControlBlock, TaskControlBlockInner, TaskStatus, forked_from};

verus! {

/// The process id of the initial process, which adopts orphans; its exit
/// ends the system.
pub const IDLE_PID: usize = 0;

/// What the processor does after the running task exits.
#[derive(Clone, Copy, PartialEq, Eq, Structural, Debug)]
pub enum ExitAction {
    /// Switch to the scheduler.
    Schedule,
    /// The initial process exited: stop the machine, reporting success
    /// when its exit code is 0.
    Shutdown { success: bool },
}

/// All tasks of the kernel. The process `pid` is `tasks[pid]`; process 0 is
/// the initial process.
pub struct Kernel<F> {
    pub tasks: Vec<TaskControlBlock<F>>,
    /// Ready tasks, in the order they run.
    pub ready_queue: VecDeque<usize>,
    /// Whether a process can still be looked up by its id.
    pub pid2task: Vec<bool>,
    /// The task that runs on the processor.
    pub current: Option<usize>,
}

/// The parent of the process `pid` in `tasks`.
pub open spec fn parent_in<F>(tasks: Seq<TaskControlBlock<F>>, pid: int) -> Option<usize> {
    tasks[pid].inner.parent
}

/// The children of the process `pid` in `tasks`.
pub open spec fn children_in<F>(tasks: Seq<TaskControlBlock<F>>, pid: int) -> Seq<usize> {
    tasks[pid].inner.children@
}

/// Every parent lists its children and every listed child names its parent,
/// once.
pub open spec fn tree_wf<F>(tasks: Seq<TaskControlBlock<F>>) -> bool {
    &&& forall|i: int|
        0 <= i < tasks.len() ==> match #[trigger] parent_in(tasks, i) {
            Some(p) => p < tasks.len() && children_in(tasks, p as int).contains(i as usize),
            None => true,
        }
    &&& forall|i: int, j: int|
        0 <= i < tasks.len() && 0 <= j < children_in(tasks, i).len() ==> {
            &&& #[trigger] children_in(tasks, i)[j] < tasks.len()
            &&& parent_in(tasks, children_in(tasks, i)[j] as int) == Some(i as usize)
        }
    &&& forall|i: int| 0 <= i < tasks.len() ==> (#[trigger] children_in(tasks, i)).no_duplicates()
    &&& forall|i: int| 0 <= i < tasks.len() ==> #[trigger] parent_in(tasks, i) != Some(i as usize)
}

/// The process table is indexed by process id, its blocks are well formed,
/// the initial process has no parent, and the tree links agree.
pub open spec fn tasks_wf<F>(tasks: Seq<TaskControlBlock<F>>) -> bool {
    &&& tasks.len() >= 1
    &&& forall|i: int| 0 <= i < tasks.len() ==> (#[trigger] tasks[i]).pid == i && tasks[i].wf()
    &&& parent_in(tasks, IDLE_PID as int) is None
    &&& tree_wf(tasks)
}

/// No two tasks of a well-formed table share a process id: each task's id
/// is its place in the table, so a task created with the next place gets an
/// id that no live task has.
pub proof fn lemma_pids_distinct<F>(tasks: Seq<TaskControlBlock<F>>)
    requires
        tasks_wf(tasks),
    ensures
        forall|i: int, j: int|
            0 <= i < tasks.len() && 0 <= j < tasks.len() && i != j ==> #[trigger] tasks[i].pid
                != #[trigger] tasks[j].pid,
        forall|i: int| 0 <= i < tasks.len() ==> #[trigger] tasks[i].pid != tasks.len(),
{
}

impl<F> Kernel<F> {
    pub open spec fn wf(&self) -> bool {
        &&& tasks_wf(self.tasks@)
        &&& self.pid2task@.len() == self.tasks@.len()
        &&& forall|k: int| 0 <= k < self.ready_queue@.len() ==> #[trigger] self.ready_queue@[k] < self.tasks@.len()
        &&& match self.current {
            Some(c) => c < self.tasks@.len(),
            None => true,
        }
    }

    /// A kernel whose only task is the initial process `initproc`, which is
    /// neither queued nor running yet.
    pub fn new(initproc: TaskControlBlock<F>) -> (k: Self)
        requires
            initproc.wf(),
            initproc.pid == IDLE_PID,
            initproc.inner.parent is None,
            initproc.inner.children@.len() == 0,
        ensures
            k.wf(),
            k.tasks@ == seq![initproc],
            k.ready_queue@.len() == 0,
            k.pid2task@ == seq![true],
            k.current is None,
    {
        let mut tasks = Vec::new();
        tasks.push(initproc);
        let mut pid2task = Vec::new();
        pid2task.push(true);
        let k = Kernel { tasks, ready_queue: VecDeque::new(), pid2task, current: None };
        assert(children_in(k.tasks@, 0) =~= Seq::<usize>::empty());
        k
    }

    /// Queues the task `pid` to run and makes it findable by its id.
    pub fn add_task(&mut self, pid: usize)
        requires
            old(self).wf(),
            pid < old(self).tasks@.len(),
        ensures
            final(self).wf(),
            final(self).tasks == old(self).tasks,
            final(self).ready_queue@ == old(self).ready_queue@.push(pid),
            final(self).pid2task@ == old(self).pid2task@.update(pid as int, true),
            final(self).current == old(self).current,
    {
        self.ready_queue.push_back(pid);
        self.pid2task.set(pid, true);
    }

    /// Queues the initial process to run.
    pub fn add_initproc(&mut self)
        requires
            old(self).wf(),
        ensures
            final(self).wf(),
            final(self).tasks == old(self).tasks,
            final(self).ready_queue@ == old(self).ready_queue@.push(IDLE_PID),
            final(self).pid2task@ == old(self).pid2task@.update(IDLE_PID as int, true),
            final(self).current == old(self).current,
    {
        self.add_task(IDLE_PID);
    }

    /// Makes the task `pid` unfindable by its id.
    pub fn remove_from_pid2task(&mut self, pid: usize)
        requires
            old(self).wf(),
            pid < old(self).tasks@.len(),
        ensures
            final(self).wf(),
            final(self).tasks == old(self).tasks,
            final(self).ready_queue == old(self).ready_queue,
            final(self).pid2task@ == old(self).pid2task@.update(pid as int, false),
            final(self).current == old(self).current,
    {
        self.pid2task.set(pid, false);
    }

    /// Takes the running task off the processor.
    pub fn take_current_task(&mut self) -> (t: Option<usize>)
        requires
            old(self).wf(),
        ensures
            final(self).wf(),
            t == old(self).current,
            final(self).current is None,
            final(self).tasks == old(self).tasks,
            final(self).ready_queue == old(self).ready_queue,
            final(self).pid2task == old(self).pid2task,
    {
        self.current.take()
    }

    /// Takes the first ready task off the queue, if any.
    pub fn fetch_task(&mut self) -> (t: Option<usize>)
        requires
            old(self).wf(),
        ensures
            final(self).wf(),
            final(self).tasks == old(self).tasks,
            final(self).pid2task == old(self).pid2task,
            final(self).current == old(self).current,
            old(self).ready_queue@.len() == 0 ==> t is None && final(self).ready_queue@ == old(
                self,
            ).ready_queue@,
            old(self).ready_queue@.len() > 0 ==> t == Some(old(self).ready_queue@[0])
                && final(self).ready_queue@ == old(self).ready_queue@.drop_first(),
    {
        let t = self.ready_queue.pop_front();
        proof {
            if old(self).ready_queue@.len() > 0 {
                assert(self.ready_queue@ =~= old(self).ready_queue@.drop_first());
                assert(old(self).ready_queue@[0] < self.tasks@.len());
            }
        }
        t
    }

    /// Puts the first ready task on the processor, as running, and returns
    /// it; `None` when no task is ready.
    pub fn run_next(&mut self) -> (t: Option<usize>)
        requires
            old(self).wf(),
            old(self).current is None,
        ensures
            final(self).wf(),
            final(self).pid2task == old(self).pid2task,
            final(self).tasks@.len() == old(self).tasks@.len(),
            old(self).ready_queue@.len() == 0 ==> {
                &&& t is None
                &&& final(self).current is None
                &&& final(self).ready_queue@ == old(self).ready_queue@
                &&& final(self).tasks@ == old(self).tasks@
            },
            old(self).ready_queue@.len() > 0 ==> {
                let p = old(self).ready_queue@[0];
                &&& t == Some(p)
                &&& final(self).current == Some(p)
                &&& final(self).ready_queue@ == old(self).ready_queue@.drop_first()
                &&& final(self).tasks@[p as int].inner == (TaskControlBlockInner {
                    task_status: TaskStatus::Running,
                    ..old(self).tasks@[p as int].inner
                })
                &&& forall|i: int|
                    0 <= i < old(self).tasks@.len() && i != p ==> #[trigger] final(self).tasks@[i]
                        == old(self).tasks@[i]
            },
    {
        match self.fetch_task() {
            Some(task) => {
                let ghost before = self.tasks@;
                self.tasks[task].inner.task_status = TaskStatus::Running;
                assert forall|i: int| 0 <= i < self.tasks@.len() implies (#[trigger] self.tasks@[i]).pid == i
                    && self.tasks@[i].wf() && parent_in(self.tasks@, i) == parent_in(before, i)
                    && children_in(self.tasks@, i) == children_in(before, i) by {
                    if i != task {
                        assert(self.tasks@[i] == before[i]);
                    }
                }
                assert(tree_wf(self.tasks@));
                self.current = Some(task);
                Some(task)
            },
            None => None,
        }
    }

    /// Puts the running task back in the ready queue, as ready; returns it,
    /// the task whose context the switch to the scheduler saves.
    pub fn suspend_current_and_run_next(&mut self) -> (t: usize)
        requires
            old(self).wf(),
            old(self).current is Some,
        ensures
            final(self).wf(),
            t == old(self).current.unwrap(),
            final(self).current is None,
            final(self).tasks@.len() == old(self).tasks@.len(),
            final(self).tasks@[t as int].inner == (TaskControlBlockInner {
                task_status: TaskStatus::Ready,
                ..old(self).tasks@[t as int].inner
            }),
            forall|i: int|
                0 <= i < old(self).tasks@.len() && i != t ==> #[trigger] final(self).tasks@[i]
                    == old(self).tasks@[i],
            final(self).ready_queue@ == old(self).ready_queue@.push(t),
            final(self).pid2task@ == old(self).pid2task@.update(t as int, true),
    {
        let task = self.take_current_task().unwrap();
        self.tasks[task].inner.task_status = TaskStatus::Ready;
        assert forall|i: int| 0 <= i < self.tasks@.len() implies (#[trigger] self.tasks@[i]).pid == i
            && self.tasks@[i].wf() && parent_in(self.tasks@, i) == parent_in(old(self).tasks@, i)
            && children_in(self.tasks@, i) == children_in(old(self).tasks@, i) by {
            if i != task {
                assert(self.tasks@[i] == old(self).tasks@[i]);
            }
        }
        assert(tree_wf(self.tasks@));
        self.add_task(task);
        task
    }

    /// Ends the running task with `exit_code`. The initial process ends the
    /// system; any other task becomes a zombie that keeps its exit code, gives
    /// its children to the initial process, and frees its pages and files.
    pub fn exit_current_and_run_next(&mut self, exit_code: i32) -> (action: ExitAction)
        requires
            old(self).wf(),
            old(self).current is Some,
        ensures
            final(self).wf(),
            final(self).current is None,
            final(self).ready_queue == old(self).ready_queue,
            final(self).tasks@.len() == old(self).tasks@.len(),
            ({
                let x = old(self).current.unwrap() as int;
                let o = old(self).tasks@;
                let t = final(self).tasks@;
                let kids = children_in(o, x);
                &&& x == IDLE_PID ==> {
                    &&& action == (ExitAction::Shutdown { success: exit_code == 0 })
                    &&& t == o
                    &&& final(self).pid2task == old(self).pid2task
                }
                &&& x != IDLE_PID ==> {
                    &&& action == ExitAction::Schedule
                    &&& final(self).pid2task@ == old(self).pid2task@.update(x, false)
                    &&& t[x].inner.task_status == TaskStatus::Zombie
                    &&& t[x].inner.exit_code == exit_code
                    &&& t[x].inner.children@.len() == 0
                    &&& t[x].inner.fd_table@.len() == 0
                    &&& t[x].inner.memory_set.mapping().is_empty()
                    &&& t[x].inner.memory_set.stack@.len() == 0
                    &&& t[x].inner.memory_set.token == o[x].inner.memory_set.token
                    &&& t[x].inner == (TaskControlBlockInner {
                        task_status: TaskStatus::Zombie,
                        exit_code,
                        children: t[x].inner.children,
                        fd_table: t[x].inner.fd_table,
                        memory_set: t[x].inner.memory_set,
                        ..o[x].inner
                    })
                    &&& children_in(t, IDLE_PID as int) == children_in(o, IDLE_PID as int) + kids
                    &&& forall|i: int|
                        0 <= i < t.len() ==> (#[trigger] t[i]).pid == o[i].pid
                            && t[i].kernel_stack == o[i].kernel_stack
                    &&& forall|i: int|
                        0 <= i < t.len() && i != x ==> (#[trigger] t[i]).inner == (TaskControlBlockInner {
                            parent: t[i].inner.parent,
                            children: t[i].inner.children,
                            ..o[i].inner
                        })
                    &&& forall|i: int|
                        0 <= i < t.len() ==> #[trigger] parent_in(t, i) == if kids.contains(i as usize) {
                            Some(IDLE_PID)
                        } else {
                            parent_in(o, i)
                        }
                    &&& forall|i: int|
                        0 <= i < t.len() && i != x && i != IDLE_PID ==> #[trigger] children_in(t, i)
                            == children_in(o, i)
                }
            }),
    {
        let ghost o = self.tasks@;
        let task = self.take_current_task().unwrap();
        let pid = self.tasks[task].getpid();
        assert(pid == task);
        if pid == IDLE_PID {
            return ExitAction::Shutdown { success: exit_code == 0 };
        }
        self.remove_from_pid2task(pid);
        self.tasks[pid].inner.task_status = TaskStatus::Zombie;
        self.tasks[pid].inner.exit_code = exit_code;
        let ghost kids = children_in(o, pid as int);
        let ghost t1 = self.tasks@;
        proof {
            assert forall|i: int| 0 <= i < t1.len() implies #[trigger] parent_in(t1, i) == parent_in(o, i)
                && children_in(t1, i) == children_in(o, i) && t1[i].pid == o[i].pid && t1[i].kernel_stack
                == o[i].kernel_stack by {
                if i != pid {
                    assert(t1[i] == o[i]);
                }
            }
        }
        let n = self.tasks[pid].inner.children.len();
        let mut j: usize = 0;
        while j < n
            invariant
                pid != IDLE_PID,
                pid < o.len(),
                tasks_wf(o),
                kids == children_in(o, pid as int),
                n == kids.len(),
                j <= n,
                self.tasks@.len() == o.len(),
                self.pid2task@.len() == o.len(),
                self.pid2task@ == old(self).pid2task@.update(pid as int, false),
                self.ready_queue == old(self).ready_queue,
                self.current is None,
                forall|k: int| 0 <= k < self.ready_queue@.len() ==> #[trigger] self.ready_queue@[k] < o.len(),
                forall|i: int|
                    0 <= i < o.len() ==> (#[trigger] self.tasks@[i]).pid == o[i].pid
                        && self.tasks@[i].kernel_stack == o[i].kernel_stack,
                forall|i: int|
                    0 <= i < o.len() && i != pid ==> (#[trigger] self.tasks@[i]).inner == (TaskControlBlockInner {
                        parent: self.tasks@[i].inner.parent,
                        children: self.tasks@[i].inner.children,
                        ..o[i].inner
                    }),
                self.tasks@[pid as int].inner == t1[pid as int].inner,
                forall|i: int|
                    0 <= i < o.len() ==> #[trigger] parent_in(self.tasks@, i) == if kids.take(j as int).contains(
                        i as usize,
                    ) {
                        Some(IDLE_PID)
                    } else {
                        parent_in(o, i)
                    },
                forall|i: int|
                    0 <= i < o.len() && i != IDLE_PID ==> #[trigger] children_in(self.tasks@, i)
                        == children_in(o, i),
                children_in(self.tasks@, IDLE_PID as int) == children_in(o, IDLE_PID as int) + kids.take(
                    j as int,
                ),
            decreases n - j,
        {
            assert(children_in(self.tasks@, pid as int) == kids);
            let c = self.tasks[pid].inner.children[j];
            assert(c == kids[j as int]);
            assert(c < o.len() && parent_in(o, c as int) == Some(pid));
            assert(c != IDLE_PID);
            assert(c != pid);
            let ghost before = self.tasks@;
            self.tasks[c].inner.parent = Some(IDLE_PID);
            let ghost mid = self.tasks@;
            assert(mid.len() == before.len());
            assert(mid[c as int].inner.parent == Some(IDLE_PID));
            assert(mid[c as int].inner.children == before[c as int].inner.children);
            assert(forall|i: int| 0 <= i < o.len() && i != c ==> mid[i] == before[i]);
            self.tasks[IDLE_PID].inner.children.push(c);
            assert(self.tasks@[0].inner.parent == mid[0].inner.parent);
            assert(self.tasks@[0].inner.children@ == mid[0].inner.children@.push(c));
            assert(forall|i: int| 0 <= i < o.len() && i != 0 ==> self.tasks@[i] == mid[i]);
            proof {
                assert(kids.take(j as int + 1) == kids.take(j as int).push(c));
                assert forall|i: int| 0 <= i < o.len() implies (#[trigger] self.tasks@[i]).pid == o[i].pid
                    && self.tasks@[i].kernel_stack == o[i].kernel_stack by {
                    if i != c && i != IDLE_PID {
                        assert(self.tasks@[i] == before[i]);
                    }
                }
                assert forall|i: int| 0 <= i < o.len() && i != pid implies (#[trigger] self.tasks@[i]).inner
                    == (TaskControlBlockInner {
                    parent: self.tasks@[i].inner.parent,
                    children: self.tasks@[i].inner.children,
                    ..o[i].inner
                }) by {
                    if i != c && i != IDLE_PID {
                        assert(self.tasks@[i] == before[i]);
                    }
                }
                assert(self.tasks@[pid as int] == before[pid as int]);
                assert forall|i: int| 0 <= i < o.len() implies #[trigger] parent_in(self.tasks@, i) == if kids.take(
                    j as int + 1,
                ).contains(i as usize) {
                    Some(IDLE_PID)
                } else {
                    parent_in(o, i)
                } by {
                    assert(parent_in(before, i) == (if kids.take(j as int).contains(i as usize) {
                        Some(IDLE_PID)
                    } else {
                        parent_in(o, i)
                    }));
                    if i != c && i != IDLE_PID {
                        assert(self.tasks@[i] == before[i]);
                    }
                    if i == c {
                        assert(kids.take(j as int + 1)[j as int] == c);
                    } else {
                        assert(kids.take(j as int + 1).contains(i as usize) == kids.take(j as int).contains(i as usize));
                    }
                    if i == IDLE_PID {
                        assert(parent_in(o, IDLE_PID as int) is None);
                        assert(!kids.contains(IDLE_PID)) by {
                            if kids.contains(IDLE_PID) {
                                let k = choose|k: int| 0 <= k < kids.len() && kids[k] == IDLE_PID;
                                assert(children_in(o, pid as int)[k] == IDLE_PID);
                            }
                        }
                        assert(!kids.take(j as int + 1).contains(IDLE_PID));
                        assert(!kids.take(j as int).contains(IDLE_PID));
                    }
                }
                assert forall|i: int| 0 <= i < o.len() && i != IDLE_PID implies #[trigger] children_in(
                    self.tasks@,
                    i,
                ) == children_in(o, i) by {
                    assert(children_in(before, i) == children_in(o, i));
                    if i != c {
                        assert(self.tasks@[i] == before[i]);
                    }
                }
            }
            j = j + 1;
        }
        let ghost t2 = self.tasks@;
        self.tasks[pid].inner.children.clear();
        self.tasks[pid].inner.memory_set.recycle_data_pages();
        self.tasks[pid].inner.fd_table.clear();
        proof {
            let t = self.tasks@;
            assert forall|i: int| 0 <= i < t.len() && i != pid implies #[trigger] t[i] == t2[i] by {}
            assert(forall|i: int| 0 <= i < t.len() && i != pid ==> #[trigger] parent_in(t, i) == parent_in(t2, i)
                && children_in(t, i) == children_in(t2, i));
            assert(parent_in(t, pid as int) == parent_in(o, pid as int));
            assert(!kids.contains(pid)) by {
                if kids.contains(pid) {
                    let k = choose|k: int| 0 <= k < kids.len() && kids[k] == pid;
                    assert(parent_in(o, kids[k] as int) == Some(pid));
                    assert(parent_in(o, pid as int) != Some(pid));
                }
            }
            assert(children_in(t, pid as int).len() == 0);
            assert(kids.take(n as int) == kids);
            assert forall|i: int| 0 <= i < t.len() implies (#[trigger] t[i]).pid == i && t[i].wf() by {
                assert(o[i].pid == i && o[i].wf());
            }
            assert forall|i: int| 0 <= i < t.len() implies #[trigger] parent_in(t, i) != Some(i as usize) by {
                if kids.contains(i as usize) {
                    let k = choose|k: int| 0 <= k < kids.len() && kids[k] == i as usize;
                    assert(children_in(o, pid as int)[k] == i as usize);
                    assert(i != IDLE_PID);
                } else {
                    assert(parent_in(o, i) != Some(i as usize));
                }
            }
            assert forall|i: int| 0 <= i < t.len() implies match #[trigger] parent_in(t, i) {
                Some(p) => p < t.len() && children_in(t, p as int).contains(i as usize),
                None => true,
            } by {
                if kids.contains(i as usize) {
                    let k = choose|k: int| 0 <= k < kids.len() && kids[k] == i as usize;
                    let base = children_in(o, IDLE_PID as int);
                    assert(children_in(t, IDLE_PID as int)[base.len() + k] == i as usize);
                } else {
                    match parent_in(o, i) {
                        Some(p) => {
                            assert(children_in(o, p as int).contains(i as usize));
                            if p == pid {
                                assert(kids.contains(i as usize));
                            } else if p == IDLE_PID {
                                let k = choose|k: int|
                                    0 <= k < children_in(o, p as int).len() && children_in(o, p as int)[k] == i as usize;
                                assert(children_in(t, IDLE_PID as int)[k] == i as usize);
                            } else {
                                assert(children_in(t2, p as int) == children_in(o, p as int));
                                assert(children_in(t, p as int) == children_in(o, p as int));
                            }
                        },
                        None => {},
                    }
                }
            }
            assert forall|i: int, k: int|
                0 <= i < t.len() && 0 <= k < children_in(t, i).len() implies {
                &&& #[trigger] children_in(t, i)[k] < t.len()
                &&& parent_in(t, children_in(t, i)[k] as int) == Some(i as usize)
            } by {
                if i == pid {
                } else if i == IDLE_PID {
                    let base = children_in(o, IDLE_PID as int);
                    if k < base.len() {
                        let c = base[k];
                        assert(children_in(t, i)[k] == c);
                        assert(parent_in(o, c as int) == Some(IDLE_PID));
                        assert(!kids.contains(c)) by {
                            if kids.contains(c) {
                                let q = choose|q: int| 0 <= q < kids.len() && kids[q] == c;
                                assert(parent_in(o, kids[q] as int) == Some(pid));
                            }
                        }
                    } else {
                        let c = kids[k - base.len()];
                        assert(children_in(t, i)[k] == c);
                        assert(kids.contains(c));
                    }
                } else {
                    assert(children_in(t2, i) == children_in(o, i));
                    let c = children_in(o, i)[k];
                    assert(children_in(t, i)[k] == c);
                    assert(parent_in(o, c as int) == Some(i as usize));
                    assert(!kids.contains(c)) by {
                        if kids.contains(c) {
                            let q = choose|q: int| 0 <= q < kids.len() && kids[q] == c;
                            assert(parent_in(o, kids[q] as int) == Some(pid));
                        }
                    }
                }
            }
            assert forall|i: int| 0 <= i < t.len() implies (#[trigger] children_in(t, i)).no_duplicates() by {
                if i == pid {
                } else if i == IDLE_PID {
                    let base = children_in(o, IDLE_PID as int);
                    let all = base + kids;
                    assert(base.no_duplicates());
                    assert(kids.no_duplicates());
                    assert forall|a: int, b: int| 0 <= a < all.len() && 0 <= b < all.len() && a != b implies all[a]
                        != all[b] by {
                        if a < base.len() && b >= base.len() {
                            assert(parent_in(o, base[a] as int) == Some(IDLE_PID));
                            assert(parent_in(o, kids[b - base.len()] as int) == Some(pid));
                        } else if a >= base.len() && b < base.len() {
                            assert(parent_in(o, base[b] as int) == Some(IDLE_PID));
                            assert(parent_in(o, kids[a - base.len()] as int) == Some(pid));
                        }
                    }
                } else {
                    assert(children_in(t2, i) == children_in(o, i));
                    assert(children_in(t, i) == children_in(o, i));
                }
            }
            assert(tree_wf(t));
            let x = pid as int;
            assert(t[x].inner.task_status == TaskStatus::Zombie);
            assert(t[x].inner.children@.len() == 0);
            assert(t[x].inner.fd_table@.len() == 0);
            assert(t[x].inner.memory_set.mapping().is_empty());
            assert(t[x].inner == (TaskControlBlockInner {
                task_status: TaskStatus::Zombie,
                exit_code,
                children: t[x].inner.children,
                fd_table: t[x].inner.fd_table,
                memory_set: t[x].inner.memory_set,
                ..o[x].inner
            }));
            assert(children_in(t, IDLE_PID as int) == children_in(o, IDLE_PID as int) + kids);
            assert(t[x].inner.exit_code == exit_code);
            assert(t[x].inner.memory_set.stack@.len() == 0);
            assert(forall|i: int| 0 <= i < t.len() ==> (#[trigger] t[i]).pid == o[i].pid
                && t[i].kernel_stack == o[i].kernel_stack);
            assert forall|i: int| 0 <= i < t.len() && i != x implies (#[trigger] t[i]).inner == (TaskControlBlockInner {
                parent: t[i].inner.parent,
                children: t[i].inner.children,
                ..o[i].inner
            }) by {
                assert(t2[i].inner == (TaskControlBlockInner {
                    parent: t2[i].inner.parent,
                    children: t2[i].inner.children,
                    ..o[i].inner
                }));
            }
            assert forall|i: int| 0 <= i < t.len() && i != x && i != IDLE_PID implies #[trigger] children_in(t, i)
                == children_in(o, i) by {
                assert(children_in(t2, i) == children_in(o, i));
            }
            assert(forall|i: int|
                0 <= i < t.len() ==> #[trigger] parent_in(t, i) == if kids.contains(i as usize) {
                    Some(IDLE_PID)
                } else {
                    parent_in(o, i)
                });
            assert(parent_in(t, IDLE_PID as int) is None) by {
                assert(!kids.contains(IDLE_PID)) by {
                    if kids.contains(IDLE_PID) {
                        let k = choose|k: int| 0 <= k < kids.len() && kids[k] == IDLE_PID;
                        assert(parent_in(o, kids[k] as int) == Some(pid));
                    }
                }
            }
        }
        ExitAction::Schedule
    }

    /// Forks the process `parent`: its child gets the next process id and an
    /// address space in the new page table whose token is `token`, is
    /// registered and queued to run, and is returned.
    pub fn fork_task(&mut self, parent: usize, token: usize, env: &KernelEnv) -> (child: usize)
        requires
            old(self).wf(),
            parent < old(self).tasks@.len(),
            token != old(self).tasks@[parent as int].inner.memory_set.token,
            kernel_stack_fits(old(self).tasks.len()),
        ensures
            final(self).wf(),
            child == old(self).tasks@.len(),
            final(self).tasks@.len() == old(self).tasks@.len() + 1,
            parent_in(final(self).tasks@, child as int) == Some(parent),
            children_in(final(self).tasks@, child as int).len() == 0,
            children_in(final(self).tasks@, parent as int) == children_in(old(self).tasks@, parent as int).push(child),
            forked_from(final(self).tasks@[child as int], old(self).tasks@[parent as int], child, token, *env),
            forall|i: int| 0 <= i < old(self).tasks@.len() ==> #[trigger] old(self).tasks@[i].pid != child,
            forall|i: int|
                0 <= i < old(self).tasks@.len() && i != parent ==> #[trigger] final(self).tasks@[i]
                    == old(self).tasks@[i],
            final(self).tasks@[parent as int].inner == (TaskControlBlockInner {
                children: final(self).tasks@[parent as int].inner.children,
                ..old(self).tasks@[parent as int].inner
            }),
            final(self).ready_queue@ == old(self).ready_queue@.push(child),
            final(self).pid2task@ == old(self).pid2task@.push(true),
            final(self).current == old(self).current,
    {
        let ghost o = self.tasks@;
        let pid = self.tasks.len();
        assert(self.tasks@[parent as int].pid == parent);
        let child = self.tasks[parent].fork(pid, token, env);
        self.tasks.push(child);
        self.pid2task.push(false);
        proof {
            let t = self.tasks@;
            assert forall|i: int| 0 <= i < o.len() && i != parent as int implies #[trigger] t[i] == o[i] by {}
            assert forall|i: int| 0 <= i < t.len() implies (#[trigger] t[i]).pid == i && t[i].wf() by {
                if i < o.len() {
                    assert(o[i].pid == i && o[i].wf());
                }
            }
            assert forall|i: int| 0 <= i < t.len() implies #[trigger] parent_in(t, i) != Some(i as usize) by {
                if i < o.len() {
                    assert(parent_in(o, i) != Some(i as usize));
                }
            }
            assert forall|i: int| 0 <= i < t.len() implies match #[trigger] parent_in(t, i) {
                Some(p) => p < t.len() && children_in(t, p as int).contains(i as usize),
                None => true,
            } by {
                if i == pid {
                    assert(children_in(t, parent as int)[children_in(o, parent as int).len() as int] == pid);
                } else {
                    match parent_in(o, i) {
                        Some(p) => {
                            assert(children_in(o, p as int).contains(i as usize));
                            let k = choose|k: int|
                                0 <= k < children_in(o, p as int).len() && children_in(o, p as int)[k] == i as usize;
                            assert(children_in(t, p as int)[k] == i as usize);
                        },
                        None => {},
                    }
                }
            }
            assert forall|i: int, k: int|
                0 <= i < t.len() && 0 <= k < children_in(t, i).len() implies {
                &&& #[trigger] children_in(t, i)[k] < t.len()
                &&& parent_in(t, children_in(t, i)[k] as int) == Some(i as usize)
            } by {
                if i == pid {
                } else if i == parent && k == children_in(o, i).len() {
                } else {
                    let c = children_in(o, i)[k];
                    assert(children_in(t, i)[k] == c);
                    assert(c < o.len() && parent_in(o, c as int) == Some(i as usize));
                }
            }
            assert forall|i: int| 0 <= i < t.len() implies (#[trigger] children_in(t, i)).no_duplicates() by {
                if i == parent {
                    let b = children_in(o, i);
                    assert(b.no_duplicates());
                    assert forall|a: int| 0 <= a < b.len() implies b[a] != pid by {
                        assert(b[a] < o.len());
                    }
                    assert(children_in(t, i) == b.push(pid));
                } else if i < o.len() {
                    assert(children_in(o, i).no_duplicates());
                }
            }
            assert(tree_wf(t));
            assert(parent_in(t, IDLE_PID as int) is None);
        }
        self.add_task(pid);
        pid
    }
}

} // verus!
