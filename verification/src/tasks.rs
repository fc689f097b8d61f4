//! Cooperative round-robin task table.
//!
//! Every task owns a fixed stack slot.  The scheduler walks the table from
//! the task after the current one, wrapping around, and switches to the
//! first task that can run: a ready task, or a blocked task whose wake-up
//! tick has come (which it marks ready).  The current task is never picked
//! again by the walk.  The context switch itself is done by the kernel with
//! the pair of task indices that `schedule` hands back.

use vstd::prelude::*;

verus! {

/// Timer interrupts per second.
pub const TICK_HZ: u64 = 100;

/// The boot stack: a guard page, then `STACK_PAGES` pages.
pub const STACK_GUARD: u64 = 0xffff_a000_0000_0000;
pub const STACK_BOTTOM: u64 = STACK_GUARD + 4096;
pub const STACK_PAGES: u64 = 16;
pub const STACK_TOP: u64 = STACK_BOTTOM + STACK_PAGES * 4096;

/// Task stacks are carved out of this region, one slot per task id.
pub const TASK_STACK_REGION: u64 = 0xffff_b000_0000_0000;
pub const TASK_SLOT_SIZE: u64 = 64 * 4096;
pub const TASK_STACK_PAGES: u64 = 16;

/// What a task is doing.
#[derive(Copy, Clone, PartialEq, Eq, Structural, Debug)]
pub enum TaskState {
    Ready,
    Blocked { until: u64 },
    Dead,
}

/// One entry of the task table.
pub struct Task {
    pub id: u64,
    pub name: String,
    pub rsp: u64,
    pub stack_bottom: u64,
    pub stack_top: u64,
    pub state: TaskState,
}

/// The task table and the index of the running task.
pub struct Scheduler {
    pub tasks: Vec<Task>,
    pub current: usize,
}

/// Where a new task's stack lives and how its first frame is laid out.
///
/// The kernel writes the return address of the exit routine at `exit_slot`,
/// the entry point at `entry_slot`, zero into the six words from `rsp` up to
/// `rsp + 40` (the saved callee registers), and starts the task with `rsp`.
#[derive(Copy, Clone, PartialEq, Eq, Structural, Debug)]
pub struct StackFrame {
    pub guard: u64,
    pub bottom: u64,
    pub top: u64,
    pub rsp: u64,
    pub entry_slot: u64,
    pub exit_slot: u64,
}

/// A task in this state may be switched to at tick `now`.
pub open spec fn runnable(s: TaskState, now: u64) -> bool {
    match s {
        TaskState::Ready => true,
        TaskState::Blocked { until } => now >= until,
        TaskState::Dead => false,
    }
}

/// Index of the task `k` places after `current` in a table of `len` tasks.
pub open spec fn after(current: int, k: int, len: int) -> int {
    (current + k) % len
}

/// The state of each task, in table order.
pub open spec fn states(tasks: Seq<Task>) -> Seq<TaskState> {
    Seq::new(tasks.len(), |i: int| tasks[i].state)
}

/// `k` is the distance from `current` to the task that the walk picks:
/// the first of `1..len` whose task can run.
pub open spec fn picks(st: Seq<TaskState>, current: int, now: u64, k: int) -> bool {
    &&& 1 <= k < st.len()
    &&& runnable(st[after(current, k, st.len() as int)], now)
    &&& forall|j: int| 1 <= j < k ==> !runnable(#[trigger] st[after(current, j, st.len() as int)], now)
}

/// No task other than the current one can run.
pub open spec fn none_runnable(st: Seq<TaskState>, current: int, now: u64) -> bool {
    forall|j: int| 1 <= j < st.len() ==> !runnable(#[trigger] st[after(current, j, st.len() as int)], now)
}

/// Stepping `k` places from `current` in a table of `len` tasks lands on
/// the index computed without wrapping arithmetic, and the distance back
/// to `current` is `k` again.
pub proof fn lemma_after(current: int, k: int, len: int)
    requires
        0 <= current < len,
        1 <= k < len,
    ensures
        current + k < len ==> after(current, k, len) == current + k,
        current + k >= len ==> after(current, k, len) == current + k - len,
        (after(current, k, len) - current + len) % len == k,
        after(current, k, len) != current,
        0 <= after(current, k, len) < len,
{
    if current + k < len {
        vstd::arithmetic::div_mod::lemma_small_mod((current + k) as nat, len as nat);
        vstd::arithmetic::div_mod::lemma_mod_add_multiples_vanish(k, len);
        vstd::arithmetic::div_mod::lemma_small_mod(k as nat, len as nat);
    } else {
        vstd::arithmetic::div_mod::lemma_mod_add_multiples_vanish(current + k - len, len);
        vstd::arithmetic::div_mod::lemma_small_mod((current + k - len) as nat, len as nat);
        vstd::arithmetic::div_mod::lemma_small_mod(k as nat, len as nat);
    }
}

/// Guard page of the stack slot of task `id`.
pub open spec fn spec_slot_guard(id: u64) -> int {
    TASK_STACK_REGION + id * TASK_SLOT_SIZE
}

/// The stack of task `id` fits below the top of the address space.
pub open spec fn slot_fits(id: u64) -> bool {
    spec_slot_guard(id) + 4096 + TASK_STACK_PAGES * 4096 <= u64::MAX
}

/// Whether the stack slot of task `id` fits below the top of the address
/// space.
pub fn slot_available(id: u64) -> (r: bool)
    ensures
        r == slot_fits(id),
{
    match id.checked_mul(TASK_SLOT_SIZE) {
        None => false,
        Some(off) => off <= u64::MAX - TASK_STACK_REGION - 4096 - TASK_STACK_PAGES * 4096,
    }
}

/// Guard page of the stack slot of task `id`.
pub fn slot_guard(id: u64) -> (g: u64)
    requires
        spec_slot_guard(id) <= u64::MAX,
    ensures
        g == spec_slot_guard(id),
{
    TASK_STACK_REGION + id * TASK_SLOT_SIZE
}

/// The initial stack pointer of a task whose stack ends at `top`: ten words
/// below it, leaving room for the entry point, the exit routine and six
/// saved registers.
pub fn prepare_stack(top: u64) -> (rsp: u64)
    requires
        top >= 80,
    ensures
        rsp == top - 80,
{
    top - 80
}

/// The stack slot and first frame of task `id`.
pub fn stack_frame(id: u64) -> (f: StackFrame)
    requires
        slot_fits(id),
    ensures
        f.guard == spec_slot_guard(id),
        f.bottom == f.guard + 4096,
        f.top == f.bottom + TASK_STACK_PAGES * 4096,
        f.rsp == f.top - 80,
        f.entry_slot == f.top - 32,
        f.exit_slot == f.top - 24,
{
    let guard = slot_guard(id);
    let bottom = guard + 4096;
    let top = bottom + TASK_STACK_PAGES * 4096;
    let rsp = prepare_stack(top);
    StackFrame { guard, bottom, top, rsp, entry_slot: top - 32, exit_slot: top - 24 }
}

/// Tick at which a task that sleeps `ms` milliseconds from tick `now` wakes.
pub open spec fn wake_tick(now: u64, ms: u64) -> int {
    now + ms * TICK_HZ / 1000
}

/// What a scheduling pass does to the task states `st` with task `current`
/// running at tick `now`, given its answer `r`: with fewer than two tasks or
/// no other runnable task, nothing changes and the answer is `None`;
/// otherwise the first runnable task after `current` (wrapping around)
/// becomes current and ready, and the answer is (previous, next).
pub open spec fn scheduled(
    st: Seq<TaskState>,
    current: int,
    now: u64,
    r: Option<(usize, usize)>,
    final_st: Seq<TaskState>,
    final_current: int,
) -> bool {
    let len = st.len() as int;
    match r {
        None => {
            &&& final_st == st
            &&& final_current == current
            &&& (len < 2 || none_runnable(st, current, now))
        },
        Some((prev, next)) => {
            let k = (next - prev + len) % len;
            &&& len >= 2
            &&& prev == current
            &&& next < len
            &&& next != prev
            &&& next == after(prev as int, k, len)
            &&& picks(st, prev as int, now, k)
            &&& final_current == next
            &&& final_st == st.update(next as int, TaskState::Ready)
        },
    }
}

/// The two tables hold the same tasks, states aside.
pub open spec fn same_but_states(a: Seq<Task>, b: Seq<Task>) -> bool {
    &&& a.len() == b.len()
    &&& forall|i: int| 0 <= i < a.len() ==> {
        &&& (#[trigger] b[i]).id == a[i].id
        &&& b[i].name == a[i].name
        &&& b[i].rsp == a[i].rsp
        &&& b[i].stack_bottom == a[i].stack_bottom
        &&& b[i].stack_top == a[i].stack_top
    }
}

impl Scheduler {
    /// Task ids are their table indices and the current index is in the table.
    pub open spec fn wf(&self) -> bool {
        &&& self.current < self.tasks@.len()
        &&& forall|i: int| 0 <= i < self.tasks@.len() ==> #[trigger] self.tasks@[i].id == i
    }

    /// A table holding only the shell, on the boot stack, running.
    pub fn init() -> (s: Self)
        ensures
            s.wf(),
            s.current == 0,
            s.tasks@.len() == 1,
            s.tasks@[0].id == 0,
            s.tasks@[0].name@ == "shell"@,
            s.tasks@[0].rsp == 0,
            s.tasks@[0].stack_bottom == STACK_BOTTOM,
            s.tasks@[0].stack_top == STACK_TOP,
            s.tasks@[0].state == TaskState::Ready,
    {
        let mut tasks: Vec<Task> = Vec::new();
        tasks.push(Task {
            id: 0,
            name: String::from_str("shell"),
            rsp: 0,
            stack_bottom: STACK_BOTTOM,
            stack_top: STACK_TOP,
            state: TaskState::Ready,
        });
        Scheduler { tasks, current: 0 }
    }

    /// Adds a ready task named `name` with the next id and a fresh stack slot;
    /// returns its id.  The kernel maps the stack and writes the first frame
    /// that `stack_frame(id)` describes before the task first runs.
    pub fn spawn_task(&mut self, name: &str) -> (id: u64)
        requires
            old(self).wf(),
            slot_fits(old(self).tasks@.len() as u64),
        ensures
            final(self).wf(),
            id == old(self).tasks@.len(),
            final(self).current == old(self).current,
            final(self).tasks@.len() == old(self).tasks@.len() + 1,
            forall|i: int| 0 <= i < old(self).tasks@.len() ==> #[trigger] final(self).tasks@[i] == old(self).tasks@[i],
            final(self).tasks@[id as int].id == id,
            final(self).tasks@[id as int].name@ == name@,
            final(self).tasks@[id as int].stack_bottom == spec_slot_guard(id) + 4096,
            final(self).tasks@[id as int].stack_top == spec_slot_guard(id) + 4096 + TASK_STACK_PAGES * 4096,
            final(self).tasks@[id as int].rsp == spec_slot_guard(id) + 4096 + TASK_STACK_PAGES * 4096 - 80,
            final(self).tasks@[id as int].state == TaskState::Ready,
    {
        let id = self.tasks.len() as u64;
        let frame = stack_frame(id);
        self.tasks.push(Task {
            id,
            name: String::from_str(name),
            rsp: frame.rsp,
            stack_bottom: frame.bottom,
            stack_top: frame.top,
            state: TaskState::Ready,
        });
        id
    }

    /// Sets the state of task `i`, leaving everything else as it was.
    fn set_state(&mut self, i: usize, state: TaskState)
        requires
            old(self).wf(),
            i < old(self).tasks@.len(),
        ensures
            final(self).wf(),
            final(self).current == old(self).current,
            final(self).tasks@.len() == old(self).tasks@.len(),
            final(self).tasks@[i as int].state == state,
            final(self).tasks@[i as int].id == old(self).tasks@[i as int].id,
            final(self).tasks@[i as int].name == old(self).tasks@[i as int].name,
            final(self).tasks@[i as int].rsp == old(self).tasks@[i as int].rsp,
            final(self).tasks@[i as int].stack_bottom == old(self).tasks@[i as int].stack_bottom,
            final(self).tasks@[i as int].stack_top == old(self).tasks@[i as int].stack_top,
            forall|j: int| 0 <= j < old(self).tasks@.len() && j != i ==> #[trigger] final(self).tasks@[j] == old(self).tasks@[j],
    {
        let mut t = self.tasks.remove(i);
        t.state = state;
        self.tasks.insert(i, t);
    }

    /// Picks the next task to run at tick `now`.
    ///
    /// With fewer than two tasks, or when no other task can run, nothing
    /// changes and `None` comes back.  Otherwise the first runnable task after
    /// the current one (wrapping around) becomes current and ready, and the
    /// pair (previous, next) comes back for the context switch.
    pub fn schedule(&mut self, now: u64) -> (r: Option<(usize, usize)>)
        requires
            old(self).wf(),
        ensures
            final(self).wf(),
            final(self).tasks@.len() == old(self).tasks@.len(),
            same_but_states(old(self).tasks@, final(self).tasks@),
            scheduled(states(old(self).tasks@), old(self).current as int, now, r,
                states(final(self).tasks@), final(self).current as int),
            match r {
                None => {
                    &&& final(self).tasks@ == old(self).tasks@
                    &&& final(self).current == old(self).current
                    &&& (old(self).tasks@.len() < 2
                        || none_runnable(states(old(self).tasks@), old(self).current as int, now))
                },
                Some((prev, next)) => {
                    let len = old(self).tasks@.len() as int;
                    let k = (next - prev + len) % len;
                    &&& len >= 2
                    &&& prev == old(self).current
                    &&& next < len
                    &&& next != prev
                    &&& next == after(prev as int, k, len)
                    &&& picks(states(old(self).tasks@), prev as int, now, k)
                    &&& final(self).current == next
                    &&& final(self).tasks@[next as int].state == TaskState::Ready
                    &&& final(self).tasks@[next as int].rsp == old(self).tasks@[next as int].rsp
                    &&& final(self).tasks@[next as int].name == old(self).tasks@[next as int].name
                    &&& final(self).tasks@[next as int].id == old(self).tasks@[next as int].id
                    &&& final(self).tasks@[next as int].stack_bottom == old(self).tasks@[next as int].stack_bottom
                    &&& final(self).tasks@[next as int].stack_top == old(self).tasks@[next as int].stack_top
                    &&& forall|j: int| 0 <= j < len && j != next ==> #[trigger] final(self).tasks@[j] == old(self).tasks@[j]
                },
            },
    {
        let len = self.tasks.len();
        if len < 2 {
            return None;
        }
        let current = self.current;
        let ghost st = states(self.tasks@);
        let mut k: usize = 1;
        while k < len
            invariant
                1 <= k <= len,
                self.wf(),
                self.tasks@ == old(self).tasks@,
                self.current == old(self).current,
                len == self.tasks@.len(),
                current == self.current,
                current < len,
                st == states(self.tasks@),
                forall|j: int| 1 <= j < k ==> !runnable(#[trigger] st[after(current as int, j, len as int)], now),
            decreases len - k,
        {
            proof { lemma_after(current as int, k as int, len as int); }
            let i = if k < len - current { current + k } else { k - (len - current) };
            let state = self.tasks[i].state;
            let go = match state {
                TaskState::Ready => true,
                TaskState::Blocked { until } => now >= until,
                TaskState::Dead => false,
            };
            if go {
                proof {
                    assert(st[i as int] == state);
                }
                self.set_state(i, TaskState::Ready);
                self.current = i;
                proof {
                    assert(states(self.tasks@) =~= st.update(i as int, TaskState::Ready));
                    lemma_after(current as int, k as int, len as int);
                }
                return Some((current, i));
            }
            k = k + 1;
        }
        assert(none_runnable(states(old(self).tasks@), old(self).current as int, now));
        None
    }

    /// The current task sleeps for `ms` milliseconds from tick `now`: it
    /// becomes blocked until `wake_tick(now, ms)`, then the scheduler runs.
    pub fn sleep(&mut self, now: u64, ms: u64) -> (r: Option<(usize, usize)>)
        requires
            old(self).wf(),
            ms * TICK_HZ <= u64::MAX,
            wake_tick(now, ms) <= u64::MAX,
        ensures
            final(self).wf(),
            final(self).tasks@.len() == old(self).tasks@.len(),
            same_but_states(old(self).tasks@, final(self).tasks@),
            scheduled(
                states(old(self).tasks@).update(old(self).current as int, TaskState::Blocked { until: wake_tick(now, ms) as u64 }),
                old(self).current as int, now, r, states(final(self).tasks@), final(self).current as int),
    {
        let current = self.current;
        let until = now + ms * TICK_HZ / 1000;
        self.set_state(current, TaskState::Blocked { until });
        assert(states(self.tasks@) =~= states(old(self).tasks@).update(current as int, TaskState::Blocked { until }));
        let r = self.schedule(now);
        r
    }

    /// Blocks task `id` with no wake-up tick, then the scheduler runs at `now`.
    pub fn block_task(&mut self, id: usize, now: u64) -> (r: Option<(usize, usize)>)
        requires
            old(self).wf(),
            id < old(self).tasks@.len(),
        ensures
            final(self).wf(),
            final(self).tasks@.len() == old(self).tasks@.len(),
            same_but_states(old(self).tasks@, final(self).tasks@),
            scheduled(
                states(old(self).tasks@).update(id as int, TaskState::Blocked { until: u64::MAX }),
                old(self).current as int, now, r, states(final(self).tasks@), final(self).current as int),
    {
        self.set_state(id, TaskState::Blocked { until: u64::MAX });
        assert(states(self.tasks@) =~= states(old(self).tasks@).update(id as int, TaskState::Blocked { until: u64::MAX }));
        self.schedule(now)
    }

    /// Makes task `id` ready again.
    pub fn wake(&mut self, id: usize)
        requires
            old(self).wf(),
            id < old(self).tasks@.len(),
        ensures
            final(self).wf(),
            final(self).current == old(self).current,
            final(self).tasks@.len() == old(self).tasks@.len(),
            final(self).tasks@[id as int].state == TaskState::Ready,
            forall|j: int| 0 <= j < old(self).tasks@.len() && j != id ==> #[trigger] final(self).tasks@[j] == old(self).tasks@[j],
    {
        self.set_state(id, TaskState::Ready);
    }

    /// The current task ends: it is marked dead and never scheduled again.
    pub fn exit_current(&mut self)
        requires
            old(self).wf(),
        ensures
            final(self).wf(),
            final(self).current == old(self).current,
            final(self).tasks@.len() == old(self).tasks@.len(),
            final(self).tasks@[old(self).current as int].state == TaskState::Dead,
            forall|j: int| 0 <= j < old(self).tasks@.len() && j != old(self).current ==> #[trigger] final(self).tasks@[j] == old(self).tasks@[j],
    {
        let current = self.current;
        self.set_state(current, TaskState::Dead);
    }
}

/// The task the scheduler switches to can run: it is not the current task,
/// not dead, and if it was blocked its wake-up tick has come.
pub proof fn law_schedule_picks_runnable(st: Seq<TaskState>, current: int, now: u64, k: int)
    requires
        0 <= current < st.len(),
        picks(st, current, now, k),
    ensures
        after(current, k, st.len() as int) != current,
        st[after(current, k, st.len() as int)] != TaskState::Dead,
        st[after(current, k, st.len() as int)] matches TaskState::Blocked { until } ==> now >= until,
{
    lemma_after(current, k, st.len() as int);
}

/// When every task is ready, the scheduler moves on to the very next task
/// in the table (wrapping around at the end).
pub proof fn law_round_robin(st: Seq<TaskState>, current: int, now: u64)
    requires
        st.len() >= 2,
        0 <= current < st.len(),
        forall|i: int| 0 <= i < st.len() ==> #[trigger] st[i] == TaskState::Ready,
    ensures
        picks(st, current, now, 1),
{
    lemma_after(current, 1, st.len() as int);
}

/// A sleeping task is never switched to before its wake-up tick.
pub proof fn law_sleeper_waits(st: Seq<TaskState>, current: int, now: u64, k: int, j: int, until: u64)
    requires
        0 <= current < st.len(),
        0 <= j < st.len(),
        st[j] == (TaskState::Blocked { until }),
        now < until,
        picks(st, current, now, k),
    ensures
        after(current, k, st.len() as int) != j,
{
}

/// A task blocked without a wake-up tick (as `block_task` leaves it) is
/// never switched to until it is woken, at any tick before the last one.
pub proof fn law_blocked_until_woken(st: Seq<TaskState>, current: int, now: u64, k: int, j: int)
    requires
        0 <= current < st.len(),
        0 <= j < st.len(),
        st[j] == (TaskState::Blocked { until: u64::MAX }),
        now < u64::MAX,
        picks(st, current, now, k),
    ensures
        after(current, k, st.len() as int) != j,
{
}

/// When no other task can run, the scheduler keeps the current one; when
/// one can, the scheduler switches: exactly one of the two holds.
pub proof fn law_switch_iff_runnable(st: Seq<TaskState>, current: int, now: u64)
    requires
        st.len() >= 2,
        0 <= current < st.len(),
    ensures
        none_runnable(st, current, now) <==> !(exists|k: int| picks(st, current, now, k)),
{
    if !none_runnable(st, current, now) {
        let j = choose|j: int| 1 <= j < st.len() && runnable(#[trigger] st[after(current, j, st.len() as int)], now);
        lemma_first_runnable(st, current, now, j);
    }
}

/// Below a runnable distance there is a first runnable distance.
proof fn lemma_first_runnable(st: Seq<TaskState>, current: int, now: u64, j: int)
    requires
        1 <= j < st.len(),
        runnable(st[after(current, j, st.len() as int)], now),
    ensures
        exists|k: int| picks(st, current, now, k),
    decreases j,
{
    if forall|i: int| 1 <= i < j ==> !runnable(#[trigger] st[after(current, i, st.len() as int)], now) {
        assert(picks(st, current, now, j));
    } else {
        let i = choose|i: int| 1 <= i < j && runnable(#[trigger] st[after(current, i, st.len() as int)], now);
        lemma_first_runnable(st, current, now, i);
    }
}

/// How many places task `k` lies after task `c` in a table of `len` tasks.
pub open spec fn distance(c: int, k: int, len: int) -> int {
    (k - c + len) % len
}

proof fn lemma_distance(c: int, k: int, len: int)
    requires
        0 <= c < len,
        0 <= k < len,
    ensures
        distance(c, k, len) == if k >= c { k - c } else { k - c + len },
        c != k ==> 1 <= distance(c, k, len) < len,
        after(c, distance(c, k, len), len) == k,
{
    if k >= c {
        vstd::arithmetic::div_mod::lemma_mod_add_multiples_vanish(k - c, len);
        vstd::arithmetic::div_mod::lemma_small_mod((k - c) as nat, len as nat);
        vstd::arithmetic::div_mod::lemma_small_mod(k as nat, len as nat);
        assert(c + (k - c) == k);
    } else {
        vstd::arithmetic::div_mod::lemma_small_mod((k - c + len) as nat, len as nat);
        vstd::arithmetic::div_mod::lemma_mod_add_multiples_vanish(k, len);
        vstd::arithmetic::div_mod::lemma_small_mod(k as nat, len as nat);
        assert(c + (k - c + len) == k + len);
    }
}

/// A pass that does not pick a runnable task `k` moves strictly closer to
/// it: the picked task lies between the current one and `k`.
pub proof fn law_ready_task_gets_closer(st: Seq<TaskState>, current: int, now: u64, d: int, k: int)
    requires
        0 <= current < st.len(),
        0 <= k < st.len(),
        k != current,
        runnable(st[k], now),
        picks(st, current, now, d),
    ensures
        d <= distance(current, k, st.len() as int),
        after(current, d, st.len() as int) == k
            || distance(after(current, d, st.len() as int), k, st.len() as int)
                == distance(current, k, st.len() as int) - d,
{
    let len = st.len() as int;
    lemma_distance(current, k, len);
    let dk = distance(current, k, len);
    if d > dk {
        assert(!runnable(st[after(current, dk, len)], now));
    }
    lemma_after(current, d, len);
    let nx = after(current, d, len);
    if nx != k {
        lemma_distance(nx, k, len);
    }
}

/// A task that stays runnable is run within `n - 1` passes of the
/// scheduler over a table of `n` tasks: along passes that each switch from
/// `cs[i]` to `cs[i + 1]` as `picks` says, none of which reaches `k`, there
/// are fewer than `distance(cs[0], k, n)` passes.
pub proof fn law_ready_task_runs_within(
    sts: Seq<Seq<TaskState>>,
    nows: Seq<u64>,
    cs: Seq<int>,
    ds: Seq<int>,
    k: int,
    len: int,
)
    requires
        len >= 2,
        0 <= k < len,
        cs.len() == ds.len() + 1,
        sts.len() == ds.len(),
        nows.len() == ds.len(),
        0 <= cs[0] < len,
        forall|i: int| 0 <= i < ds.len() ==> (#[trigger] sts[i]).len() == len,
        forall|i: int| 0 <= i < ds.len() ==> runnable((#[trigger] sts[i])[k], nows[i]),
        forall|i: int| 0 <= i < ds.len() ==> picks(#[trigger] sts[i], cs[i], nows[i], ds[i]),
        forall|i: int| 0 <= i < ds.len() ==> cs[i + 1] == after(#[trigger] cs[i], ds[i], len),
        forall|i: int| 0 <= i < cs.len() ==> #[trigger] cs[i] != k,
    ensures
        ds.len() < distance(cs[0], k, len),
        ds.len() <= len - 2,
    decreases ds.len(),
{
    lemma_distance(cs[0], k, len);
    if ds.len() > 0 {
        assert(sts[0].len() == len);
        assert(cs[0] != k);
        assert(cs[1] != k);
        law_ready_task_gets_closer(sts[0], cs[0], nows[0], ds[0], k);
        lemma_after(cs[0], ds[0], len);
        law_ready_task_runs_within(sts.drop_first(), nows.drop_first(), cs.drop_first(), ds.drop_first(), k, len);
        assert(cs.drop_first()[0] == cs[1]);
    }
}

} // verus!
