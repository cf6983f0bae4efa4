//! Round-robin preemptive scheduler bookkeeping: the task table, task
//! states, slot allocation, and the per-tick scheduling decision. Saving
//! registers and switching page tables stay with the architecture code,
//! which acts on the decisions taken here.
use vstd::prelude::*;
pub use crate::address_space::replace_address_space;

verus! {

pub const MAX_TASKS: usize = 256;

/// Maximum number of user data frames tracked per task.
pub const MAX_USER_FRAMES: usize = 32;

/// A context switch happens every this many timer ticks.
pub const SWITCH_INTERVAL: usize = 10;

#[derive(Clone, Copy, PartialEq, Eq, Debug, Structural)]
pub enum TaskState {
    Unused,
    Ready,
    Running,
    Sleeping,
}

/// One task slot.
#[derive(Clone, Copy)]
pub struct Task {
    /// Saved kernel stack pointer (where its register frame lives).
    pub saved_sp: usize,
    pub state: TaskState,
    /// Physical address of the task's top-level page table.
    pub page_table_root: usize,
    /// Physical addresses of user data frames, freed on exit.
    pub user_data_frames: [usize; 32],
    pub user_data_frame_count: usize,
    /// Tick at which a sleeping task is woken.
    pub wake_tick: usize,
    /// User id: 0 = kernel/privileged, 1000 = normal user.
    pub user_id: u32,
}

/// The content of a slot that holds no task.
pub open spec fn unused_task(t: Task) -> bool {
    &&& t.saved_sp == 0
    &&& t.state == TaskState::Unused
    &&& t.page_table_root == 0
    &&& t.user_data_frame_count == 0
    &&& t.wake_tick == 0
    &&& t.user_id == 1000
}

/// The task table, the index of the running task, and the tick counter.
pub struct Scheduler {
    tasks: Vec<Task>,
    current: usize,
    ticks: usize,
}

/// Number of tasks among slots 1..n that are in use.
pub open spec fn count_active(tasks: Seq<Task>, n: int) -> int
    decreases n,
{
    if n <= 1 {
        0
    } else {
        count_active(tasks, n - 1) + if tasks[n - 1].state != TaskState::Unused { 1int } else { 0 }
    }
}

/// First slot in 1..MAX_TASKS that holds no task.
pub open spec fn first_unused_from(tasks: Seq<Task>, i: int) -> Option<usize>
    decreases MAX_TASKS - i,
{
    if i >= MAX_TASKS {
        None
    } else if tasks[i].state == TaskState::Unused {
        Some(i as usize)
    } else {
        first_unused_from(tasks, i + 1)
    }
}

/// The task picked at a switch: the first Ready task in round-robin order
/// starting just after `cur` (covering every slot once), or task 0 when
/// none is Ready.
pub open spec fn next_ready_from(tasks: Seq<Task>, start: int, k: int) -> usize
    decreases MAX_TASKS - k,
{
    if k >= MAX_TASKS {
        0
    } else if tasks[(start + k) % (MAX_TASKS as int)].state == TaskState::Ready {
        ((start + k) % (MAX_TASKS as int)) as usize
    } else {
        next_ready_from(tasks, start, k + 1)
    }
}

/// Round-robin choice: `next` is the task picked after `cur` from the task
/// table `w`. When some task is Ready, `next` is Ready and no task strictly
/// between `cur` and `next`, going round from `cur + 1`, is Ready (so the
/// current task is picked again only when no other task is Ready); when
/// none is, `next` is task 0.
pub open spec fn round_robin_pick(w: Seq<Task>, cur: int, next: int) -> bool {
    let dist = if next > cur { next - cur } else { next + MAX_TASKS - cur };
    &&& 0 <= next < MAX_TASKS
    &&& (exists|i: int| 0 <= i < MAX_TASKS && #[trigger] w[i].state == TaskState::Ready) ==> {
        &&& w[next].state == TaskState::Ready
        &&& forall|j: int| 1 <= j < dist ==> #[trigger] w[(cur + j) % (MAX_TASKS as int)].state != TaskState::Ready
    }
    &&& !(exists|i: int| 0 <= i < MAX_TASKS && #[trigger] w[i].state == TaskState::Ready) ==> next == 0
}

/// Whether slot `(start + j) % MAX_TASKS` of `w` holds a Ready task.
spec fn ready_at(w: Seq<Task>, start: int, j: int) -> bool {
    w[(start + j) % (MAX_TASKS as int)].state == TaskState::Ready
}

/// The scan from `k` finds the first `j0 >= k` at which a task is Ready,
/// or gives task 0 when there is none.
proof fn lemma_next_ready_scan(w: Seq<Task>, start: int, k: int) -> (j0: int)
    requires
        0 <= k <= MAX_TASKS,
    ensures
        (exists|j: int| k <= j < MAX_TASKS && #[trigger] ready_at(w, start, j)) ==> {
            &&& k <= j0 < MAX_TASKS
            &&& ready_at(w, start, j0)
            &&& next_ready_from(w, start, k) as int == (start + j0) % (MAX_TASKS as int)
            &&& forall|j: int| k <= j < j0 ==> !#[trigger] ready_at(w, start, j)
        },
        !(exists|j: int| k <= j < MAX_TASKS && #[trigger] ready_at(w, start, j)) ==> next_ready_from(w, start, k) == 0,
    decreases MAX_TASKS - k,
{
    if k >= MAX_TASKS {
        k
    } else if ready_at(w, start, k) {
        k
    } else {
        let j1 = lemma_next_ready_scan(w, start, k + 1);
        if exists|j: int| k <= j < MAX_TASKS && #[trigger] ready_at(w, start, j) {
            let jj = choose|j: int| k <= j < MAX_TASKS && #[trigger] ready_at(w, start, j);
            assert(jj != k);
            assert(k + 1 <= jj < MAX_TASKS && ready_at(w, start, jj));
        } else {
            assert(!(exists|j: int| k + 1 <= j < MAX_TASKS && #[trigger] ready_at(w, start, j)));
        }
        j1
    }
}

/// The switch is round robin: the task picked after `cur` is the first
/// Ready task going round from `cur + 1`, or task 0 when none is Ready.
pub proof fn law_round_robin(w: Seq<Task>, cur: int)
    requires
        w.len() == MAX_TASKS,
        0 <= cur < MAX_TASKS,
    ensures
        round_robin_pick(w, cur, next_ready_from(w, (cur + 1) % (MAX_TASKS as int), 0) as int),
{
    let m = MAX_TASKS as int;
    let start = (cur + 1) % m;
    let r = next_ready_from(w, start, 0) as int;
    let j0 = lemma_next_ready_scan(w, start, 0);
    lemma_next_ready_range(w, start, 0);
    if exists|i: int| 0 <= i < MAX_TASKS && #[trigger] w[i].state == TaskState::Ready {
        let i = choose|i: int| 0 <= i < MAX_TASKS && #[trigger] w[i].state == TaskState::Ready;
        let ji = (i - start + m) % m;
        assert((start + ji) % m == i);
        assert(ready_at(w, start, ji));
        let dist = if r > cur { r - cur } else { r + m - cur };
        assert(dist == j0 + 1);
        assert forall|j: int| 1 <= j < dist implies #[trigger] w[(cur + j) % m].state != TaskState::Ready by {
            assert((cur + j) % m == (start + (j - 1)) % m);
            assert(!ready_at(w, start, j - 1));
        }
    } else {
        assert forall|j: int| 0 <= j < MAX_TASKS implies !#[trigger] ready_at(w, start, j) by {
            let i = (start + j) % m;
            assert(0 <= i < m);
        }
    }
}

/// A task after the wake scan at tick `now`: a sleeper whose wake tick has
/// come is Ready again.
pub open spec fn woken(t: Task, now: usize) -> Task {
    if t.state == TaskState::Sleeping && now >= t.wake_tick {
        Task { state: TaskState::Ready, ..t }
    } else {
        t
    }
}

/// The state of the task picked at a switch: it runs, unless it is task 0
/// taken for want of a Ready task while it still sleeps, which stays asleep
/// until its wake tick.
pub open spec fn picked_state(s: TaskState) -> TaskState {
    if s == TaskState::Sleeping {
        TaskState::Sleeping
    } else {
        TaskState::Running
    }
}

/// The task table after a timer tick at tick `now` (the counter already
/// advanced), with `cur` running and `saved_sp` its saved stack pointer.
pub open spec fn tick_tasks(tasks: Seq<Task>, cur: usize, now: usize, saved_sp: usize) -> Seq<Task> {
    let w = Seq::new(MAX_TASKS as nat, |i: int| woken(tasks[i], now));
    if now == 0 || now % SWITCH_INTERVAL != 0 {
        w
    } else {
        let saved = Task {
            saved_sp,
            state: if w[cur as int].state == TaskState::Running { TaskState::Ready } else { w[cur as int].state },
            ..w[cur as int]
        };
        let w2 = w.update(cur as int, saved);
        let next = next_ready_from(w2, (cur + 1) % (MAX_TASKS as int), 0);
        w2.update(next as int, Task { state: picked_state(w2[next as int].state), ..w2[next as int] })
    }
}

/// No early wake-up: a task asleep before a timer tick whose wake tick is
/// still ahead of the new tick count is asleep after it, whether or not
/// the tick switches tasks.
pub proof fn law_sleepers_wait(tasks: Seq<Task>, cur: usize, now: usize, saved_sp: usize, i: int)
    requires
        tasks.len() == MAX_TASKS,
        cur < MAX_TASKS,
        0 <= i < MAX_TASKS,
        tasks[i].state == TaskState::Sleeping,
        now < tasks[i].wake_tick,
    ensures
        tick_tasks(tasks, cur, now, saved_sp)[i].state == TaskState::Sleeping,
{
    let w = Seq::new(MAX_TASKS as nat, |k: int| woken(tasks[k], now));
    assert(w[i].state == TaskState::Sleeping);
    if !(now == 0 || now % SWITCH_INTERVAL != 0) {
        lemma_next_ready_range(
            w.update(cur as int, Task {
                saved_sp,
                state: if w[cur as int].state == TaskState::Running { TaskState::Ready } else { w[cur as int].state },
                ..w[cur as int]
            }),
            (cur + 1) % (MAX_TASKS as int),
            0,
        );
    }
}

impl Scheduler {
    pub closed spec fn tasks_view(&self) -> Seq<Task> {
        self.tasks@
    }

    pub closed spec fn current_view(&self) -> usize {
        self.current
    }

    pub closed spec fn ticks_view(&self) -> usize {
        self.ticks
    }

    pub open spec fn wf(&self) -> bool {
        &&& self.tasks_view().len() == MAX_TASKS
        &&& self.current_view() < MAX_TASKS
        &&& forall|i: int| 0 <= i < MAX_TASKS ==> #[trigger] self.tasks_view()[i].user_data_frame_count <= MAX_USER_FRAMES
    }

    /// An empty table: every slot unused, task 0 current, tick 0.
    pub fn new() -> (s: Self)
        ensures
            s.wf(),
            s.current_view() == 0,
            s.ticks_view() == 0,
            forall|i: int| 0 <= i < MAX_TASKS ==> unused_task(#[trigger] s.tasks_view()[i]),
    {
        let mut tasks: Vec<Task> = Vec::new();
        let mut i: usize = 0;
        while i < MAX_TASKS
            invariant
                0 <= i <= MAX_TASKS,
                tasks@.len() == i,
                forall|k: int| 0 <= k < i ==> unused_task(#[trigger] tasks@[k]),
            decreases MAX_TASKS - i,
        {
            tasks.push(Task {
                saved_sp: 0,
                state: TaskState::Unused,
                page_table_root: 0,
                user_data_frames: [0; 32],
                user_data_frame_count: 0,
                wake_tick: 0,
                user_id: 1000,
            });
            i = i + 1;
        }
        Scheduler { tasks, current: 0, ticks: 0 }
    }

    fn set_task(&mut self, idx: usize, t: Task)
        requires
            idx < old(self).tasks_view().len(),
        ensures
            final(self).tasks_view() == old(self).tasks_view().update(idx as int, t),
            final(self).current_view() == old(self).current_view(),
            final(self).ticks_view() == old(self).ticks_view(),
    {
        self.tasks[idx] = t;
    }

    /// Count one timer tick; the counter wraps to 0 after usize::MAX.
    pub(crate) fn advance_tick(&mut self)
        ensures
            final(self).ticks_view() == (if old(self).ticks_view() == usize::MAX { 0 } else { old(self).ticks_view() + 1 }),
            final(self).tasks_view() == old(self).tasks_view(),
            final(self).current_view() == old(self).current_view(),
    {
        self.ticks = if self.ticks == usize::MAX { 0 } else { self.ticks + 1 };
    }

    /// Make task 0 the running kernel task (UID 0) on the kernel's page
    /// table.
    pub fn init_scheduler(&mut self, kernel_page_table_root: usize)
        requires
            old(self).wf(),
        ensures
            final(self).wf(),
            final(self).tasks_view() == old(self).tasks_view().update(
                0,
                Task {
                    state: TaskState::Running,
                    user_id: 0,
                    page_table_root: kernel_page_table_root,
                    ..old(self).tasks_view()[0]
                },
            ),
            final(self).current_view() == old(self).current_view(),
            final(self).ticks_view() == old(self).ticks_view(),
    {
        let mut t = self.tasks[0];
        t.state = TaskState::Running;
        t.user_id = 0;
        t.page_table_root = kernel_page_table_root;
        self.set_task(0, t);
    }

    /// The tick counter.
    pub fn ticks(&self) -> (r: usize)
        ensures
            r == self.ticks_view(),
    {
        self.ticks
    }

    /// Index of the running task.
    pub fn current_task(&self) -> (r: usize)
        ensures
            r == self.current_view(),
    {
        self.current
    }

    /// The state of task `idx`.
    pub fn get_task_state(&self, idx: usize) -> (r: TaskState)
        requires
            self.wf(),
            idx < MAX_TASKS,
        ensures
            r == self.tasks_view()[idx as int].state,
    {
        self.tasks[idx].state
    }

    /// The user id of task `idx`.
    pub fn get_task_uid(&self, idx: usize) -> (r: u32)
        requires
            self.wf(),
            idx < MAX_TASKS,
        ensures
            r == self.tasks_view()[idx as int].user_id,
    {
        self.tasks[idx].user_id
    }

    /// The page table root of task `idx`.
    pub fn task_page_table_root(&self, idx: usize) -> (r: usize)
        requires
            self.wf(),
            idx < MAX_TASKS,
        ensures
            r == self.tasks_view()[idx as int].page_table_root,
    {
        self.tasks[idx].page_table_root
    }

    /// The running task's page table root.
    pub fn current_page_table_root(&self) -> (r: usize)
        requires
            self.wf(),
        ensures
            r == self.tasks_view()[self.current_view() as int].page_table_root,
    {
        self.tasks[self.current].page_table_root
    }

    /// The running task's user id.
    pub fn current_user_id(&self) -> (r: u32)
        requires
            self.wf(),
        ensures
            r == self.tasks_view()[self.current_view() as int].user_id,
    {
        self.tasks[self.current].user_id
    }

    /// The running task's state.
    pub fn current_state(&self) -> (r: TaskState)
        requires
            self.wf(),
        ensures
            r == self.tasks_view()[self.current_view() as int].state,
    {
        self.tasks[self.current].state
    }

    /// Set the running task's state.
    pub fn set_state(&mut self, state: TaskState)
        requires
            old(self).wf(),
        ensures
            final(self).wf(),
            final(self).tasks_view() == old(self).tasks_view().update(
                old(self).current_view() as int,
                Task { state, ..old(self).tasks_view()[old(self).current_view() as int] },
            ),
            final(self).current_view() == old(self).current_view(),
            final(self).ticks_view() == old(self).ticks_view(),
    {
        let cur = self.current;
        let mut t = self.tasks[cur];
        t.state = state;
        self.set_task(cur, t);
    }

    /// Set the wake tick of task `idx`.
    pub fn set_task_wake_tick(&mut self, idx: usize, tick: usize)
        requires
            old(self).wf(),
            idx < MAX_TASKS,
        ensures
            final(self).wf(),
            final(self).tasks_view() == old(self).tasks_view().update(
                idx as int,
                Task { wake_tick: tick, ..old(self).tasks_view()[idx as int] },
            ),
            final(self).current_view() == old(self).current_view(),
            final(self).ticks_view() == old(self).ticks_view(),
    {
        let mut t = self.tasks[idx];
        t.wake_tick = tick;
        self.set_task(idx, t);
    }

    /// The slot of task `idx`.
    pub fn task(&self, idx: usize) -> (t: Task)
        requires
            self.wf(),
            idx < MAX_TASKS,
        ensures
            t == self.tasks_view()[idx as int],
    {
        self.tasks[idx]
    }

    /// Replace the slot of task `idx`.
    pub(crate) fn put_task(&mut self, idx: usize, t: Task)
        requires
            old(self).wf(),
            idx < MAX_TASKS,
            t.user_data_frame_count <= MAX_USER_FRAMES,
        ensures
            final(self).wf(),
            final(self).tasks_view() == old(self).tasks_view().update(idx as int, t),
            final(self).current_view() == old(self).current_view(),
            final(self).ticks_view() == old(self).ticks_view(),
    {
        self.set_task(idx, t);
    }

    /// Record the saved stack pointer of task `idx`.
    pub fn set_saved_sp(&mut self, idx: usize, sp: usize)
        requires
            old(self).wf(),
            idx < MAX_TASKS,
        ensures
            final(self).wf(),
            final(self).tasks_view() == old(self).tasks_view().update(
                idx as int,
                Task { saved_sp: sp, ..old(self).tasks_view()[idx as int] },
            ),
            final(self).current_view() == old(self).current_view(),
            final(self).ticks_view() == old(self).ticks_view(),
    {
        let mut t = self.tasks[idx];
        t.saved_sp = sp;
        self.set_task(idx, t);
    }

    /// The first unused slot among 1..MAX_TASKS.
    pub fn free_slot(&self) -> (r: Option<usize>)
        requires
            self.wf(),
        ensures
            r == first_unused_from(self.tasks_view(), 1),
    {
        let mut i: usize = 1;
        while i < MAX_TASKS
            invariant
                self.wf(),
                1 <= i <= MAX_TASKS,
                first_unused_from(self.tasks_view(), 1) == first_unused_from(self.tasks_view(), i as int),
            decreases MAX_TASKS - i,
        {
            if self.tasks[i].state == TaskState::Unused {
                return Some(i);
            }
            i = i + 1;
        }
        None
    }

    /// Is at least one slot among 1..MAX_TASKS unused?
    pub fn has_free_slot(&self) -> (r: bool)
        requires
            self.wf(),
        ensures
            r == first_unused_from(self.tasks_view(), 1) is Some,
    {
        self.free_slot().is_some()
    }

    /// Number of tasks (other than task 0) in use.
    pub fn active_task_count(&self) -> (r: usize)
        requires
            self.wf(),
        ensures
            r == count_active(self.tasks_view(), MAX_TASKS as int),
    {
        let mut count: usize = 0;
        let mut i: usize = 1;
        while i < MAX_TASKS
            invariant
                self.wf(),
                1 <= i <= MAX_TASKS,
                count == count_active(self.tasks_view(), i as int),
                count < i,
            decreases MAX_TASKS - i,
        {
            if self.tasks[i].state != TaskState::Unused {
                count = count + 1;
            }
            i = i + 1;
        }
        count
    }

    /// Claim the first free slot for a userspace task on page table
    /// `page_table_root`, recording up to MAX_USER_FRAMES of its user data
    /// frames for reclaiming at exit. The slot becomes Ready; its register
    /// frame is set with `set_saved_sp`.
    pub fn spawn_userspace(&mut self, page_table_root: usize, user_data_frames: &[usize]) -> (r: Result<usize, &'static str>)
        requires
            old(self).wf(),
        ensures
            final(self).wf(),
            final(self).current_view() == old(self).current_view(),
            final(self).ticks_view() == old(self).ticks_view(),
            match first_unused_from(old(self).tasks_view(), 1) {
                None => r == Err::<usize, &'static str>("out of task slots") && final(self).tasks_view() == old(self).tasks_view(),
                Some(i) => {
                    let n = if user_data_frames@.len() < MAX_USER_FRAMES { user_data_frames@.len() as int } else { MAX_USER_FRAMES as int };
                    let t = final(self).tasks_view()[i as int];
                    &&& r == Ok::<usize, &'static str>(i)
                    &&& final(self).tasks_view().len() == old(self).tasks_view().len()
                    &&& forall|j: int| 0 <= j < MAX_TASKS && j != i ==> #[trigger] final(self).tasks_view()[j] == old(self).tasks_view()[j]
                    &&& t.state == TaskState::Ready
                    &&& t.page_table_root == page_table_root
                    &&& t.user_data_frame_count == n
                    &&& t.user_data_frames@.subrange(0, n) == user_data_frames@.subrange(0, n)
                    &&& t.saved_sp == old(self).tasks_view()[i as int].saved_sp
                    &&& t.wake_tick == old(self).tasks_view()[i as int].wake_tick
                    &&& t.user_id == old(self).tasks_view()[i as int].user_id
                },
            },
    {
        let slot = match self.free_slot() {
            Some(i) => i,
            None => {
                return Err("out of task slots");
            },
        };
        proof {
            lemma_first_unused_range(self.tasks_view(), 1);
        }
        let mut t = self.tasks[slot];
        t.page_table_root = page_table_root;
        t.state = TaskState::Ready;
        let count = if user_data_frames.len() < MAX_USER_FRAMES { user_data_frames.len() } else { MAX_USER_FRAMES };
        let mut j: usize = 0;
        while j < count
            invariant
                0 <= j <= count <= MAX_USER_FRAMES,
                count <= user_data_frames@.len(),
                forall|k: int| 0 <= k < j ==> t.user_data_frames@[k] == user_data_frames@[k],
                t.state == TaskState::Ready,
                t.page_table_root == page_table_root,
                t.saved_sp == self.tasks_view()[slot as int].saved_sp,
                t.wake_tick == self.tasks_view()[slot as int].wake_tick,
                t.user_id == self.tasks_view()[slot as int].user_id,
            decreases count - j,
        {
            t.user_data_frames[j] = user_data_frames[j];
            j = j + 1;
        }
        t.user_data_frame_count = count;
        assert(t.user_data_frames@.subrange(0, count as int) =~= user_data_frames@.subrange(0, count as int));
        self.set_task(slot, t);
        Ok(slot)
    }
}

/// What the timer interrupt decided: the stack pointer to resume, and the
/// task switched to, if the running task changed (its page table must
/// then be loaded).
#[derive(Clone, Copy, PartialEq, Eq, Structural)]
pub struct TickDecision {
    pub resume_sp: usize,
    pub switched_to: Option<usize>,
}

/// What exiting the running task leaves to free: its recorded user data
/// frames (the non-zero ones) and its own page table root, when it has one
/// that is not the kernel's.
pub struct ExitPlan {
    pub frames: Vec<usize>,
    pub page_table_root: Option<usize>,
}

impl Scheduler {
    /// Wake every task that sleeps and whose wake tick has come at tick
    /// `now`.
    pub(crate) fn wake_all(&mut self, now: usize)
        requires
            old(self).wf(),
        ensures
            final(self).wf(),
            final(self).tasks_view().len() == MAX_TASKS,
            forall|i: int| 0 <= i < MAX_TASKS ==> #[trigger] final(self).tasks_view()[i] == woken(old(self).tasks_view()[i], now),
            final(self).current_view() == old(self).current_view(),
            final(self).ticks_view() == old(self).ticks_view(),
    {
        let mut i: usize = 0;
        while i < MAX_TASKS
            invariant
                self.wf(),
                0 <= i <= MAX_TASKS,
                forall|k: int| 0 <= k < i ==> #[trigger] self.tasks_view()[k] == woken(old(self).tasks_view()[k], now),
                forall|k: int| i <= k < MAX_TASKS ==> #[trigger] self.tasks_view()[k] == old(self).tasks_view()[k],
                self.current_view() == old(self).current_view(),
                self.ticks_view() == old(self).ticks_view(),
            decreases MAX_TASKS - i,
        {
            let t = self.tasks[i];
            if t.state == TaskState::Sleeping && now >= t.wake_tick {
                let mut w = t;
                w.state = TaskState::Ready;
                self.set_task(i, w);
            }
            i = i + 1;
        }
    }

    /// The timer tick: count it, wake due sleepers, and every
    /// SWITCH_INTERVAL ticks save `saved_sp` for the running task and pick
    /// the next Ready task round-robin (task 0 when none is Ready). The
    /// picked task runs, unless it is task 0 still asleep before its wake
    /// tick, which stays asleep.
    pub fn timer_handler(&mut self, saved_sp: usize) -> (d: TickDecision)
        requires
            old(self).wf(),
        ensures
            final(self).wf(),
            final(self).ticks_view() == (if old(self).ticks_view() == usize::MAX { 0 } else { old(self).ticks_view() + 1 }),
            final(self).tasks_view() == tick_tasks(old(self).tasks_view(), old(self).current_view(), final(self).ticks_view(), saved_sp),
            ({
                let now = final(self).ticks_view();
                let w = Seq::new(MAX_TASKS as nat, |i: int| woken(old(self).tasks_view()[i], now));
                let cur = old(self).current_view();
                if now == 0 || now % SWITCH_INTERVAL != 0 {
                    &&& d == TickDecision { resume_sp: saved_sp, switched_to: None }
                    &&& final(self).tasks_view() == w
                    &&& final(self).current_view() == cur
                } else {
                    let saved = Task {
                        saved_sp,
                        state: if w[cur as int].state == TaskState::Running { TaskState::Ready } else { w[cur as int].state },
                        ..w[cur as int]
                    };
                    let w2 = w.update(cur as int, saved);
                    let next = next_ready_from(w2, (cur + 1) % (MAX_TASKS as int), 0);
                    &&& final(self).tasks_view() == w2.update(next as int, Task { state: picked_state(w2[next as int].state), ..w2[next as int] })
                    &&& final(self).current_view() == next
                    &&& round_robin_pick(w2, cur as int, final(self).current_view() as int)
                    &&& next == cur ==> d == TickDecision { resume_sp: saved_sp, switched_to: None }
                    &&& next != cur ==> d == TickDecision { resume_sp: w2[next as int].saved_sp, switched_to: Some(next) }
                }
            }),
    {
        self.advance_tick();
        let now = self.ticks;
        let ghost t0 = self.tasks_view();
        self.wake_all(now);
        let ghost w = Seq::new(MAX_TASKS as nat, |i: int| woken(t0[i], now));
        assert(self.tasks_view() =~= w);
        if now == 0 || now % SWITCH_INTERVAL != 0 {
            return TickDecision { resume_sp: saved_sp, switched_to: None };
        }
        let cur = self.current;
        let mut t = self.tasks[cur];
        t.saved_sp = saved_sp;
        if t.state == TaskState::Running {
            t.state = TaskState::Ready;
        }
        self.set_task(cur, t);
        let ghost w2 = self.tasks_view();
        let start = (cur + 1) % MAX_TASKS;
        let mut k: usize = 0;
        let mut next: usize = 0;
        while k < MAX_TASKS
            invariant_except_break
                next == 0,
            invariant
                self.wf(),
                self.tasks_view() == w2,
                0 <= start < MAX_TASKS,
                0 <= k <= MAX_TASKS,
                next_ready_from(w2, start as int, 0) == next_ready_from(w2, start as int, k as int),
            ensures
                next == next_ready_from(w2, start as int, 0),
            decreases MAX_TASKS - k,
        {
            let idx = (start + k) % MAX_TASKS;
            if self.tasks[idx].state == TaskState::Ready {
                next = idx;
                break;
            }
            k = k + 1;
        }
        proof {
            lemma_next_ready_range(w2, start as int, 0);
            law_round_robin(w2, cur as int);
        }
        let mut n = self.tasks[next];
        if n.state != TaskState::Sleeping {
            n.state = TaskState::Running;
        }
        self.set_task(next, n);
        self.current = next;
        if next == cur {
            return TickDecision { resume_sp: saved_sp, switched_to: None };
        }
        TickDecision { resume_sp: self.tasks[next].saved_sp, switched_to: Some(next) }
    }

    /// Terminate the running task: mark its slot unused and hand back what
    /// must be freed. The kernel task 0 cannot exit (None).
    pub fn exit_current_task(&mut self) -> (r: Option<ExitPlan>)
        requires
            old(self).wf(),
        ensures
            final(self).wf(),
            final(self).current_view() == old(self).current_view(),
            final(self).ticks_view() == old(self).ticks_view(),
            old(self).current_view() == 0 ==> r is None && final(self).tasks_view() == old(self).tasks_view(),
            old(self).current_view() != 0 ==> {
                let cur = old(self).current_view();
                let t = old(self).tasks_view()[cur as int];
                let kernel_root = old(self).tasks_view()[0].page_table_root;
                &&& r matches Some(plan) && plan.frames@ == nonzero(t.user_data_frames@.subrange(0, t.user_data_frame_count as int))
                    && plan.page_table_root == (if t.page_table_root != kernel_root && t.page_table_root != 0 { Some(t.page_table_root) } else { None::<usize> })
                &&& final(self).tasks_view() == old(self).tasks_view().update(cur as int, Task { state: TaskState::Unused, ..t })
            },
    {
        let cur = self.current;
        if cur == 0 {
            return None;
        }
        let t = self.tasks[cur];
        let mut frames: Vec<usize> = Vec::new();
        let mut i: usize = 0;
        while i < t.user_data_frame_count
            invariant
                t.user_data_frame_count <= MAX_USER_FRAMES,
                0 <= i <= t.user_data_frame_count,
                frames@ == nonzero(t.user_data_frames@.subrange(0, i as int)),
            decreases t.user_data_frame_count - i,
        {
            assert(t.user_data_frames@.subrange(0, i + 1).drop_last() =~= t.user_data_frames@.subrange(0, i as int));
            let pa = t.user_data_frames[i];
            if pa != 0 {
                frames.push(pa);
            }
            i = i + 1;
        }
        let kernel_root = self.tasks[0].page_table_root;
        let root = if t.page_table_root != kernel_root && t.page_table_root != 0 {
            Some(t.page_table_root)
        } else {
            None
        };
        let mut u = t;
        u.state = TaskState::Unused;
        self.set_task(cur, u);
        Some(ExitPlan { frames, page_table_root: root })
    }
}

/// Put the running task to sleep for `duration_ms` milliseconds: record
/// its wake tick and mark it Sleeping. The caller then idles until a
/// timer tick wakes it.
pub fn sleep(sched: &mut Scheduler, duration_ms: usize)
    requires
        old(sched).wf(),
    ensures
        final(sched).wf(),
        final(sched).tasks_view() == old(sched).tasks_view().update(
            old(sched).current_view() as int,
            Task {
                state: TaskState::Sleeping,
                wake_tick: crate::timer::wake_tick_after(old(sched).ticks_view(), duration_ms),
                ..old(sched).tasks_view()[old(sched).current_view() as int]
            },
        ),
        final(sched).current_view() == old(sched).current_view(),
        final(sched).ticks_view() == old(sched).ticks_view(),
{
    crate::timer::sleep_ms(sched, duration_ms);
}

/// The non-zero entries of `s`, in order.
pub open spec fn nonzero(s: Seq<usize>) -> Seq<usize>
    decreases s.len(),
{
    if s.len() == 0 {
        s
    } else {
        let r = nonzero(s.drop_last());
        if s.last() != 0 { r.push(s.last()) } else { r }
    }
}

proof fn lemma_next_ready_range(tasks: Seq<Task>, start: int, k: int)
    requires
        0 <= k,
    ensures
        next_ready_from(tasks, start, k) < MAX_TASKS,
    decreases MAX_TASKS - k,
{
    if k < MAX_TASKS {
        lemma_next_ready_range(tasks, start, k + 1);
    }
}

pub proof fn lemma_first_unused_range(tasks: Seq<Task>, i: int)
    requires
        i >= 1,
    ensures
        first_unused_from(tasks, i) matches Some(k) ==> i <= k < MAX_TASKS && tasks[k as int].state == TaskState::Unused,
    decreases MAX_TASKS - i,
{
    if i < MAX_TASKS {
        lemma_first_unused_range(tasks, i + 1);
    }
}

} // verus!
