//! Tasks and the in-memory store that holds them.
use vstd::prelude::*;
use crate::error::StoreError;
use crate::status::{Status, allowed, status_named, parse_status};

verus! {

/// A task: an id fixed at creation, a status and a title.
pub struct Task {
    task_id: i32,
    status: Status,
    title: String,
}

/// The mathematical value of a task.
pub struct TaskModel {
    pub id: int,
    pub status: Status,
    pub title: Seq<char>,
}

impl View for Task {
    type V = TaskModel;

    closed spec fn view(&self) -> TaskModel {
        TaskModel { id: self.task_id as int, status: self.status, title: self.title@ }
    }
}

impl Task {
    /// The task's id.
    pub fn task_id(&self) -> (r: i32)
        ensures
            r as int == self@.id,
    {
        self.task_id
    }

    /// The task's status.
    pub fn status(&self) -> (r: Status)
        ensures
            r == self@.status,
    {
        self.status
    }

    /// The task's title.
    pub fn title(&self) -> (r: &String)
        ensures
            r@ == self@.title,
    {
        &self.title
    }

    /// A task with these fields.
    pub(crate) fn from_parts(task_id: i32, status: Status, title: String) -> (r: Task)
        ensures
            r@ == (TaskModel { id: task_id as int, status, title: title@ }),
    {
        Task { task_id, status, title }
    }

    /// A copy of the task.
    pub fn duplicate(&self) -> (r: Task)
        ensures
            r@ == self@,
    {
        Task { task_id: self.task_id, status: self.status, title: self.title.clone() }
    }
}

/// The views of a sequence of tasks.
pub open spec fn models(ts: Seq<Task>) -> Seq<TaskModel> {
    ts.map_values(|t: Task| t@)
}

/// The mathematical value of a store: its tasks in order and its id counter.
pub struct StoreModel {
    pub tasks: Seq<TaskModel>,
    pub counter: int,
}

/// The largest id a store can mint.
pub const MAX_TASK_ID: i32 = 2147483647;

/// A store is well formed when its counter fits an id, and its ids are
/// positive, strictly increasing in order and never above the counter (so
/// they are unique and the counter is at least the largest of them).
pub open spec fn well_formed(m: StoreModel) -> bool {
    &&& 0 <= m.counter <= MAX_TASK_ID
    &&& forall|i: int| 0 <= i < m.tasks.len() ==> 1 <= #[trigger] m.tasks[i].id <= m.counter
    &&& forall|i: int, j: int| 0 <= i < j < m.tasks.len() ==> #[trigger] m.tasks[i].id < #[trigger] m.tasks[j].id
}

/// The store after a task with this title and status is added under the
/// next id.
pub open spec fn with_added(m: StoreModel, title: Seq<char>, status: Status) -> StoreModel {
    StoreModel {
        tasks: m.tasks.push(TaskModel { id: m.counter + 1, status, title }),
        counter: m.counter + 1,
    }
}

/// Whether some task of the sequence has this id.
pub open spec fn has_id(ts: Seq<TaskModel>, id: int) -> bool {
    exists|i: int| 0 <= i < ts.len() && #[trigger] ts[i].id == id
}

/// Which tasks a listing shows.
#[derive(Clone, Copy, Debug, PartialEq, Eq, Structural)]
pub enum Filter {
    /// Tasks whose status is not terminal.
    Active,
    /// Every task.
    All,
}

/// Whether a listing with this filter shows a task with this status.
pub open spec fn shows(f: Filter, s: Status) -> bool {
    match f {
        Filter::Active => !crate::status::terminal(s),
        Filter::All => true,
    }
}

/// The tasks that a listing with this filter shows, in store order.
pub open spec fn listed(ts: Seq<TaskModel>, f: Filter) -> Seq<TaskModel>
    decreases ts.len(),
{
    if ts.len() == 0 {
        seq![]
    } else if shows(f, ts.last().status) {
        listed(ts.drop_last(), f).push(ts.last())
    } else {
        listed(ts.drop_last(), f)
    }
}

/// A store: tasks in order of creation and the counter that mints their ids.
pub struct Store {
    tasks: Vec<Task>,
    counter: i32,
}

impl View for Store {
    type V = StoreModel;

    closed spec fn view(&self) -> StoreModel {
        StoreModel { tasks: models(self.tasks@), counter: self.counter as int }
    }
}

impl Store {
    /// An empty store whose counter is zero.
    pub fn new() -> (r: Store)
        ensures
            r@.tasks.len() == 0,
            r@.counter == 0,
            well_formed(r@),
    {
        Store { tasks: Vec::new(), counter: 0 }
    }

    /// The store with these tasks and this counter.
    pub(crate) fn from_parts(tasks: Vec<Task>, counter: i32) -> (r: Store)
        ensures
            r@ == (StoreModel { tasks: models(tasks@), counter: counter as int }),
    {
        Store { tasks, counter }
    }

    /// The id counter: the last id minted, zero if none was.
    pub fn counter(&self) -> (r: i32)
        ensures
            r as int == self@.counter,
    {
        self.counter
    }

    /// The number of tasks.
    pub fn len(&self) -> (r: usize)
        ensures
            r as int == self@.tasks.len(),
    {
        self.tasks.len()
    }

    /// The task at this position, in order of creation.
    pub fn task_at(&self, i: usize) -> (r: &Task)
        requires
            i < self@.tasks.len(),
        ensures
            r@ == self@.tasks[i as int],
    {
        &self.tasks[i]
    }

    /// Whether another id can be minted.
    pub fn has_room(&self) -> (r: bool)
        ensures
            r == (self@.counter < MAX_TASK_ID),
    {
        self.counter < MAX_TASK_ID
    }
}


/// What a requested status change yields from `current`: the new status, or
/// `None` when it is refused (the text names no status, or the table does not
/// admit the move).
pub open spec fn status_outcome(current: Status, requested: Seq<char>) -> Option<Status> {
    match status_named(requested) {
        Some(s) => if allowed(current, s) {
            Some(s)
        } else {
            None
        },
        None => None,
    }
}

/// The store with the task at position `i` given status `s`.
pub open spec fn with_status(m: StoreModel, i: int, s: Status) -> StoreModel {
    StoreModel {
        tasks: m.tasks.update(i, TaskModel { status: s, ..m.tasks[i] }),
        counter: m.counter,
    }
}

/// The store with the task at position `i` given title `t`.
pub open spec fn with_title(m: StoreModel, i: int, t: Seq<char>) -> StoreModel {
    StoreModel {
        tasks: m.tasks.update(i, TaskModel { title: t, ..m.tasks[i] }),
        counter: m.counter,
    }
}

/// Every id minted by adding a task is larger than every id already in the
/// store, and the store stays well formed; so along any sequence of additions
/// to a fresh store the ids are strictly increasing and unique.
pub proof fn lemma_minted_ids_increase(m: StoreModel, title: Seq<char>, status: Status)
    requires
        well_formed(m),
        m.counter < MAX_TASK_ID,
    ensures
        well_formed(with_added(m, title, status)),
        forall|i: int| 0 <= i < m.tasks.len() ==> #[trigger] m.tasks[i].id < m.counter + 1,
        forall|i: int, j: int|
            0 <= i < j < with_added(m, title, status).tasks.len() ==> #[trigger] with_added(
                m,
                title,
                status,
            ).tasks[i].id != #[trigger] with_added(m, title, status).tasks[j].id,
{
    let n = with_added(m, title, status);
    assert forall|i: int, j: int| 0 <= i < j < n.tasks.len() implies #[trigger] n.tasks[i].id
        < #[trigger] n.tasks[j].id by {
        if j < m.tasks.len() {
            assert(m.tasks[i].id < m.tasks[j].id);
        } else {
            assert(m.tasks[i].id <= m.counter);
        }
    }
}

impl Store {
    /// The position of the task with this id, if there is one.
    fn position_of(&self, task_id: i32) -> (r: Option<usize>)
        requires
            well_formed(self@),
        ensures
            r is None <==> !has_id(self@.tasks, task_id as int),
            r matches Some(i) ==> i < self@.tasks.len() && self@.tasks[i as int].id
                == task_id as int,
    {
        let mut i: usize = 0;
        while i < self.tasks.len()
            invariant
                0 <= i <= self.tasks@.len(),
                self@.tasks.len() == self.tasks@.len(),
                forall|j: int| 0 <= j < i ==> #[trigger] self@.tasks[j].id != task_id as int,
            decreases self.tasks@.len() - i,
        {
            if self.tasks[i].task_id == task_id {
                assert(self@.tasks[i as int] == self.tasks@[i as int]@);
                assert(self@.tasks[i as int].id == task_id as int);
                assert(has_id(self@.tasks, task_id as int));
                return Some(i);
            }
            assert(self@.tasks[i as int] == self.tasks@[i as int]@);
            i = i + 1;
        }
        None
    }

    /// Mints the next id, appends a task with this title and status under it,
    /// and returns the id.
    pub fn add_task(&mut self, title: String, status: Status) -> (r: i32)
        requires
            well_formed(old(self)@),
            old(self)@.counter < MAX_TASK_ID,
        ensures
            r as int == old(self)@.counter + 1,
            final(self)@ == with_added(old(self)@, title@, status),
            well_formed(final(self)@),
    {
        proof {
            lemma_minted_ids_increase(self@, title@, status);
        }
        let id = self.counter + 1;
        let ghost before = self.tasks@;
        self.tasks.push(Task { task_id: id, status, title });
        self.counter = id;
        assert(models(self.tasks@) =~= models(before).push(
            TaskModel { id: id as int, status, title: title@ },
        ));
        id
    }

    /// The task with this id, if there is one.
    pub fn get_task(&self, task_id: i32) -> (r: Option<&Task>)
        requires
            well_formed(self@),
        ensures
            r is None <==> !has_id(self@.tasks, task_id as int),
            r matches Some(t) ==> t@.id == task_id as int && exists|i: int|
                0 <= i < self@.tasks.len() && self@.tasks[i] == t@,
    {
        match self.position_of(task_id) {
            Some(i) => {
                assert(self@.tasks[i as int] == self.tasks@[i as int]@);
                Some(&self.tasks[i])
            },
            None => None,
        }
    }

    /// Copies of the tasks that the filter shows, in store order.
    pub fn list_tasks(&self, filter: Filter) -> (r: Vec<Task>)
        ensures
            models(r@) == listed(self@.tasks, filter),
    {
        let mut out: Vec<Task> = Vec::new();
        let mut i: usize = 0;
        while i < self.tasks.len()
            invariant
                0 <= i <= self.tasks@.len(),
                self@.tasks.len() == self.tasks@.len(),
                models(out@) == listed(self@.tasks.take(i as int), filter),
            decreases self.tasks@.len() - i,
        {
            let t = &self.tasks[i];
            let ghost before = out@;
            assert(self@.tasks.take(i + 1).drop_last() =~= self@.tasks.take(i as int));
            assert(self@.tasks.take(i + 1).last() == t@);
            let keep = match filter {
                Filter::Active => !t.status.is_terminal(),
                Filter::All => true,
            };
            if keep {
                out.push(t.duplicate());
                assert(models(out@) =~= models(before).push(t@));
            }
            i = i + 1;
        }
        assert(self@.tasks.take(self.tasks@.len() as int) =~= self@.tasks);
        out
    }

    /// Moves the task with this id to the status that `requested` names.
    /// Fails with `TaskNotFound` when no task has the id, and with
    /// `InvalidTransition` when the text names no status or the task's status
    /// is terminal; the store is then unchanged.
    pub fn update_status(&mut self, task_id: i32, requested: &str) -> (r: Result<(), StoreError>)
        requires
            well_formed(old(self)@),
        ensures
            well_formed(final(self)@),
            !has_id(old(self)@.tasks, task_id as int) ==> r == Err::<(), StoreError>(
                StoreError::TaskNotFound { task_id },
            ) && final(self)@ == old(self)@,
            forall|i: int|
                0 <= i < old(self)@.tasks.len() && #[trigger] old(self)@.tasks[i].id
                    == task_id as int ==> match status_outcome(
                    old(self)@.tasks[i].status,
                    requested@,
                ) {
                    Some(s) => r is Ok && final(self)@ == with_status(old(self)@, i, s),
                    None => final(self)@ == old(self)@ && (r matches Err(
                        StoreError::InvalidTransition { task_id: a, current: c, requested: q },
                    ) && a == task_id && c == old(self)@.tasks[i].status && q@ == requested@),
                },
            forall|i: int|
                0 <= i < old(self)@.tasks.len() && #[trigger] old(self)@.tasks[i].id
                    == task_id as int && crate::status::terminal(old(self)@.tasks[i].status) ==> (
                r matches Err(StoreError::InvalidTransition { .. })) && final(self)@.tasks[i].status
                    == old(self)@.tasks[i].status,
    {
        let pos = self.position_of(task_id);
        match pos {
            None => Err(StoreError::TaskNotFound { task_id }),
            Some(i) => {
                assert(self@.tasks[i as int] == self.tasks@[i as int]@);
                let current = self.tasks[i].status;
                let target = parse_status(requested);
                let next = match target {
                    Some(s) => if current.can_move_to(s) {
                        Some(s)
                    } else {
                        None
                    },
                    None => None,
                };
                match next {
                    None => Err(
                        StoreError::InvalidTransition {
                            task_id,
                            current,
                            requested: requested.to_owned(),
                        },
                    ),
                    Some(s) => {
                        let ghost before = self.tasks@;
                        let ghost m = self@;
                        let mut t = self.tasks[i].duplicate();
                        t.status = s;
                        self.tasks.set(i, t);
                        assert(models(self.tasks@) =~= models(before).update(
                            i as int,
                            TaskModel { status: s, ..m.tasks[i as int] },
                        ));
                        assert(forall|j: int|
                            0 <= j < m.tasks.len() && #[trigger] m.tasks[j].id == task_id as int
                                ==> j == i) by {
                            assert forall|j: int|
                                0 <= j < m.tasks.len() && #[trigger] m.tasks[j].id
                                    == task_id as int implies j == i by {
                                if j < i {
                                    assert(m.tasks[j].id < m.tasks[i as int].id);
                                } else if j > i {
                                    assert(m.tasks[i as int].id < m.tasks[j].id);
                                }
                            }
                        }
                        Ok(())
                    },
                }
            },
        }
    }

    /// Replaces the title of the task with this id; fails with `TaskNotFound`,
    /// leaving the store unchanged, when no task has the id.
    pub fn update_title(&mut self, task_id: i32, title: String) -> (r: Result<(), StoreError>)
        requires
            well_formed(old(self)@),
        ensures
            well_formed(final(self)@),
            !has_id(old(self)@.tasks, task_id as int) ==> r == Err::<(), StoreError>(
                StoreError::TaskNotFound { task_id },
            ) && final(self)@ == old(self)@,
            forall|i: int|
                0 <= i < old(self)@.tasks.len() && #[trigger] old(self)@.tasks[i].id
                    == task_id as int ==> r is Ok && final(self)@ == with_title(
                    old(self)@,
                    i,
                    title@,
                ),
    {
        match self.position_of(task_id) {
            None => Err(StoreError::TaskNotFound { task_id }),
            Some(i) => {
                let ghost before = self.tasks@;
                let ghost m = self@;
                assert(m.tasks[i as int] == self.tasks@[i as int]@);
                let ghost tv = title@;
                let mut t = self.tasks[i].duplicate();
                t.title = title;
                self.tasks.set(i, t);
                assert(models(self.tasks@) =~= models(before).update(
                    i as int,
                    TaskModel { title: tv, ..m.tasks[i as int] },
                ));
                assert forall|j: int|
                    0 <= j < m.tasks.len() && #[trigger] m.tasks[j].id == task_id as int implies j
                    == i by {
                    if j < i {
                        assert(m.tasks[j].id < m.tasks[i as int].id);
                    } else if j > i {
                        assert(m.tasks[i as int].id < m.tasks[j].id);
                    }
                }
                Ok(())
            },
        }
    }
}

} // verus!
