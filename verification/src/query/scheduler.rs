//! The scheduler: per-kind caches of result cells, the queue of queries that wait for
//! their first execution, and the trampoline that polls tasks until none is left.

use crate::query::arena::Arena;
use crate::query::arena::Own;
use crate::query::arena::Ref;
use crate::query::cell::Cell;
use crate::query::name::Name;
use crate::query::tables::queue_drain;
use crate::query::tables::queue_items;
use crate::query::tables::queue_len;
use crate::query::tables::queue_new;
use crate::query::tables::queue_push;
use crate::query::tables::set_elements;
use crate::query::tables::set_insert;
use crate::query::tables::set_new;
use crate::query::tables::set_remove;
use crate::query::tables::table_entries;
use crate::query::tables::table_get;
use crate::query::tables::table_insert;
use crate::query::tables::table_new;
use crate::query::tables::IndexQueue;
use crate::query::tables::IndexTable;
use crate::query::tables::KeySet;
use crate::text::same;
use vstd::prelude::*;

verus! {

/// Identity of a query: the hash of its kind's name and its key within the kind. Two
/// queries are the same query exactly when their identities are equal.
#[derive(Clone, Copy, Debug, PartialEq, Eq, Structural)]
pub struct QueryId {
    pub kind: u64,
    pub key: u64,
}

/// Outcome of polling a computation.
#[derive(Debug, PartialEq, Eq)]
pub enum Poll<T> {
    /// The computation is finished with this value.
    Ready(T),
    /// The computation waits for the result of another query.
    Pending,
}

/// Where the task of a requested query stands.
#[derive(Clone, Copy, Debug, PartialEq, Eq, Structural)]
pub enum Stage {
    /// Waits in the queue for its first execution.
    Queued,
    /// Was handed out as a task and has not delivered its result yet.
    Running,
    /// Has delivered its result.
    Done,
}

impl Stage {
    /// How far the stage is: a task is queued, then runs, then is done.
    pub open spec fn rank(self) -> int {
        match self {
            Stage::Queued => 0,
            Stage::Running => 1,
            Stage::Done => 2,
        }
    }
}

/// Two kinds with different identities were registered under names with the same hash.
#[derive(Clone, Copy, Debug)]
pub struct HashCollision {
    /// The hash both names have.
    pub hash: u64,
    /// Identity of the kind that registered the name first.
    pub registered: &'static str,
    /// Identity of the kind that came second.
    pub requested: &'static str,
}

/// A kind of query, or a family of kinds: a value describes one call, and carries its
/// arguments.
///
/// Two values with the same name hash and key must describe the same computation, and
/// `run` must be pure: all it may do to the scheduler is to request other queries, so
/// that nothing that was requested or computed before is lost or changed, and no task
/// is handed out or ended by it.
pub trait Query: Sized {
    /// What the computation delivers.
    type Result;

    /// Name of the kind: what [`name`](Self::name) returns.
    spec fn spec_name(&self) -> Name;

    /// Identity of the kind: what [`identity`](Self::identity) returns.
    spec fn spec_identity(&self) -> &'static str;

    /// Key of this call among the calls of its kind: what [`key`](Self::key) returns.
    spec fn spec_key(&self) -> u64;

    /// Name of the kind. No two kinds in one scheduler may share it.
    fn name(&self) -> (name: Name)
        ensures
            name == self.spec_name(),
    ;

    /// Identity of the kind, by which a clash of names is detected.
    fn identity(&self) -> (identity: &'static str)
        ensures
            identity == self.spec_identity(),
    ;

    /// Key of this call among the calls of its kind.
    fn key(&self) -> (key: u64)
        ensures
            key == self.spec_key(),
    ;

    /// Polls the computation once. It may request further queries from the scheduler and
    /// look at their results; when one of them is not there yet, it returns
    /// [`Poll::Pending`] and is polled again in a later pass.
    fn run(&mut self, scheduler: &mut Scheduler<Self, Self::Result>) -> (poll: Poll<Self::Result>)
        requires
            old(scheduler).wf(),
        ensures
            final(scheduler).wf(),
            final(scheduler)@.only_requested(old(scheduler)@),
    ;
}

/// The identity under which a query is requested: the hash of its kind's name, and its
/// key.
pub open spec fn identity_of<Q: Query>(query: Q) -> QueryId {
    QueryId { kind: query.spec_name().spec_hash(), key: query.spec_key() }
}

/// The cache of one kind.
struct Cache {
    kind: u64,
    identity: &'static str,
    cells: IndexTable,
    enqueued: KeySet,
}

/// Descriptor of the task of one query. It holds the query until the task is handed out.
struct Descriptor<Q, R> {
    id: QueryId,
    cell: Own<Cell<R>>,
    query: Option<Q>,
    done: bool,
}

/// A query in execution. There is one per requested query, and handing it back to the
/// scheduler with its result ends it.
pub struct Task<Q> {
    descriptor: usize,
    query: Q,
}

/// Handle to the result of a requested query. Dropping it does not cancel the query.
pub struct Ongoing<R> {
    cell: Ref<Cell<R>>,
}

/// Multithreading mode for the trampoline's polling loop.
#[derive(Debug, Clone, Copy, PartialEq, Eq, Structural)]
pub enum PollLoop {
    /// Single-threaded mode. Works best when tasks are very short.
    SingleThreaded,
    /// Parallel mode. Works best when tasks are long-lived.
    Parallel,
}

/// Settings for [`Scheduler::trampoline`].
#[derive(Debug, Clone, Copy)]
pub struct Trampoline {
    /// Which polling loop to use.
    pub poll_loop: PollLoop,
}

/// Queues up queries and memoizes their results.
pub struct Scheduler<Q, R> {
    arena: Arena<Cell<R>>,
    caches_by_type: IndexTable,
    caches: Vec<Cache>,
    descriptors: Vec<Descriptor<Q, R>>,
    erased_queue: IndexQueue,
    started: usize,
    polls: Ghost<Seq<int>>,
}

/// What a task descriptor says to the outside.
pub struct TaskView {
    pub id: QueryId,
    pub stage: Stage,
}

/// The state of a scheduler as contracts see it.
pub struct SchedulerView<R> {
    /// The registered kinds: hash of the name, and the identity of the kind.
    pub kinds: Map<u64, Seq<char>>,
    /// The slot of the cell of every query requested so far.
    pub cells: Map<QueryId, int>,
    /// The contents of the cells, by slot.
    pub values: Seq<Option<R>>,
    /// The queries that were requested and have no result yet.
    pub enqueued: Set<QueryId>,
    /// The task descriptors, in the order in which the queries were first requested.
    pub tasks: Seq<TaskView>,
    /// The descriptors that wait for their first execution, oldest first.
    pub pending: Seq<int>,
    /// How many tasks were handed out so far.
    pub started: nat,
    /// The record of the polls: the descriptor of the task of every poll so far, in the
    /// order of the polls.
    pub polls: Seq<int>,
}

impl<R> SchedulerView<R> {
    /// Whether the query was requested before.
    pub open spec fn known(self, id: QueryId) -> bool {
        self.cells.dom().contains(id)
    }

    /// The result of the query, as far as it is there.
    pub open spec fn result(self, id: QueryId) -> Option<R> {
        if self.known(id) {
            self.values[self.cells[id]]
        } else {
            None
        }
    }

    /// Whether the hash is taken by a kind of another identity.
    pub open spec fn collides(self, kind: u64, identity: Seq<char>) -> bool {
        self.kinds.dom().contains(kind) && self.kinds[kind] != identity
    }

    /// The state after a request for `id` by a kind whose name does not collide.
    pub open spec fn request(self, id: QueryId, identity: Seq<char>) -> Self {
        let kinds = self.kinds.insert(id.kind, identity);
        if self.known(id) {
            SchedulerView { kinds, ..self }
        } else {
            SchedulerView {
                kinds,
                cells: self.cells.insert(id, self.values.len() as int),
                values: self.values.push(None),
                enqueued: self.enqueued.insert(id),
                tasks: self.tasks.push(TaskView { id, stage: Stage::Queued }),
                pending: self.pending.push(self.tasks.len() as int),
                started: self.started,
                polls: self.polls,
            }
        }
    }

    /// The state after every waiting descriptor was handed out as a task.
    pub open spec fn drain(self) -> Self {
        SchedulerView {
            tasks: Seq::new(
                self.tasks.len(),
                |i: int|
                    if self.tasks[i].stage == Stage::Queued {
                        TaskView { id: self.tasks[i].id, stage: Stage::Running }
                    } else {
                        self.tasks[i]
                    },
            ),
            pending: Seq::empty(),
            started: self.started + self.pending.len(),
            ..self
        }
    }

    /// The state after the running task `task` delivered `value`.
    pub open spec fn complete(self, task: int, value: R) -> Self {
        let id = self.tasks[task].id;
        SchedulerView {
            values: self.values.update(self.cells[id], Some(value)),
            enqueued: self.enqueued.remove(id),
            tasks: self.tasks.update(task, TaskView { id, stage: Stage::Done }),
            ..self
        }
    }

    /// Whether `next` and `r` are the state and the answer after a request for `id` by a
    /// kind of the given identity.
    pub open spec fn requested(
        self,
        id: QueryId,
        identity: Seq<char>,
        next: Self,
        r: Result<Ongoing<R>, HashCollision>,
    ) -> bool {
        match r {
            Ok(ongoing) => {
                &&& !self.collides(id.kind, identity)
                &&& next == self.request(id, identity)
                &&& ongoing.slot() == next.cells[id]
            },
            Err(e) => {
                &&& self.collides(id.kind, identity)
                &&& next == self
                &&& e.hash == id.kind
                &&& e.registered@ == self.kinds[id.kind]
                &&& e.requested@ == identity
            },
        }
    }

    /// Whether `next` and `r` are the state and the answer after a request for `id` by a
    /// kind whose name does not collide, followed by a run of the trampoline: the result
    /// of the query, if the trampoline ended with nothing left to do and the result is
    /// there.
    pub open spec fn answered(
        self,
        id: QueryId,
        identity: Seq<char>,
        next: Self,
        r: Option<&R>,
    ) -> bool {
        &&& next.extends(self.request(id, identity))
        &&& match r {
            Some(value) => {
                &&& next.result(id) == Some(*value)
                &&& resting(self.request(id, identity), next)
                &&& self.result(id) is Some && self.pending.len() == 0 ==> next == self
            },
            None => {
                &&& next.result(id) is None ==> next.busy(id)
                &&& next.result(id) is Some ==> !resting(self.request(id, identity), next)
                &&& resting(self.request(id, identity), next) ==> self.busy(id)
                &&& !(self.result(id) is Some && self.pending.len() == 0)
            },
        }
    }

    /// Whether this state comes after `before`: every query that was requested still is,
    /// with the same cell; every result that was there still is, unchanged; every task
    /// is still there, for the same query, and has not gone back to an earlier stage.
    pub open spec fn extends(self, before: Self) -> bool {
        &&& forall|h: u64| #[trigger]
            before.kinds.dom().contains(h) ==> self.kinds.dom().contains(h) && self.kinds[h]
                == before.kinds[h]
        &&& forall|id: QueryId| #[trigger]
            before.cells.dom().contains(id) ==> self.cells.dom().contains(id) && self.cells[id]
                == before.cells[id]
        &&& before.values.len() <= self.values.len()
        &&& forall|slot: int|
            0 <= slot < before.values.len() && (#[trigger] before.values[slot]) is Some
                ==> self.values[slot] == before.values[slot]
        &&& before.tasks.len() <= self.tasks.len()
        &&& forall|i: int|
            0 <= i < before.tasks.len() ==> self.tasks[i].id == (#[trigger] before.tasks[i]).id
                && before.tasks[i].stage.rank() <= self.tasks[i].stage.rank()
        &&& before.started <= self.started
    }

    /// Whether this state differs from `before` by requests alone: it comes after
    /// `before`, no task was handed out or ended, and the tasks that are new wait in the
    /// queue.
    pub open spec fn only_requested(self, before: Self) -> bool {
        &&& self.extends(before)
        &&& self.started == before.started
        &&& self.polls == before.polls
        &&& forall|i: int|
            0 <= i < self.tasks.len() ==> (#[trigger] self.tasks[i]).stage == (if i
                < before.tasks.len() {
                before.tasks[i].stage
            } else {
                Stage::Queued
            })
    }

    /// Whether the task of the query was handed out and has not delivered its result.
    pub open spec fn busy(self, id: QueryId) -> bool {
        exists|i: int|
            0 <= i < self.tasks.len() && (#[trigger] self.tasks[i]).id == id && self.tasks[i].stage
                == Stage::Running
    }

    /// Whether every result that is there is the value of `f` for its query.
    pub open spec fn agrees(self, f: spec_fn(QueryId) -> R) -> bool {
        forall|id: QueryId| #[trigger]
            self.cells.dom().contains(id) ==> (self.values[self.cells[id]] matches Some(value)
                ==> value == f(id))
    }

    /// Whether `task` is the position of a task that was handed out and has not
    /// delivered its result.
    pub open spec fn running(self, task: int) -> bool {
        0 <= task < self.tasks.len() && self.tasks[task].stage == Stage::Running
    }

    /// Whether `task` is the position of a task that has delivered its result.
    pub open spec fn done(self, task: int) -> bool {
        0 <= task < self.tasks.len() && self.tasks[task].stage == Stage::Done
    }

    /// What holds of every scheduler between two operations.
    pub open spec fn inv(self) -> bool {
        &&& forall|id: QueryId| #[trigger]
            self.cells.dom().contains(id) ==> 0 <= self.cells[id] < self.values.len()
                && self.kinds.dom().contains(id.kind)
        &&& forall|a: QueryId, b: QueryId|
            #![trigger self.cells.dom().contains(a), self.cells.dom().contains(b)]
            self.cells.dom().contains(a) && self.cells.dom().contains(b) && self.cells[a]
                == self.cells[b] ==> a == b
        &&& forall|id: QueryId| #[trigger]
            self.enqueued.contains(id) <==> self.cells.dom().contains(id)
                && self.values[self.cells[id]] is None
        &&& forall|i: int|
            0 <= i < self.tasks.len() ==> self.cells.dom().contains((#[trigger] self.tasks[i]).id)
        &&& forall|i: int, j: int|
            0 <= i < self.tasks.len() && 0 <= j < self.tasks.len() && (#[trigger] self.tasks[i]).id
                == (#[trigger] self.tasks[j]).id ==> i == j
        &&& forall|id: QueryId| #[trigger]
            self.cells.dom().contains(id) ==> exists|i: int|
                0 <= i < self.tasks.len() && (#[trigger] self.tasks[i]).id == id
        &&& forall|i: int|
            0 <= i < self.tasks.len() ==> ((#[trigger] self.tasks[i]).stage == Stage::Done
                <==> self.values[self.cells[self.tasks[i].id]] is Some)
        &&& forall|k: int|
            0 <= k < self.pending.len() ==> 0 <= #[trigger] self.pending[k] < self.tasks.len()
                && self.tasks[self.pending[k]].stage == Stage::Queued
        &&& forall|k: int, l: int|
            0 <= k < self.pending.len() && 0 <= l < self.pending.len() && #[trigger] self.pending[k]
                == #[trigger] self.pending[l] ==> k == l
        &&& forall|i: int|
            0 <= i < self.tasks.len() && (#[trigger] self.tasks[i]).stage == Stage::Queued
                ==> self.pending.contains(i)
        &&& self.started + self.pending.len() == self.tasks.len()
        &&& forall|k: int|
            0 <= k < self.pending.len() ==> #[trigger] self.pending[k] == self.started + k
    }
}


/// A first request keeps the invariant.
pub proof fn lemma_request_inv<R>(view: SchedulerView<R>, id: QueryId, identity: Seq<char>)
    requires
        view.inv(),
    ensures
        view.request(id, identity).inv(),
{
    let next = view.request(id, identity);
    if !view.known(id) {
        let n = view.tasks.len() as int;
        assert(next.tasks[n].id == id);
        assert forall|q: QueryId| #[trigger] next.cells.dom().contains(q) implies exists|i: int|
            0 <= i < next.tasks.len() && (#[trigger] next.tasks[i]).id == q by {
            if q == id {
                assert(next.tasks[n].id == q);
            } else {
                assert(view.cells.dom().contains(q));
                let i = choose|i: int| 0 <= i < view.tasks.len() && (#[trigger] view.tasks[i]).id == q;
                assert(next.tasks[i].id == q);
            }
        }
        assert forall|i: int| 0 <= i < next.tasks.len() && (#[trigger] next.tasks[i]).stage
            == Stage::Queued implies next.pending.contains(i) by {
            if i < n {
                assert(view.tasks[i].stage == Stage::Queued);
                assert(view.pending.contains(i));
                let k = choose|k: int| 0 <= k < view.pending.len() && view.pending[k] == i;
                assert(next.pending[k] == i);
            } else {
                assert(next.pending[view.pending.len() as int] == i);
            }
        }
        assert forall|i: int| 0 <= i < next.tasks.len() implies ((#[trigger] next.tasks[i]).stage == Stage::Done
                <==> next.values[next.cells[next.tasks[i].id]] is Some) by {
            if i < n {
                assert(view.tasks[i] == next.tasks[i]);
                assert(view.cells.dom().contains(view.tasks[i].id));
            }
        }
        assert forall|i: int, j: int|
            0 <= i < next.tasks.len() && 0 <= j < next.tasks.len() && (#[trigger] next.tasks[i]).id
                == (#[trigger] next.tasks[j]).id implies i == j by {
            if i < n {
                assert(view.tasks[i] == next.tasks[i]);
                assert(view.cells.dom().contains(view.tasks[i].id));
            }
            if j < n {
                assert(view.tasks[j] == next.tasks[j]);
                assert(view.cells.dom().contains(view.tasks[j].id));
            }
        }
        assert forall|i: int|
            0 <= i < next.tasks.len() implies next.cells.dom().contains((#[trigger] next.tasks[i]).id) by {
            if i < n {
                assert(view.tasks[i] == next.tasks[i]);
            }
        }
        assert forall|k: int|
            0 <= k < next.pending.len() implies 0 <= #[trigger] next.pending[k] < next.tasks.len()
                && next.tasks[next.pending[k]].stage == Stage::Queued by {
            if k < view.pending.len() {
                assert(view.pending[k] == next.pending[k]);
            }
        }
        assert forall|k: int, l: int|
            0 <= k < next.pending.len() && 0 <= l < next.pending.len() && #[trigger] next.pending[k]
                == #[trigger] next.pending[l] implies k == l by {
            if k < view.pending.len() {
                assert(view.pending[k] == next.pending[k]);
            }
            if l < view.pending.len() {
                assert(view.pending[l] == next.pending[l]);
            }
        }
        assert forall|q: QueryId| #[trigger]
            next.enqueued.contains(q) <==> next.cells.dom().contains(q)
                && next.values[next.cells[q]] is None by {
            if q != id {
                if view.cells.dom().contains(q) {
                    assert(0 <= view.cells[q] < view.values.len());
                }
            }
        }
    }
}

/// Distinct positions below a bound are no more than the bound.
proof fn lemma_distinct_bounded(items: Seq<int>, bound: int)
    requires
        0 <= bound,
        forall|k: int| 0 <= k < items.len() ==> 0 <= #[trigger] items[k] < bound,
        forall|k: int, l: int|
            0 <= k < items.len() && 0 <= l < items.len() && #[trigger] items[k]
                == #[trigger] items[l] ==> k == l,
    ensures
        items.len() <= bound,
    decreases bound,
{
    if items.len() > 0 {
        if bound <= 0 {
            assert(0 <= items[0] < bound);
        } else {
            // Take the item `bound - 1` out, if it is there, and count the rest.
            let top = bound - 1;
            if exists|k: int| 0 <= k < items.len() && items[k] == top {
                let k = choose|k: int| 0 <= k < items.len() && items[k] == top;
                let rest = items.remove(k);
                assert forall|l: int| 0 <= l < rest.len() implies 0 <= #[trigger] rest[l] < top by {
                    if l < k {
                        assert(rest[l] == items[l]);
                    } else {
                        assert(rest[l] == items[l + 1]);
                    }
                }
                assert forall|a: int, b: int|
                    0 <= a < rest.len() && 0 <= b < rest.len() && #[trigger] rest[a]
                        == #[trigger] rest[b] implies a == b by {
                    let a2 = if a < k { a } else { a + 1 };
                    let b2 = if b < k { b } else { b + 1 };
                    assert(rest[a] == items[a2]);
                    assert(rest[b] == items[b2]);
                }
                lemma_distinct_bounded(rest, top);
            } else {
                assert forall|l: int| 0 <= l < items.len() implies 0 <= #[trigger] items[l] < top by {
                    assert(items[l] != top);
                }
                lemma_distinct_bounded(items, top);
            }
        }
    }
}

/// Handing out every waiting descriptor keeps the invariant.
pub proof fn lemma_drain_inv<R>(view: SchedulerView<R>)
    requires
        view.inv(),
    ensures
        view.drain().inv(),
        view.pending.len() == 0 ==> view.drain() == view,
{
    let next = view.drain();
    assert forall|i: int| 0 <= i < next.tasks.len() implies next.cells.dom().contains(
        (#[trigger] next.tasks[i]).id,
    ) by {
        assert(next.tasks[i].id == view.tasks[i].id);
    }
    assert forall|i: int, j: int|
        0 <= i < next.tasks.len() && 0 <= j < next.tasks.len() && (#[trigger] next.tasks[i]).id
            == (#[trigger] next.tasks[j]).id implies i == j by {
        assert(next.tasks[i].id == view.tasks[i].id);
        assert(next.tasks[j].id == view.tasks[j].id);
    }
    assert forall|q: QueryId| #[trigger] next.cells.dom().contains(q) implies exists|i: int|
        0 <= i < next.tasks.len() && (#[trigger] next.tasks[i]).id == q by {
        let i = choose|i: int| 0 <= i < view.tasks.len() && (#[trigger] view.tasks[i]).id == q;
        assert(next.tasks[i].id == q);
    }
    assert forall|i: int| 0 <= i < next.tasks.len() implies ((#[trigger] next.tasks[i]).stage
        == Stage::Done <==> next.values[next.cells[next.tasks[i].id]] is Some) by {
        assert(next.tasks[i].id == view.tasks[i].id);
        if view.tasks[i].stage == Stage::Queued {
            assert(view.pending.contains(i));
            assert(view.cells.dom().contains(view.tasks[i].id));
            assert(view.values[view.cells[view.tasks[i].id]] is None);
        }
    }
    if view.pending.len() == 0 {
        assert(next.tasks =~= view.tasks) by {
            assert forall|i: int| 0 <= i < view.tasks.len() implies next.tasks[i]
                == view.tasks[i] by {
                if view.tasks[i].stage == Stage::Queued {
                    assert(view.pending.contains(i));
                }
            }
        }
        assert(next.pending =~= view.pending);
    }
}

/// Delivering the result of a running task keeps the invariant.
pub proof fn lemma_complete_inv<R>(view: SchedulerView<R>, task: int, value: R)
    requires
        view.inv(),
        view.running(task),
    ensures
        view.complete(task, value).inv(),
{
    let next = view.complete(task, value);
    let id = view.tasks[task].id;
    assert(view.cells.dom().contains(id));
    let slot = view.cells[id];
    assert forall|q: QueryId| #[trigger]
        next.enqueued.contains(q) <==> next.cells.dom().contains(q) && next.values[next.cells[q]]
            is None by {
        if view.cells.dom().contains(q) {
            assert(0 <= view.cells[q] < view.values.len());
        }
    }
    assert forall|i: int| 0 <= i < next.tasks.len() implies next.cells.dom().contains(
        (#[trigger] next.tasks[i]).id,
    ) by {
        assert(next.tasks[i].id == view.tasks[i].id);
    }
    assert forall|i: int, j: int|
        0 <= i < next.tasks.len() && 0 <= j < next.tasks.len() && (#[trigger] next.tasks[i]).id
            == (#[trigger] next.tasks[j]).id implies i == j by {
        assert(next.tasks[i].id == view.tasks[i].id);
        assert(next.tasks[j].id == view.tasks[j].id);
    }
    assert forall|q: QueryId| #[trigger] next.cells.dom().contains(q) implies exists|i: int|
        0 <= i < next.tasks.len() && (#[trigger] next.tasks[i]).id == q by {
        let i = choose|i: int| 0 <= i < view.tasks.len() && (#[trigger] view.tasks[i]).id == q;
        assert(next.tasks[i].id == q);
    }
    assert forall|i: int| 0 <= i < next.tasks.len() implies ((#[trigger] next.tasks[i]).stage
        == Stage::Done <==> next.values[next.cells[next.tasks[i].id]] is Some) by {
        assert(next.tasks[i].id == view.tasks[i].id);
        assert(view.cells.dom().contains(view.tasks[i].id));
        assert(0 <= view.cells[view.tasks[i].id] < view.values.len());
        if i != task {
            assert(view.tasks[i].id != id);
        }
    }
    assert forall|k: int| 0 <= k < next.pending.len() implies 0 <= #[trigger] next.pending[k]
        < next.tasks.len() && next.tasks[next.pending[k]].stage == Stage::Queued by {
        assert(view.tasks[view.pending[k]].stage == Stage::Queued);
    }
    assert forall|i: int|
        0 <= i < next.tasks.len() && (#[trigger] next.tasks[i]).stage
            == Stage::Queued implies next.pending.contains(i) by {
        assert(view.tasks[i].stage == Stage::Queued);
    }
}

/// A query is executed at most once: no two tasks are for the same query, a query has a
/// task exactly when it was requested, and the tasks handed out so far are the ones that
/// no longer wait in the queue.
pub proof fn lemma_at_most_once<R>(view: SchedulerView<R>, id: QueryId, a: int, b: int)
    requires
        view.inv(),
    ensures
        0 <= a < view.tasks.len() && 0 <= b < view.tasks.len() && view.tasks[a].id == id
            && view.tasks[b].id == id ==> a == b,
        view.known(id) <==> exists|i: int| 0 <= i < view.tasks.len() && view.tasks[i].id == id,
        view.started == view.tasks.len() - view.pending.len(),
        0 <= a < view.tasks.len() ==> (view.tasks[a].stage == Stage::Queued
            <==> view.pending.contains(a)),
{
    if view.known(id) {
        let i = choose|i: int| 0 <= i < view.tasks.len() && (#[trigger] view.tasks[i]).id == id;
        assert(0 <= i < view.tasks.len() && view.tasks[i].id == id);
    }
    if exists|i: int| 0 <= i < view.tasks.len() && view.tasks[i].id == id {
        let i = choose|i: int| 0 <= i < view.tasks.len() && view.tasks[i].id == id;
        assert(view.cells.dom().contains(view.tasks[i].id));
    }
    if 0 <= a < view.tasks.len() && view.pending.contains(a) {
        let k = choose|k: int| 0 <= k < view.pending.len() && view.pending[k] == a;
        assert(view.tasks[view.pending[k]].stage == Stage::Queued);
    }
}

/// No operation of the scheduler makes a second task for a query, takes a task back to
/// an earlier stage, or moves the cell of a query.
pub proof fn lemma_progress<R>(
    view: SchedulerView<R>,
    id: QueryId,
    identity: Seq<char>,
    task: int,
    value: R,
    i: int,
    q: QueryId,
)
    requires
        view.inv(),
        0 <= i < view.tasks.len(),
        view.known(q),
    ensures
        view.request(id, identity).tasks[i] == view.tasks[i],
        view.request(id, identity).cells[q] == view.cells[q],
        view.request(id, identity).tasks.len() == view.tasks.len() + (if view.known(id) {
            0int
        } else {
            1int
        }),
        view.drain().tasks[i].id == view.tasks[i].id,
        view.drain().tasks[i].stage != Stage::Queued,
        view.tasks[i].stage == Stage::Done ==> view.drain().tasks[i].stage == Stage::Done,
        view.drain().cells[q] == view.cells[q],
        view.drain().tasks.len() == view.tasks.len(),
        view.running(task) ==> view.complete(task, value).tasks[i].id == view.tasks[i].id,
        view.running(task) && view.tasks[i].stage == Stage::Done ==> view.complete(
            task,
            value,
        ).tasks[i].stage == Stage::Done,
        view.running(task) ==> view.complete(task, value).cells[q] == view.cells[q],
        view.running(task) ==> view.complete(task, value).tasks[task].stage == Stage::Done,
{
    if q == id {
        assert(view.known(id));
    }
}

/// A request leads to a state that comes after the one before.
pub proof fn lemma_request_extends<R>(view: SchedulerView<R>, id: QueryId, identity: Seq<char>)
    requires
        view.inv(),
        !view.collides(id.kind, identity),
    ensures
        view.request(id, identity).extends(view),
{
    let next = view.request(id, identity);
    assert forall|q: QueryId| #[trigger] view.cells.dom().contains(q) implies next.cells.dom().contains(
        q,
    ) && next.cells[q] == view.cells[q] by {
        if q == id {
            assert(view.known(id));
        }
    }
}

/// Handing out what waits leads to a state that comes after the one before.
pub proof fn lemma_drain_extends<R>(view: SchedulerView<R>)
    requires
        view.inv(),
    ensures
        view.drain().extends(view),
{
}

/// The delivery of a result leads to a state that comes after the one before.
pub proof fn lemma_complete_extends<R>(view: SchedulerView<R>, task: int, value: R)
    requires
        view.inv(),
        view.running(task),
    ensures
        view.complete(task, value).extends(view),
{
    let t = view.tasks[task].id;
    assert(view.cells.dom().contains(t));
    assert(view.values[view.cells[t]] is None);
}

/// An answer is owed: once every task that waited after the request for a query is done,
/// the result of the query is there, unless the task of the query had been handed out
/// before the request and has not delivered.
pub proof fn lemma_answer_owed<R>(
    view: SchedulerView<R>,
    next: SchedulerView<R>,
    id: QueryId,
    identity: Seq<char>,
)
    requires
        view.inv(),
        !view.collides(id.kind, identity),
        next.inv(),
        next.extends(view.request(id, identity)),
        finished(view.request(id, identity), next),
    ensures
        next.result(id) is Some || view.busy(id),
{
    let asked = view.request(id, identity);
    lemma_request_inv(view, id, identity);
    lemma_memoized(view, id, identity);
    assert(asked.cells.dom().contains(id));
    let i = choose|i: int| 0 <= i < asked.tasks.len() && (#[trigger] asked.tasks[i]).id == id;
    assert(next.tasks[i].id == asked.tasks[i].id);
    assert(next.cells.dom().contains(id) && next.cells[id] == asked.cells[id]);
    if asked.tasks[i].stage == Stage::Queued {
        assert(next.tasks[i].stage == Stage::Done);
    } else if asked.tasks[i].stage == Stage::Done {
        assert(asked.values[asked.cells[id]] is Some);
        assert(0 <= asked.cells[id] < asked.values.len());
    } else {
        if !view.known(id) {
            assert(asked.tasks[view.tasks.len() as int].id == id);
            assert(i == view.tasks.len());
        }
        assert(view.tasks[i].id == id && view.tasks[i].stage == Stage::Running);
    }
}

/// Requests are memoized: a second request for a query changes nothing and answers with
/// the cell of the first, and a result that is there stays as it is.
pub proof fn lemma_memoized<R>(view: SchedulerView<R>, id: QueryId, identity: Seq<char>)
    requires
        view.inv(),
        !view.collides(id.kind, identity),
    ensures
        view.request(id, identity).known(id),
        !view.request(id, identity).collides(id.kind, identity),
        view.request(id, identity).request(id, identity) == view.request(id, identity),
        view.known(id) ==> view.request(id, identity) == view,
        view.known(id) ==> view.request(id, identity).result(id) == view.result(id),
{
    let once = view.request(id, identity);
    let twice = once.request(id, identity);
    assert(twice.kinds =~= once.kinds);
    if view.known(id) {
        assert(view.kinds.dom().contains(id.kind));
        assert(once.kinds =~= view.kinds);
    }
}

/// What the cells hold does not depend on the order in which tasks are polled: if every
/// task delivers the value of one function `f` of its query, then after any sequence of
/// requests, passes and deliveries every result that is there is the value of `f`. Two
/// runs that both computed a query therefore hold the same result for it, whichever
/// polling loop each of them used.
pub proof fn lemma_mode_equivalence<R>(
    view: SchedulerView<R>,
    other: SchedulerView<R>,
    f: spec_fn(QueryId) -> R,
    id: QueryId,
    identity: Seq<char>,
    task: int,
)
    requires
        view.inv(),
        view.agrees(f),
        other.inv(),
        other.agrees(f),
    ensures
        view.request(id, identity).agrees(f),
        view.drain().agrees(f),
        view.running(task) ==> view.complete(task, f(view.tasks[task].id)).agrees(f),
        view.result(id) is Some && other.result(id) is Some ==> view.result(id) == other.result(
            id,
        ),
{
    let requested = view.request(id, identity);
    assert forall|q: QueryId| #[trigger] requested.cells.dom().contains(q) implies (
    requested.values[requested.cells[q]] matches Some(value) ==> value == f(q)) by {
        if q != id || view.known(id) {
            assert(view.cells.dom().contains(q));
            assert(0 <= view.cells[q] < view.values.len());
        }
    }
    if view.running(task) {
        let t = view.tasks[task].id;
        let completed = view.complete(task, f(t));
        assert(view.cells.dom().contains(t));
        assert forall|q: QueryId| #[trigger] completed.cells.dom().contains(q) implies (
        completed.values[completed.cells[q]] matches Some(value) ==> value == f(q)) by {
            assert(view.cells.dom().contains(q));
            assert(0 <= view.cells[q] < view.values.len());
            assert(0 <= view.cells[t] < view.values.len());
        }
    }
    if view.result(id) is Some && other.result(id) is Some {
        assert(view.cells.dom().contains(id));
        assert(other.cells.dom().contains(id));
    }
}

impl<Q, R> View for Scheduler<Q, R> {
    type V = SchedulerView<R>;

    closed spec fn view(&self) -> SchedulerView<R> {
        SchedulerView {
            kinds: Map::new(
                |h: u64| self.has_kind(h),
                |h: u64| self.caches@[self.cache_index(h)].identity@,
            ),
            cells: Map::new(
                |id: QueryId| self.has_kind(id.kind) && self.cell_table(id.kind).dom().contains(id.key),
                |id: QueryId| self.cell_table(id.kind)[id.key] as int,
            ),
            values: Seq::new(self.arena@.len(), |i: int| self.arena@[i]@),
            enqueued: Set::new(
                |id: QueryId|
                    self.has_kind(id.kind) && set_elements(
                        self.caches@[self.cache_index(id.kind)].enqueued,
                    ).contains(id.key),
            ),
            tasks: Seq::new(
                self.descriptors@.len(),
                |i: int|
                    TaskView { id: self.descriptors@[i].id, stage: self.descriptors@[i].stage() },
            ),
            pending: Seq::new(
                queue_items(self.erased_queue).len(),
                |k: int| queue_items(self.erased_queue)[k] as int,
            ),
            started: self.started as nat,
            polls: self.polls@,
        }
    }
}

impl<Q, R> Descriptor<Q, R> {
    spec fn stage(self) -> Stage {
        if self.query is Some {
            Stage::Queued
        } else if self.done {
            Stage::Done
        } else {
            Stage::Running
        }
    }
}

impl<Q> Task<Q> {
    /// Position of the task's descriptor in [`SchedulerView::tasks`].
    pub closed spec fn descriptor(&self) -> int {
        self.descriptor as int
    }

    /// The query that the task executes.
    pub closed spec fn query(&self) -> Q {
        self.query
    }

    /// The query that the task executes.
    pub fn get(&self) -> (query: &Q)
        ensures
            *query == self.query(),
    {
        &self.query
    }
}

impl<R> Ongoing<R> {
    /// The slot of the cell that will hold the result.
    pub closed spec fn slot(&self) -> int {
        self.cell.slot()
    }

    /// Index of the arena that holds the cell.
    pub closed spec fn arena_index(&self) -> usize {
        self.cell.arena_index()
    }

    /// The handle to the cell that will hold the result.
    pub fn cell(&self) -> (cell: Ref<Cell<R>>)
        ensures
            cell.slot() == self.slot(),
            cell.arena_index() == self.arena_index(),
    {
        self.cell
    }

    /// Polls the computation: if the cell is full, the value in it is ready; otherwise the
    /// computation is pending. Nothing is registered to wake the caller: the trampoline
    /// polls every task in every pass.
    pub fn poll<'a, Q>(&self, scheduler: &'a Scheduler<Q, R>) -> (poll: Poll<&'a R>)
        ensures
            match poll {
                Poll::Ready(value) => {
                    &&& self.arena_index() == scheduler.arena_index()
                    &&& 0 <= self.slot() < scheduler@.values.len()
                    &&& scheduler@.values[self.slot()] == Some(*value)
                },
                Poll::Pending => {
                    ||| self.arena_index() != scheduler.arena_index()
                    ||| !(0 <= self.slot() < scheduler@.values.len())
                    ||| scheduler@.values[self.slot()] is None
                },
            },
    {
        scheduler.result(self)
    }
}

impl<Q, R> Scheduler<Q, R> {
    spec fn has_kind(&self, kind: u64) -> bool {
        table_entries(self.caches_by_type).dom().contains(kind)
    }

    spec fn cache_index(&self, kind: u64) -> int {
        table_entries(self.caches_by_type)[kind] as int
    }

    spec fn cell_table(&self, kind: u64) -> Map<u64, usize> {
        table_entries(self.caches@[self.cache_index(kind)].cells)
    }

    /// Index of the arena that holds the cells.
    pub closed spec fn arena_index(&self) -> usize {
        self.arena.spec_index()
    }

    /// The queries that the task descriptors hold, in the order of
    /// [`SchedulerView::tasks`]: a descriptor holds its query while it waits in the
    /// queue, and hands it on to the task that is made of it.
    pub closed spec fn queries(&self) -> Seq<Option<Q>> {
        Seq::new(self.descriptors@.len(), |i: int| self.descriptors@[i].query)
    }

    /// The invariant of the scheduler. Every operation keeps it.
    pub closed spec fn wf(&self) -> bool {
        &&& self@.inv()
        &&& forall|h: u64| #[trigger]
            self.has_kind(h) ==> 0 <= self.cache_index(h) < self.caches@.len()
                && self.caches@[self.cache_index(h)].kind == h
        &&& forall|i: int|
            0 <= i < self.descriptors@.len() ==> (#[trigger] self.descriptors@[i]).cell.slot()
                == self@.cells[self.descriptors@[i].id]
                && self.descriptors@[i].cell.arena_index() == self.arena.spec_index()
                && (self.descriptors@[i].query is Some ==> !self.descriptors@[i].done)
    }

    /// What the invariant says of the state that contracts see: the state is valid, and
    /// the descriptors that hold a query are the ones that wait in the queue.
    pub proof fn lemma_inv(&self)
        requires
            self.wf(),
        ensures
            self@.inv(),
            self.queries().len() == self@.tasks.len(),
            forall|i: int|
                0 <= i < self@.tasks.len() ==> ((#[trigger] self.queries()[i]) is Some
                    <==> self@.tasks[i].stage == Stage::Queued),
    {
    }

    /// Creates a scheduler that keeps its cells in `arena`. Cells that are in the arena
    /// already belong to no query.
    pub fn new(arena: Arena<Cell<R>>) -> (scheduler: Self)
        ensures
            scheduler.wf(),
            scheduler.arena_index() == arena.spec_index(),
            scheduler@.kinds =~= Map::empty(),
            scheduler@.cells =~= Map::empty(),
            scheduler@.values.len() == arena@.len(),
            forall|i: int|
                0 <= i < arena@.len() ==> #[trigger] scheduler@.values[i] == arena@[i]@,
            scheduler@.enqueued =~= Set::empty(),
            scheduler@.tasks =~= Seq::empty(),
            scheduler@.pending =~= Seq::empty(),
            scheduler@.started == 0,
            scheduler@.polls =~= Seq::empty(),
            scheduler.queries() =~= Seq::empty(),
    {
        Scheduler {
            arena,
            caches_by_type: table_new(),
            caches: Vec::new(),
            descriptors: Vec::new(),
            erased_queue: queue_new(),
            started: 0,
            polls: Ghost(Seq::empty()),
        }
    }

    /// The arena that holds the cells.
    pub fn arena(&self) -> (arena: &Arena<Cell<R>>)
        ensures
            arena.spec_index() == self.arena_index(),
            arena@.len() == self@.values.len(),
            forall|i: int| 0 <= i < arena@.len() ==> (#[trigger] arena@[i])@ == self@.values[i],
    {
        &self.arena
    }

    /// Looks up the cache of a kind, and installs an empty one where the kind has none.
    fn cache(&mut self, kind: u64, identity: &'static str) -> (r: Result<usize, HashCollision>)
        requires
            old(self).wf(),
        ensures
            final(self).wf(),
            final(self).arena_index() == old(self).arena_index(),
            final(self).descriptors == old(self).descriptors,
            match r {
                Ok(index) => {
                    &&& !old(self)@.collides(kind, identity@)
                    &&& final(self).has_kind(kind)
                    &&& index == final(self).cache_index(kind)
                    &&& final(self)@ == (SchedulerView {
                        kinds: old(self)@.kinds.insert(kind, identity@),
                        ..old(self)@
                    })
                },
                Err(e) => {
                    &&& old(self)@.collides(kind, identity@)
                    &&& final(self)@ == old(self)@
                    &&& e.hash == kind
                    &&& e.registered@ == old(self)@.kinds[kind]
                    &&& e.requested == identity
                },
            },
    {
        match table_get(&self.caches_by_type, kind) {
            Some(index) => {
                assert(self.has_kind(kind));
                let registered = self.caches[index].identity;
                if same(registered, identity) {
                    assert(self@.kinds =~= old(self)@.kinds.insert(kind, identity@));
                    Ok(index)
                } else {
                    Err(HashCollision { hash: kind, registered, requested: identity })
                }
            },
            None => {
                let index = self.caches.len();
                self.caches.push(Cache { kind, identity, cells: table_new(), enqueued: set_new() });
                table_insert(&mut self.caches_by_type, kind, index);
                proof {
                    assert forall|h: u64| #[trigger] self.has_kind(h) implies 0 <= self.cache_index(h)
                        < self.caches@.len() && self.caches@[self.cache_index(h)].kind == h by {
                        if h != kind {
                            assert(old(self).has_kind(h));
                        }
                    }
                    assert(self@.kinds =~= old(self)@.kinds.insert(kind, identity@)) by {
                        assert forall|h: u64| #[trigger] self@.kinds.dom().contains(h) implies self@.kinds[h] == old(self)@.kinds.insert(kind, identity@)[h] by {
                            if h != kind {
                                assert(old(self).has_kind(h));
                            }
                        }
                    }
                    assert(self@.cells =~= old(self)@.cells) by {
                        assert forall|id: QueryId| self@.cells.dom().contains(id) <==> old(self)@.cells.dom().contains(id) by {
                            if id.kind != kind {
                                assert(self.has_kind(id.kind) == old(self).has_kind(id.kind));
                                if self.has_kind(id.kind) {
                                    assert(old(self).has_kind(id.kind));
                                }
                            }
                        }
                        assert forall|id: QueryId| #[trigger] self@.cells.dom().contains(id) implies self@.cells[id] == old(self)@.cells[id] by {
                            assert(old(self).has_kind(id.kind));
                        }
                    }
                    assert(self@.enqueued =~= old(self)@.enqueued) by {
                        assert forall|id: QueryId| self@.enqueued.contains(id) <==> old(self)@.enqueued.contains(id) by {
                            if id.kind != kind {
                                assert(self.has_kind(id.kind) == old(self).has_kind(id.kind));
                                if self.has_kind(id.kind) {
                                    assert(old(self).has_kind(id.kind));
                                }
                            }
                        }
                    }
                    assert(self@.values =~= old(self)@.values);
                    assert(self@.tasks =~= old(self)@.tasks);
                    assert(self@.pending =~= old(self)@.pending);
                    assert(self@ == (SchedulerView {
                        kinds: old(self)@.kinds.insert(kind, identity@),
                        ..old(self)@
                    }));
                    assert(old(self)@.inv());
                    assert(self@.inv());
                }
                Ok(index)
            },
        }
    }

    /// Requests the query `id`: makes sure that a cell for its result exists and that,
    /// if this is the first request, a task for it waits in the queue.
    ///
    /// `identity` tells the kind of `id.kind` from other kinds, and `query` is what the
    /// task will execute. Fails, and changes nothing, when the hash `id.kind` is taken by a
    /// kind with another identity.
    pub fn request(&mut self, id: QueryId, identity: &'static str, query: Q) -> (r: Result<
        Ongoing<R>,
        HashCollision,
    >)
        requires
            old(self).wf(),
        ensures
            final(self).wf(),
            final(self).arena_index() == old(self).arena_index(),
            final(self)@.extends(old(self)@),
            final(self)@.only_requested(old(self)@),
            final(self).queries() == (if old(self)@.known(id) || old(self)@.collides(
                id.kind,
                identity@,
            ) {
                old(self).queries()
            } else {
                old(self).queries().push(Some(query))
            }),
            match r {
                Ok(ongoing) => {
                    &&& !old(self)@.collides(id.kind, identity@)
                    &&& final(self)@ == old(self)@.request(id, identity@)
                    &&& ongoing.slot() == final(self)@.cells[id]
                    &&& ongoing.arena_index() == final(self).arena_index()
                },
                Err(e) => {
                    &&& old(self)@.collides(id.kind, identity@)
                    &&& final(self)@ == old(self)@
                    &&& e.hash == id.kind
                    &&& e.registered@ == old(self)@.kinds[id.kind]
                    &&& e.requested == identity
                },
            },
    {
        proof {
            lemma_extends_self(old(self)@);
            if !old(self)@.collides(id.kind, identity@) {
                lemma_request_extends(old(self)@, id, identity@);
            }
        }
        let index = match self.cache(id.kind, identity) {
            Ok(index) => index,
            Err(e) => {
                return Err(e);
            },
        };
        let ghost mid = *self;
        assert(self.has_kind(id.kind));
        match table_get(&self.caches[index].cells, id.key) {
            Some(slot) => {
                assert(self@.cells.dom().contains(id));
                let cell = self.arena.handle(slot);
                assert(old(self)@.request(id, identity@) == self@);
                Ok(Ongoing { cell })
            },
            None => {
                assert(!self@.cells.dom().contains(id));
                assert(!self@.enqueued.contains(id));
                let own = self.arena.alloc_recorded(Cell::new());
                let cell = own.share();
                let slot = cell.position();
                table_insert(&mut self.caches[index].cells, id.key, slot);
                let newly = set_insert(&mut self.caches[index].enqueued, id.key);
                assert(newly);
                let descriptor = self.descriptors.len();
                self.descriptors.push(Descriptor { id, cell: own, query: Some(query), done: false });
                queue_push(&mut self.erased_queue, descriptor);
                proof {
                    let goal = old(self)@.request(id, identity@);
                    assert(self.caches@.len() == mid.caches@.len());
                    assert(forall|j: int|
                        0 <= j < self.caches@.len() ==> (#[trigger] self.caches@[j]).identity
                            == mid.caches@[j].identity && self.caches@[j].kind
                            == mid.caches@[j].kind);
                    assert(forall|j: int|
                        0 <= j < self.caches@.len() && j != index ==> #[trigger] self.caches@[j]
                            == mid.caches@[j]);
                    assert forall|h: u64| #[trigger] self.has_kind(h) implies 0 <= self.cache_index(h)
                        < self.caches@.len() && self.caches@[self.cache_index(h)].kind == h by {
                        assert(mid.has_kind(h));
                    }
                    assert(self@.kinds =~= goal.kinds) by {
                        assert forall|h: u64| #[trigger] self@.kinds.dom().contains(h) implies self@.kinds[h] == goal.kinds[h] by {
                            assert(mid.has_kind(h));
                        }
                    }
                    assert(self@.cells =~= goal.cells) by {
                        assert forall|q: QueryId| self@.cells.dom().contains(q) <==> goal.cells.dom().contains(q) by {
                            if self.has_kind(q.kind) {
                                assert(mid.has_kind(q.kind));
                                assert(mid.has_kind(id.kind));
                            }
                        }
                        assert forall|q: QueryId| #[trigger] self@.cells.dom().contains(q) implies self@.cells[q] == goal.cells[q] by {
                            assert(mid.has_kind(q.kind));
                            assert(mid.has_kind(id.kind));
                        }
                    }
                    assert(self@.enqueued =~= goal.enqueued) by {
                        assert forall|q: QueryId| self@.enqueued.contains(q) <==> goal.enqueued.contains(q) by {
                            if self.has_kind(q.kind) {
                                assert(mid.has_kind(q.kind));
                                assert(mid.has_kind(id.kind));
                            }
                        }
                    }
                    assert(self@.values =~= goal.values);
                    assert(self@.tasks =~= goal.tasks);
                    assert(self@.pending =~= goal.pending);
                    assert(self@ == goal);
                    lemma_request_inv(old(self)@, id, identity@);
                    assert forall|i: int| 0 <= i < self.descriptors@.len() implies (#[trigger] self.descriptors@[i]).cell.slot()
                            == self@.cells[self.descriptors@[i].id]
                            && self.descriptors@[i].cell.arena_index() == self.arena.spec_index()
                            && (self.descriptors@[i].query is Some ==> !self.descriptors@[i].done) by {
                        if i < mid.descriptors@.len() {
                            assert(mid.descriptors@[i] == self.descriptors@[i]);
                            assert(mid@.cells.dom().contains(mid@.tasks[i].id));
                        }
                    }
                }
                Ok(Ongoing { cell })
            },
        }
    }

    /// Hands out one waiting descriptor as a task: takes its query out of it.
    fn materialize(&mut self, index: usize) -> (task: Option<Task<Q>>)
        requires
            index < old(self).descriptors@.len(),
            old(self).started < old(self).descriptors@.len(),
        ensures
            final(self).arena == old(self).arena,
            final(self).caches_by_type == old(self).caches_by_type,
            final(self).caches == old(self).caches,
            final(self).erased_queue == old(self).erased_queue,
            final(self).polls == old(self).polls,
            final(self).descriptors@.len() == old(self).descriptors@.len(),
            forall|i: int|
                0 <= i < old(self).descriptors@.len() && i != index ==> #[trigger] final(self).descriptors@[i] == old(self).descriptors@[i],
            final(self).descriptors@[index as int].id == old(self).descriptors@[index as int].id,
            final(self).descriptors@[index as int].cell == old(self).descriptors@[index as int].cell,
            final(self).descriptors@[index as int].done == old(self).descriptors@[index as int].done,
            final(self).descriptors@[index as int].query is None,
            match task {
                Some(task) => {
                    &&& old(self).descriptors@[index as int].query == Some(task.query())
                    &&& task.descriptor() == index
                    &&& final(self).started == old(self).started + 1
                },
                None => {
                    &&& old(self).descriptors@[index as int].query is None
                    &&& final(self).started == old(self).started
                },
            },
    {
        let count = self.descriptors.len();
        match self.descriptors[index].query.take() {
            Some(query) => {
                self.started = self.started + 1;
                Some(Task { descriptor: index, query })
            },
            None => None,
        }
    }

    /// Empties the queue: every waiting descriptor is handed out as a task, oldest first.
    pub fn drain(&mut self) -> (tasks: Vec<Task<Q>>)
        requires
            old(self).wf(),
        ensures
            final(self).wf(),
            final(self).arena_index() == old(self).arena_index(),
            final(self)@ == old(self)@.drain(),
            final(self)@.extends(old(self)@),
            tasks@.len() == old(self)@.pending.len(),
            forall|k: int|
                0 <= k < tasks@.len() ==> (#[trigger] tasks@[k]).descriptor() == old(self)@.pending[k],
            forall|k: int|
                0 <= k < tasks@.len() ==> old(self).queries()[old(self)@.pending[k]] == Some(
                    (#[trigger] tasks@[k]).query(),
                ),
            final(self).queries() == Seq::new(old(self).queries().len(), |i: int| None::<Q>),
    {
        let indices = queue_drain(&mut self.erased_queue);
        let ghost pending = old(self)@.pending;
        let mut tasks: Vec<Task<Q>> = Vec::new();
        let mut k: usize = 0;
        assert(indices@.len() == pending.len());
        proof {
            lemma_distinct_bounded(pending, old(self)@.tasks.len() as int);
        }
        while k < indices.len()
            invariant
                old(self).wf(),
                pending == old(self)@.pending,
                indices@.len() == pending.len(),
                forall|l: int| 0 <= l < indices@.len() ==> #[trigger] indices@[l] as int == pending[l],
                k <= indices@.len(),
                tasks@.len() == k,
                forall|l: int| 0 <= l < k ==> (#[trigger] tasks@[l]).descriptor() == pending[l],
                forall|l: int|
                    0 <= l < k ==> old(self).descriptors@[pending[l]].query == Some(
                        (#[trigger] tasks@[l]).query(),
                    ),
                forall|i: int|
                    0 <= i < self.descriptors@.len() && (#[trigger] self.descriptors@[i]).query
                        is Some ==> self.descriptors@[i].query == old(self).descriptors@[i].query,
                self.arena == old(self).arena,
                self.polls == old(self).polls,
                self.caches_by_type == old(self).caches_by_type,
                self.caches == old(self).caches,
                queue_items(self.erased_queue) == Seq::<usize>::empty(),
                self.descriptors@.len() == old(self).descriptors@.len(),
                self.started == old(self).started + k,
                pending.len() <= old(self)@.tasks.len(),
                old(self).started + pending.len() == old(self).descriptors@.len(),
                forall|i: int|
                    0 <= i < self.descriptors@.len() ==> (#[trigger] self.descriptors@[i]).id
                        == old(self).descriptors@[i].id && self.descriptors@[i].cell == old(self).descriptors@[i].cell && self.descriptors@[i].done == old(self).descriptors@[i].done,
                forall|i: int|
                    0 <= i < self.descriptors@.len() ==> ((#[trigger] self.descriptors@[i]).query
                        is Some <==> exists|l: int| k <= l < pending.len() && pending[l] == i),
            decreases indices@.len() - k,
        {
            let index = indices[k];
            assert(pending[k as int] == index);
            assert(0 <= pending[k as int] < old(self)@.tasks.len());
            let ghost before = *self;
            let task = self.materialize(index);
            assert(before.descriptors@[index as int].query is Some);
            match task {
                Some(task) => {
                    tasks.push(task);
                },
                None => {},
            }
            proof {
                assert forall|i: int| 0 <= i < self.descriptors@.len() implies ((
                #[trigger] self.descriptors@[i]).query is Some <==> exists|l: int|
                    k + 1 <= l < pending.len() && pending[l] == i) by {
                    if i == index {
                        if exists|l: int| k + 1 <= l < pending.len() && pending[l] == i {
                            let l = choose|l: int| k + 1 <= l < pending.len() && pending[l] == i;
                            assert(pending[l] == pending[k as int]);
                        }
                    } else {
                        assert(self.descriptors@[i] == before.descriptors@[i]);
                        if before.descriptors@[i].query is Some {
                            let l = choose|l: int| k <= l < pending.len() && pending[l] == i;
                            assert(l != k);
                        }
                    }
                }
            }
            k += 1;
        }
        proof {
            let goal = old(self)@.drain();
            assert(self@.tasks =~= goal.tasks) by {
                assert forall|i: int| 0 <= i < self@.tasks.len() implies self@.tasks[i]
                    == goal.tasks[i] by {
                    assert(self.descriptors@[i].query is None);
                    assert(old(self)@.tasks[i].stage == old(self).descriptors@[i].stage());
                }
            }
            assert(self@.pending =~= goal.pending);
            assert(self@.kinds =~= goal.kinds);
            assert(self@.cells =~= goal.cells);
            assert(self@.values =~= goal.values);
            assert(self@.enqueued =~= goal.enqueued);
            assert(self@ == goal);
            lemma_drain_inv(old(self)@);
            lemma_drain_extends(old(self)@);
            assert(self@.inv());
            assert forall|h: u64| #[trigger] self.has_kind(h) implies 0 <= self.cache_index(h)
                < self.caches@.len() && self.caches@[self.cache_index(h)].kind == h by {
                assert(old(self).has_kind(h));
            }
            assert forall|i: int| 0 <= i < self.descriptors@.len() implies (
            #[trigger] self.descriptors@[i]).cell.slot() == self@.cells[self.descriptors@[i].id]
                && self.descriptors@[i].cell.arena_index() == self.arena.spec_index() && (
            self.descriptors@[i].query is Some ==> !self.descriptors@[i].done) by {
                assert(old(self).descriptors@[i].cell.slot() == old(self)@.cells[old(self).descriptors@[i].id]);
            }
        }
        tasks
    }

    /// Ends a task with the result of its query: fills the query's cell and takes the
    /// query out of the set of enqueued ones.
    ///
    /// A task that is not running changes nothing, and its value comes back as the error.
    pub fn complete(&mut self, task: Task<Q>, value: R) -> (r: Result<(), R>)
        requires
            old(self).wf(),
        ensures
            final(self).wf(),
            final(self).arena_index() == old(self).arena_index(),
            final(self)@.extends(old(self)@),
            final(self).queries() == old(self).queries(),
            old(self)@.running(task.descriptor()) ==> r == Ok::<(), R>(()) && final(self)@ == old(self)@.complete(task.descriptor(), value),
            !old(self)@.running(task.descriptor()) ==> r == Err::<(), R>(value) && final(self)@
                == old(self)@,
    {
        proof {
            lemma_extends_self(old(self)@);
            if old(self)@.running(task.descriptor()) {
                lemma_complete_extends(old(self)@, task.descriptor(), value);
            }
        }
        let index = task.descriptor;
        if index >= self.descriptors.len() {
            return Err(value);
        }
        if self.descriptors[index].query.is_some() || self.descriptors[index].done {
            return Err(value);
        }
        let id = self.descriptors[index].id;
        assert(self@.running(index as int));
        assert(self@.tasks[index as int].id == id);
        assert(self@.cells.dom().contains(id));
        assert(self.has_kind(id.kind));
        proof {
            lemma_complete_inv(self@, index as int, value);
        }
        let written = self.arena.get_mut(&mut self.descriptors[index].cell).set(value);
        self.descriptors[index].done = true;
        match table_get(&self.caches_by_type, id.kind) {
            Some(cache) => {
                set_remove(&mut self.caches[cache].enqueued, id.key);
            },
            None => {},
        }
        proof {
            let goal = old(self)@.complete(index as int, value);
            assert(self.caches@.len() == old(self).caches@.len());
            assert(forall|j: int|
                0 <= j < self.caches@.len() ==> (#[trigger] self.caches@[j]).identity == old(self).caches@[j].identity && self.caches@[j].kind == old(self).caches@[j].kind
                    && self.caches@[j].cells == old(self).caches@[j].cells);
            assert forall|h: u64| #[trigger] self.has_kind(h) implies 0 <= self.cache_index(h)
                < self.caches@.len() && self.caches@[self.cache_index(h)].kind == h by {
                assert(old(self).has_kind(h));
            }
            assert(self@.kinds =~= goal.kinds) by {
                assert forall|h: u64| #[trigger] self@.kinds.dom().contains(h) implies self@.kinds[h]
                    == goal.kinds[h] by {
                    assert(old(self).has_kind(h));
                }
            }
            assert(self@.cells =~= goal.cells) by {
                assert forall|q: QueryId| self@.cells.dom().contains(q)
                    <==> goal.cells.dom().contains(q) by {
                    if self.has_kind(q.kind) {
                        assert(old(self).has_kind(q.kind));
                    }
                }
                assert forall|q: QueryId| #[trigger] self@.cells.dom().contains(q) implies self@.cells[q]
                    == goal.cells[q] by {
                    assert(old(self).has_kind(q.kind));
                }
            }
            assert(self@.enqueued =~= goal.enqueued) by {
                assert forall|q: QueryId| self@.enqueued.contains(q) <==> goal.enqueued.contains(
                    q,
                ) by {
                    if self.has_kind(q.kind) {
                        assert(old(self).has_kind(q.kind));
                        assert(old(self).has_kind(id.kind));
                    }
                }
            }
            assert(self@.values =~= goal.values);
            assert(self@.tasks =~= goal.tasks);
            assert(self@.pending =~= goal.pending);
            assert(self@ == goal);
            assert forall|i: int| 0 <= i < self.descriptors@.len() implies (
            #[trigger] self.descriptors@[i]).cell.slot() == self@.cells[self.descriptors@[i].id]
                && self.descriptors@[i].cell.arena_index() == self.arena.spec_index() && (
            self.descriptors@[i].query is Some ==> !self.descriptors@[i].done) by {
                assert(old(self).descriptors@[i].cell.slot() == old(self)@.cells[old(self).descriptors@[i].id]);
            }
        }
        written
    }

    /// Decides what becomes of a task after a poll: a finished one delivers its value and
    /// ends, a pending one stays.
    pub fn settle(&mut self, task: Task<Q>, poll: Poll<R>) -> (kept: Option<Task<Q>>)
        requires
            old(self).wf(),
        ensures
            final(self).wf(),
            final(self).arena_index() == old(self).arena_index(),
            final(self)@.extends(old(self)@),
            final(self).queries() == old(self).queries(),
            match poll {
                Poll::Pending => kept == Some(task) && final(self)@ == old(self)@,
                Poll::Ready(value) => {
                    &&& kept is None
                    &&& old(self)@.running(task.descriptor()) ==> final(self)@ == old(self)@.complete(task.descriptor(), value)
                    &&& !old(self)@.running(task.descriptor()) ==> final(self)@ == old(self)@
                },
            },
    {
        proof {
            lemma_extends_self(old(self)@);
        }
        match poll {
            Poll::Pending => Some(task),
            Poll::Ready(value) => {
                let _ = self.complete(task, value);
                None
            },
        }
    }

    /// The result of a requested query, if it is there.
    pub fn result(&self, ongoing: &Ongoing<R>) -> (poll: Poll<&R>)
        ensures
            match poll {
                Poll::Ready(value) => {
                    &&& ongoing.arena_index() == self.arena_index()
                    &&& 0 <= ongoing.slot() < self@.values.len()
                    &&& self@.values[ongoing.slot()] == Some(*value)
                },
                Poll::Pending => {
                    ||| ongoing.arena_index() != self.arena_index()
                    ||| !(0 <= ongoing.slot() < self@.values.len())
                    ||| self@.values[ongoing.slot()] is None
                },
            },
    {
        if ongoing.cell.position() >= self.arena.len() {
            return Poll::Pending;
        }
        match self.arena.try_get(ongoing.cell) {
            Ok(cell) => match cell.get() {
                Some(value) => Poll::Ready(value),
                None => Poll::Pending,
            },
            Err(_) => Poll::Pending,
        }
    }

    /// Whether the hash `kind` is taken by a kind of another identity, so that a request
    /// under it would fail.
    pub fn collides(&self, kind: u64, identity: &str) -> (taken: bool)
        requires
            self.wf(),
        ensures
            taken == self@.collides(kind, identity@),
    {
        match table_get(&self.caches_by_type, kind) {
            Some(index) => {
                assert(self.has_kind(kind));
                !same(self.caches[index].identity, identity)
            },
            None => false,
        }
    }

    /// The handle to the result of a query, if the query was requested before.
    pub fn lookup(&self, id: QueryId) -> (found: Option<Ongoing<R>>)
        requires
            self.wf(),
        ensures
            match found {
                Some(ongoing) => {
                    &&& self@.known(id)
                    &&& ongoing.slot() == self@.cells[id]
                    &&& ongoing.arena_index() == self.arena_index()
                },
                None => !self@.known(id),
            },
    {
        match table_get(&self.caches_by_type, id.kind) {
            Some(index) => {
                assert(self.has_kind(id.kind));
                match table_get(&self.caches[index].cells, id.key) {
                    Some(slot) => {
                        assert(self@.cells.dom().contains(id));
                        assert(self@.values.len() == self.arena@.len());
                        Some(Ongoing { cell: self.arena.handle(slot) })
                    },
                    None => None,
                }
            },
            None => None,
        }
    }

    /// Puts a poll of the task with the descriptor at `descriptor` on record.
    fn record(&mut self, Ghost(descriptor): Ghost<int>)
        requires
            old(self).wf(),
        ensures
            final(self).wf(),
            final(self).arena_index() == old(self).arena_index(),
            final(self).queries() == old(self).queries(),
            final(self)@ == (SchedulerView {
                polls: old(self)@.polls.push(descriptor),
                ..old(self)@
            }),
    {
        self.polls = Ghost(self.polls@.push(descriptor));
        proof {
            let goal = SchedulerView { polls: old(self)@.polls.push(descriptor), ..old(self)@ };
            assert(self@.kinds =~= goal.kinds);
            assert(self@.cells =~= goal.cells);
            assert(self@.values =~= goal.values);
            assert(self@.enqueued =~= goal.enqueued);
            assert(self@.tasks =~= goal.tasks);
            assert(self@.pending =~= goal.pending);
            assert(self@ == goal);
            assert(self.queries() =~= old(self).queries());
            assert(old(self)@.inv());
            assert(self@.inv());
            assert forall|h: u64| #[trigger] self.has_kind(h) implies 0 <= self.cache_index(h)
                < self.caches@.len() && self.caches@[self.cache_index(h)].kind == h by {
                assert(old(self).has_kind(h));
            }
            assert forall|i: int| 0 <= i < self.descriptors@.len() implies (
            #[trigger] self.descriptors@[i]).cell.slot() == self@.cells[self.descriptors@[i].id]
                && self.descriptors@[i].cell.arena_index() == self.arena.spec_index() && (
            self.descriptors@[i].query is Some ==> !self.descriptors@[i].done) by {
                assert(old(self).descriptors@[i].cell.slot() == old(self)@.cells[old(self).descriptors@[i].id]);
            }
        }
    }

    /// How many queries wait for their first execution.
    pub fn pending(&self) -> (n: usize)
        ensures
            n == self@.pending.len(),
    {
        queue_len(&self.erased_queue)
    }

    /// Whether a run of the trampoline that still drives `live` tasks is at its end: no
    /// task is left to drive, and none waits for its first execution.
    pub fn at_rest(&self, live: usize) -> (rest: bool)
        ensures
            rest == (live == 0 && self@.pending.len() == 0),
    {
        live == 0 && self.pending() == 0
    }

    /// How many tasks were handed out so far.
    pub fn started(&self) -> (n: usize)
        ensures
            n == self@.started,
    {
        self.started
    }
}


impl Default for PollLoop {
    fn default() -> (mode: Self)
        ensures
            mode == PollLoop::SingleThreaded,
    {
        PollLoop::SingleThreaded
    }
}

impl Default for Trampoline {
    fn default() -> (settings: Self)
        ensures
            settings.poll_loop == PollLoop::SingleThreaded,
    {
        Trampoline { poll_loop: PollLoop::SingleThreaded }
    }
}

/// Whether all of `queue` are tasks that run.
pub open spec fn live<Q, R>(queue: Seq<Option<Task<Q>>>, view: SchedulerView<R>) -> bool {
    forall|k: int|
        0 <= k < queue.len() && (#[trigger] queue[k]) is Some ==> view.running(
            queue[k]->0.descriptor(),
        )
}

/// Whether none of `queue` is a task that ran already in the state `base`.
pub open spec fn fresh<Q, R>(queue: Seq<Option<Task<Q>>>, base: SchedulerView<R>) -> bool {
    forall|k: int|
        0 <= k < queue.len() && (#[trigger] queue[k]) is Some ==> !base.running(
            queue[k]->0.descriptor(),
        )
}

/// Whether the tasks of `queue` stand in the order in which they were handed out: a task
/// in an earlier slot has the lesser descriptor. No two of them are tasks of one
/// descriptor then.
pub open spec fn sorted<Q>(queue: Seq<Option<Task<Q>>>) -> bool {
    forall|k: int, l: int|
        0 <= k < l < queue.len() && (#[trigger] queue[k]) is Some && (#[trigger] queue[l])
            is Some ==> queue[k]->0.descriptor() < queue[l]->0.descriptor()
}

/// The descriptors of the tasks of a queue whose slots are all full, slot by slot.
pub open spec fn descriptors<Q>(queue: Seq<Option<Task<Q>>>) -> Seq<int> {
    Seq::new(queue.len(), |k: int| queue[k]->0.descriptor())
}

/// Whether the descriptors of a pass ascend: no task is polled twice in the pass, and the
/// tasks are polled in the order in which they were handed out.
pub open spec fn ascending(pass: Seq<int>) -> bool {
    forall|i: int, j: int| 0 <= i < j < pass.len() ==> pass[i] < pass[j]
}

/// The polls of the passes, one pass behind the other.
pub open spec fn flat(passes: Seq<Seq<int>>) -> Seq<int>
    decreases passes.len(),
{
    if passes.len() == 0 {
        Seq::empty()
    } else {
        flat(passes.drop_last()) + passes.last()
    }
}

/// Whether the task with the descriptor at `descriptor` was handed out after every task
/// of `pass`.
pub open spec fn newer(pass: Seq<int>, descriptor: int) -> bool {
    forall|m: int| 0 <= m < pass.len() ==> pass[m] < descriptor
}

/// Whether `next` is a pass that can follow the pass `pass`, as far as the state `now`
/// tells: every task of `next` is one of `pass` or was handed out after all of them, and
/// every task of `pass` that is not polled again in `next` is done.
pub open spec fn follows<R>(pass: Seq<int>, next: Seq<int>, now: SchedulerView<R>) -> bool {
    &&& forall|i: int|
        0 <= i < next.len() ==> pass.contains(#[trigger] next[i]) || newer(pass, next[i])
    &&& forall|m: int|
        0 <= m < pass.len() ==> next.contains(#[trigger] pass[m]) || now.done(pass[m])
}

/// Whether the task with the descriptor at `descriptor` is polled in none of the passes
/// before the one at `k`, and was handed out after every task of them.
pub open spec fn unseen(passes: Seq<Seq<int>>, k: int, descriptor: int) -> bool {
    forall|j: int| 0 <= j < k ==> newer(#[trigger] passes[j], descriptor)
}

/// Whether every task of the pass `next` is one of `pass`, or is polled in none of the
/// passes before the one at `k`.
pub open spec fn joins(passes: Seq<Seq<int>>, k: int, pass: Seq<int>, next: Seq<int>) -> bool {
    forall|i: int|
        0 <= i < next.len() ==> pass.contains(#[trigger] next[i]) || unseen(passes, k, next[i])
}

/// Whether the pass at `k` can follow the one before it: it polls the tasks of the pass
/// before it that are not done, and tasks that no pass polled before.
pub open spec fn follows_at<R>(passes: Seq<Seq<int>>, k: int, now: SchedulerView<R>) -> bool {
    follows(passes[k - 1], passes[k], now) && joins(passes, k, passes[k - 1], passes[k])
}

/// Whether every task of the pass was handed out among the first `count` tasks.
pub open spec fn below(pass: Seq<int>, count: int) -> bool {
    forall|m: int| 0 <= m < pass.len() ==> 0 <= #[trigger] pass[m] < count
}

/// Whether one of the passes polls the task with the descriptor at `descriptor`.
pub open spec fn occurs(passes: Seq<Seq<int>>, descriptor: int) -> bool {
    exists|k: int| 0 <= k < passes.len() && (#[trigger] passes[k]).contains(descriptor)
}

/// Whether `passes` are the passes of a run of the trampoline from the state `base` to
/// the state `now`: the record of polls grew by the polls of the passes; within a pass
/// the descriptors ascend; the first pass polls the tasks that waited in `base`, oldest
/// first; every later pass polls the tasks of the pass before it that are not done, and
/// behind them the tasks that were handed out since, which no pass polled before. A task
/// that is done is not polled again.
pub open spec fn recorded<R>(
    base: SchedulerView<R>,
    now: SchedulerView<R>,
    passes: Seq<Seq<int>>,
) -> bool {
    &&& now.polls == base.polls + flat(passes)
    &&& passes.len() > 0 ==> passes[0] == base.pending
    &&& forall|k: int|
        0 <= k < passes.len() ==> ascending(#[trigger] passes[k]) && below(
            passes[k],
            now.started as int,
        )
    &&& forall|k: int| 1 <= k < passes.len() ==> #[trigger] follows_at(passes, k, now)
}

/// Whether every task that was handed out between the states `base` and `now` is polled
/// in one of the passes.
pub open spec fn polled_all<R>(
    base: SchedulerView<R>,
    now: SchedulerView<R>,
    passes: Seq<Seq<int>>,
) -> bool {
    forall|d: int| base.started <= d < now.started ==> #[trigger] occurs(passes, d)
}

/// What a pass over the queue `before` leaves behind: every task of the queue was polled
/// once, in the order of the slots; no task was handed out; the tasks that are left are
/// tasks of `before`; and every task of `before` is left or done.
pub open spec fn passed<Q, R>(
    start: SchedulerView<R>,
    end: SchedulerView<R>,
    before: Seq<Option<Task<Q>>>,
    after: Seq<Option<Task<Q>>>,
) -> bool {
    &&& end.polls == start.polls + descriptors(before)
    &&& end.started == start.started
    &&& forall|k: int|
        0 <= k < after.len() ==> descriptors(before).contains(
            (#[trigger] after[k])->0.descriptor(),
        )
    &&& forall|m: int|
        0 <= m < before.len() ==> holds(after, (#[trigger] before[m])->0.descriptor())
            || end.done(before[m]->0.descriptor())
}

/// Whether the state `now` is at rest after a run of the trampoline that began in the
/// state `before`: nothing waits, and every task is done, but for those that had been
/// handed out already in the state `before` and had not delivered.
pub open spec fn resting<R>(before: SchedulerView<R>, now: SchedulerView<R>) -> bool {
    now.pending.len() == 0 && settled(before, now)
}

/// Whether one of `queue` is the task with the descriptor at `descriptor`.
pub open spec fn holds<Q>(queue: Seq<Option<Task<Q>>>, descriptor: int) -> bool {
    exists|k: int|
        0 <= k < queue.len() && (#[trigger] queue[k]) is Some && queue[k]->0.descriptor()
            == descriptor
}

/// The tasks as slots that are all full.
pub open spec fn slots<Q>(tasks: Seq<Task<Q>>) -> Seq<Option<Task<Q>>> {
    Seq::new(tasks.len(), |k: int| Some(tasks[k]))
}

/// Whether every task that waited in the queue in the state `before` is done in the
/// state `now`.
pub open spec fn finished<R>(before: SchedulerView<R>, now: SchedulerView<R>) -> bool {
    forall|i: int|
        0 <= i < before.tasks.len() && (#[trigger] before.tasks[i]).stage == Stage::Queued
            ==> now.tasks[i].stage == Stage::Done
}

/// Whether every task that waited in the queue in the state `before` was handed out in
/// the state `now`.
pub open spec fn handed<R>(before: SchedulerView<R>, now: SchedulerView<R>) -> bool {
    forall|i: int|
        0 <= i < before.tasks.len() && (#[trigger] before.tasks[i]).stage == Stage::Queued
            ==> now.tasks[i].stage.rank() >= 1
}

/// Whether every task of the state `now` is done, but for those that had been handed
/// out already in the state `before` and had not delivered: every query that was
/// requested up to `now` has its result, whether it was requested before `before` or
/// after it.
pub open spec fn settled<R>(before: SchedulerView<R>, now: SchedulerView<R>) -> bool {
    forall|i: int|
        0 <= i < now.tasks.len() && !before.running(i) ==> (#[trigger] now.tasks[i]).stage
            == Stage::Done
}

/// Whether every task that runs in the state `now` is one of `queue`, or ran already in
/// the state `before`.
pub open spec fn accounted<Q, R>(
    before: SchedulerView<R>,
    now: SchedulerView<R>,
    queue: Seq<Option<Task<Q>>>,
) -> bool {
    forall|i: int|
        0 <= i < now.tasks.len() && (#[trigger] now.tasks[i]).stage == Stage::Running ==> holds(
            queue,
            i,
        ) || before.running(i)
}

/// Whether `after` is the state `before` after one poll of the task with the descriptor
/// at `descriptor`: the task is kept as it was or, if it ran, is done; no other task
/// was handed out or ended; the tasks that are new wait in the queue.
pub open spec fn polled<R>(
    before: SchedulerView<R>,
    after: SchedulerView<R>,
    descriptor: int,
    kept: bool,
) -> bool {
    &&& after.extends(before)
    &&& after.started == before.started
    &&& after.polls == before.polls.push(descriptor)
    &&& forall|i: int|
        0 <= i < after.tasks.len() && (i != descriptor || kept || !before.running(descriptor))
            ==> (#[trigger] after.tasks[i]).stage == (if i < before.tasks.len() {
            before.tasks[i].stage
        } else {
            Stage::Queued
        })
    &&& !kept && before.running(descriptor) ==> after.tasks[descriptor].stage == Stage::Done
}

/// Whether every slot of the queue holds a task.
pub open spec fn full<Q>(queue: Seq<Option<Task<Q>>>) -> bool {
    forall|k: int| 0 <= k < queue.len() ==> (#[trigger] queue[k]) is Some
}

/// What holds while the trampoline that began in the state `base` drives the tasks of
/// `queue` in the state `now`.
pub open spec fn driving<Q, R>(
    base: SchedulerView<R>,
    now: SchedulerView<R>,
    queue: Seq<Option<Task<Q>>>,
) -> bool {
    &&& base.inv()
    &&& now.inv()
    &&& now.extends(base)
    &&& live(queue, now)
    &&& fresh(queue, base)
    &&& sorted(queue)
    &&& accounted(base, now, queue)
}

/// Tasks that were handed out stay handed out, and the count of the tasks handed out
/// does not go down.
pub proof fn lemma_carried<R>(
    base: SchedulerView<R>,
    before: SchedulerView<R>,
    now: SchedulerView<R>,
)
    requires
        before.extends(base),
        now.extends(before),
        handed(base, before),
        before.started >= base.started + base.pending.len(),
    ensures
        handed(base, now),
        now.started >= base.started + base.pending.len(),
{
    assert forall|i: int|
        0 <= i < base.tasks.len() && (#[trigger] base.tasks[i]).stage
            == Stage::Queued implies now.tasks[i].stage.rank() >= 1 by {
        assert(before.tasks[i].stage.rank() <= now.tasks[i].stage.rank());
    }
}

/// Handing out all that waits hands out every task that waited, and counts them.
pub proof fn lemma_drain_hands_out<R>(view: SchedulerView<R>)
    requires
        view.inv(),
    ensures
        handed(view, view.drain()),
        view.drain().started == view.started + view.pending.len(),
        view.drain().pending.len() == 0,
{
}

/// Taking an empty slot out of the queue keeps what holds while the trampoline drives,
/// and which tasks the queue holds.
pub proof fn lemma_removed<Q, R>(
    base: SchedulerView<R>,
    now: SchedulerView<R>,
    before: Seq<Option<Task<Q>>>,
    slot: int,
)
    requires
        driving(base, now, before),
        0 <= slot < before.len(),
        before[slot] is None,
    ensures
        driving(base, now, before.remove(slot)),
        forall|d: int| holds(before, d) ==> #[trigger] holds(before.remove(slot), d),
        full(before.take(slot)) && full(before.skip(slot + 1)) ==> full(before.remove(slot)),
{
    let after = before.remove(slot);
    assert forall|k: int| 0 <= k < after.len() implies #[trigger] after[k] == before[if k
        < slot {
        k
    } else {
        k + 1
    }] by {}
    assert forall|k: int, l: int|
        0 <= k < l < after.len() && (#[trigger] after[k]) is Some && (#[trigger] after[l])
            is Some implies after[k]->0.descriptor() < after[l]->0.descriptor() by {
        let from_k = if k < slot {
            k
        } else {
            k + 1
        };
        let from_l = if l < slot {
            l
        } else {
            l + 1
        };
        assert(before[from_k] is Some && before[from_l] is Some);
    }
    assert forall|d: int| holds(before, d) implies #[trigger] holds(after, d) by {
        let k = choose|k: int|
            0 <= k < before.len() && (#[trigger] before[k]) is Some && before[k]->0.descriptor()
                == d;
        if k < slot {
            assert(after[k] is Some);
        } else {
            assert(after[k - 1] is Some);
        }
    }
    assert forall|i: int|
        0 <= i < now.tasks.len() && (#[trigger] now.tasks[i]).stage
            == Stage::Running implies holds(after, i) || base.running(i) by {
        if !base.running(i) {
            assert(holds(before, i));
        }
    }
    if full(before.take(slot)) && full(before.skip(slot + 1)) {
        assert forall|k: int| 0 <= k < after.len() implies (#[trigger] after[k]) is Some by {
            if k < slot {
                assert(before.take(slot)[k] is Some);
            } else {
                assert(before.skip(slot + 1)[k - slot] is Some);
            }
        }
    }
}

/// A task that runs was handed out: its descriptor is less than the count of the tasks
/// that were handed out.
pub proof fn lemma_running_handed<R>(view: SchedulerView<R>, descriptor: int)
    requires
        view.inv(),
        view.running(descriptor),
    ensures
        descriptor < view.started,
{
    if descriptor >= view.started {
        let k = descriptor - view.started;
        assert(view.pending[k] == descriptor);
        assert(view.tasks[view.pending[k]].stage == Stage::Queued);
    }
}

/// While a task is left to drive, the state is not at rest.
pub proof fn lemma_unsettled<Q, R>(
    base: SchedulerView<R>,
    now: SchedulerView<R>,
    queue: Seq<Option<Task<Q>>>,
    slot: int,
)
    requires
        driving(base, now, queue),
        0 <= slot < queue.len(),
        queue[slot] is Some,
    ensures
        !settled(base, now),
{
    let descriptor = queue[slot]->0.descriptor();
    assert(now.running(descriptor));
    assert(!base.running(descriptor));
    if settled(base, now) {
        assert(now.tasks[descriptor].stage == Stage::Done);
    }
}

/// With no task left to drive and nothing waiting, every task is done, but for those
/// that ran before the trampoline began.
pub proof fn lemma_settled<Q, R>(
    base: SchedulerView<R>,
    now: SchedulerView<R>,
    queue: Seq<Option<Task<Q>>>,
)
    requires
        driving(base, now, queue),
        now.pending.len() == 0,
        forall|k: int| 0 <= k < queue.len() ==> (#[trigger] queue[k]) is None,
    ensures
        settled(base, now),
        finished(base, now),
{
    assert forall|i: int| 0 <= i < now.tasks.len() && !base.running(i) implies (
    #[trigger] now.tasks[i]).stage == Stage::Done by {
        if now.tasks[i].stage == Stage::Queued {
            assert(now.pending.contains(i));
        } else if now.tasks[i].stage == Stage::Running {
            assert(holds(queue, i));
        }
    }
    assert forall|i: int|
        0 <= i < base.tasks.len() && (#[trigger] base.tasks[i]).stage
            == Stage::Queued implies now.tasks[i].stage == Stage::Done by {
        assert(!base.running(i));
        assert(now.tasks[i].stage == Stage::Done);
    }
}

/// One poll of a task of the queue keeps what holds while the trampoline drives.
pub proof fn lemma_polled<Q, R>(
    base: SchedulerView<R>,
    before: SchedulerView<R>,
    after: SchedulerView<R>,
    waiting: Seq<Option<Task<Q>>>,
    slot: int,
    kept: Option<Task<Q>>,
)
    requires
        driving(base, before, waiting),
        0 <= slot < waiting.len(),
        waiting[slot] is Some,
        after.inv(),
        polled(before, after, waiting[slot]->0.descriptor(), kept is Some),
        kept matches Some(task) ==> task.descriptor() == waiting[slot]->0.descriptor(),
    ensures
        driving(base, after, waiting.update(slot, kept)),
{
    let queue = waiting.update(slot, kept);
    let descriptor = waiting[slot]->0.descriptor();
    lemma_extends_chain(base, before, after);
    assert(before.running(descriptor));
    assert forall|k: int| 0 <= k < queue.len() && (#[trigger] queue[k]) is Some implies after.running(
        queue[k]->0.descriptor(),
    ) && !base.running(queue[k]->0.descriptor()) by {
        assert(waiting[k] is Some);
        let d = waiting[k]->0.descriptor();
        assert(queue[k]->0.descriptor() == d);
        assert(before.running(d));
        if k < slot {
            assert(d < descriptor);
        } else if k > slot {
            assert(d > descriptor);
        }
        assert(after.tasks[d].stage == before.tasks[d].stage);
    }
    assert forall|k: int, l: int|
        0 <= k < l < queue.len() && (#[trigger] queue[k]) is Some && (#[trigger] queue[l])
            is Some implies queue[k]->0.descriptor() < queue[l]->0.descriptor() by {
        assert(waiting[k] is Some && waiting[l] is Some);
        assert(queue[k]->0.descriptor() == waiting[k]->0.descriptor());
        assert(queue[l]->0.descriptor() == waiting[l]->0.descriptor());
    }
    assert forall|i: int|
        0 <= i < after.tasks.len() && (#[trigger] after.tasks[i]).stage
            == Stage::Running implies holds(queue, i) || base.running(i) by {
        if i == descriptor {
            if kept is Some {
                assert(queue[slot] is Some && queue[slot]->0.descriptor() == i);
            } else {
                assert(false);
            }
        } else {
            assert(i < before.tasks.len() && before.tasks[i].stage == Stage::Running);
            if !base.running(i) {
                assert(holds(waiting, i));
                let k = choose|k: int|
                    0 <= k < waiting.len() && (#[trigger] waiting[k]) is Some
                        && waiting[k]->0.descriptor() == i;
                assert(k != slot);
                assert(queue[k] is Some && queue[k]->0.descriptor() == i);
            }
        }
    }
}

/// The tasks that were handed out join the queue: what holds while the trampoline
/// drives is kept.
pub proof fn lemma_taken_in<Q, R>(
    base: SchedulerView<R>,
    before: SchedulerView<R>,
    waiting: Seq<Option<Task<Q>>>,
    drained: Seq<Task<Q>>,
)
    requires
        driving(base, before, waiting),
        drained.len() == before.pending.len(),
        forall|k: int|
            0 <= k < drained.len() ==> (#[trigger] drained[k]).descriptor() == before.pending[k],
    ensures
        driving(base, before.drain(), waiting + slots(drained)),
        full(waiting) ==> full(waiting + slots(drained)),
{
    let after = before.drain();
    let queue = waiting + slots(drained);
    lemma_drain_inv(before);
    lemma_drain_extends(before);
    lemma_extends_chain(base, before, after);
    assert forall|k: int| 0 <= k < queue.len() implies (k < waiting.len() ==> #[trigger] queue[k]
        == waiting[k]) && (k >= waiting.len() ==> queue[k] == Some(drained[k - waiting.len()])
        && drained[k - waiting.len()].descriptor() == before.pending[k - waiting.len()]) by {
        if k >= waiting.len() {
            assert(queue[k] == slots(drained)[k - waiting.len()]);
        }
    }
    assert forall|k: int| 0 <= k < queue.len() && (#[trigger] queue[k]) is Some implies after.running(
        queue[k]->0.descriptor(),
    ) && !base.running(queue[k]->0.descriptor()) by {
        if k < waiting.len() {
            assert(waiting[k] is Some);
            assert(before.running(waiting[k]->0.descriptor()));
        } else {
            let d = before.pending[k - waiting.len()];
            assert(before.tasks[d].stage == Stage::Queued);
            if base.running(d) {
                assert(base.tasks[d].stage.rank() <= before.tasks[d].stage.rank());
            }
        }
    }
    assert forall|k: int, l: int|
        0 <= k < l < queue.len() && (#[trigger] queue[k]) is Some && (#[trigger] queue[l])
            is Some implies queue[k]->0.descriptor() < queue[l]->0.descriptor() by {
        if l < waiting.len() {
            assert(waiting[k] is Some && waiting[l] is Some);
        } else if k >= waiting.len() {
            assert(before.pending[k - waiting.len()] == before.started + (k - waiting.len()));
            assert(before.pending[l - waiting.len()] == before.started + (l - waiting.len()));
        } else {
            assert(waiting[k] is Some);
            lemma_running_handed(before, waiting[k]->0.descriptor());
            assert(before.pending[l - waiting.len()] == before.started + (l - waiting.len()));
        }
    }
    assert forall|i: int|
        0 <= i < after.tasks.len() && (#[trigger] after.tasks[i]).stage
            == Stage::Running implies holds(queue, i) || base.running(i) by {
        if before.tasks[i].stage == Stage::Queued {
            assert(before.pending.contains(i));
            let l = choose|l: int| 0 <= l < before.pending.len() && before.pending[l] == i;
            assert(queue[waiting.len() + l] is Some);
        } else if !base.running(i) {
            assert(before.tasks[i].stage == Stage::Running);
            assert(holds(waiting, i));
            let k = choose|k: int|
                0 <= k < waiting.len() && (#[trigger] waiting[k]) is Some
                    && waiting[k]->0.descriptor() == i;
            assert(queue[k] is Some && queue[k]->0.descriptor() == i);
        }
    }
}

/// Every state comes after itself.
pub proof fn lemma_extends_self<R>(view: SchedulerView<R>)
    ensures
        view.extends(view),
{
}

/// Coming after carries over from step to step.
pub proof fn lemma_extends_chain<R>(
    first: SchedulerView<R>,
    then: SchedulerView<R>,
    last: SchedulerView<R>,
)
    requires
        then.extends(first),
        last.extends(then),
    ensures
        last.extends(first),
{
    assert forall|slot: int|
        0 <= slot < first.values.len() && (#[trigger] first.values[slot]) is Some implies last.values[slot]
        == first.values[slot] by {
        assert(then.values[slot] == first.values[slot]);
    }
    assert forall|i: int| 0 <= i < first.tasks.len() implies last.tasks[i].id == (
    #[trigger] first.tasks[i]).id && first.tasks[i].stage.rank() <= last.tasks[i].stage.rank() by {
        assert(then.tasks[i].id == first.tasks[i].id);
    }
}

/// The polls of passes with one more pass are those of the passes and then those of
/// that pass.
pub proof fn lemma_flat_push(passes: Seq<Seq<int>>, pass: Seq<int>)
    ensures
        flat(passes.push(pass)) == flat(passes) + pass,
{
    assert(passes.push(pass).drop_last() =~= passes);
}

/// What was on record of the passes stays on record in a later state with the same
/// polls.
pub proof fn lemma_record_kept<R>(
    base: SchedulerView<R>,
    before: SchedulerView<R>,
    now: SchedulerView<R>,
    passes: Seq<Seq<int>>,
)
    requires
        recorded(base, before, passes),
        now.extends(before),
        now.polls == before.polls,
    ensures
        recorded(base, now, passes),
{
    assert forall|k: int| 0 <= k < passes.len() implies ascending(#[trigger] passes[k]) && below(
        passes[k],
        now.started as int,
    ) by {
        assert(below(passes[k], before.started as int));
    }
    assert forall|k: int| 1 <= k < passes.len() implies #[trigger] follows_at(passes, k, now) by {
        assert(follows_at(passes, k, before));
        let pass = passes[k - 1];
        assert forall|m: int| 0 <= m < pass.len() implies passes[k].contains(#[trigger] pass[m])
            || now.done(pass[m]) by {
            if !passes[k].contains(pass[m]) {
                assert(before.tasks[pass[m]].stage.rank() <= now.tasks[pass[m]].stage.rank());
            }
        }
    }
}

/// A pass over a queue goes on record behind the passes before it.
pub proof fn lemma_pass_recorded<Q, R>(
    base: SchedulerView<R>,
    before: SchedulerView<R>,
    now: SchedulerView<R>,
    passes: Seq<Seq<int>>,
    queue: Seq<Option<Task<Q>>>,
)
    requires
        recorded(base, before, passes),
        driving(base, before, queue),
        full(queue),
        now.extends(before),
        now.polls == before.polls + descriptors(queue),
        now.started == before.started,
        passes.len() == 0 ==> descriptors(queue) == base.pending,
        passes.len() > 0 ==> follows(passes.last(), descriptors(queue), before) && joins(
            passes,
            passes.len() as int,
            passes.last(),
            descriptors(queue),
        ),
        polled_all(base, before, passes.push(descriptors(queue))),
    ensures
        recorded(base, now, passes.push(descriptors(queue))),
        polled_all(base, now, passes.push(descriptors(queue))),
{
    let planned = descriptors(queue);
    let next = passes.push(planned);
    lemma_flat_push(passes, planned);
    assert(now.polls =~= base.polls + flat(next));
    assert forall|k: int| 0 <= k < next.len() implies ascending(#[trigger] next[k]) && below(
        next[k],
        now.started as int,
    ) by {
        if k == passes.len() {
            assert forall|i: int, j: int| 0 <= i < j < planned.len() implies planned[i]
                < planned[j] by {
                assert(queue[i] is Some && queue[j] is Some);
            }
            assert forall|m: int| 0 <= m < planned.len() implies 0 <= #[trigger] planned[m]
                < now.started by {
                assert(queue[m] is Some);
                lemma_running_handed(before, queue[m]->0.descriptor());
            }
        } else {
            assert(next[k] == passes[k]);
            assert(below(passes[k], before.started as int));
        }
    }
    assert forall|k: int| 1 <= k < next.len() implies #[trigger] follows_at(next, k, now) by {
        let pass = next[k - 1];
        if k < passes.len() {
            assert(follows_at(passes, k, before));
        }
        assert(follows(pass, next[k], before));
        assert(joins(next, k, pass, next[k])) by {
            assert forall|i: int| 0 <= i < next[k].len() implies pass.contains(
                #[trigger] next[k][i],
            ) || unseen(next, k, next[k][i]) by {
                if !pass.contains(next[k][i]) {
                    assert(unseen(passes, k, next[k][i]));
                    assert forall|j: int| 0 <= j < k implies newer(
                        #[trigger] next[j],
                        next[k][i],
                    ) by {
                        assert(next[j] == passes[j]);
                    }
                }
            }
        }
        assert forall|m: int| 0 <= m < pass.len() implies next[k].contains(#[trigger] pass[m])
            || now.done(pass[m]) by {
            if !next[k].contains(pass[m]) {
                assert(before.tasks[pass[m]].stage.rank() <= now.tasks[pass[m]].stage.rank());
            }
        }
    }
}

/// After a pass and the handing out of the tasks that were requested in it, the queue is
/// the next pass: it can follow the pass that was made, and with it every task that was
/// handed out is polled.
pub proof fn lemma_next_pass<Q, R>(
    base: SchedulerView<R>,
    before: SchedulerView<R>,
    polled_view: SchedulerView<R>,
    now: SchedulerView<R>,
    passes: Seq<Seq<int>>,
    waiting: Seq<Option<Task<Q>>>,
    polled_queue: Seq<Option<Task<Q>>>,
    queue: Seq<Option<Task<Q>>>,
)
    requires
        passes.len() > 0,
        passes.last() == descriptors(waiting),
        recorded(base, polled_view, passes),
        polled_all(base, polled_view, passes),
        driving(base, before, waiting),
        full(waiting),
        full(polled_queue),
        passed(before, polled_view, waiting, polled_queue),
        polled_view.inv(),
        now == polled_view.drain(),
        now.extends(polled_view),
        queue.len() == polled_queue.len() + polled_view.pending.len(),
        forall|k: int| 0 <= k < polled_queue.len() ==> #[trigger] queue[k] == polled_queue[k],
        forall|k: int|
            polled_queue.len() <= k < queue.len() ==> (#[trigger] queue[k]) is Some
                && queue[k]->0.descriptor() == polled_view.started + (k - polled_queue.len()),
    ensures
        recorded(base, now, passes),
        follows(passes.last(), descriptors(queue), now),
        joins(passes, passes.len() as int, passes.last(), descriptors(queue)),
        polled_all(base, now, passes.push(descriptors(queue))),
{
    let planned = descriptors(waiting);
    let next = descriptors(queue);
    lemma_record_kept(base, polled_view, now, passes);
    assert forall|i: int| 0 <= i < next.len() implies planned.contains(#[trigger] next[i])
        || unseen(passes, passes.len() as int, next[i]) by {
        if i < polled_queue.len() {
            assert(queue[i] == polled_queue[i]);
            assert(planned.contains(polled_queue[i]->0.descriptor()));
        } else {
            assert(queue[i] is Some);
            assert forall|j: int| 0 <= j < passes.len() implies newer(
                #[trigger] passes[j],
                next[i],
            ) by {
                assert(below(passes[j], polled_view.started as int));
            }
        }
    }
    assert forall|i: int| 0 <= i < next.len() implies planned.contains(#[trigger] next[i])
        || newer(planned, next[i]) by {
        if i < polled_queue.len() {
            assert(queue[i] == polled_queue[i]);
            assert(planned.contains(polled_queue[i]->0.descriptor()));
        } else {
            assert(queue[i] is Some);
            assert forall|m: int| 0 <= m < planned.len() implies planned[m] < next[i] by {
                assert(waiting[m] is Some);
                lemma_running_handed(before, waiting[m]->0.descriptor());
            }
        }
    }
    assert forall|m: int| 0 <= m < planned.len() implies next.contains(#[trigger] planned[m])
        || now.done(planned[m]) by {
        let d = waiting[m]->0.descriptor();
        assert(waiting[m] is Some);
        assert(before.running(d));
        if holds(polled_queue, d) {
            let k = choose|k: int|
                0 <= k < polled_queue.len() && (#[trigger] polled_queue[k]) is Some
                    && polled_queue[k]->0.descriptor() == d;
            assert(queue[k] == polled_queue[k]);
            assert(next[k] == d);
        } else {
            assert(polled_view.done(d));
            assert(polled_view.tasks[d].stage.rank() <= now.tasks[d].stage.rank());
        }
    }
    assert forall|d: int| base.started <= d < now.started implies #[trigger] occurs(
        passes.push(next),
        d,
    ) by {
        let more = passes.push(next);
        if d < polled_view.started {
            assert(occurs(passes, d));
            let k = choose|k: int| 0 <= k < passes.len() && (#[trigger] passes[k]).contains(d);
            assert(more[k] == passes[k]);
        } else {
            let k = polled_queue.len() + (d - polled_view.started);
            assert(queue[k] is Some);
            assert(next[k] == d);
            assert(more[passes.len() as int].contains(d));
        }
    }
}

/// The polls of the passes begin with the polls of the first pass.
pub proof fn lemma_flat_begins(passes: Seq<Seq<int>>)
    requires
        passes.len() > 0,
    ensures
        passes[0].is_prefix_of(flat(passes)),
    decreases passes.len(),
{
    if passes.len() == 1 {
        assert(passes.drop_last() =~= Seq::<Seq<int>>::empty());
        assert(flat(passes.drop_last()) =~= Seq::<int>::empty());
        assert(flat(passes) =~= passes[0]);
    } else {
        lemma_flat_begins(passes.drop_last());
        assert(passes.drop_last()[0] == passes[0]);
    }
}

/// First execution is first in, first out: the first polls of a run of the trampoline
/// are those of the tasks that waited when it began, one poll each, oldest first, before
/// any other poll.
pub proof fn lemma_first_execution_order<R>(
    base: SchedulerView<R>,
    now: SchedulerView<R>,
    passes: Seq<Seq<int>>,
    k: int,
)
    requires
        recorded(base, now, passes),
        polled_all(base, now, passes),
        now.started >= base.started + base.pending.len(),
        0 <= k < base.pending.len(),
    ensures
        base.polls.len() + base.pending.len() <= now.polls.len(),
        now.polls[base.polls.len() + k] == base.pending[k],
{
    assert(occurs(passes, base.started as int));
    lemma_flat_begins(passes);
    assert(flat(passes)[k] == passes[0][k]);
}

/// A second request-and-run does no work: once a query was answered with its result,
/// another request-and-run for it leaves the state as it is and answers with the same
/// result.
pub proof fn lemma_idempotent<R>(
    view: SchedulerView<R>,
    id: QueryId,
    identity: Seq<char>,
    next: SchedulerView<R>,
    first: Option<&R>,
    last: SchedulerView<R>,
    second: Option<&R>,
)
    requires
        view.inv(),
        !view.collides(id.kind, identity),
        next.inv(),
        view.answered(id, identity, next, first),
        first is Some,
        next.answered(id, identity, last, second),
    ensures
        !next.collides(id.kind, identity),
        last == next,
        second matches Some(value) && next.result(id) == Some(*value),
        first matches Some(value) && next.result(id) == Some(*value),
{
    lemma_memoized(view, id, identity);
    let asked = view.request(id, identity);
    assert(asked.kinds.dom().contains(id.kind) && asked.kinds[id.kind] == identity);
    assert(!next.collides(id.kind, identity));
    lemma_second_answer(next, id, identity, last, second);
}

/// A second request-and-run does no work: where the result of a query is there and
/// nothing waits, the state stays as it is and the answer is that result.
pub proof fn lemma_second_answer<R>(
    view: SchedulerView<R>,
    id: QueryId,
    identity: Seq<char>,
    next: SchedulerView<R>,
    r: Option<&R>,
)
    requires
        view.inv(),
        !view.collides(id.kind, identity),
        view.result(id) is Some,
        view.pending.len() == 0,
        view.answered(id, identity, next, r),
    ensures
        next == view,
        r matches Some(value) && view.result(id) == Some(*value),
{
}

/// A request changes the state by a request alone, and changes by requests alone add
/// up.
pub proof fn lemma_only_requested<R>(
    view: SchedulerView<R>,
    later: SchedulerView<R>,
    last: SchedulerView<R>,
    id: QueryId,
    identity: Seq<char>,
)
    requires
        view.inv(),
    ensures
        view.only_requested(view),
        !view.collides(id.kind, identity) ==> view.request(id, identity).only_requested(view),
        later.only_requested(view) && last.only_requested(later) ==> last.only_requested(view),
{
    if !view.collides(id.kind, identity) {
        lemma_request_extends(view, id, identity);
    }
    if later.only_requested(view) && last.only_requested(later) {
        lemma_extends_chain(view, later, last);
    }
}

/// Most passes that one call of the trampoline makes before it gives up on tasks that
/// stay pending, as tasks that wait for each other in a cycle do.
pub const MAX_PASSES: usize = usize::MAX;

impl<Q: Query> Scheduler<Q, Q::Result> {
    /// Requests a query, and enqueues it right away if this is its first request: the
    /// request is [`Scheduler::request`] under the identity that the query's name and key
    /// give.
    ///
    /// The name of the query's kind must not be taken by a kind of another identity;
    /// [`Scheduler::collides`] tells.
    pub fn query(&mut self, query: Q) -> (ongoing: Ongoing<Q::Result>)
        requires
            old(self).wf(),
            !old(self)@.collides(identity_of(query).kind, query.spec_identity()@),
        ensures
            final(self).wf(),
            final(self).arena_index() == old(self).arena_index(),
            final(self)@.extends(old(self)@),
            final(self)@.only_requested(old(self)@),
            final(self)@ == old(self)@.request(identity_of(query), query.spec_identity()@),
            ongoing.slot() == final(self)@.cells[identity_of(query)],
            ongoing.arena_index() == final(self).arena_index(),
            final(self).queries() == (if old(self)@.known(identity_of(query)) {
                old(self).queries()
            } else {
                old(self).queries().push(Some(query))
            }),
    {
        let id = QueryId { kind: query.name().hash(), key: query.key() };
        let identity = query.identity();
        match self.request(id, identity, query) {
            Ok(ongoing) => ongoing,
            Err(_) => unreached(),
        }
    }

    /// Polls one task once and settles it: a task that is still pending comes back, a
    /// finished one has delivered its value and is done.
    pub fn poll_task(&mut self, task: Task<Q>) -> (kept: Option<Task<Q>>)
        requires
            old(self).wf(),
        ensures
            final(self).wf(),
            final(self)@.extends(old(self)@),
            polled(old(self)@, final(self)@, task.descriptor(), kept is Some),
            kept matches Some(kept) ==> kept.descriptor() == task.descriptor(),
    {
        let mut task = task;
        let ghost descriptor = task.descriptor();
        let poll = task.query.run(self);
        let ghost mid = self@;
        let kept = self.settle(task, poll);
        let ghost settled = self@;
        self.record(Ghost(descriptor));
        proof {
            old(self).lemma_inv();
            lemma_extends_chain(old(self)@, mid, settled);
        }
        kept
    }

    /// Hands out every task that waits, and puts the tasks behind `queue`, oldest first.
    fn take_in(
        &mut self,
        queue: &mut Vec<Option<Task<Q>>>,
        Ghost(base): Ghost<SchedulerView<Q::Result>>,
    )
        requires
            old(self).wf(),
            driving(base, old(self)@, old(queue)@),
        ensures
            final(self).wf(),
            driving(base, final(self)@, final(queue)@),
            final(self)@ == old(self)@.drain(),
            final(self)@.extends(old(self)@),
            full(old(queue)@) ==> full(final(queue)@),
            final(queue)@.len() == old(queue)@.len() + old(self)@.pending.len(),
            forall|k: int|
                0 <= k < old(queue)@.len() ==> #[trigger] final(queue)@[k] == old(queue)@[k],
            forall|k: int|
                old(queue)@.len() <= k < final(queue)@.len() ==> (#[trigger] final(queue)@[k])
                    is Some && final(queue)@[k]->0.descriptor() == old(self)@.started + (k - old(queue)@.len()),
    {
        let ghost waiting = queue@;
        let mut fresh = self.drain();
        let ghost drained = fresh@;
        let ghost mut taken: int = 0;
        assert(drained.subrange(0, 0) =~= Seq::empty());
        assert(queue@ =~= waiting + slots(drained.subrange(0, 0)));
        assert(fresh@ =~= drained.subrange(0, drained.len() as int));
        while fresh.len() > 0
            invariant
                0 <= taken <= drained.len(),
                fresh@ == drained.subrange(taken, drained.len() as int),
                queue@ == waiting + slots(drained.subrange(0, taken)),
            decreases fresh@.len(),
        {
            let task = fresh.remove(0);
            queue.push(Some(task));
            proof {
                assert(task == drained[taken]);
                assert(fresh@ =~= drained.subrange(taken + 1, drained.len() as int));
                assert(queue@ =~= waiting + slots(drained.subrange(0, taken + 1)));
                taken = taken + 1;
            }
        }
        proof {
            assert(drained.subrange(0, drained.len() as int) =~= drained);
            lemma_taken_in(base, old(self)@, waiting, drained);
            assert forall|k: int| waiting.len() <= k < queue@.len() implies (#[trigger] queue@[k])
                is Some && queue@[k]->0.descriptor() == old(self)@.started + (k
                - waiting.len()) by {
                let l = k - waiting.len();
                assert(queue@[k] == slots(drained)[l]);
                assert(drained[l].descriptor() == old(self)@.pending[l]);
            }
        }
    }

    /// Polls the task in slot `i` of `queue` once, if there is one, and leaves the slot
    /// empty if the task is finished. Answers whether the slot is empty afterwards.
    fn poll_slot(
        &mut self,
        queue: &mut Vec<Option<Task<Q>>>,
        i: usize,
        Ghost(base): Ghost<SchedulerView<Q::Result>>,
    ) -> (empty: bool)
        requires
            old(self).wf(),
            i < old(queue)@.len(),
            driving(base, old(self)@, old(queue)@),
        ensures
            final(self).wf(),
            driving(base, final(self)@, final(queue)@),
            final(self)@.extends(old(self)@),
            final(self)@.started == old(self)@.started,
            final(queue)@.len() == old(queue)@.len(),
            forall|k: int|
                0 <= k < old(queue)@.len() && k != i ==> #[trigger] final(queue)@[k] == old(queue)@[k],
            empty == (final(queue)@[i as int] is None),
            match old(queue)@[i as int] {
                Some(task) => {
                    &&& final(self)@.polls == old(self)@.polls.push(task.descriptor())
                    &&& final(queue)@[i as int] matches Some(kept) ==> kept.descriptor()
                        == task.descriptor()
                    &&& final(queue)@[i as int] is None ==> final(self)@.done(task.descriptor())
                },
                None => final(self)@ == old(self)@,
            },
    {
        let ghost waiting = queue@;
        let mut slot: Option<Task<Q>> = None;
        core::mem::swap(&mut slot, &mut queue[i]);
        match slot {
            Some(task) => {
                let mut kept = self.poll_task(task);
                let ghost outcome = kept;
                let empty = kept.is_none();
                core::mem::swap(&mut kept, &mut queue[i]);
                proof {
                    self.lemma_inv();
                    assert(queue@ =~= waiting.update(i as int, outcome));
                    assert(old(self)@.running(task.descriptor()));
                    lemma_polled(base, old(self)@, self@, waiting, i as int, outcome);
                }
                empty
            },
            None => {
                proof {
                    assert(queue@ =~= waiting);
                    lemma_extends_self(old(self)@);
                }
                true
            },
        }
    }

    /// Sweeps out the slots that a pass left empty: what stays are the tasks that are
    /// still pending, each of them once, in the order that they had.
    fn sweep(
        &self,
        future_queue: &mut Vec<Option<Task<Q>>>,
        Ghost(base): Ghost<SchedulerView<Q::Result>>,
    )
        requires
            driving(base, self@, old(future_queue)@),
        ensures
            driving(base, self@, final(future_queue)@),
            full(final(future_queue)@),
            forall|k: int|
                0 <= k < final(future_queue)@.len() ==> old(future_queue)@.contains(
                    #[trigger] final(future_queue)@[k],
                ),
            forall|d: int|
                holds(old(future_queue)@, d) ==> #[trigger] holds(final(future_queue)@, d),
    {
        let mut i: usize = 0;
        while i < future_queue.len()
            invariant
                i <= future_queue@.len(),
                forall|j: int| 0 <= j < i ==> (#[trigger] future_queue@[j]) is Some,
                driving(base, self@, future_queue@),
                forall|k: int|
                    0 <= k < future_queue@.len() ==> old(future_queue)@.contains(
                        #[trigger] future_queue@[k],
                    ),
                forall|d: int|
                    holds(old(future_queue)@, d) ==> #[trigger] holds(future_queue@, d),
            decreases future_queue@.len() - i,
        {
            if future_queue[i].is_none() {
                let ghost before = future_queue@;
                future_queue.remove(i);
                proof {
                    lemma_removed(base, self@, before, i as int);
                    assert forall|k: int| 0 <= k < future_queue@.len() implies old(future_queue)@.contains(#[trigger] future_queue@[k]) by {
                        if k < i {
                            assert(future_queue@[k] == before[k]);
                        } else {
                            assert(future_queue@[k] == before[k + 1]);
                        }
                    }
                }
            } else {
                i += 1;
            }
        }
    }

    /// One pass of the single-threaded loop: polls every task of the queue once, from the
    /// first slot to the last, and takes a task out as soon as it is finished; the tasks
    /// that stay keep their order.
    fn pass_in_order(
        &mut self,
        queue: &mut Vec<Option<Task<Q>>>,
        Ghost(base): Ghost<SchedulerView<Q::Result>>,
    )
        requires
            old(self).wf(),
            driving(base, old(self)@, old(queue)@),
            full(old(queue)@),
        ensures
            final(self).wf(),
            driving(base, final(self)@, final(queue)@),
            full(final(queue)@),
            final(self)@.extends(old(self)@),
            passed(old(self)@, final(self)@, old(queue)@, final(queue)@),
    {
        let ghost start = queue@;
        let ghost planned = descriptors(queue@);
        let ghost mut j: int = 0;
        let mut i: usize = 0;
        proof {
            lemma_extends_self(old(self)@);
            assert(planned.take(0) =~= Seq::empty());
            assert(self@.polls =~= old(self)@.polls + planned.take(0));
            assert(queue@.skip(0) =~= start.skip(0));
        }
        while i < queue.len()
            invariant
                self.wf(),
                old(self)@.inv(),
                driving(base, self@, queue@),
                full(queue@),
                full(start),
                start == old(queue)@,
                planned == descriptors(start),
                self@.extends(old(self)@),
                self@.started == old(self)@.started,
                0 <= i <= queue@.len(),
                0 <= j <= start.len(),
                queue@.len() - i == start.len() - j,
                queue@.skip(i as int) == start.skip(j),
                self@.polls == old(self)@.polls + planned.take(j),
                forall|k: int|
                    0 <= k < i ==> planned.contains((#[trigger] queue@[k])->0.descriptor()),
                forall|m: int|
                    0 <= m < j ==> holds(queue@, (#[trigger] start[m])->0.descriptor())
                        || self@.done(start[m]->0.descriptor()),
            decreases queue@.len() - i,
        {
            let ghost before = self@;
            let ghost waiting = queue@;
            proof {
                assert(waiting[i as int] == waiting.skip(i as int)[0]);
                assert(start[j] == start.skip(j)[0]);
                assert(waiting[i as int] is Some);
            }
            let ghost descriptor = waiting[i as int]->0.descriptor();
            let empty = self.poll_slot(queue, i, Ghost(base));
            let ghost polled_queue = queue@;
            proof {
                self.lemma_inv();
                lemma_extends_chain(old(self)@, before, self@);
                assert(planned[j] == descriptor);
                assert(planned.take(j + 1) =~= planned.take(j).push(descriptor));
                assert(self@.polls =~= old(self)@.polls + planned.take(j + 1));
                assert(polled_queue.skip(i + 1) =~= start.skip(j + 1)) by {
                    assert forall|k: int| 0 <= k < polled_queue.len() - i - 1 implies #[trigger] polled_queue.skip(
                        i + 1,
                    )[k] == start.skip(j + 1)[k] by {
                        assert(polled_queue[i + 1 + k] == waiting[i + 1 + k]);
                        assert(waiting.skip(i as int)[k + 1] == start.skip(j)[k + 1]);
                    }
                }
                assert forall|m: int| 0 <= m < j + 1 implies holds(
                    polled_queue,
                    (#[trigger] start[m])->0.descriptor(),
                ) || self@.done(start[m]->0.descriptor()) by {
                    let d = start[m]->0.descriptor();
                    if m == j {
                        if !empty {
                            assert(polled_queue[i as int] is Some
                                && polled_queue[i as int]->0.descriptor() == d);
                        }
                    } else if holds(waiting, d) {
                        let k = choose|k: int|
                            0 <= k < waiting.len() && (#[trigger] waiting[k]) is Some
                                && waiting[k]->0.descriptor() == d;
                        if k == i {
                            if !empty {
                                assert(polled_queue[i as int] is Some
                                    && polled_queue[i as int]->0.descriptor() == d);
                            }
                        } else {
                            assert(polled_queue[k] is Some && polled_queue[k]->0.descriptor()
                                == d);
                        }
                    } else {
                        assert(before.done(d));
                        assert(before.tasks[d].stage.rank() <= self@.tasks[d].stage.rank());
                    }
                }
                assert forall|k: int| 0 <= k < i implies planned.contains(
                    (#[trigger] polled_queue[k])->0.descriptor(),
                ) by {
                    assert(polled_queue[k] == waiting[k]);
                }
            }
            if empty {
                queue.remove(i);
                proof {
                    assert(full(polled_queue.take(i as int))) by {
                        assert forall|k: int| 0 <= k < i implies (#[trigger] polled_queue.take(
                            i as int,
                        )[k]) is Some by {
                            assert(polled_queue[k] == waiting[k]);
                        }
                    }
                    assert(full(polled_queue.skip(i + 1))) by {
                        assert forall|k: int|
                            0 <= k < polled_queue.len() - i - 1 implies (
                        #[trigger] polled_queue.skip(i + 1)[k]) is Some by {
                            assert(polled_queue[i + 1 + k] == waiting[i + 1 + k]);
                        }
                    }
                    lemma_removed(base, self@, polled_queue, i as int);
                    assert(queue@.skip(i as int) =~= polled_queue.skip(i + 1));
                    assert forall|k: int| 0 <= k < i implies planned.contains(
                        (#[trigger] queue@[k])->0.descriptor(),
                    ) by {
                        assert(queue@[k] == polled_queue[k]);
                    }
                }
            } else {
                proof {
                    assert(full(queue@)) by {
                        assert forall|k: int| 0 <= k < queue@.len() implies (#[trigger] queue@[k])
                            is Some by {
                            if k != i {
                                assert(queue@[k] == waiting[k]);
                            }
                        }
                    }
                    assert(planned.contains(queue@[i as int]->0.descriptor())) by {
                        assert(planned[j] == descriptor);
                    }
                }
                i += 1;
            }
            proof {
                j = j + 1;
            }
        }
        proof {
            assert(planned.take(start.len() as int) =~= planned);
        }
    }

    /// One pass of the parallel loop: polls every task of the queue once, from the first
    /// slot to the last; a finished task leaves its slot empty, and the empty slots are
    /// swept out after the pass. The tasks that stay keep their order.
    fn pass_and_sweep(
        &mut self,
        queue: &mut Vec<Option<Task<Q>>>,
        Ghost(base): Ghost<SchedulerView<Q::Result>>,
    )
        requires
            old(self).wf(),
            driving(base, old(self)@, old(queue)@),
            full(old(queue)@),
        ensures
            final(self).wf(),
            driving(base, final(self)@, final(queue)@),
            full(final(queue)@),
            final(self)@.extends(old(self)@),
            passed(old(self)@, final(self)@, old(queue)@, final(queue)@),
    {
        let ghost start = queue@;
        let ghost planned = descriptors(queue@);
        let mut i: usize = 0;
        proof {
            lemma_extends_self(old(self)@);
            assert(planned.take(0) =~= Seq::empty());
            assert(self@.polls =~= old(self)@.polls + planned.take(0));
        }
        while i < queue.len()
            invariant
                self.wf(),
                old(self)@.inv(),
                driving(base, self@, queue@),
                full(start),
                start == old(queue)@,
                planned == descriptors(start),
                self@.extends(old(self)@),
                self@.started == old(self)@.started,
                0 <= i <= queue@.len(),
                queue@.len() == start.len(),
                forall|k: int| i <= k < queue@.len() ==> #[trigger] queue@[k] == start[k],
                self@.polls == old(self)@.polls + planned.take(i as int),
                forall|k: int|
                    0 <= k < i && (#[trigger] queue@[k]) is Some ==> queue@[k]->0.descriptor()
                        == planned[k],
                forall|m: int|
                    0 <= m < i ==> (#[trigger] queue@[m]) is Some || self@.done(planned[m]),
            decreases queue@.len() - i,
        {
            let ghost before = self@;
            let ghost waiting = queue@;
            proof {
                assert(waiting[i as int] == start[i as int]);
                assert(waiting[i as int] is Some);
            }
            let ghost descriptor = waiting[i as int]->0.descriptor();
            let _ = self.poll_slot(queue, i, Ghost(base));
            proof {
                self.lemma_inv();
                lemma_extends_chain(old(self)@, before, self@);
                assert(planned[i as int] == descriptor);
                assert(planned.take(i + 1) =~= planned.take(i as int).push(descriptor));
                assert(self@.polls =~= old(self)@.polls + planned.take(i + 1));
                assert forall|m: int| 0 <= m < i + 1 implies (#[trigger] queue@[m]) is Some
                    || self@.done(planned[m]) by {
                    if m < i {
                        assert(queue@[m] == waiting[m]);
                        if waiting[m] is None {
                            assert(before.done(planned[m]));
                            assert(before.tasks[planned[m]].stage.rank()
                                <= self@.tasks[planned[m]].stage.rank());
                        }
                    }
                }
                assert forall|k: int| 0 <= k < i + 1 && (#[trigger] queue@[k]) is Some implies queue@[k]->0.descriptor()
                    == planned[k] by {
                    if k < i {
                        assert(queue@[k] == waiting[k]);
                    }
                }
            }
            i += 1;
        }
        let ghost polled_queue = queue@;
        self.sweep(queue, Ghost(base));
        proof {
            assert(planned.take(start.len() as int) =~= planned);
            assert forall|k: int| 0 <= k < queue@.len() implies descriptors(start).contains(
                (#[trigger] queue@[k])->0.descriptor(),
            ) by {
                assert(polled_queue.contains(queue@[k]));
                let l = choose|l: int| 0 <= l < polled_queue.len() && polled_queue[l] == queue@[k];
                assert(polled_queue[l] is Some);
                assert(planned[l] == polled_queue[l]->0.descriptor());
            }
            assert forall|m: int| 0 <= m < start.len() implies holds(
                queue@,
                (#[trigger] start[m])->0.descriptor(),
            ) || self@.done(start[m]->0.descriptor()) by {
                if polled_queue[m] is Some {
                    assert(polled_queue[m]->0.descriptor() == planned[m]);
                    assert(holds(polled_queue, planned[m]));
                }
            }
        }
    }

    /// Whether the run of the trampoline is at its end: no task is left in the queue,
    /// and none waits.
    fn end(
        &self,
        queue: &Vec<Option<Task<Q>>>,
        Ghost(base): Ghost<SchedulerView<Q::Result>>,
    ) -> (done: bool)
        requires
            self.wf(),
            driving(base, self@, queue@),
            full(queue@),
        ensures
            done == (queue@.len() == 0 && self@.pending.len() == 0),
            done == resting(base, self@),
            done ==> finished(base, self@),
    {
        if self.at_rest(queue.len()) {
            proof {
                lemma_settled(base, self@, queue@);
            }
            true
        } else {
            proof {
                if queue@.len() != 0 {
                    lemma_unsettled(base, self@, queue@, 0);
                }
            }
            false
        }
    }

    /// Runs the passes of the trampoline in the given way until no task is left, or
    /// until [`MAX_PASSES`] passes were made.
    fn run_passes(&mut self, poll_loop: PollLoop) -> (quiescent: bool)
        requires
            old(self).wf(),
        ensures
            final(self).wf(),
            final(self)@.extends(old(self)@),
            handed(old(self)@, final(self)@),
            final(self)@.started >= old(self)@.started + old(self)@.pending.len(),
            quiescent == resting(old(self)@, final(self)@),
            quiescent ==> finished(old(self)@, final(self)@),
            old(self)@.pending.len() == 0 ==> quiescent && final(self)@ == old(self)@,
            exists|passes: Seq<Seq<int>>|
                #![trigger recorded(old(self)@, final(self)@, passes)]
                recorded(old(self)@, final(self)@, passes) && polled_all(
                    old(self)@,
                    final(self)@,
                    passes,
                ),
    {
        let ghost base = self@;
        let mut future_queue: Vec<Option<Task<Q>>> = Vec::new();
        proof {
            self.lemma_inv();
            lemma_extends_self(base);
            lemma_drain_hands_out(base);
            assert(accounted(base, base, future_queue@));
        }
        if self.pending() == 0 {
            proof {
                lemma_settled(base, base, future_queue@);
                assert forall|i: int|
                    0 <= i < base.tasks.len() && (#[trigger] base.tasks[i]).stage
                        == Stage::Queued implies base.tasks[i].stage.rank() >= 1 by {
                    assert(base.pending.contains(i));
                }
                let none = Seq::<Seq<int>>::empty();
                assert(base.polls =~= base.polls + flat(none));
                assert(recorded(base, self@, none) && polled_all(base, self@, none));
            }
            return true;
        }
        self.take_in(&mut future_queue, Ghost(base));
        let mut left: usize = MAX_PASSES;
        let ghost mut passes = Seq::<Seq<int>>::empty();
        proof {
            self.lemma_inv();
            assert(base.polls =~= base.polls + flat(passes));
            assert(descriptors(future_queue@) =~= base.pending) by {
                assert forall|k: int| 0 <= k < base.pending.len() implies descriptors(
                    future_queue@,
                )[k] == base.pending[k] by {
                    assert(future_queue@[k] is Some);
                }
            }
            assert forall|d: int| base.started <= d < self@.started implies #[trigger] occurs(
                passes.push(descriptors(future_queue@)),
                d,
            ) by {
                let next = passes.push(descriptors(future_queue@));
                assert(future_queue@[d - base.started] is Some);
                assert(descriptors(future_queue@)[d - base.started] == d);
                assert(next[0].contains(d));
            }
        }
        loop
            invariant
                self.wf(),
                base == old(self)@,
                base.inv(),
                base.pending.len() != 0,
                driving(base, self@, future_queue@),
                full(future_queue@),
                handed(base, self@),
                self@.started >= base.started + base.pending.len(),
                recorded(base, self@, passes),
                passes.len() == 0 ==> descriptors(future_queue@) == base.pending,
                passes.len() > 0 ==> follows(passes.last(), descriptors(future_queue@), self@)
                    && joins(
                    passes,
                    passes.len() as int,
                    passes.last(),
                    descriptors(future_queue@),
                ),
                polled_all(base, self@, passes.push(descriptors(future_queue@))),
            decreases left,
        {
            let ghost before = self@;
            let ghost waiting = future_queue@;
            let ghost planned = descriptors(future_queue@);
            match poll_loop {
                PollLoop::SingleThreaded => self.pass_in_order(&mut future_queue, Ghost(base)),
                PollLoop::Parallel => self.pass_and_sweep(&mut future_queue, Ghost(base)),
            }
            proof {
                self.lemma_inv();
                lemma_carried(base, before, self@);
                lemma_pass_recorded(base, before, self@, passes, waiting);
                passes = passes.push(planned);
            }
            if self.end(&future_queue, Ghost(base)) {
                return true;
            }
            if left == 0 {
                return false;
            }
            left -= 1;
            let ghost polled_view = self@;
            let ghost polled_queue = future_queue@;
            self.take_in(&mut future_queue, Ghost(base));
            proof {
                self.lemma_inv();
                lemma_carried(base, polled_view, self@);
                lemma_next_pass(
                    base,
                    before,
                    polled_view,
                    self@,
                    passes,
                    waiting,
                    polled_queue,
                    future_queue@,
                );
            }
        }
    }

    /// Bounces in and out of the scheduled tasks until none is left, polling the live
    /// tasks one after the other, and taking each out of the queue as soon as it is
    /// finished. Answers whether it ended with nothing left to do; it answers `false`
    /// when tasks were still pending after [`MAX_PASSES`] passes.
    ///
    /// Every task that waited when it began is handed out. Each pass polls every live
    /// task once, in the order in which the tasks were handed out, and the tasks that
    /// waited are handed out oldest first. When it ends with nothing left to do, every
    /// task is done, those of the queries that were requested meanwhile too; only tasks
    /// that had been handed out before it began, and had not delivered, are not its
    /// business.
    pub fn trampoline_single_threaded(&mut self) -> (quiescent: bool)
        requires
            old(self).wf(),
        ensures
            final(self).wf(),
            final(self)@.extends(old(self)@),
            handed(old(self)@, final(self)@),
            final(self)@.started >= old(self)@.started + old(self)@.pending.len(),
            quiescent == resting(old(self)@, final(self)@),
            quiescent ==> finished(old(self)@, final(self)@),
            old(self)@.pending.len() == 0 ==> quiescent && final(self)@ == old(self)@,
            exists|passes: Seq<Seq<int>>|
                #![trigger recorded(old(self)@, final(self)@, passes)]
                recorded(old(self)@, final(self)@, passes) && polled_all(
                    old(self)@,
                    final(self)@,
                    passes,
                ),
    {
        self.run_passes(PollLoop::SingleThreaded)
    }

    /// Same as [`trampoline_single_threaded`](Self::trampoline_single_threaded), with the
    /// bookkeeping of the parallel loop: every live task is polled once per pass, a
    /// finished one leaves its slot empty, and the empty slots are swept out after the
    /// pass.
    pub fn trampoline_parallel(&mut self) -> (quiescent: bool)
        requires
            old(self).wf(),
        ensures
            final(self).wf(),
            final(self)@.extends(old(self)@),
            handed(old(self)@, final(self)@),
            final(self)@.started >= old(self)@.started + old(self)@.pending.len(),
            quiescent == resting(old(self)@, final(self)@),
            quiescent ==> finished(old(self)@, final(self)@),
            old(self)@.pending.len() == 0 ==> quiescent && final(self)@ == old(self)@,
            exists|passes: Seq<Seq<int>>|
                #![trigger recorded(old(self)@, final(self)@, passes)]
                recorded(old(self)@, final(self)@, passes) && polled_all(
                    old(self)@,
                    final(self)@,
                    passes,
                ),
    {
        self.run_passes(PollLoop::Parallel)
    }

    /// Requests a query, runs the trampoline, and reads the query's cell.
    ///
    /// The answer is the result of the query if the trampoline ended with nothing left
    /// to do and the result is there. It is `None` when the trampoline gave up, or when
    /// the task of the query had been handed out before this call and has not
    /// delivered. A query that has its result already, with nothing waiting in the
    /// queue, is answered from its cell and the scheduler stays as it is.
    ///
    /// The name of the query's kind must not be taken by a kind of another identity;
    /// [`Scheduler::collides`] tells.
    pub fn request_and_trampoline(&mut self, query: Q, trampoline: &Trampoline) -> (r: Option<
        &Q::Result,
    >)
        requires
            old(self).wf(),
            !old(self)@.collides(identity_of(query).kind, query.spec_identity()@),
        ensures
            final(self).wf(),
            final(self)@.extends(old(self)@),
            old(self)@.answered(
                identity_of(query),
                query.spec_identity()@,
                final(self)@,
                r,
            ),
    {
        let id = QueryId { kind: query.name().hash(), key: query.key() };
        let ghost identity = query.spec_identity()@;
        let _ = self.query(query);
        let ghost asked = self@;
        proof {
            old(self).lemma_inv();
            self.lemma_inv();
            lemma_memoized(old(self)@, id, identity);
        }
        let quiescent = self.trampoline(trampoline);
        proof {
            self.lemma_inv();
            lemma_extends_chain(old(self)@, asked, self@);
            assert(asked.cells.dom().contains(id));
            assert(self@.known(id));
            assert(0 <= self@.cells[id] < self@.values.len());
            let i = choose|i: int|
                0 <= i < asked.tasks.len() && (#[trigger] asked.tasks[i]).id == id;
            assert(self@.tasks[i].id == id);
            assert(asked.tasks[i].stage.rank() <= self@.tasks[i].stage.rank());
            if self@.values[self@.cells[id]] is None {
                assert(self@.tasks[i].stage != Stage::Done);
                if asked.tasks[i].stage == Stage::Done {
                    assert(asked.values[asked.cells[id]] is Some);
                    assert(0 <= asked.cells[id] < asked.values.len());
                }
                assert(self@.tasks[i].stage == Stage::Running);
                assert(self@.busy(id));
                if resting(asked, self@) {
                    assert(asked.running(i));
                    if !old(self)@.known(id) {
                        assert(asked.tasks[old(self)@.tasks.len() as int].id == id);
                        assert(i == old(self)@.tasks.len());
                    }
                    assert(old(self)@.tasks[i].id == id && old(self)@.tasks[i].stage
                        == Stage::Running);
                }
            }
            if old(self)@.result(id) is Some && old(self)@.pending.len() == 0 {
                assert(asked == old(self)@);
                assert(self@ == asked);
                assert(quiescent);
            }
        }
        if !quiescent {
            return None;
        }
        match self.lookup(id) {
            Some(cell) => match self.result(&cell) {
                Poll::Ready(value) => Some(value),
                Poll::Pending => None,
            },
            None => None,
        }
    }

    /// Bounces in and out of the scheduled tasks until all computations are done, in
    /// the way that the settings choose.
    pub fn trampoline(&mut self, trampoline: &Trampoline) -> (quiescent: bool)
        requires
            old(self).wf(),
        ensures
            final(self).wf(),
            final(self)@.extends(old(self)@),
            handed(old(self)@, final(self)@),
            final(self)@.started >= old(self)@.started + old(self)@.pending.len(),
            quiescent == resting(old(self)@, final(self)@),
            quiescent ==> finished(old(self)@, final(self)@),
            old(self)@.pending.len() == 0 ==> quiescent && final(self)@ == old(self)@,
            exists|passes: Seq<Seq<int>>|
                #![trigger recorded(old(self)@, final(self)@, passes)]
                recorded(old(self)@, final(self)@, passes) && polled_all(
                    old(self)@,
                    final(self)@,
                    passes,
                ),
    {
        match trampoline.poll_loop {
            PollLoop::SingleThreaded => self.trampoline_single_threaded(),
            PollLoop::Parallel => self.trampoline_parallel(),
        }
    }
}

} // verus!
