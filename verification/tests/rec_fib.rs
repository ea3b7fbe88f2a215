use std::hash::Hasher;
use std::sync::atomic::{AtomicUsize, Ordering};

use rokugo::query::arena::Arena;
use rokugo::query::cell::Cell;
use rokugo::query::name::fxhash;
use rokugo::query::scheduler::{Poll, PollLoop, Query, QueryId, Scheduler, Stage, Trampoline};
use rokugo::query::Name;

#[derive(Debug, Clone, Copy, PartialEq, Eq, Hash)]
struct Fib(u32);

static FIB_RUNS: AtomicUsize = AtomicUsize::new(0);

impl Query for Fib {
    type Result = u32;

    fn name(&self) -> Name {
        Name::new("Fib")
    }

    fn identity(&self) -> &'static str {
        "rec_fib::Fib"
    }

    fn key(&self) -> u64 {
        self.0 as u64
    }

    fn spec_name(&self) -> Name {
        self.name()
    }

    fn spec_identity(&self) -> &'static str {
        self.identity()
    }

    fn spec_key(&self) -> u64 {
        self.key()
    }

    fn run(&mut self, scheduler: &mut Scheduler<Self, u32>) -> Poll<u32> {
        let Fib(n) = *self;
        if n == 0 {
            Poll::Ready(0)
        } else if n == 1 {
            Poll::Ready(1)
        } else {
            let l = scheduler.query(Fib(n - 1));
            let r = scheduler.query(Fib(n - 2));
            match (l.poll(scheduler), r.poll(scheduler)) {
                (Poll::Ready(l), Poll::Ready(r)) => Poll::Ready(l + r),
                _ => Poll::Pending,
            }
        }
    }
}

#[test]
fn rec_fib() {
    let arena = Arena::new(0);
    let mut scheduler = Scheduler::new(arena);
    let fib = scheduler
        .request_and_trampoline(Fib(30), &Trampoline::default())
        .unwrap();
    assert_eq!(*fib, 832040);
}

#[test]
fn threading() {
    let arena = Arena::new(0);
    let mut scheduler = Scheduler::new(arena);
    let fib_st = *scheduler
        .request_and_trampoline(
            Fib(30),
            &Trampoline {
                poll_loop: PollLoop::SingleThreaded,
            },
        )
        .unwrap();
    let fib_mt = *scheduler
        .request_and_trampoline(
            Fib(30),
            &Trampoline {
                poll_loop: PollLoop::Parallel,
            },
        )
        .unwrap();
    assert_eq!(fib_st, fib_mt);
}

#[test]
fn fib_runs_each_query_once() {
    let mut scheduler = Scheduler::new(Arena::new(7));
    let fib = *scheduler
        .request_and_trampoline(Fib(30), &Trampoline::default())
        .unwrap();
    assert_eq!(fib, 832040);
    assert_eq!(scheduler.started(), 31);
    assert_eq!(scheduler.pending(), 0);
    assert_eq!(scheduler.arena().len(), 31);
}

#[test]
fn mode_parity() {
    let mut single = Scheduler::new(Arena::new(1));
    let mut parallel = Scheduler::new(Arena::new(2));
    let a = *single
        .request_and_trampoline(
            Fib(30),
            &Trampoline {
                poll_loop: PollLoop::SingleThreaded,
            },
        )
        .unwrap();
    let b = *parallel
        .request_and_trampoline(
            Fib(30),
            &Trampoline {
                poll_loop: PollLoop::Parallel,
            },
        )
        .unwrap();
    assert_eq!(a, b);
    assert_eq!(single.started(), parallel.started());
    for n in 0..=30u64 {
        let id = QueryId {
            kind: Name::new("Fib").hash(),
            key: n,
        };
        let l = single.lookup(id).unwrap();
        let r = parallel.lookup(id).unwrap();
        assert_eq!(single.result(&l), parallel.result(&r));
    }
}

#[test]
fn second_request_does_no_work() {
    let mut scheduler = Scheduler::new(Arena::new(3));
    let first = *scheduler
        .request_and_trampoline(Fib(20), &Trampoline::default())
        .unwrap();
    let started = scheduler.started();
    let cells = scheduler.arena().len();
    let second = *scheduler
        .request_and_trampoline(Fib(20), &Trampoline::default())
        .unwrap();
    assert_eq!(first, 6765);
    assert_eq!(second, first);
    assert_eq!(scheduler.started(), started);
    assert_eq!(scheduler.arena().len(), cells);
}

#[derive(Debug, Clone, Copy)]
struct Twice;

#[derive(Debug, Clone, Copy)]
enum Pair {
    Twice,
    Sub,
}

static SUB_RUNS: AtomicUsize = AtomicUsize::new(0);

impl Query for Pair {
    type Result = u64;

    fn name(&self) -> Name {
        match self {
            Pair::Twice => Name::new("Twice"),
            Pair::Sub => Name::new("Sub"),
        }
    }

    fn identity(&self) -> &'static str {
        match self {
            Pair::Twice => "Pair::Twice",
            Pair::Sub => "Pair::Sub",
        }
    }

    fn key(&self) -> u64 {
        0
    }

    fn spec_name(&self) -> Name {
        self.name()
    }

    fn spec_identity(&self) -> &'static str {
        self.identity()
    }

    fn spec_key(&self) -> u64 {
        self.key()
    }

    fn run(&mut self, scheduler: &mut Scheduler<Self, u64>) -> Poll<u64> {
        match self {
            Pair::Sub => {
                SUB_RUNS.fetch_add(1, Ordering::SeqCst);
                Poll::Ready(21)
            }
            Pair::Twice => {
                let a = scheduler.query(Pair::Sub);
                let b = scheduler.query(Pair::Sub);
                assert_eq!(a.cell().position(), b.cell().position());
                match (scheduler.result(&a), scheduler.result(&b)) {
                    (Poll::Ready(a), Poll::Ready(b)) => {
                        assert!(std::ptr::eq(a, b));
                        Poll::Ready(a + b)
                    }
                    _ => Poll::Pending,
                }
            }
        }
    }
}

#[test]
fn duplicate_siblings() {
    let _ = Twice;
    let mut scheduler = Scheduler::new(Arena::new(4));
    let value = *scheduler
        .request_and_trampoline(Pair::Twice, &Trampoline::default())
        .unwrap();
    assert_eq!(value, 42);
    assert_eq!(SUB_RUNS.load(Ordering::SeqCst), 1);
    assert_eq!(scheduler.started(), 2);
}

#[derive(Debug, Clone, Copy)]
enum Clash {
    First,
    Second,
}

impl Query for Clash {
    type Result = u8;

    fn name(&self) -> Name {
        Name::new("Clash")
    }

    fn identity(&self) -> &'static str {
        match self {
            Clash::First => "Clash::First",
            Clash::Second => "Clash::Second",
        }
    }

    fn key(&self) -> u64 {
        0
    }

    fn spec_name(&self) -> Name {
        self.name()
    }

    fn spec_identity(&self) -> &'static str {
        self.identity()
    }

    fn spec_key(&self) -> u64 {
        self.key()
    }

    fn run(&mut self, _scheduler: &mut Scheduler<Self, u8>) -> Poll<u8> {
        Poll::Ready(1)
    }
}

#[test]
fn hash_collision() {
    let mut scheduler = Scheduler::new(Arena::new(5));
    let kind = Name::new("Clash").hash();
    assert!(!scheduler.collides(kind, "Clash::First"));
    scheduler.query(Clash::First);
    let pending = scheduler.pending();
    assert!(!scheduler.collides(kind, "Clash::First"));
    assert!(scheduler.collides(kind, "Clash::Second"));
    let id = QueryId { kind, key: 2 };
    let error = scheduler
        .request(id, "Clash::Second", Clash::Second)
        .err()
        .unwrap();
    assert_eq!(error.hash, kind);
    assert_eq!(error.registered, "Clash::First");
    assert_eq!(error.requested, "Clash::Second");
    assert_eq!(scheduler.pending(), pending);
    scheduler.query(Clash::First);
    assert_eq!(scheduler.pending(), pending);
}

#[derive(Debug, Clone, Copy)]
struct Stuck;

impl Query for Stuck {
    type Result = u8;

    fn name(&self) -> Name {
        Name::new("Stuck")
    }

    fn identity(&self) -> &'static str {
        "Stuck"
    }

    fn key(&self) -> u64 {
        9
    }

    fn spec_name(&self) -> Name {
        self.name()
    }

    fn spec_identity(&self) -> &'static str {
        self.identity()
    }

    fn spec_key(&self) -> u64 {
        self.key()
    }

    fn run(&mut self, _scheduler: &mut Scheduler<Self, u8>) -> Poll<u8> {
        FIB_RUNS.fetch_add(1, Ordering::SeqCst);
        Poll::Pending
    }
}

#[test]
fn state_machine_of_one_query() {
    let mut scheduler: Scheduler<Stuck, u8> = Scheduler::new(Arena::new(6));
    let id = QueryId {
        kind: Name::new("Stuck").hash(),
        key: 9,
    };
    assert!(scheduler.lookup(id).is_none());
    let ongoing = scheduler.query(Stuck);
    assert_eq!(scheduler.pending(), 1);
    assert_eq!(scheduler.started(), 0);
    assert_eq!(scheduler.result(&ongoing), Poll::Pending);
    // A second request shares the cell and enqueues nothing.
    let again = scheduler.query(Stuck);
    assert_eq!(again.cell().position(), ongoing.cell().position());
    assert_eq!(scheduler.pending(), 1);
    let mut tasks = scheduler.drain();
    assert_eq!(tasks.len(), 1);
    assert_eq!(scheduler.pending(), 0);
    assert_eq!(scheduler.started(), 1);
    let task = tasks.pop().unwrap();
    let kept = scheduler.settle(task, Poll::Pending);
    assert!(kept.is_some());
    assert_eq!(scheduler.result(&ongoing), Poll::Pending);
    assert!(scheduler.settle(kept.unwrap(), Poll::Ready(5)).is_none());
    assert_eq!(scheduler.result(&ongoing), Poll::Ready(&5));
    // Requests after the result is there do not enqueue again.
    let _ = scheduler.query(Stuck);
    assert_eq!(scheduler.pending(), 0);
    assert_eq!(scheduler.started(), 1);
    let _ = Stage::Done;
}

#[test]
fn fifo_first_execution_order() {
    let mut scheduler: Scheduler<Fib, u32> = Scheduler::new(Arena::new(8));
    for n in [5u32, 3, 9] {
        scheduler.query(Fib(n));
    }
    let tasks = scheduler.drain();
    assert_eq!(tasks.len(), 3);
    let mut results = vec![];
    for task in tasks {
        // Completing in queue order fills the cells in request order.
        let next = results.len() as u32;
        scheduler.complete(task, next).unwrap();
        results.push(next);
    }
    for (position, n) in [5u64, 3, 9].iter().enumerate() {
        let id = QueryId {
            kind: Name::new("Fib").hash(),
            key: *n,
        };
        let cell = scheduler.lookup(id).unwrap();
        assert_eq!(scheduler.result(&cell), Poll::Ready(&(position as u32)));
    }
}

#[test]
fn cell_is_write_once() {
    let mut cell = Cell::new();
    assert_eq!(cell.get(), None);
    assert!(!cell.is_full());
    assert_eq!(cell.set(1), Ok(()));
    assert_eq!(cell.set(2), Err(2));
    assert_eq!(cell.get(), Some(&1));
    assert!(cell.is_full());
}

#[test]
fn name_hash_matches_fx_hasher() {
    for text in ["", "F", "Fi", "Fib", "Quer", "Query", "Querie", "Queries", "LexFiles", "ParseFile", "a name of many bytes..."] {
        let mut hasher = rustc_hash::FxHasher::default();
        hasher.write(text.as_bytes());
        assert_eq!(fxhash(text.as_bytes()), hasher.finish(), "{text:?}");
    }
    assert_eq!(Name::new("Fib").text(), "Fib");
    assert_eq!(Name::new("Fib"), Name::new("Fib"));
    assert_ne!(Name::new("Fib"), Name::new("Fob"));
    assert_eq!(fxhash(b""), 0);
    assert_eq!(fxhash(b"a"), 97u64.wrapping_mul(0x517cc1b727220a95));
}

#[test]
fn answer_is_missing_while_the_task_is_held_elsewhere() {
    let mut scheduler: Scheduler<Clash, u8> = Scheduler::new(Arena::new(9));
    scheduler.query(Clash::First);
    let mut held = scheduler.drain();
    assert_eq!(held.len(), 1);
    let answer = scheduler
        .request_and_trampoline(Clash::First, &Trampoline::default())
        .copied();
    assert_eq!(answer, None);
    assert_eq!(scheduler.complete(held.pop().unwrap(), 7), Ok(()));
    let answer = scheduler
        .request_and_trampoline(Clash::First, &Trampoline::default())
        .copied();
    assert_eq!(answer, Some(7));
    assert_eq!(scheduler.started(), 1);
}

#[test]
fn trampoline_finishes_what_waited() {
    let mut scheduler: Scheduler<Fib, u32> = Scheduler::new(Arena::new(10));
    let ongoing = scheduler.query(Fib(12));
    assert_eq!(ongoing.poll(&scheduler), Poll::Pending);
    assert!(scheduler.trampoline(&Trampoline {
        poll_loop: PollLoop::Parallel
    }));
    assert_eq!(ongoing.poll(&scheduler), Poll::Ready(&144));
    assert_eq!(scheduler.pending(), 0);
    assert_eq!(scheduler.started(), 13);
    // Nothing waits: another run changes nothing.
    assert!(scheduler.trampoline(&Trampoline::default()));
    assert_eq!(scheduler.started(), 13);
    let mut other: Scheduler<Fib, u32> = Scheduler::new(Arena::new(11));
    assert_eq!(ongoing.poll(&other), Poll::Pending);
    other.query(Fib(0));
    assert!(other.trampoline_single_threaded());
    assert_eq!(ongoing.poll(&other), Poll::Pending);
}

#[test]
fn tasks_carry_the_queries_that_were_requested() {
    let mut scheduler: Scheduler<Fib, u32> = Scheduler::new(Arena::new(30));
    assert!(scheduler.at_rest(0));
    scheduler.query(Fib(3));
    scheduler.query(Fib(5));
    scheduler.query(Fib(3));
    assert_eq!(scheduler.pending(), 2);
    assert!(!scheduler.at_rest(0));
    let tasks = scheduler.drain();
    assert_eq!(tasks.len(), 2);
    assert_eq!(tasks[0].get(), &Fib(3));
    assert_eq!(tasks[1].get(), &Fib(5));
    assert_eq!(scheduler.started(), 2);
    assert!(scheduler.at_rest(0));
    assert!(!scheduler.at_rest(tasks.len()));
}

#[test]
fn queries_requested_during_the_run_have_their_results() {
    for poll_loop in [PollLoop::SingleThreaded, PollLoop::Parallel] {
        let mut scheduler: Scheduler<Fib, u32> = Scheduler::new(Arena::new(31));
        scheduler.query(Fib(12));
        assert!(scheduler.trampoline(&Trampoline { poll_loop }));
        assert_eq!(scheduler.pending(), 0);
        assert_eq!(scheduler.started(), 13);
        let mut expected = [0u32; 13];
        expected[1] = 1;
        for k in 2..13 {
            expected[k] = expected[k - 1] + expected[k - 2];
        }
        for k in 0..13 {
            let id = QueryId {
                kind: Name::new("Fib").hash(),
                key: k as u64,
            };
            let cell = scheduler.lookup(id).expect("every number down to 0 was requested");
            assert_eq!(scheduler.result(&cell), Poll::Ready(&expected[k]));
        }
        let never = QueryId {
            kind: Name::new("Fib").hash(),
            key: 13,
        };
        assert!(scheduler.lookup(never).is_none());
    }
}

static ORDER: std::sync::Mutex<Vec<(u64, u32)>> = std::sync::Mutex::new(Vec::new());

/// Finishes at its second poll, and puts every poll on the list.
struct Slow {
    test: u64,
    number: u32,
    polls: u32,
}

impl Query for Slow {
    type Result = u32;

    fn name(&self) -> Name {
        Name::new("Slow")
    }

    fn identity(&self) -> &'static str {
        "rec_fib::Slow"
    }

    fn key(&self) -> u64 {
        self.test * 1000 + self.number as u64
    }

    fn spec_name(&self) -> Name {
        self.name()
    }

    fn spec_identity(&self) -> &'static str {
        self.identity()
    }

    fn spec_key(&self) -> u64 {
        self.key()
    }

    fn run(&mut self, scheduler: &mut Scheduler<Self, u32>) -> Poll<u32> {
        ORDER.lock().unwrap().push((self.test, self.number));
        self.polls += 1;
        if self.number == 0 && self.polls == 1 {
            // The oldest query asks for one more, which is handed out after the pass.
            scheduler.query(Slow { test: self.test, number: 9, polls: 0 });
        }
        if self.number % 2 == 1 || self.polls == 2 {
            Poll::Ready(self.number)
        } else {
            Poll::Pending
        }
    }
}

fn polls_of(test: u64, poll_loop: PollLoop) -> Vec<u32> {
    let mut scheduler: Scheduler<Slow, u32> = Scheduler::new(Arena::new(40));
    for number in 0..5 {
        scheduler.query(Slow { test, number, polls: 0 });
    }
    assert!(scheduler.trampoline(&Trampoline { poll_loop }));
    let order = ORDER.lock().unwrap();
    order.iter().filter(|poll| poll.0 == test).map(|poll| poll.1).collect()
}

#[test]
fn passes_poll_every_live_task_once_in_the_order_of_the_requests() {
    // First pass: the five that waited, oldest first. 1 and 3 finish at once; 0, 2 and 4
    // are polled again in the second pass, in their order, and behind them the query
    // that was requested in the first pass.
    let expected = vec![0, 1, 2, 3, 4, 0, 2, 4, 9];
    assert_eq!(polls_of(1, PollLoop::SingleThreaded), expected);
    assert_eq!(polls_of(2, PollLoop::Parallel), expected);
}
