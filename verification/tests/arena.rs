use std::sync::atomic::{AtomicUsize, Ordering};

use rokugo::query::arena::{Arena, ArenaCounter, DifferentArenaError, Ref, SENTINEL};

#[test]
fn allocate() {
    let mut arena = Arena::new(0);
    let value = arena.allocate(1);
    *value = 2;
    let value: &i32 = value;
    let value2 = value;
    assert_eq!(value, value2);
}

#[test]
fn shared() {
    let mut arena = Arena::new(0);
    let shared = arena.alloc_own(1).downgrade();
    let shared2 = shared;

    let i = arena.get(shared);
    let i2 = arena.get(shared2);
    assert_eq!(i, i2);

    let arena2 = Arena::new(1);
    assert_eq!(arena2.try_get(shared), Err(DifferentArenaError));
}

enum Node {
    Value(i32),
    Link(Ref<Node>),
}

#[test]
fn self_referencing() {
    let mut arena = Arena::new(0);
    let re = arena.alloc_own(Node::Value(1)).downgrade();
    arena.allocate(Node::Link(re));
    let link = match arena.get(arena.handle(1)) {
        Node::Link(link) => *link,
        Node::Value(_) => panic!("the second allocation is the link"),
    };
    assert!(matches!(arena.get(link), Node::Value(1)));
}

#[test]
fn dropping() {
    let mut arena = Arena::new(0);
    arena.allocate(vec![1]);
}

#[test]
fn zst() {
    let mut arena = Arena::new(0);
    let re = arena.allocate(());
    assert_eq!(re, &mut ());
}

#[test]
fn arena_cross_check() {
    let mut a = Arena::new(10);
    let b: Arena<i32> = Arena::new(11);
    let handle = a.alloc_own(42).downgrade();
    assert_eq!(a.try_get(handle), Ok(&42));
    assert_eq!(b.try_get(handle), Err(DifferentArenaError));
    assert_eq!(
        DifferentArenaError.message(),
        "reference was allocated in a different arena"
    );
}

#[test]
fn owning_handles_resolve_mutably() {
    let mut a = Arena::new(20);
    let mut other = Arena::new(21);
    other.allocate(0);
    let mut own = a.alloc_own(1);
    *a.get_mut(&mut own) += 1;
    assert_eq!(a.try_get_mut(&mut own).map(|v| *v), Ok(2));
    assert_eq!(other.try_get_mut(&mut own).map(|v| *v), Err(DifferentArenaError));
    let mut pinned = a.alloc_own_pinned(5);
    *a.get_mut_pinned(&mut pinned) *= 2;
    assert_eq!(a.try_get_mut_pinned(&mut pinned).map(|v| *v), Ok(10));
    assert_eq!(
        other.try_get_mut_pinned(&mut pinned).map(|v| *v),
        Err(DifferentArenaError)
    );
    *a.alloc_pinned(7) += 1;
    assert_eq!(a.len(), 3);
    assert_eq!(a.index(), 20);
    assert_eq!(*a.get(own.downgrade()), 2);
    assert_eq!(*a.get(a.handle(2)), 8);
}

static DROPS: AtomicUsize = AtomicUsize::new(0);
static ORDER: std::sync::Mutex<Vec<usize>> = std::sync::Mutex::new(Vec::new());

struct Noisy(usize);

impl Drop for Noisy {
    fn drop(&mut self) {
        DROPS.fetch_add(1, Ordering::SeqCst);
        ORDER.lock().unwrap().push(self.0);
    }
}

#[test]
fn drop_order() {
    {
        let mut arena = Arena::new(30);
        for i in 0..5 {
            arena.allocate(Noisy(i));
        }
        assert_eq!(DROPS.load(Ordering::SeqCst), 0);
    }
    assert_eq!(DROPS.load(Ordering::SeqCst), 5);
    assert_eq!(*ORDER.lock().unwrap(), vec![0, 1, 2, 3, 4]);
}

#[test]
fn counter_hands_out_every_index_once() {
    let mut counter = ArenaCounter::new();
    let mut a: Arena<u8> = counter.arena().unwrap();
    let b: Arena<u8> = counter.arena().unwrap();
    assert_eq!((a.index(), b.index()), (0, 1));
    let handle = a.alloc_own(3).downgrade();
    assert_eq!(a.try_get(handle), Ok(&3));
    assert_eq!(b.try_get(handle), Err(DifferentArenaError));
}

#[test]
fn zero_sized_values_are_recorded_in_no_list() {
    let mut arena: Arena<()> = Arena::new(3);
    let mut own = arena.alloc_own(());
    assert_eq!(arena.len(), 0);
    assert_eq!(own.share().position(), SENTINEL);
    assert_eq!(arena.try_get(own.share()), Ok(&()));
    assert_eq!(arena.try_get_mut(&mut own), Ok(&mut ()));
    let other: Arena<()> = Arena::new(4);
    assert_eq!(other.try_get(own.share()), Err(DifferentArenaError));
    // An arena in which nothing was allocated has nothing behind the sentinel.
    let empty: Arena<()> = Arena::new(3);
    assert_eq!(empty.try_get(own.share()), Err(DifferentArenaError));
    arena.allocate(());
    arena.alloc_pinned(());
    arena.alloc_own_pinned(());
    assert_eq!(arena.len(), 0);
}

#[test]
fn sized_values_are_recorded_in_order() {
    let mut arena: Arena<u8> = Arena::new(5);
    let a = arena.alloc_own(7).downgrade();
    let b = arena.alloc_own(9).downgrade();
    assert_eq!(arena.len(), 2);
    assert_eq!((a.position(), b.position()), (0, 1));
    assert_eq!(arena.try_get(b), Ok(&9));
    // The sentinel stands for nothing in an arena of values that have a size.
    let mut units: Arena<()> = Arena::new(5);
    let sentinel = units.alloc_own(()).downgrade().position();
    assert_eq!(sentinel, SENTINEL);
    assert_eq!(arena.len(), 2);
}
