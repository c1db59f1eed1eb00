use rick_morty_back::db::{DbCounts, EntityKind};
use rick_morty_back::graphql::context::{Counter, Ctx};

fn start() -> Ctx {
    Ctx::new(DbCounts { character: 493, location: 76, episode: 31 })
}

#[test]
fn new_cache_holds_the_counts_it_was_given() {
    let ctx = start();
    assert_eq!(ctx.read(EntityKind::Character), 493);
    assert_eq!(ctx.read(EntityKind::Location), 76);
    assert_eq!(ctx.read(EntityKind::Episode), 31);
    assert_eq!(ctx.counts(), DbCounts { character: 493, location: 76, episode: 31 });
}

#[test]
fn increment_touches_one_counter() {
    let mut ctx = start();
    ctx.increment(EntityKind::Location);
    assert_eq!(ctx.counts(), DbCounts { character: 493, location: 77, episode: 31 });
    ctx.increment(EntityKind::Character);
    assert_eq!(ctx.counts(), DbCounts { character: 494, location: 77, episode: 31 });
    ctx.increment(EntityKind::Episode);
    assert_eq!(ctx.counts(), DbCounts { character: 494, location: 77, episode: 32 });
}

#[test]
fn decrement_touches_one_counter() {
    let mut ctx = start();
    ctx.decrement(EntityKind::Episode);
    assert_eq!(ctx.counts(), DbCounts { character: 493, location: 76, episode: 30 });
    ctx.decrement(EntityKind::Character);
    assert_eq!(ctx.counts(), DbCounts { character: 492, location: 76, episode: 30 });
    ctx.decrement(EntityKind::Location);
    assert_eq!(ctx.counts(), DbCounts { character: 492, location: 75, episode: 30 });
}

#[test]
fn reset_all_replaces_every_counter() {
    let mut ctx = start();
    ctx.reset_all(DbCounts { character: 1, location: 2, episode: 3 });
    assert_eq!(ctx.counts(), DbCounts { character: 1, location: 2, episode: 3 });
}

#[test]
fn settle_delete_counts_off_one_row_only() {
    let mut ctx = start();
    assert!(ctx.settle_delete(EntityKind::Character, 1));
    assert_eq!(ctx.read(EntityKind::Character), 492);
    assert!(!ctx.settle_delete(EntityKind::Character, 0));
    assert_eq!(ctx.read(EntityKind::Character), 492);
    assert!(!ctx.settle_delete(EntityKind::Character, 2));
    assert_eq!(ctx.read(EntityKind::Character), 492);
    assert_eq!(ctx.read(EntityKind::Location), 76);
    assert_eq!(ctx.read(EntityKind::Episode), 31);
}

#[test]
fn counter_ends_at_start_plus_creates_minus_deletes() {
    let creates = 40;
    let deletes = 15;
    let mut in_order = start();
    for _ in 0..creates {
        in_order.increment(EntityKind::Character);
    }
    for _ in 0..deletes {
        in_order.decrement(EntityKind::Character);
    }
    let mut interleaved = start();
    let mut left_creates = creates;
    let mut left_deletes = deletes;
    let mut turn = 0;
    while left_creates > 0 || left_deletes > 0 {
        if left_deletes > 0 && (turn % 3 == 0 || left_creates == 0) {
            interleaved.decrement(EntityKind::Character);
            left_deletes -= 1;
        } else {
            interleaved.increment(EntityKind::Character);
            left_creates -= 1;
        }
        turn += 1;
    }
    let mut deletes_first = start();
    for _ in 0..deletes {
        deletes_first.decrement(EntityKind::Character);
    }
    for _ in 0..creates {
        deletes_first.increment(EntityKind::Character);
    }
    assert_eq!(in_order.read(EntityKind::Character), 493 + 40 - 15);
    assert_eq!(interleaved.read(EntityKind::Character), 493 + 40 - 15);
    assert_eq!(deletes_first.read(EntityKind::Character), 493 + 40 - 15);
    assert_eq!(in_order.read(EntityKind::Location), 76);
    assert_eq!(interleaved.read(EntityKind::Episode), 31);
}

#[test]
fn a_counter_counts_on_its_own() {
    let mut counter = Counter::new(7);
    assert_eq!(counter.read(), 7);
    counter.increment();
    counter.increment();
    assert_eq!(counter.read(), 9);
    counter.decrement();
    assert_eq!(counter.read(), 8);
    assert!(counter.settle_delete(1));
    assert_eq!(counter.read(), 7);
    assert!(!counter.settle_delete(0));
    assert!(!counter.settle_delete(3));
    assert_eq!(counter.read(), 7);
    counter.set(-4);
    assert_eq!(counter.read(), -4);
    counter.decrement();
    assert_eq!(counter.read(), -5);
}

#[test]
fn counters_reach_the_ends_of_their_range() {
    let mut high = Counter::new(i32::MAX - 1);
    high.increment();
    assert_eq!(high.read(), i32::MAX);
    let mut low = Counter::new(i32::MIN + 1);
    low.decrement();
    assert_eq!(low.read(), i32::MIN);
}

#[test]
fn a_delete_that_removed_nothing_leaves_a_counter_at_its_lowest() {
    let mut counter = Counter::new(i32::MIN);
    assert!(!counter.settle_delete(0));
    assert!(!counter.settle_delete(2));
    assert_eq!(counter.read(), i32::MIN);
    let mut ctx = Ctx::new(DbCounts { character: i32::MIN, location: 0, episode: 0 });
    assert!(!ctx.settle_delete(EntityKind::Character, 0));
    assert_eq!(ctx.read(EntityKind::Character), i32::MIN);
}
