//! The count cache: one row counter per entity type, read by list requests
//! in place of a count query and adjusted by every successful create or
//! delete.

use vstd::prelude::*;
use crate::db::{DbCounts, EntityKind};

verus! {

/// One adjustment of a counter.
#[derive(Clone, Copy, Debug, PartialEq, Eq, Structural)]
pub enum CounterStep {
    /// A row was created.
    Increment,
    /// A row was deleted.
    Decrement,
}

/// A counter's value after one step.
pub open spec fn after_step(value: int, step: CounterStep) -> int {
    match step {
        CounterStep::Increment => value + 1,
        CounterStep::Decrement => value - 1,
    }
}

/// A counter's value after the steps of `steps`, taken from first to last.
pub open spec fn after_steps(value: int, steps: Seq<CounterStep>) -> int
    decreases steps.len(),
{
    if steps.len() == 0 {
        value
    } else {
        after_step(after_steps(value, steps.drop_last()), steps.last())
    }
}

/// How often `step` occurs in `steps`.
pub open spec fn occurrences(steps: Seq<CounterStep>, step: CounterStep) -> int
    decreases steps.len(),
{
    if steps.len() == 0 {
        0
    } else {
        occurrences(steps.drop_last(), step) + if steps.last() == step {
            1int
        } else {
            0int
        }
    }
}

/// The cached row count of one entity type.
#[derive(Debug)]
pub struct Counter {
    value: i32,
}

impl View for Counter {
    type V = int;

    closed spec fn view(&self) -> int {
        self.value as int
    }
}

impl Counter {
    /// A counter that starts from `value`.
    pub fn new(value: i32) -> (r: Counter)
        ensures
            r@ == value,
    {
        Counter { value }
    }

    /// The count.
    pub fn read(&self) -> (r: i32)
        ensures
            r == self@,
    {
        self.value
    }

    /// Counts one more row.
    pub fn increment(&mut self)
        requires
            old(self)@ < i32::MAX,
        ensures
            final(self)@ == after_step(old(self)@, CounterStep::Increment),
    {
        self.value = self.value + 1;
    }

    /// Counts one row less.
    pub fn decrement(&mut self)
        requires
            old(self)@ > i32::MIN,
        ensures
            final(self)@ == after_step(old(self)@, CounterStep::Decrement),
    {
        self.value = self.value - 1;
    }

    /// Settles the count after a delete that reported `affected` rows: the
    /// row was there, and is counted off, exactly when one row was affected.
    /// Says whether it was.
    pub fn settle_delete(&mut self, affected: usize) -> (made_delete: bool)
        requires
            affected == 1 ==> old(self)@ > i32::MIN,
        ensures
            made_delete == (affected == 1),
            final(self)@ == if affected == 1 {
                after_step(old(self)@, CounterStep::Decrement)
            } else {
                old(self)@
            },
    {
        let made_delete = affected == 1;
        if made_delete {
            self.decrement();
        }
        made_delete
    }

    /// Replaces the count.
    pub fn set(&mut self, value: i32)
        ensures
            final(self)@ == value,
    {
        self.value = value;
    }
}

/// The count cache: one counter per entity type.
#[derive(Debug)]
pub struct Ctx {
    character: Counter,
    location: Counter,
    episode: Counter,
}

impl View for Ctx {
    type V = DbCounts;

    closed spec fn view(&self) -> DbCounts {
        DbCounts {
            character: self.character@ as i32,
            location: self.location@ as i32,
            episode: self.episode@ as i32,
        }
    }
}

impl Ctx {
    /// A cache that starts from `counts`.
    pub fn new(counts: DbCounts) -> (r: Ctx)
        ensures
            r@ == counts,
    {
        Ctx {
            character: Counter::new(counts.character),
            location: Counter::new(counts.location),
            episode: Counter::new(counts.episode),
        }
    }

    /// The cached count of `kind`.
    pub fn read(&self, kind: EntityKind) -> (r: i32)
        ensures
            r == self@.of(kind),
    {
        match kind {
            EntityKind::Character => self.character.read(),
            EntityKind::Location => self.location.read(),
            EntityKind::Episode => self.episode.read(),
        }
    }

    /// All three cached counts.
    pub fn counts(&self) -> (r: DbCounts)
        ensures
            r == self@,
    {
        DbCounts {
            character: self.character.read(),
            location: self.location.read(),
            episode: self.episode.read(),
        }
    }

    /// Counts one more row of `kind`; the other two counters keep their value.
    pub fn increment(&mut self, kind: EntityKind)
        requires
            old(self)@.of(kind) < i32::MAX,
        ensures
            final(self)@.of(kind) == after_step(old(self)@.of(kind), CounterStep::Increment),
            forall|other: EntityKind| other != kind ==> final(self)@.of(other) == old(self)@.of(other),
    {
        match kind {
            EntityKind::Character => self.character.increment(),
            EntityKind::Location => self.location.increment(),
            EntityKind::Episode => self.episode.increment(),
        }
    }

    /// Counts one row of `kind` less; the other two counters keep their value.
    pub fn decrement(&mut self, kind: EntityKind)
        requires
            old(self)@.of(kind) > i32::MIN,
        ensures
            final(self)@.of(kind) == after_step(old(self)@.of(kind), CounterStep::Decrement),
            forall|other: EntityKind| other != kind ==> final(self)@.of(other) == old(self)@.of(other),
    {
        match kind {
            EntityKind::Character => self.character.decrement(),
            EntityKind::Location => self.location.decrement(),
            EntityKind::Episode => self.episode.decrement(),
        }
    }

    /// Settles the count of `kind` after a delete that reported `affected`
    /// rows: the row was there, and is counted off, exactly when one row was
    /// affected. Says whether it was.
    pub fn settle_delete(&mut self, kind: EntityKind, affected: usize) -> (made_delete: bool)
        requires
            affected == 1 ==> old(self)@.of(kind) > i32::MIN,
        ensures
            made_delete == (affected == 1),
            final(self)@.of(kind) == if affected == 1 {
                after_step(old(self)@.of(kind), CounterStep::Decrement)
            } else {
                old(self)@.of(kind)
            },
            forall|other: EntityKind| other != kind ==> final(self)@.of(other) == old(self)@.of(other),
    {
        match kind {
            EntityKind::Character => self.character.settle_delete(affected),
            EntityKind::Location => self.location.settle_delete(affected),
            EntityKind::Episode => self.episode.settle_delete(affected),
        }
    }

    /// Replaces all three counters at once.
    pub fn reset_all(&mut self, counts: DbCounts)
        ensures
            final(self)@ == counts,
    {
        self.character.set(counts.character);
        self.location.set(counts.location);
        self.episode.set(counts.episode);
    }
}

/// After any run of steps a counter stands at its first value, plus the
/// number of increments, minus the number of decrements.
pub proof fn law_counter_counts_steps(value: int, steps: Seq<CounterStep>)
    ensures
        after_steps(value, steps) == value + occurrences(steps, CounterStep::Increment)
            - occurrences(steps, CounterStep::Decrement),
    decreases steps.len(),
{
    if steps.len() > 0 {
        law_counter_counts_steps(value, steps.drop_last());
    }
}

/// The order in which creates and deletes reach a counter does not matter:
/// two runs with as many increments and as many decrements end at the same
/// value.
pub proof fn law_counter_ignores_interleaving(
    value: int,
    one: Seq<CounterStep>,
    other: Seq<CounterStep>,
)
    requires
        occurrences(one, CounterStep::Increment) == occurrences(other, CounterStep::Increment),
        occurrences(one, CounterStep::Decrement) == occurrences(other, CounterStep::Decrement),
    ensures
        after_steps(value, one) == after_steps(value, other),
{
    law_counter_counts_steps(value, one);
    law_counter_counts_steps(value, other);
}

} // verus!
