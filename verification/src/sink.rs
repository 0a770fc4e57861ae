//! A fan-out collection of downstream writers, addressed by stable keys.
//!
//! Writers live in numbered slots. Removing a writer empties its slot without
//! moving any other writer, so a key handed out by [`VecSink::insert`] stays
//! valid until that writer is removed with [`VecSink::delete`].
//!
//! A broadcast issues one request to each writer in key order. It ends with
//! the first answer that is not a success, and no later writer is asked; when
//! every writer succeeds it ends with the answer of the last one. The caller
//! issues the requests; [`VecSink::begin`] and [`VecSink::advance`] decide
//! which writer is next and when the broadcast is over.

use vstd::prelude::*;

verus! {

/// A set of downstream writers, each stored under a stable key.
pub struct VecSink<S> {
    sinks: Vec<Option<S>>,
}

/// What a downstream writer answered to one request.
pub enum Outcome<I, E> {
    /// The writer finished the request and produced a value.
    Ready(I),
    /// The writer failed.
    Failed(E),
    /// The writer cannot finish the request yet.
    Pending,
}

/// The next move of a broadcast over the writers.
pub enum Step<I, E> {
    /// Issue the request to the writer stored under this key.
    Visit(usize),
    /// The broadcast is over with this outcome.
    Done(Outcome<I, E>),
}

/// `key` is the first empty slot, or the number of slots if none is empty.
pub open spec fn first_vacant<S>(slots: Seq<Option<S>>, key: int) -> bool {
    &&& 0 <= key <= slots.len()
    &&& key < slots.len() ==> slots[key] is None
    &&& forall|j: int| 0 <= j < key ==> (#[trigger] slots[j]) is Some
}

/// `key` is the first slot at or after `from` that holds a writer.
pub open spec fn first_taken<S>(slots: Seq<Option<S>>, from: int, key: int) -> bool {
    &&& from <= key < slots.len()
    &&& slots[key] is Some
    &&& forall|j: int| from <= j < key ==> (#[trigger] slots[j]) is None
}

/// No slot at or after `from` holds a writer.
pub open spec fn none_taken<S>(slots: Seq<Option<S>>, from: int) -> bool {
    forall|j: int| from <= j < slots.len() ==> (#[trigger] slots[j]) is None
}

/// `step` is the first move of a broadcast: to visit the first writer, or,
/// where there is none, to end at once with the success `idle`.
pub open spec fn begins<S, I, E>(slots: Seq<Option<S>>, idle: I, step: Step<I, E>) -> bool {
    match step {
        Step::Visit(key) => first_taken(slots, 0, key as int),
        Step::Done(outcome) => none_taken(slots, 0) && outcome == Outcome::<I, E>::Ready(idle),
    }
}

/// `step` is the move that follows the answer `outcome` of the writer under
/// `at`: to visit the next writer after a success, if there is one, and to
/// end with `outcome` otherwise.
pub open spec fn advances<S, I, E>(
    slots: Seq<Option<S>>,
    at: int,
    outcome: Outcome<I, E>,
    step: Step<I, E>,
) -> bool {
    match step {
        Step::Visit(key) => outcome is Ready && first_taken(slots, at + 1, key as int),
        Step::Done(last) => last == outcome && (outcome is Ready ==> none_taken(slots, at + 1)),
    }
}

impl<S> VecSink<S> {
    /// The slots in key order; an empty slot is `None`.
    pub closed spec fn view(&self) -> Seq<Option<S>> {
        self.sinks@
    }

    /// A collection without writers: a broadcast over it reaches nobody.
    pub fn new() -> (r: Self)
        ensures
            r@ == Seq::<Option<S>>::empty(),
    {
        VecSink { sinks: Vec::new() }
    }

    /// Stores a writer in the first empty slot, or in a new slot at the end
    /// when none is empty, and returns the key of that slot. No other slot
    /// changes. Linear in the number of slots.
    pub fn insert(&mut self, p: S) -> (key: usize)
        ensures
            first_vacant(old(self)@, key as int),
            key < old(self)@.len() ==> final(self)@ == old(self)@.update(key as int, Some(p)),
            key == old(self)@.len() ==> final(self)@ == old(self)@.push(Some(p)),
    {
        let n = self.sinks.len();
        let mut i: usize = 0;
        while i < n
            invariant
                n == self.sinks@.len(),
                self.sinks@ == old(self).sinks@,
                i <= n,
                forall|j: int| 0 <= j < i ==> (#[trigger] self.sinks@[j]) is Some,
            decreases n - i,
        {
            if self.sinks[i].is_none() {
                self.sinks[i] = Some(p);
                return i;
            }
            i += 1;
        }
        self.sinks.push(Some(p));
        n
    }

    /// Removes and returns the writer stored under `idx`, leaving its slot
    /// empty. Returns `None`, and changes nothing, when `idx` names no slot or
    /// an empty one.
    pub fn delete(&mut self, idx: usize) -> (r: Option<S>)
        ensures
            idx < old(self)@.len() ==> r == old(self)@[idx as int] && final(self)@ == old(
                self,
            )@.update(idx as int, None),
            idx >= old(self)@.len() ==> r is None && final(self)@ == old(self)@,
    {
        if idx < self.sinks.len() {
            let mut taken: Option<S> = None;
            core::mem::swap(&mut self.sinks[idx], &mut taken);
            return taken;
        }
        None
    }

    /// The number of slots, empty ones included.
    pub fn slots(&self) -> (n: usize)
        ensures
            n == self@.len(),
    {
        self.sinks.len()
    }

    /// The key of the first writer at or after `from`, in key order.
    pub fn next_occupied(&self, from: usize) -> (r: Option<usize>)
        ensures
            r matches Some(key) ==> first_taken(self@, from as int, key as int),
            r is None ==> none_taken(self@, from as int),
    {
        let n = self.sinks.len();
        let mut i: usize = from;
        while i < n
            invariant
                n == self.sinks@.len(),
                from <= i,
                forall|j: int| from <= j < i && j < n ==> (#[trigger] self.sinks@[j]) is None,
            decreases n - i,
        {
            if self.sinks[i].is_some() {
                return Some(i);
            }
            i += 1;
        }
        None
    }

    /// The writer stored under `idx`, for issuing a request to it. What the
    /// caller does to the writer is what happens to the stored one.
    pub fn writer(&mut self, idx: usize) -> (r: Option<&mut S>)
        ensures
            r is Some <==> idx < old(self)@.len() && old(self)@[idx as int] is Some,
            r is None ==> final(self)@ == old(self)@,
            r is Some ==> *r.unwrap() == old(self)@[idx as int].unwrap() && final(self)@ == old(
                self,
            )@.update(idx as int, Some(*final(r.unwrap()))),
    {
        if idx < self.sinks.len() {
            self.sinks[idx].as_mut()
        } else {
            None
        }
    }

    /// The first move of a broadcast: to visit the first writer, or, where
    /// there is none, to end at once with the success `idle`.
    pub fn begin<I, E>(&self, idle: I) -> (r: Step<I, E>)
        ensures
            begins(self@, idle, r),
    {
        match self.next_occupied(0) {
            Some(key) => Step::Visit(key),
            None => Step::Done(Outcome::Ready(idle)),
        }
    }

    /// The next move of a broadcast after the writer under `at` gave
    /// `outcome`: to visit the next writer after a success, if there is one,
    /// and to end with `outcome` otherwise.
    pub fn advance<I, E>(&self, at: usize, outcome: Outcome<I, E>) -> (r: Step<I, E>)
        ensures
            advances(self@, at as int, outcome, r),
    {
        match outcome {
            Outcome::Ready(value) => {
                if at >= self.sinks.len() {
                    return Step::Done(Outcome::Ready(value));
                }
                match self.next_occupied(at + 1) {
                    Some(key) => Step::Visit(key),
                    None => Step::Done(Outcome::Ready(value)),
                }
            },
            other => Step::Done(other),
        }
    }
}

/// The outcome of a broadcast over the slots from `from` on, where the writer
/// under `key` answers `answers(key)` and `so_far` is the last success: the
/// first answer that is no success, or else the last success.
pub open spec fn broadcast<S, I, E>(
    slots: Seq<Option<S>>,
    answers: spec_fn(int) -> Outcome<I, E>,
    from: int,
    so_far: I,
) -> Outcome<I, E>
    decreases slots.len() - from,
{
    if from < 0 || from >= slots.len() {
        Outcome::Ready(so_far)
    } else if slots[from] is None {
        broadcast(slots, answers, from + 1, so_far)
    } else {
        match answers(from) {
            Outcome::Ready(value) => broadcast(slots, answers, from + 1, value),
            other => other,
        }
    }
}

/// What is left of a broadcast after a move: the broadcast from the writer to
/// visit on, or the outcome it ended with.
pub open spec fn rest_of<S, I, E>(
    slots: Seq<Option<S>>,
    answers: spec_fn(int) -> Outcome<I, E>,
    step: Step<I, E>,
    so_far: I,
) -> Outcome<I, E> {
    match step {
        Step::Visit(key) => broadcast(slots, answers, key as int, so_far),
        Step::Done(outcome) => outcome,
    }
}

/// A broadcast skips the empty slots.
pub proof fn lemma_broadcast_skips<S, I, E>(
    slots: Seq<Option<S>>,
    answers: spec_fn(int) -> Outcome<I, E>,
    from: int,
    to: int,
    so_far: I,
)
    requires
        0 <= from <= to,
        forall|j: int| from <= j < to && j < slots.len() ==> (#[trigger] slots[j]) is None,
    ensures
        broadcast(slots, answers, from, so_far) == broadcast(slots, answers, to, so_far),
    decreases to - from,
{
    if from < to {
        if from < slots.len() {
            assert(slots[from] is None);
        }
        lemma_broadcast_skips(slots, answers, from + 1, to, so_far);
    }
}

/// The first move leaves the whole broadcast to do.
pub proof fn lemma_begin_broadcast<S, I, E>(
    slots: Seq<Option<S>>,
    answers: spec_fn(int) -> Outcome<I, E>,
    idle: I,
    step: Step<I, E>,
)
    requires
        begins(slots, idle, step),
    ensures
        rest_of(slots, answers, step, idle) == broadcast(slots, answers, 0, idle),
{
    match step {
        Step::Visit(key) => lemma_broadcast_skips(slots, answers, 0, key as int, idle),
        Step::Done(_) => lemma_broadcast_skips(slots, answers, 0, slots.len() as int, idle),
    }
}

/// The move that follows the answer of the writer under `at` leaves what was
/// left of the broadcast before that writer was asked. So the moves that
/// `begin` and `advance` decide carry out the broadcast: they end with the
/// first answer that is no success, and with the last success where every
/// writer succeeds.
pub proof fn lemma_advance_broadcast<S, I, E>(
    slots: Seq<Option<S>>,
    answers: spec_fn(int) -> Outcome<I, E>,
    at: int,
    so_far: I,
    step: Step<I, E>,
)
    requires
        0 <= at < slots.len(),
        slots[at] is Some,
        advances(slots, at, answers(at), step),
    ensures
        rest_of(slots, answers, step, answers(at)->Ready_0) == broadcast(
            slots,
            answers,
            at,
            so_far,
        ),
{
    match answers(at) {
        Outcome::Ready(value) => match step {
            Step::Visit(key) => lemma_broadcast_skips(slots, answers, at + 1, key as int, value),
            Step::Done(_) => lemma_broadcast_skips(
                slots,
                answers,
                at + 1,
                slots.len() as int,
                value,
            ),
        },
        _ => {},
    }
}

} // verus!
