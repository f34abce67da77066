//! The mathematical model of an output queue: a `Seq` whose first element is
//! the oldest pending output.
//!
//! The contracts of the `poll_*` and `handle_*` operations are stated over the
//! functions of this file; the lemmas say what follows for a driver that calls
//! them repeatedly.

use vstd::prelude::*;

verus! {

/// What one poll hands out of the queue `q`: its oldest element, or nothing
/// when the queue is empty.
pub open spec fn next_output<T>(q: Seq<T>) -> Option<T> {
    if q.len() == 0 {
        None
    } else {
        Some(q[0])
    }
}

/// The queue that one poll leaves behind: `q` without its oldest element. An
/// empty queue stays as it is.
pub open spec fn after_poll<T>(q: Seq<T>) -> Seq<T> {
    if q.len() == 0 {
        q
    } else {
        q.subrange(1, q.len() as int)
    }
}

/// The queue that `n` polls in a row leave behind.
pub open spec fn after_polls<T>(q: Seq<T>, n: nat) -> Seq<T>
    decreases n,
{
    if n == 0 {
        q
    } else {
        after_poll(after_polls(q, (n - 1) as nat))
    }
}

/// The outputs that a `handle_*` call appended, given the queue before the
/// call and the queue after it.
pub open spec fn produced<T>(before: Seq<T>, after: Seq<T>) -> Seq<T> {
    after.subrange(before.len() as int, after.len() as int)
}

/// `states` is the history of one queue over a run of `handle_*` calls with no
/// poll in between: each state only adds to the end of the one before it.
pub open spec fn only_appends<T>(states: Seq<Seq<T>>) -> bool {
    forall|i: int|
        0 <= i && i + 1 < states.len() ==> (#[trigger] states[i]).is_prefix_of(states[i + 1])
}

/// Everything that was appended over the history `states`, batch after batch,
/// in the order of the calls.
pub open spec fn all_produced<T>(states: Seq<Seq<T>>) -> Seq<T>
    decreases states.len(),
{
    if states.len() < 2 {
        Seq::empty()
    } else {
        all_produced(states.drop_last()) + produced(
            states[states.len() - 2],
            states[states.len() - 1],
        )
    }
}

/// `n` polls remove the `n` oldest elements, or all of them when the queue
/// holds fewer.
pub proof fn lemma_after_polls_skips<T>(q: Seq<T>, n: nat)
    ensures
        n <= q.len() ==> after_polls(q, n) == q.subrange(n as int, q.len() as int),
        n >= q.len() ==> after_polls(q, n) == Seq::<T>::empty(),
    decreases n,
{
    if n == 0 {
        assert(q.subrange(0, q.len() as int) =~= q);
        if q.len() == 0 {
            assert(q =~= Seq::<T>::empty());
        }
    } else {
        let m = (n - 1) as nat;
        lemma_after_polls_skips(q, m);
        let prev = after_polls(q, m);
        if n <= q.len() {
            assert(prev == q.subrange(m as int, q.len() as int));
            assert(after_poll(prev) =~= q.subrange(n as int, q.len() as int));
            if n == q.len() {
                assert(q.subrange(n as int, q.len() as int) =~= Seq::<T>::empty());
            }
        } else {
            assert(prev == Seq::<T>::empty());
        }
    }
}

/// Draining is first in, first out: the poll that follows `i` earlier polls
/// hands out the element at index `i`, and every poll after the last element
/// hands out nothing.
pub proof fn lemma_polls_are_fifo<T>(q: Seq<T>, i: nat)
    ensures
        i < q.len() ==> next_output(after_polls(q, i)) == Some(q[i as int]),
        i >= q.len() ==> next_output(after_polls(q, i)) == None::<T>,
        i >= q.len() ==> after_polls(q, i).len() == 0,
{
    lemma_after_polls_skips(q, i);
}

/// An empty queue has nothing to hand out and stays empty, however often it is
/// polled.
pub proof fn lemma_empty_queue_polls_nothing<T>(n: nat)
    ensures
        next_output(after_polls(Seq::<T>::empty(), n)) == None::<T>,
        after_polls(Seq::<T>::empty(), n) == Seq::<T>::empty(),
{
    lemma_after_polls_skips(Seq::<T>::empty(), n);
}

/// Outputs appended behind pending ones come out after them and in the order
/// in which they were appended.
pub proof fn lemma_appended_come_out_last<T>(before: Seq<T>, after: Seq<T>)
    requires
        before.is_prefix_of(after),
    ensures
        after == before + produced(before, after),
        after_polls(after, before.len()) == produced(before, after),
        forall|i: int|
            0 <= i < before.len() ==> next_output(after_polls(after, i as nat)) == Some(
                #[trigger] before[i],
            ),
{
    assert(after =~= before + produced(before, after));
    lemma_after_polls_skips(after, before.len());
    assert forall|i: int| 0 <= i < before.len() implies next_output(after_polls(after, i as nat))
        == Some(#[trigger] before[i]) by {
        lemma_polls_are_fifo(after, i as nat);
        assert(before[i] == after.subrange(0, before.len() as int)[i]);
    }
}

/// Over a run of `handle_*` calls the queue grows by exactly what the calls
/// produced, in the order of the calls.
pub proof fn lemma_history_accumulates<T>(states: Seq<Seq<T>>)
    requires
        states.len() > 0,
        only_appends(states),
    ensures
        states.last() == states[0] + all_produced(states),
    decreases states.len(),
{
    if states.len() < 2 {
        assert(states.last() =~= states[0] + Seq::<T>::empty());
    } else {
        let shorter = states.drop_last();
        assert forall|i: int| 0 <= i && i + 1 < shorter.len() implies (#[trigger] shorter[i])
            .is_prefix_of(shorter[i + 1]) by {
            assert(shorter[i] == states[i]);
            assert(shorter[i + 1] == states[i + 1]);
        }
        lemma_history_accumulates(shorter);
        let before = states[states.len() - 2];
        let after = states[states.len() - 1];
        assert(shorter.last() == before);
        assert(shorter[0] == states[0]);
        assert(before.is_prefix_of(after));
        lemma_appended_come_out_last(before, after);
        assert(after =~= states[0] + (all_produced(shorter) + produced(before, after)));
    }
}

/// Handle, then drain: starting from an empty queue, after any run of
/// `handle_*` calls, repeated polls hand out exactly the outputs that the calls
/// produced, oldest first, and then nothing.
pub proof fn lemma_drain_returns_all_produced<T>(states: Seq<Seq<T>>, i: nat)
    requires
        states.len() > 0,
        states[0].len() == 0,
        only_appends(states),
    ensures
        states.last() == all_produced(states),
        i < all_produced(states).len() ==> next_output(after_polls(states.last(), i)) == Some(
            all_produced(states)[i as int],
        ),
        i >= all_produced(states).len() ==> next_output(after_polls(states.last(), i))
            == None::<T>,
{
    lemma_history_accumulates(states);
    assert(states[0] + all_produced(states) =~= all_produced(states));
    lemma_polls_are_fifo(states.last(), i);
}

} // verus!
