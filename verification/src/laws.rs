//! What follows from the contract for a driver, stated over calls.
//!
//! A call is named by the mutable reference `x` that was handed to it: `*x` is
//! the protocol before the call, `*final(x)` the protocol after it, and
//! [`may_return`] says which operation was called and what it returned. In a
//! run each call starts with the protocol that the call before it left.

use crate::fifo::{
    after_polls, all_produced, lemma_history_accumulates, lemma_polls_are_fifo, next_output,
};
use crate::protocol::{same_model, same_result, Deterministic, ExactPolls, Protocol};
use std::time::Instant;
use vstd::prelude::*;

verus! {

/// One call that a driver can make, with its input.
pub enum Op<Rin, Win, Ein> {
    HandleRead(Rin),
    PollRead,
    HandleWrite(Win),
    PollWrite,
    HandleEvent(Ein),
    PollEvent,
    HandleTimeout(Instant),
    PollTimeout,
    Close,
}

impl<Rin, Win, Ein> Op<Rin, Win, Ein> {
    /// The call is one of the four polls.
    pub open spec fn is_poll(self) -> bool {
        self is PollRead || self is PollWrite || self is PollEvent || self is PollTimeout
    }
}

/// What one call returned.
pub enum Outcome<Rout, Wout, Eout, Error> {
    /// From `handle_read`, `handle_write`, `handle_event`, `handle_timeout` and
    /// `close`.
    Handled(Result<(), Error>),
    /// From `poll_read`.
    Read(Option<Rout>),
    /// From `poll_write`.
    Write(Option<Wout>),
    /// From `poll_event`.
    Event(Option<Eout>),
    /// From `poll_timeout`.
    Deadline(Option<Instant>),
}

/// The call of `op` on `x` may have returned `out`.
pub open spec fn may_return<Rin, Win, Ein, P: Protocol<Rin, Win, Ein> + ?Sized>(
    x: &mut P,
    op: Op<Rin, Win, Ein>,
    out: Outcome<P::Rout, P::Wout, P::Eout, P::Error>,
) -> bool {
    match op {
        Op::HandleRead(msg) => out matches Outcome::Handled(r) && call_ensures(
            P::handle_read,
            (x, msg),
            r,
        ),
        Op::PollRead => out matches Outcome::Read(r) && call_ensures(P::poll_read, (x,), r),
        Op::HandleWrite(msg) => out matches Outcome::Handled(r) && call_ensures(
            P::handle_write,
            (x, msg),
            r,
        ),
        Op::PollWrite => out matches Outcome::Write(r) && call_ensures(P::poll_write, (x,), r),
        Op::HandleEvent(evt) => out matches Outcome::Handled(r) && call_ensures(
            P::handle_event,
            (x, evt),
            r,
        ),
        Op::PollEvent => out matches Outcome::Event(r) && call_ensures(P::poll_event, (x,), r),
        Op::HandleTimeout(now) => out matches Outcome::Handled(r) && call_ensures(
            P::handle_timeout,
            (x, now),
            r,
        ),
        Op::PollTimeout => out matches Outcome::Deadline(r) && call_ensures(
            P::poll_timeout,
            (x,),
            r,
        ),
        Op::Close => out matches Outcome::Handled(r) && call_ensures(P::close, (x,), r),
    }
}

/// No operation corrupts the protocol. In a run that starts with a well-formed
/// protocol every call finds a well-formed protocol and leaves one, whatever
/// the calls are and whatever they return: after an error, and after any
/// number of `close` calls, every operation can still be called.
pub proof fn lemma_run_stays_well_formed<Rin, Win, Ein, P: Protocol<Rin, Win, Ein> + ?Sized>(
    calls: Seq<&mut P>,
    ops: Seq<Op<Rin, Win, Ein>>,
    outs: Seq<Outcome<P::Rout, P::Wout, P::Eout, P::Error>>,
    i: int,
)
    requires
        ops.len() == calls.len(),
        outs.len() == calls.len(),
        0 <= i < calls.len(),
        (*calls[0]).wf(),
        forall|k: int| 0 <= k < calls.len() ==> may_return(#[trigger] calls[k], ops[k], outs[k]),
        forall|k: int|
            0 <= k && k + 1 < calls.len() ==> &*calls[k + 1] == &*final(#[trigger] calls[k]),
    ensures
        (*calls[i]).wf(),
        (*final(calls[i])).wf(),
    decreases i,
{
    if i > 0 {
        lemma_run_stays_well_formed(calls, ops, outs, i - 1);
        assert(&*calls[i] == &*final(calls[i - 1]));
    }
    assert(may_return(calls[i], ops[i], outs[i]));
}

/// Closing is terminal, and only `close` closes. In a run that starts with a
/// well-formed protocol, a protocol that is closed before call `i` is closed
/// after every later call `j`; and a call that finds the protocol open and
/// leaves it closed is a call of `close`.
pub proof fn lemma_closed_is_terminal<Rin, Win, Ein, P: Protocol<Rin, Win, Ein> + ?Sized>(
    calls: Seq<&mut P>,
    ops: Seq<Op<Rin, Win, Ein>>,
    outs: Seq<Outcome<P::Rout, P::Wout, P::Eout, P::Error>>,
    i: int,
    j: int,
)
    requires
        ops.len() == calls.len(),
        outs.len() == calls.len(),
        0 <= i <= j < calls.len(),
        (*calls[0]).wf(),
        forall|k: int| 0 <= k < calls.len() ==> may_return(#[trigger] calls[k], ops[k], outs[k]),
        forall|k: int|
            0 <= k && k + 1 < calls.len() ==> &*calls[k + 1] == &*final(#[trigger] calls[k]),
    ensures
        (*calls[i]).is_closed() ==> (*final(calls[j])).is_closed(),
        !(*calls[j]).is_closed() && (*final(calls[j])).is_closed() ==> ops[j] is Close,
    decreases j - i,
{
    lemma_run_stays_well_formed(calls, ops, outs, j);
    assert(may_return(calls[j], ops[j], outs[j]));
    if i < j {
        lemma_closed_is_terminal(calls, ops, outs, i, j - 1);
        assert(&*calls[j] == &*final(calls[j - 1]));
    }
}

/// Nothing waits to be polled on `p`: the three queues are empty and no timer
/// is pending. This is the state of a newly made protocol.
pub open spec fn nothing_pending<Rin, Win, Ein, P: Protocol<Rin, Win, Ein> + ?Sized>(
    p: &P,
) -> bool {
    &&& p.pending_reads().len() == 0
    &&& p.pending_writes().len() == 0
    &&& p.pending_events().len() == 0
    &&& p.pending_timeout() is None
}

/// Before the first `handle_*` call every poll returns `None`. In a run of
/// polls on a protocol on which nothing is pending, each of `poll_read`,
/// `poll_write`, `poll_event` and `poll_timeout` returns `None` and leaves
/// nothing pending.
pub proof fn lemma_idle_polls_return_none<Rin, Win, Ein, P: Protocol<Rin, Win, Ein> + ?Sized>(
    calls: Seq<&mut P>,
    ops: Seq<Op<Rin, Win, Ein>>,
    outs: Seq<Outcome<P::Rout, P::Wout, P::Eout, P::Error>>,
    i: int,
)
    requires
        ops.len() == calls.len(),
        outs.len() == calls.len(),
        0 <= i < calls.len(),
        (*calls[0]).wf(),
        nothing_pending::<Rin, Win, Ein, P>(&*calls[0]),
        forall|k: int| 0 <= k < calls.len() ==> (#[trigger] ops[k]).is_poll(),
        forall|k: int| 0 <= k < calls.len() ==> may_return(#[trigger] calls[k], ops[k], outs[k]),
        forall|k: int|
            0 <= k && k + 1 < calls.len() ==> &*calls[k + 1] == &*final(#[trigger] calls[k]),
    ensures
        ops[i] is PollRead ==> outs[i] matches Outcome::Read(None),
        ops[i] is PollWrite ==> outs[i] matches Outcome::Write(None),
        ops[i] is PollEvent ==> outs[i] matches Outcome::Event(None),
        ops[i] is PollTimeout ==> outs[i] matches Outcome::Deadline(None),
        nothing_pending::<Rin, Win, Ein, P>(&*final(calls[i])),
    decreases i,
{
    lemma_run_stays_well_formed(calls, ops, outs, i);
    if i > 0 {
        lemma_idle_polls_return_none(calls, ops, outs, i - 1);
        assert(&*calls[i] == &*final(calls[i - 1]));
    }
    assert(may_return(calls[i], ops[i], outs[i]));
    assert(ops[i].is_poll());
}

/// A run of `poll_read` calls takes the read queue apart from its front: call
/// `i` finds the queue that `i` polls leave of the first one and hands out its
/// oldest element, or `None` once the queue is empty.
pub proof fn lemma_read_polls_drain<Rin, Win, Ein, P: Protocol<Rin, Win, Ein> + ?Sized>(
    polls: Seq<&mut P>,
    outs: Seq<Option<P::Rout>>,
    i: int,
)
    requires
        outs.len() == polls.len(),
        0 <= i < polls.len(),
        (*polls[0]).wf(),
        forall|k: int|
            0 <= k < polls.len() ==> call_ensures(P::poll_read, (#[trigger] polls[k],), outs[k]),
        forall|k: int|
            0 <= k && k + 1 < polls.len() ==> &*polls[k + 1] == &*final(#[trigger] polls[k]),
    ensures
        (*polls[i]).wf(),
        (*final(polls[i])).wf(),
        (*polls[i]).pending_reads() == after_polls((*polls[0]).pending_reads(), i as nat),
        (*final(polls[i])).pending_reads() == after_polls(
            (*polls[0]).pending_reads(),
            (i + 1) as nat,
        ),
        outs[i] == next_output(after_polls((*polls[0]).pending_reads(), i as nat)),
    decreases i,
{
    if i > 0 {
        lemma_read_polls_drain(polls, outs, i - 1);
        assert(&*polls[i] == &*final(polls[i - 1]));
    }
    assert(call_ensures(P::poll_read, (polls[i],), outs[i]));
}

/// A run of `handle_read` calls only adds to the read queue: the queue that
/// call `i` leaves is a prefix of the queue that every later call `j` leaves,
/// so the outputs of each call stay where they were put, behind those of the
/// calls before it.
pub proof fn lemma_read_handles_append<Rin, Win, Ein, P: Protocol<Rin, Win, Ein> + ?Sized>(
    handles: Seq<&mut P>,
    msgs: Seq<Rin>,
    results: Seq<Result<(), P::Error>>,
    i: int,
    j: int,
)
    requires
        msgs.len() == handles.len(),
        results.len() == handles.len(),
        0 <= i <= j < handles.len(),
        (*handles[0]).wf(),
        forall|k: int|
            0 <= k < handles.len() ==> call_ensures(
                P::handle_read,
                (#[trigger] handles[k], msgs[k]),
                results[k],
            ),
        forall|k: int|
            0 <= k && k + 1 < handles.len() ==> &*handles[k + 1] == &*final(#[trigger] handles[k]),
    ensures
        (*handles[j]).wf(),
        (*final(handles[j])).wf(),
        (*handles[i]).pending_reads().is_prefix_of((*final(handles[j])).pending_reads()),
        (*final(handles[i])).pending_reads().is_prefix_of((*final(handles[j])).pending_reads()),
    decreases j,
{
    assert(call_ensures(P::handle_read, (handles[j], msgs[j]), results[j]));
    if j > 0 {
        lemma_read_handles_append(handles, msgs, results, 0, j - 1);
        assert(&*handles[j] == &*final(handles[j - 1]));
    }
    if i < j {
        lemma_read_handles_append(handles, msgs, results, i, j - 1);
    }
}

/// Handle, then drain. After a run of `handle_read` calls on a protocol whose
/// read queue was empty, a run of `poll_read` calls hands out exactly what the
/// calls produced, oldest first, and then `None`. With `q` the queue that the
/// last `handle_read` left: `q` is what the calls appended, batch after batch
/// in the order of the calls; poll `i` returns `q[i]` while there is one; and
/// every later poll returns `None`.
pub proof fn lemma_read_channel_is_fifo<Rin, Win, Ein, P: Protocol<Rin, Win, Ein> + ?Sized>(
    handles: Seq<&mut P>,
    msgs: Seq<Rin>,
    results: Seq<Result<(), P::Error>>,
    polls: Seq<&mut P>,
    outs: Seq<Option<P::Rout>>,
)
    requires
        handles.len() > 0,
        msgs.len() == handles.len(),
        results.len() == handles.len(),
        (*handles[0]).wf(),
        (*handles[0]).pending_reads().len() == 0,
        forall|k: int|
            0 <= k < handles.len() ==> call_ensures(
                P::handle_read,
                (#[trigger] handles[k], msgs[k]),
                results[k],
            ),
        forall|k: int|
            0 <= k && k + 1 < handles.len() ==> &*handles[k + 1] == &*final(#[trigger] handles[k]),
        polls.len() > 0,
        outs.len() == polls.len(),
        &*polls[0] == &*final(handles[handles.len() - 1]),
        forall|k: int|
            0 <= k < polls.len() ==> call_ensures(P::poll_read, (#[trigger] polls[k],), outs[k]),
        forall|k: int|
            0 <= k && k + 1 < polls.len() ==> &*polls[k + 1] == &*final(#[trigger] polls[k]),
    ensures
        (*polls[0]).pending_reads() == all_produced(
            Seq::new(
                handles.len() + 1,
                |k: int|
                    if k == 0 {
                        (*handles[0]).pending_reads()
                    } else {
                        (*final(handles[k - 1])).pending_reads()
                    },
            ),
        ),
        forall|i: int|
            0 <= i < polls.len() && i < (*polls[0]).pending_reads().len() ==> #[trigger] outs[i]
                == Some((*polls[0]).pending_reads()[i]),
        forall|i: int|
            0 <= i < polls.len() && i >= (*polls[0]).pending_reads().len() ==> #[trigger] outs[i]
                == None::<P::Rout>,
{
    let q = (*polls[0]).pending_reads();
    let history = Seq::new(
        handles.len() + 1,
        |k: int|
            if k == 0 {
                (*handles[0]).pending_reads()
            } else {
                (*final(handles[k - 1])).pending_reads()
            },
    );
    assert forall|k: int| 0 <= k && k + 1 < history.len() implies (#[trigger] history[k])
        .is_prefix_of(history[k + 1]) by {
        lemma_read_handles_append(handles, msgs, results, k, k);
        if k > 0 {
            assert(&*handles[k] == &*final(handles[k - 1]));
        }
    }
    assert(history.last() == q);
    lemma_history_accumulates(history);
    assert(history[0] + all_produced(history) =~= all_produced(history));
    assert forall|i: int| 0 <= i < polls.len() implies (i < q.len() ==> #[trigger] outs[i] == Some(
        q[i],
    )) && (i >= q.len() ==> outs[i] == None::<P::Rout>) by {
        lemma_read_polls_drain(polls, outs, i);
        lemma_polls_are_fifo(q, i as nat);
    }
}

/// A run of `poll_write` calls takes the write queue apart from its front: call
/// `i` finds the queue that `i` polls leave of the first one and hands out its
/// oldest element, or `None` once the queue is empty.
pub proof fn lemma_write_polls_drain<Rin, Win, Ein, P: Protocol<Rin, Win, Ein> + ?Sized>(
    polls: Seq<&mut P>,
    outs: Seq<Option<P::Wout>>,
    i: int,
)
    requires
        outs.len() == polls.len(),
        0 <= i < polls.len(),
        (*polls[0]).wf(),
        forall|k: int|
            0 <= k < polls.len() ==> call_ensures(P::poll_write, (#[trigger] polls[k],), outs[k]),
        forall|k: int|
            0 <= k && k + 1 < polls.len() ==> &*polls[k + 1] == &*final(#[trigger] polls[k]),
    ensures
        (*polls[i]).wf(),
        (*final(polls[i])).wf(),
        (*polls[i]).pending_writes() == after_polls((*polls[0]).pending_writes(), i as nat),
        (*final(polls[i])).pending_writes() == after_polls(
            (*polls[0]).pending_writes(),
            (i + 1) as nat,
        ),
        outs[i] == next_output(after_polls((*polls[0]).pending_writes(), i as nat)),
    decreases i,
{
    if i > 0 {
        lemma_write_polls_drain(polls, outs, i - 1);
        assert(&*polls[i] == &*final(polls[i - 1]));
    }
    assert(call_ensures(P::poll_write, (polls[i],), outs[i]));
}

/// Where the polls are exact, a run of `poll_event` calls takes the event
/// queue apart from its front: call `i` finds the queue that `i` polls leave
/// of the first one and hands out its oldest element, or `None` once the
/// queue is empty.
pub proof fn lemma_event_polls_drain<Rin, Win, Ein, P: ExactPolls<Rin, Win, Ein> + ?Sized>(
    polls: Seq<&mut P>,
    outs: Seq<Option<P::Eout>>,
    i: int,
)
    requires
        outs.len() == polls.len(),
        0 <= i < polls.len(),
        (*polls[0]).wf(),
        forall|k: int|
            0 <= k < polls.len() ==> call_ensures(P::poll_event, (#[trigger] polls[k],), outs[k]),
        forall|k: int|
            0 <= k && k + 1 < polls.len() ==> &*polls[k + 1] == &*final(#[trigger] polls[k]),
    ensures
        (*polls[i]).wf(),
        (*final(polls[i])).wf(),
        (*polls[i]).pending_events() == after_polls((*polls[0]).pending_events(), i as nat),
        (*final(polls[i])).pending_events() == after_polls(
            (*polls[0]).pending_events(),
            (i + 1) as nat,
        ),
        outs[i] == next_output(after_polls((*polls[0]).pending_events(), i as nat)),
    decreases i,
{
    if i > 0 {
        lemma_event_polls_drain(polls, outs, i - 1);
        assert(&*polls[i] == &*final(polls[i - 1]));
    }
    assert(call_ensures(P::poll_event, (polls[i],), outs[i]));
    P::lemma_poll_event_exact(polls[i], outs[i]);
}

/// Polling does not use up the deadline. Where the polls are exact, in a run
/// of polls of any kind every `poll_timeout` returns the deadline that was
/// pending when the run began, and that deadline is still pending after the
/// run.
pub proof fn lemma_deadline_survives_polls<Rin, Win, Ein, P: ExactPolls<Rin, Win, Ein> + ?Sized>(
    calls: Seq<&mut P>,
    ops: Seq<Op<Rin, Win, Ein>>,
    outs: Seq<Outcome<P::Rout, P::Wout, P::Eout, P::Error>>,
    i: int,
)
    requires
        ops.len() == calls.len(),
        outs.len() == calls.len(),
        0 <= i < calls.len(),
        (*calls[0]).wf(),
        forall|k: int| 0 <= k < calls.len() ==> (#[trigger] ops[k]).is_poll(),
        forall|k: int| 0 <= k < calls.len() ==> may_return(#[trigger] calls[k], ops[k], outs[k]),
        forall|k: int|
            0 <= k && k + 1 < calls.len() ==> &*calls[k + 1] == &*final(#[trigger] calls[k]),
    ensures
        ops[i] is PollTimeout ==> (outs[i] matches Outcome::Deadline(d) && d
            == (*calls[0]).pending_timeout()),
        (*calls[i]).pending_timeout() == (*calls[0]).pending_timeout(),
        (*final(calls[i])).pending_timeout() == (*calls[0]).pending_timeout(),
    decreases i,
{
    lemma_run_stays_well_formed(calls, ops, outs, i);
    if i > 0 {
        lemma_deadline_survives_polls(calls, ops, outs, i - 1);
        assert(&*calls[i] == &*final(calls[i - 1]));
    }
    assert(may_return(calls[i], ops[i], outs[i]));
    assert(ops[i].is_poll());
    if ops[i] is PollTimeout {
        P::lemma_poll_timeout_exact(calls[i], outs[i]->Deadline_0);
    }
}

/// One call through a mutable borrow is that call on the borrowed value: the
/// same operation on the value that the borrow pointed to may return the same
/// result and leave the value that the borrow points to afterwards. The
/// borrow is of the same value after the call as before it, so its owner
/// finds the value as the last call has left it once the borrow ends.
pub proof fn lemma_borrowed_call_is_direct_call<Rin, Win, Ein, P: Protocol<Rin, Win, Ein> + ?Sized>(
    x: &mut &mut P,
    op: Op<Rin, Win, Ein>,
    out: Outcome<P::Rout, P::Wout, P::Eout, P::Error>,
)
    requires
        may_return::<Rin, Win, Ein, &mut P>(x, op, out),
    ensures
        exists|y: &mut P| #[trigger]
            may_return::<Rin, Win, Ein, P>(y, op, out) && &*y == &**old(x) && &*final(y)
                == &**final(x),
        &*final(*final(x)) == &*final(*old(x)),
{
    match op {
        Op::HandleRead(msg) => {
            let r = out->Handled_0;
            let y = choose|y: &mut P| #[trigger]
                call_ensures(P::handle_read, (y, msg), r) && &*y == &**x && &*final(y) == &**final(x);
            assert(may_return::<Rin, Win, Ein, P>(y, op, out));
        },
        Op::PollRead => {
            let r = out->Read_0;
            let y = choose|y: &mut P| #[trigger]
                call_ensures(P::poll_read, (y,), r) && &*y == &**x && &*final(y) == &**final(x);
            assert(may_return::<Rin, Win, Ein, P>(y, op, out));
        },
        Op::HandleWrite(msg) => {
            let r = out->Handled_0;
            let y = choose|y: &mut P| #[trigger]
                call_ensures(P::handle_write, (y, msg), r) && &*y == &**x && &*final(y) == &**final(x);
            assert(may_return::<Rin, Win, Ein, P>(y, op, out));
        },
        Op::PollWrite => {
            let r = out->Write_0;
            let y = choose|y: &mut P| #[trigger]
                call_ensures(P::poll_write, (y,), r) && &*y == &**x && &*final(y) == &**final(x);
            assert(may_return::<Rin, Win, Ein, P>(y, op, out));
        },
        Op::HandleEvent(evt) => {
            let r = out->Handled_0;
            let y = choose|y: &mut P| #[trigger]
                call_ensures(P::handle_event, (y, evt), r) && &*y == &**x && &*final(y) == &**final(x);
            assert(may_return::<Rin, Win, Ein, P>(y, op, out));
        },
        Op::PollEvent => {
            let r = out->Event_0;
            let y = choose|y: &mut P| #[trigger]
                call_ensures(P::poll_event, (y,), r) && &*y == &**x && &*final(y) == &**final(x);
            assert(may_return::<Rin, Win, Ein, P>(y, op, out));
        },
        Op::HandleTimeout(now) => {
            let r = out->Handled_0;
            let y = choose|y: &mut P| #[trigger]
                call_ensures(P::handle_timeout, (y, now), r) && &*y == &**x && &*final(y) == &**final(x);
            assert(may_return::<Rin, Win, Ein, P>(y, op, out));
        },
        Op::PollTimeout => {
            let r = out->Deadline_0;
            let y = choose|y: &mut P| #[trigger]
                call_ensures(P::poll_timeout, (y,), r) && &*y == &**x && &*final(y) == &**final(x);
            assert(may_return::<Rin, Win, Ein, P>(y, op, out));
        },
        Op::Close => {
            let r = out->Handled_0;
            let y = choose|y: &mut P| #[trigger]
                call_ensures(P::close, (y,), r) && &*y == &**x && &*final(y) == &**final(x);
            assert(may_return::<Rin, Win, Ein, P>(y, op, out));
        },
    }
}

/// Through a mutable borrow as on the value. To every run of calls on a
/// `&mut P`, in which each call finds the borrowed value as the call before it
/// left it, there is a run of the same operations on the borrowed `P` itself
/// with the same results, in which every call starts with the value that the
/// borrow pointed to and leaves the value that the borrow points to
/// afterwards. The borrow may be made anew between the calls. Each call
/// leaves the borrow it was made through on the same value, so that the owner
/// of the value finds it as the direct run leaves it.
pub proof fn lemma_borrowed_run_is_direct_run<Rin, Win, Ein, P: Protocol<Rin, Win, Ein> + ?Sized>(
    calls: Seq<&mut &mut P>,
    ops: Seq<Op<Rin, Win, Ein>>,
    outs: Seq<Outcome<P::Rout, P::Wout, P::Eout, P::Error>>,
)
    requires
        ops.len() == calls.len(),
        outs.len() == calls.len(),
        forall|k: int|
            0 <= k < calls.len() ==> may_return::<Rin, Win, Ein, &mut P>(
                #[trigger] calls[k],
                ops[k],
                outs[k],
            ),
        forall|k: int|
            0 <= k && k + 1 < calls.len() ==> &**calls[k + 1] == &**final(#[trigger] calls[k]),
    ensures
        exists|direct: Seq<&mut P>|
            {
                &&& direct.len() == calls.len()
                &&& forall|k: int|
                    0 <= k < direct.len() ==> may_return::<Rin, Win, Ein, P>(
                        #[trigger] direct[k],
                        ops[k],
                        outs[k],
                    )
                &&& forall|k: int|
                    0 <= k < direct.len() ==> &*(#[trigger] direct[k]) == &**calls[k] && &*final(direct[k])
                        == &**final(calls[k])
                &&& forall|k: int|
                    0 <= k && k + 1 < direct.len() ==> &*direct[k + 1] == &*final(#[trigger] direct[k])
            },
        forall|k: int|
            0 <= k < calls.len() ==> &*final(*final(#[trigger] calls[k])) == &*final(*calls[k]),
{
    let direct = Seq::new(
        calls.len(),
        |k: int|
            choose|y: &mut P| #[trigger]
                may_return::<Rin, Win, Ein, P>(y, ops[k], outs[k]) && &*y == &**calls[k]
                    && &*final(y) == &**final(calls[k]),
    );
    assert forall|k: int| 0 <= k < direct.len() implies may_return::<Rin, Win, Ein, P>(
        #[trigger] direct[k],
        ops[k],
        outs[k],
    ) && &*direct[k] == &**calls[k] && &*final(direct[k]) == &**final(calls[k]) by {
        lemma_borrowed_call_is_direct_call(calls[k], ops[k], outs[k]);
    }
    assert forall|k: int| 0 <= k && k + 1 < direct.len() implies &*direct[k + 1] == &*final(#[trigger] direct[k]) by {
        assert(&**calls[k + 1] == &**final(calls[k]));
    }
    assert forall|k: int| 0 <= k < calls.len() implies &*final(*final(#[trigger] calls[k]))
        == &*final(*calls[k]) by {
        lemma_borrowed_call_is_direct_call(calls[k], ops[k], outs[k]);
    }
}

/// One call through a box is that call on the boxed value: the same operation
/// on the value that the box held may return the same result and leave the
/// value that the box holds afterwards.
pub proof fn lemma_boxed_call_is_direct_call<Rin, Win, Ein, P: Protocol<Rin, Win, Ein> + ?Sized>(
    x: &mut Box<P>,
    op: Op<Rin, Win, Ein>,
    out: Outcome<P::Rout, P::Wout, P::Eout, P::Error>,
)
    requires
        may_return::<Rin, Win, Ein, Box<P>>(x, op, out),
    ensures
        exists|y: &mut P| #[trigger]
            may_return::<Rin, Win, Ein, P>(y, op, out) && &*y == &**old(x) && &*final(y)
                == &**final(x),
{
    match op {
        Op::HandleRead(msg) => {
            let r = out->Handled_0;
            let y = choose|y: &mut P| #[trigger]
                call_ensures(P::handle_read, (y, msg), r) && &*y == &**x && &*final(y) == &**final(x);
            assert(may_return::<Rin, Win, Ein, P>(y, op, out));
        },
        Op::PollRead => {
            let r = out->Read_0;
            let y = choose|y: &mut P| #[trigger]
                call_ensures(P::poll_read, (y,), r) && &*y == &**x && &*final(y) == &**final(x);
            assert(may_return::<Rin, Win, Ein, P>(y, op, out));
        },
        Op::HandleWrite(msg) => {
            let r = out->Handled_0;
            let y = choose|y: &mut P| #[trigger]
                call_ensures(P::handle_write, (y, msg), r) && &*y == &**x && &*final(y) == &**final(x);
            assert(may_return::<Rin, Win, Ein, P>(y, op, out));
        },
        Op::PollWrite => {
            let r = out->Write_0;
            let y = choose|y: &mut P| #[trigger]
                call_ensures(P::poll_write, (y,), r) && &*y == &**x && &*final(y) == &**final(x);
            assert(may_return::<Rin, Win, Ein, P>(y, op, out));
        },
        Op::HandleEvent(evt) => {
            let r = out->Handled_0;
            let y = choose|y: &mut P| #[trigger]
                call_ensures(P::handle_event, (y, evt), r) && &*y == &**x && &*final(y) == &**final(x);
            assert(may_return::<Rin, Win, Ein, P>(y, op, out));
        },
        Op::PollEvent => {
            let r = out->Event_0;
            let y = choose|y: &mut P| #[trigger]
                call_ensures(P::poll_event, (y,), r) && &*y == &**x && &*final(y) == &**final(x);
            assert(may_return::<Rin, Win, Ein, P>(y, op, out));
        },
        Op::HandleTimeout(now) => {
            let r = out->Handled_0;
            let y = choose|y: &mut P| #[trigger]
                call_ensures(P::handle_timeout, (y, now), r) && &*y == &**x && &*final(y) == &**final(x);
            assert(may_return::<Rin, Win, Ein, P>(y, op, out));
        },
        Op::PollTimeout => {
            let r = out->Deadline_0;
            let y = choose|y: &mut P| #[trigger]
                call_ensures(P::poll_timeout, (y,), r) && &*y == &**x && &*final(y) == &**final(x);
            assert(may_return::<Rin, Win, Ein, P>(y, op, out));
        },
        Op::Close => {
            let r = out->Handled_0;
            let y = choose|y: &mut P| #[trigger]
                call_ensures(P::close, (y,), r) && &*y == &**x && &*final(y) == &**final(x);
            assert(may_return::<Rin, Win, Ein, P>(y, op, out));
        },
    }
}

/// Through a box as on the value. To every run of calls on a `Box<P>` there is
/// a run of the same operations on the boxed `P` itself with the same results,
/// in which every call starts with the value that the box held and leaves the
/// value that the box holds afterwards.
pub proof fn lemma_boxed_run_is_direct_run<Rin, Win, Ein, P: Protocol<Rin, Win, Ein> + ?Sized>(
    calls: Seq<&mut Box<P>>,
    ops: Seq<Op<Rin, Win, Ein>>,
    outs: Seq<Outcome<P::Rout, P::Wout, P::Eout, P::Error>>,
)
    requires
        ops.len() == calls.len(),
        outs.len() == calls.len(),
        forall|k: int|
            0 <= k < calls.len() ==> may_return::<Rin, Win, Ein, Box<P>>(
                #[trigger] calls[k],
                ops[k],
                outs[k],
            ),
        forall|k: int|
            0 <= k && k + 1 < calls.len() ==> &*calls[k + 1] == &*final(#[trigger] calls[k]),
    ensures
        exists|direct: Seq<&mut P>|
            {
                &&& direct.len() == calls.len()
                &&& forall|k: int|
                    0 <= k < direct.len() ==> may_return::<Rin, Win, Ein, P>(
                        #[trigger] direct[k],
                        ops[k],
                        outs[k],
                    )
                &&& forall|k: int|
                    0 <= k < direct.len() ==> &*(#[trigger] direct[k]) == &**calls[k] && &*final(direct[k])
                        == &**final(calls[k])
                &&& forall|k: int|
                    0 <= k && k + 1 < direct.len() ==> &*direct[k + 1] == &*final(#[trigger] direct[k])
            },
{
    let direct = Seq::new(
        calls.len(),
        |k: int|
            choose|y: &mut P| #[trigger]
                may_return::<Rin, Win, Ein, P>(y, ops[k], outs[k]) && &*y == &**calls[k]
                    && &*final(y) == &**final(calls[k]),
    );
    assert forall|k: int| 0 <= k < direct.len() implies may_return::<Rin, Win, Ein, P>(
        #[trigger] direct[k],
        ops[k],
        outs[k],
    ) && &*direct[k] == &**calls[k] && &*final(direct[k]) == &**final(calls[k]) by {
        lemma_boxed_call_is_direct_call(calls[k], ops[k], outs[k]);
    }
    assert forall|k: int| 0 <= k && k + 1 < direct.len() implies &*direct[k + 1] == &*final(#[trigger] direct[k]) by {
        assert(&*calls[k + 1] == &*final(calls[k]));
    }
}

/// The two outcomes are the same: the same kind of result with the same
/// content.
pub open spec fn same_outcome<Rout, Wout, Eout, Error>(
    a: Outcome<Rout, Wout, Eout, Error>,
    b: Outcome<Rout, Wout, Eout, Error>,
) -> bool {
    match (a, b) {
        (Outcome::Handled(ra), Outcome::Handled(rb)) => same_result(ra, rb),
        _ => a == b,
    }
}

/// The logic is pure. Where the fallible operations are determined and the
/// polls are exact, two calls of one operation that find equal protocols and
/// get the same argument return the same and leave protocols with the same
/// model: for `handle_timeout` the timestamp is all that enters of time.
pub proof fn lemma_call_determined<
    Rin,
    Win,
    Ein,
    P: Deterministic<Rin, Win, Ein> + ExactPolls<Rin, Win, Ein> + ?Sized,
>(
    x: &mut P,
    y: &mut P,
    op: Op<Rin, Win, Ein>,
    out_x: Outcome<P::Rout, P::Wout, P::Eout, P::Error>,
    out_y: Outcome<P::Rout, P::Wout, P::Eout, P::Error>,
)
    requires
        (*old(x)).wf(),
        &*old(x) == &*old(y),
        may_return(x, op, out_x),
        may_return(y, op, out_y),
    ensures
        same_outcome(out_x, out_y),
        same_model::<Rin, Win, Ein, P>(&*final(x), &*final(y)),
{
    match op {
        Op::HandleRead(msg) => {
            P::lemma_handle_read_determined(x, y, msg, out_x->Handled_0, out_y->Handled_0);
        },
        Op::HandleWrite(msg) => {
            P::lemma_handle_write_determined(x, y, msg, out_x->Handled_0, out_y->Handled_0);
        },
        Op::HandleEvent(evt) => {
            P::lemma_handle_event_determined(x, y, evt, out_x->Handled_0, out_y->Handled_0);
        },
        Op::HandleTimeout(now) => {
            P::lemma_handle_timeout_determined(x, y, now, out_x->Handled_0, out_y->Handled_0);
        },
        Op::Close => {
            P::lemma_close_determined(x, y, out_x->Handled_0, out_y->Handled_0);
        },
        Op::PollRead => {},
        Op::PollWrite => {},
        Op::PollEvent => {
            P::lemma_poll_event_exact(x, out_x->Event_0);
            P::lemma_poll_event_exact(y, out_y->Event_0);
        },
        Op::PollTimeout => {
            P::lemma_poll_timeout_exact(x, out_x->Deadline_0);
            P::lemma_poll_timeout_exact(y, out_y->Deadline_0);
        },
    }
}

/// Pure through a mutable borrow. Two calls of one operation through borrows
/// of equal values, with the same argument, return the same and leave the
/// borrowed values with the same model. The two borrows need not be equal.
pub proof fn lemma_borrowed_call_determined<
    Rin,
    Win,
    Ein,
    P: Deterministic<Rin, Win, Ein> + ExactPolls<Rin, Win, Ein> + ?Sized,
>(
    x: &mut &mut P,
    y: &mut &mut P,
    op: Op<Rin, Win, Ein>,
    out_x: Outcome<P::Rout, P::Wout, P::Eout, P::Error>,
    out_y: Outcome<P::Rout, P::Wout, P::Eout, P::Error>,
)
    requires
        (**old(x)).wf(),
        &**old(x) == &**old(y),
        may_return::<Rin, Win, Ein, &mut P>(x, op, out_x),
        may_return::<Rin, Win, Ein, &mut P>(y, op, out_y),
    ensures
        same_outcome(out_x, out_y),
        same_model::<Rin, Win, Ein, P>(&**final(x), &**final(y)),
{
    lemma_borrowed_call_is_direct_call(x, op, out_x);
    lemma_borrowed_call_is_direct_call(y, op, out_y);
    let direct_x = choose|z: &mut P| #[trigger]
        may_return::<Rin, Win, Ein, P>(z, op, out_x) && &*z == &**x && &*final(z) == &**final(x);
    let direct_y = choose|z: &mut P| #[trigger]
        may_return::<Rin, Win, Ein, P>(z, op, out_y) && &*z == &**y && &*final(z) == &**final(y);
    lemma_call_determined(direct_x, direct_y, op, out_x, out_y);
}

} // verus!
