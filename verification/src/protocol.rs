//! The [`Protocol`] trait and the two adapters that forward to an implementor.
//!
//! A protocol owns three queues of pending outputs (read, write, event), at
//! most one pending deadline, and a flag that says whether it was closed. The
//! trait names this state with its model functions and states every operation
//! over them. The oldest pending output of a queue is the first element of its
//! `Seq`.

use crate::fifo::{after_poll, next_output};
use std::time::Instant;
use vstd::prelude::*;

verus! {

/// `std::time::Instant`, the monotonic timestamp that the driver hands to
/// `handle_timeout` and receives from `poll_timeout`. Nothing is claimed of it:
/// the contracts only carry its values through and compare them for equality.
#[verifier::external_type_specification]
#[verifier::external_body]
pub struct ExInstant(Instant);

/// Protocol logic that is decoupled from the network and from timers.
///
/// `Rin`, `Win` and `Ein` are what the three channels take in; `Rout`, `Wout`
/// and `Eout` are what they put out. The driver feeds one input with a
/// `handle_*` call and then polls the matching `poll_*` until it returns
/// `None`, since one input may produce several outputs. After any `handle_*`
/// call it asks `poll_timeout` again.
///
/// Every operation needs a well-formed instance and leaves one behind,
/// whatever it returns: after an error, and after `close`, the instance can
/// still be called. No operation promises success: whether an input is
/// accepted is the implementor's decision.
///
/// Two things cannot stand in the contracts of this trait and are laws that
/// an implementor proves: that `poll_event` and `poll_timeout` return `None`
/// only when nothing is pending ([`ExactPolls`]), and that the fallible
/// operations depend on nothing but the protocol and their argument
/// ([`Deterministic`]).
///
/// The model functions have bodies so that an implementor written in ordinary
/// Rust need not give them: its model is then one of which nothing is known. A
/// verified implementor states its queues, its deadline and its closed flag.
pub trait Protocol<Rin, Win, Ein> {
    /// Associated output read type
    type Rout;

    /// Associated output write type
    type Wout;

    /// Associated output event type
    type Eout;

    /// Associated result error type
    type Error;

    /// The implementor's invariant. A newly made instance satisfies it.
    open spec fn wf(&self) -> bool {
        true
    }

    /// The read outputs that wait to be polled, oldest first.
    open spec fn pending_reads(&self) -> Seq<Self::Rout> {
        arbitrary()
    }

    /// The write outputs that wait to be polled, oldest first.
    open spec fn pending_writes(&self) -> Seq<Self::Wout> {
        arbitrary()
    }

    /// The event outputs that wait to be polled, oldest first.
    open spec fn pending_events(&self) -> Seq<Self::Eout> {
        arbitrary()
    }

    /// The instant at which the driver is to call `handle_timeout` next, or
    /// `None` when no timer is pending.
    open spec fn pending_timeout(&self) -> Option<Instant> {
        arbitrary()
    }

    /// Whether the instance has been marked terminal.
    open spec fn is_closed(&self) -> bool {
        arbitrary()
    }

    /// Handles Rin and returns Rout for next inbound handler handling
    ///
    /// The outputs are appended to the read queue: what was pending stays
    /// pending, in its order. The write queue and the event queue are not
    /// touched. The deadline may change. After an error the read queue may
    /// hold outputs that were produced before the message was found invalid.
    fn handle_read(&mut self, msg: Rin) -> (r: Result<(), Self::Error>)
        requires
            (*old(self)).wf(),
        ensures
            (*final(self)).wf(),
            (*old(self)).pending_reads().is_prefix_of((*final(self)).pending_reads()),
            (*final(self)).pending_writes() == (*old(self)).pending_writes(),
            (*final(self)).pending_events() == (*old(self)).pending_events(),
            (*final(self)).is_closed() == (*old(self)).is_closed(),
    ;

    /// Polls Rout from internal queue for next inbound handler handling
    ///
    /// Hands out the oldest pending read output and removes it, or returns
    /// `None` when none is pending. Nothing else changes.
    fn poll_read(&mut self) -> (r: Option<Self::Rout>)
        requires
            (*old(self)).wf(),
        ensures
            (*final(self)).wf(),
            r == next_output((*old(self)).pending_reads()),
            (*final(self)).pending_reads() == after_poll((*old(self)).pending_reads()),
            (*final(self)).pending_writes() == (*old(self)).pending_writes(),
            (*final(self)).pending_events() == (*old(self)).pending_events(),
            (*final(self)).pending_timeout() == (*old(self)).pending_timeout(),
            (*final(self)).is_closed() == (*old(self)).is_closed(),
    ;

    /// Handles Win and returns Wout for next outbound handler handling
    ///
    /// The mirror of `handle_read` for the outbound direction: the outputs are
    /// appended to the write queue, and the read queue and the event queue are
    /// not touched. The deadline may change.
    fn handle_write(&mut self, msg: Win) -> (r: Result<(), Self::Error>)
        requires
            (*old(self)).wf(),
        ensures
            (*final(self)).wf(),
            (*old(self)).pending_writes().is_prefix_of((*final(self)).pending_writes()),
            (*final(self)).pending_reads() == (*old(self)).pending_reads(),
            (*final(self)).pending_events() == (*old(self)).pending_events(),
            (*final(self)).is_closed() == (*old(self)).is_closed(),
    ;

    /// Polls Wout from internal queue for next outbound handler handling
    ///
    /// Hands out the oldest pending write output and removes it, or returns
    /// `None` when none is pending. Nothing else changes.
    fn poll_write(&mut self) -> (r: Option<Self::Wout>)
        requires
            (*old(self)).wf(),
        ensures
            (*final(self)).wf(),
            r == next_output((*old(self)).pending_writes()),
            (*final(self)).pending_writes() == after_poll((*old(self)).pending_writes()),
            (*final(self)).pending_reads() == (*old(self)).pending_reads(),
            (*final(self)).pending_events() == (*old(self)).pending_events(),
            (*final(self)).pending_timeout() == (*old(self)).pending_timeout(),
            (*final(self)).is_closed() == (*old(self)).is_closed(),
    ;

    /// Handles event
    ///
    /// The outputs are appended to the event queue, and the read queue and the
    /// write queue are not touched. The deadline may change. The provided body
    /// is for an implementor without events: it accepts every event and
    /// changes nothing.
    fn handle_event(&mut self, _evt: Ein) -> (r: Result<(), Self::Error>)
        requires
            (*old(self)).wf(),
        ensures
            (*final(self)).wf(),
            (*old(self)).pending_events().is_prefix_of((*final(self)).pending_events()),
            (*final(self)).pending_reads() == (*old(self)).pending_reads(),
            (*final(self)).pending_writes() == (*old(self)).pending_writes(),
            (*final(self)).is_closed() == (*old(self)).is_closed(),
        default_ensures
            r is Ok,
            &*final(self) == &*old(self),
    {
        Ok(())
    }

    /// Polls event
    ///
    /// An output that is handed out is the oldest pending event output, and it
    /// is removed; when nothing is handed out the queue is as it was. Nothing
    /// else changes. The provided body is for an implementor without events:
    /// it returns `None` and changes nothing. Since it has to meet this
    /// contract for every implementor, the contract cannot say that `None` is
    /// returned only for an empty queue: an implementor proves that in
    /// [`ExactPolls`].
    fn poll_event(&mut self) -> (r: Option<Self::Eout>)
        requires
            (*old(self)).wf(),
        ensures
            (*final(self)).wf(),
            r is Some ==> r == next_output((*old(self)).pending_events()),
            r is Some ==> (*final(self)).pending_events() == after_poll(
                (*old(self)).pending_events(),
            ),
            r is None ==> (*final(self)).pending_events() == (*old(self)).pending_events(),
            (*final(self)).pending_reads() == (*old(self)).pending_reads(),
            (*final(self)).pending_writes() == (*old(self)).pending_writes(),
            (*final(self)).pending_timeout() == (*old(self)).pending_timeout(),
            (*final(self)).is_closed() == (*old(self)).is_closed(),
        default_ensures
            r is None,
            &*final(self) == &*old(self),
    {
        None
    }

    /// Handles timeout
    ///
    /// Advances the state that depends on time. Each queue may gain outputs
    /// at its end, and the deadline may be cleared or set anew; which of these
    /// happens for a `now` before or after the deadline is the implementor's
    /// policy. Time enters through `now` only: that two calls which find equal
    /// protocols and get the same `now` do the same relates two calls, so it
    /// is a law of [`Deterministic`] and no clause here. The provided body is
    /// for an implementor without timers: it succeeds and changes nothing.
    fn handle_timeout(&mut self, _now: Instant) -> (r: Result<(), Self::Error>)
        requires
            (*old(self)).wf(),
        ensures
            (*final(self)).wf(),
            (*old(self)).pending_reads().is_prefix_of((*final(self)).pending_reads()),
            (*old(self)).pending_writes().is_prefix_of((*final(self)).pending_writes()),
            (*old(self)).pending_events().is_prefix_of((*final(self)).pending_events()),
            (*final(self)).is_closed() == (*old(self)).is_closed(),
        default_ensures
            r is Ok,
            &*final(self) == &*old(self),
    {
        Ok(())
    }

    /// Polls timeout
    ///
    /// A deadline that is returned is the pending one. The call is a query:
    /// the deadline stays pending, and queues and closed flag are as before.
    /// The provided body is for an implementor without timers: it returns
    /// `None`. Since it has to meet this contract for every implementor, the
    /// contract cannot say that `None` is returned only when no timer is
    /// pending: an implementor proves that in [`ExactPolls`].
    fn poll_timeout(&mut self) -> (r: Option<Instant>)
        requires
            (*old(self)).wf(),
        ensures
            (*final(self)).wf(),
            r is Some ==> r == (*old(self)).pending_timeout(),
            (*final(self)).pending_timeout() == (*old(self)).pending_timeout(),
            (*final(self)).pending_reads() == (*old(self)).pending_reads(),
            (*final(self)).pending_writes() == (*old(self)).pending_writes(),
            (*final(self)).pending_events() == (*old(self)).pending_events(),
            (*final(self)).is_closed() == (*old(self)).is_closed(),
        default_ensures
            r is None,
            &*final(self) == &*old(self),
    {
        None
    }

    /// Closes protocol
    ///
    /// The only operation that may mark the instance terminal. It may be
    /// called at any time and any number of times: a closed instance stays
    /// closed, and the instance stays well-formed. Each queue may gain outputs
    /// at its end, and the deadline may change. The provided body succeeds and
    /// changes nothing.
    fn close(&mut self) -> (r: Result<(), Self::Error>)
        requires
            (*old(self)).wf(),
        ensures
            (*final(self)).wf(),
            (*old(self)).is_closed() ==> (*final(self)).is_closed(),
            (*old(self)).pending_reads().is_prefix_of((*final(self)).pending_reads()),
            (*old(self)).pending_writes().is_prefix_of((*final(self)).pending_writes()),
            (*old(self)).pending_events().is_prefix_of((*final(self)).pending_events()),
        default_ensures
            r is Ok,
            &*final(self) == &*old(self),
    {
        Ok(())
    }
}

/// A protocol whose `poll_event` and `poll_timeout` return `None` only when
/// nothing is pending.
///
/// The two lemmas speak of a call through the mutable reference `x` that was
/// handed to it: `*old(x)` is the protocol before the call, `*final(x)` the
/// protocol after it, and `call_ensures` says that the call may have returned
/// `r`. An implementor proves them from the contract of its own `poll_event`
/// and `poll_timeout`. For the provided bodies that contract says that `None`
/// is returned and nothing changes, so an implementor that keeps them can
/// prove the lemmas only if its event queue is always empty and it never has a
/// timer pending.
///
/// A caller that is generic over the protocol, and has polled, picks the call
/// that it made with `choose` (a reference `x` with `call_ensures` for the
/// result it got and with `*x` the protocol before the poll) and applies the
/// lemma to it.
pub trait ExactPolls<Rin, Win, Ein>: Protocol<Rin, Win, Ein> {
    /// `poll_event` hands out the oldest pending event output and removes it,
    /// or returns `None` when none is pending.
    proof fn lemma_poll_event_exact(x: &mut Self, r: Option<Self::Eout>)
        requires
            (*old(x)).wf(),
            call_ensures(Self::poll_event, (x,), r),
        ensures
            r == next_output((*old(x)).pending_events()),
            (*final(x)).pending_events() == after_poll((*old(x)).pending_events()),
    ;

    /// `poll_timeout` returns the pending deadline, or `None` when no timer is
    /// pending.
    proof fn lemma_poll_timeout_exact(x: &mut Self, r: Option<Instant>)
        requires
            (*old(x)).wf(),
            call_ensures(Self::poll_timeout, (x,), r),
        ensures
            r == (*old(x)).pending_timeout(),
    ;
}

/// The two protocols are alike as far as the model says: both or neither are
/// well-formed, and they have the same pending outputs, the same pending
/// deadline and the same closed flag.
pub open spec fn same_model<Rin, Win, Ein, P: Protocol<Rin, Win, Ein> + ?Sized>(
    a: &P,
    b: &P,
) -> bool {
    &&& a.wf() == b.wf()
    &&& a.pending_reads() == b.pending_reads()
    &&& a.pending_writes() == b.pending_writes()
    &&& a.pending_events() == b.pending_events()
    &&& a.pending_timeout() == b.pending_timeout()
    &&& a.is_closed() == b.is_closed()
}

/// The two results are the same: both are `Ok`, or both are `Err` with the
/// same error.
pub open spec fn same_result<E>(a: Result<(), E>, b: Result<(), E>) -> bool {
    (a is Ok && b is Ok) || (a is Err && b is Err && a->Err_0 == b->Err_0)
}

/// A protocol whose fallible operations are pure: what `handle_read`,
/// `handle_write`, `handle_event`, `handle_timeout` and `close` return, and
/// the model of the protocol that they leave, depend on nothing but the
/// protocol that they find and their argument. No clock is read and no chance
/// enters.
///
/// Each lemma speaks of two calls `x` and `y` of one operation that find equal
/// protocols and get the same argument. An implementor proves it from the
/// contract of its own operation; the provided bodies meet it as they stand.
/// The polls need no such lemma: the contract of `poll_read` and `poll_write`,
/// and [`ExactPolls`] for the other two, fix their result and the model they
/// leave.
pub trait Deterministic<Rin, Win, Ein>: Protocol<Rin, Win, Ein> {
    /// `handle_read` is determined by the protocol it finds and by `msg`.
    proof fn lemma_handle_read_determined(
        x: &mut Self,
        y: &mut Self,
        msg: Rin,
        rx: Result<(), Self::Error>,
        ry: Result<(), Self::Error>,
    )
        requires
            (*old(x)).wf(),
            &*old(x) == &*old(y),
            call_ensures(Self::handle_read, (x, msg), rx),
            call_ensures(Self::handle_read, (y, msg), ry),
        ensures
            same_result(rx, ry),
            same_model::<Rin, Win, Ein, Self>(&*final(x), &*final(y)),
    ;

    /// `handle_write` is determined by the protocol it finds and by `msg`.
    proof fn lemma_handle_write_determined(
        x: &mut Self,
        y: &mut Self,
        msg: Win,
        rx: Result<(), Self::Error>,
        ry: Result<(), Self::Error>,
    )
        requires
            (*old(x)).wf(),
            &*old(x) == &*old(y),
            call_ensures(Self::handle_write, (x, msg), rx),
            call_ensures(Self::handle_write, (y, msg), ry),
        ensures
            same_result(rx, ry),
            same_model::<Rin, Win, Ein, Self>(&*final(x), &*final(y)),
    ;

    /// `handle_event` is determined by the protocol it finds and by `evt`.
    proof fn lemma_handle_event_determined(
        x: &mut Self,
        y: &mut Self,
        evt: Ein,
        rx: Result<(), Self::Error>,
        ry: Result<(), Self::Error>,
    )
        requires
            (*old(x)).wf(),
            &*old(x) == &*old(y),
            call_ensures(Self::handle_event, (x, evt), rx),
            call_ensures(Self::handle_event, (y, evt), ry),
        ensures
            same_result(rx, ry),
            same_model::<Rin, Win, Ein, Self>(&*final(x), &*final(y)),
    ;

    /// `handle_timeout` is determined by the protocol it finds and by `now`:
    /// time enters through `now` only.
    proof fn lemma_handle_timeout_determined(
        x: &mut Self,
        y: &mut Self,
        now: Instant,
        rx: Result<(), Self::Error>,
        ry: Result<(), Self::Error>,
    )
        requires
            (*old(x)).wf(),
            &*old(x) == &*old(y),
            call_ensures(Self::handle_timeout, (x, now), rx),
            call_ensures(Self::handle_timeout, (y, now), ry),
        ensures
            same_result(rx, ry),
            same_model::<Rin, Win, Ein, Self>(&*final(x), &*final(y)),
    ;

    /// `close` is determined by the protocol it finds.
    proof fn lemma_close_determined(
        x: &mut Self,
        y: &mut Self,
        rx: Result<(), Self::Error>,
        ry: Result<(), Self::Error>,
    )
        requires
            (*old(x)).wf(),
            &*old(x) == &*old(y),
            call_ensures(Self::close, (x,), rx),
            call_ensures(Self::close, (y,), ry),
        ensures
            same_result(rx, ry),
            same_model::<Rin, Win, Ein, Self>(&*final(x), &*final(y)),
    ;
}

/// A mutable borrow of a protocol is a protocol. It does not own the protocol
/// and lives no longer than the borrow. Its state is the state of the borrowed
/// value, and every operation, provided or not, is that operation on the
/// borrowed value: in each contract `x` is the call on the value, which starts
/// with the value as it was and leaves the value as it is afterwards. The
/// last clause of each contract says that the borrow is of the same value
/// after the call as before it: when the borrow ends, the owner finds the
/// value as the last call has left it. Each body names the reborrow that it
/// hands to the call.
impl<P, Rin, Win, Ein> Protocol<Rin, Win, Ein> for &mut P where P: Protocol<Rin, Win, Ein> + ?Sized {
    type Rout = P::Rout;

    type Wout = P::Wout;

    type Eout = P::Eout;

    type Error = P::Error;

    open spec fn wf(&self) -> bool {
        (**self).wf()
    }

    open spec fn pending_reads(&self) -> Seq<P::Rout> {
        (**self).pending_reads()
    }

    open spec fn pending_writes(&self) -> Seq<P::Wout> {
        (**self).pending_writes()
    }

    open spec fn pending_events(&self) -> Seq<P::Eout> {
        (**self).pending_events()
    }

    open spec fn pending_timeout(&self) -> Option<Instant> {
        (**self).pending_timeout()
    }

    open spec fn is_closed(&self) -> bool {
        (**self).is_closed()
    }

    fn handle_read(&mut self, msg: Rin) -> (r: Result<(), P::Error>)
        ensures
            exists|x: &mut P| #[trigger]
                call_ensures(P::handle_read, (x, msg), r) && &*x == &**old(self)
                    && &*final(x) == &**final(self),
            &*final(*final(self)) == &*final(*old(self)),
    {
        let inner: &mut P = &mut **self;
        inner.handle_read(msg)
    }

    fn poll_read(&mut self) -> (r: Option<P::Rout>)
        ensures
            exists|x: &mut P| #[trigger]
                call_ensures(P::poll_read, (x,), r) && &*x == &**old(self)
                    && &*final(x) == &**final(self),
            &*final(*final(self)) == &*final(*old(self)),
    {
        let inner: &mut P = &mut **self;
        inner.poll_read()
    }

    fn handle_write(&mut self, msg: Win) -> (r: Result<(), P::Error>)
        ensures
            exists|x: &mut P| #[trigger]
                call_ensures(P::handle_write, (x, msg), r) && &*x == &**old(self)
                    && &*final(x) == &**final(self),
            &*final(*final(self)) == &*final(*old(self)),
    {
        let inner: &mut P = &mut **self;
        inner.handle_write(msg)
    }

    fn poll_write(&mut self) -> (r: Option<P::Wout>)
        ensures
            exists|x: &mut P| #[trigger]
                call_ensures(P::poll_write, (x,), r) && &*x == &**old(self)
                    && &*final(x) == &**final(self),
            &*final(*final(self)) == &*final(*old(self)),
    {
        let inner: &mut P = &mut **self;
        inner.poll_write()
    }

    fn handle_event(&mut self, evt: Ein) -> (r: Result<(), P::Error>)
        ensures
            exists|x: &mut P| #[trigger]
                call_ensures(P::handle_event, (x, evt), r) && &*x == &**old(self)
                    && &*final(x) == &**final(self),
            &*final(*final(self)) == &*final(*old(self)),
    {
        let inner: &mut P = &mut **self;
        inner.handle_event(evt)
    }

    fn poll_event(&mut self) -> (r: Option<P::Eout>)
        ensures
            exists|x: &mut P| #[trigger]
                call_ensures(P::poll_event, (x,), r) && &*x == &**old(self)
                    && &*final(x) == &**final(self),
            &*final(*final(self)) == &*final(*old(self)),
    {
        let inner: &mut P = &mut **self;
        inner.poll_event()
    }

    fn handle_timeout(&mut self, now: Instant) -> (r: Result<(), P::Error>)
        ensures
            exists|x: &mut P| #[trigger]
                call_ensures(P::handle_timeout, (x, now), r) && &*x == &**old(self)
                    && &*final(x) == &**final(self),
            &*final(*final(self)) == &*final(*old(self)),
    {
        let inner: &mut P = &mut **self;
        inner.handle_timeout(now)
    }

    fn poll_timeout(&mut self) -> (r: Option<Instant>)
        ensures
            exists|x: &mut P| #[trigger]
                call_ensures(P::poll_timeout, (x,), r) && &*x == &**old(self)
                    && &*final(x) == &**final(self),
            &*final(*final(self)) == &*final(*old(self)),
    {
        let inner: &mut P = &mut **self;
        inner.poll_timeout()
    }

    fn close(&mut self) -> (r: Result<(), P::Error>)
        ensures
            exists|x: &mut P| #[trigger]
                call_ensures(P::close, (x,), r) && &*x == &**old(self)
                    && &*final(x) == &**final(self),
            &*final(*final(self)) == &*final(*old(self)),
    {
        let inner: &mut P = &mut **self;
        inner.close()
    }
}

/// A boxed protocol is a protocol, so that implementors of different types can
/// be used through one handle. Its state is the state of the boxed value, and
/// every operation, provided or not, is that operation on the boxed value: in
/// each contract `x` is the call on the value, which starts with the value as
/// it was and leaves the value as it is afterwards. Each body names the
/// reborrow that it hands to that call.
impl<P, Rin, Win, Ein> Protocol<Rin, Win, Ein> for Box<P> where P: Protocol<Rin, Win, Ein> + ?Sized {
    type Rout = P::Rout;

    type Wout = P::Wout;

    type Eout = P::Eout;

    type Error = P::Error;

    open spec fn wf(&self) -> bool {
        (**self).wf()
    }

    open spec fn pending_reads(&self) -> Seq<P::Rout> {
        (**self).pending_reads()
    }

    open spec fn pending_writes(&self) -> Seq<P::Wout> {
        (**self).pending_writes()
    }

    open spec fn pending_events(&self) -> Seq<P::Eout> {
        (**self).pending_events()
    }

    open spec fn pending_timeout(&self) -> Option<Instant> {
        (**self).pending_timeout()
    }

    open spec fn is_closed(&self) -> bool {
        (**self).is_closed()
    }

    fn handle_read(&mut self, msg: Rin) -> (r: Result<(), P::Error>)
        ensures
            exists|x: &mut P| #[trigger]
                call_ensures(P::handle_read, (x, msg), r) && &*x == &**old(self)
                    && &*final(x) == &**final(self),
    {
        let inner: &mut P = &mut **self;
        inner.handle_read(msg)
    }

    fn poll_read(&mut self) -> (r: Option<P::Rout>)
        ensures
            exists|x: &mut P| #[trigger]
                call_ensures(P::poll_read, (x,), r) && &*x == &**old(self)
                    && &*final(x) == &**final(self),
    {
        let inner: &mut P = &mut **self;
        inner.poll_read()
    }

    fn handle_write(&mut self, msg: Win) -> (r: Result<(), P::Error>)
        ensures
            exists|x: &mut P| #[trigger]
                call_ensures(P::handle_write, (x, msg), r) && &*x == &**old(self)
                    && &*final(x) == &**final(self),
    {
        let inner: &mut P = &mut **self;
        inner.handle_write(msg)
    }

    fn poll_write(&mut self) -> (r: Option<P::Wout>)
        ensures
            exists|x: &mut P| #[trigger]
                call_ensures(P::poll_write, (x,), r) && &*x == &**old(self)
                    && &*final(x) == &**final(self),
    {
        let inner: &mut P = &mut **self;
        inner.poll_write()
    }

    fn handle_event(&mut self, evt: Ein) -> (r: Result<(), P::Error>)
        ensures
            exists|x: &mut P| #[trigger]
                call_ensures(P::handle_event, (x, evt), r) && &*x == &**old(self)
                    && &*final(x) == &**final(self),
    {
        let inner: &mut P = &mut **self;
        inner.handle_event(evt)
    }

    fn poll_event(&mut self) -> (r: Option<P::Eout>)
        ensures
            exists|x: &mut P| #[trigger]
                call_ensures(P::poll_event, (x,), r) && &*x == &**old(self)
                    && &*final(x) == &**final(self),
    {
        let inner: &mut P = &mut **self;
        inner.poll_event()
    }

    fn handle_timeout(&mut self, now: Instant) -> (r: Result<(), P::Error>)
        ensures
            exists|x: &mut P| #[trigger]
                call_ensures(P::handle_timeout, (x, now), r) && &*x == &**old(self)
                    && &*final(x) == &**final(self),
    {
        let inner: &mut P = &mut **self;
        inner.handle_timeout(now)
    }

    fn poll_timeout(&mut self) -> (r: Option<Instant>)
        ensures
            exists|x: &mut P| #[trigger]
                call_ensures(P::poll_timeout, (x,), r) && &*x == &**old(self)
                    && &*final(x) == &**final(self),
    {
        let inner: &mut P = &mut **self;
        inner.poll_timeout()
    }

    fn close(&mut self) -> (r: Result<(), P::Error>)
        ensures
            exists|x: &mut P| #[trigger]
                call_ensures(P::close, (x,), r) && &*x == &**old(self)
                    && &*final(x) == &**final(self),
    {
        let inner: &mut P = &mut **self;
        inner.close()
    }
}

/// The polls of a borrowed protocol are exact where those of the protocol are.
impl<P, Rin, Win, Ein> ExactPolls<Rin, Win, Ein> for &mut P where P: ExactPolls<Rin, Win, Ein> + ?Sized {
    proof fn lemma_poll_event_exact(x: &mut Self, r: Option<P::Eout>) {
        let inner = choose|y: &mut P| #[trigger]
            call_ensures(P::poll_event, (y,), r) && &*y == &**old(x) && &*final(y) == &**final(x);
        P::lemma_poll_event_exact(inner, r);
    }

    proof fn lemma_poll_timeout_exact(x: &mut Self, r: Option<Instant>) {
        let inner = choose|y: &mut P| #[trigger]
            call_ensures(P::poll_timeout, (y,), r) && &*y == &**old(x) && &*final(y) == &**final(x);
        P::lemma_poll_timeout_exact(inner, r);
    }
}

/// The polls of a boxed protocol are exact where those of the protocol are.
impl<P, Rin, Win, Ein> ExactPolls<Rin, Win, Ein> for Box<P> where P: ExactPolls<Rin, Win, Ein> + ?Sized {
    proof fn lemma_poll_event_exact(x: &mut Self, r: Option<P::Eout>) {
        let inner = choose|y: &mut P| #[trigger]
            call_ensures(P::poll_event, (y,), r) && &*y == &**old(x) && &*final(y) == &**final(x);
        P::lemma_poll_event_exact(inner, r);
    }

    proof fn lemma_poll_timeout_exact(x: &mut Self, r: Option<Instant>) {
        let inner = choose|y: &mut P| #[trigger]
            call_ensures(P::poll_timeout, (y,), r) && &*y == &**old(x) && &*final(y) == &**final(x);
        P::lemma_poll_timeout_exact(inner, r);
    }
}

/// A borrowed protocol is pure where the protocol is.
impl<P, Rin, Win, Ein> Deterministic<Rin, Win, Ein> for &mut P where
    P: Deterministic<Rin, Win, Ein> + ?Sized,
{
    proof fn lemma_handle_read_determined(
        x: &mut Self,
        y: &mut Self,
        msg: Rin,
        rx: Result<(), P::Error>,
        ry: Result<(), P::Error>,
    ) {
        let inner_x = choose|z: &mut P| #[trigger]
            call_ensures(P::handle_read, (z, msg), rx) && &*z == &**old(x) && &*final(z) == &**final(x);
        let inner_y = choose|z: &mut P| #[trigger]
            call_ensures(P::handle_read, (z, msg), ry) && &*z == &**old(y) && &*final(z) == &**final(y);
        P::lemma_handle_read_determined(inner_x, inner_y, msg, rx, ry);
    }

    proof fn lemma_handle_write_determined(
        x: &mut Self,
        y: &mut Self,
        msg: Win,
        rx: Result<(), P::Error>,
        ry: Result<(), P::Error>,
    ) {
        let inner_x = choose|z: &mut P| #[trigger]
            call_ensures(P::handle_write, (z, msg), rx) && &*z == &**old(x) && &*final(z) == &**final(x);
        let inner_y = choose|z: &mut P| #[trigger]
            call_ensures(P::handle_write, (z, msg), ry) && &*z == &**old(y) && &*final(z) == &**final(y);
        P::lemma_handle_write_determined(inner_x, inner_y, msg, rx, ry);
    }

    proof fn lemma_handle_event_determined(
        x: &mut Self,
        y: &mut Self,
        evt: Ein,
        rx: Result<(), P::Error>,
        ry: Result<(), P::Error>,
    ) {
        let inner_x = choose|z: &mut P| #[trigger]
            call_ensures(P::handle_event, (z, evt), rx) && &*z == &**old(x) && &*final(z) == &**final(x);
        let inner_y = choose|z: &mut P| #[trigger]
            call_ensures(P::handle_event, (z, evt), ry) && &*z == &**old(y) && &*final(z) == &**final(y);
        P::lemma_handle_event_determined(inner_x, inner_y, evt, rx, ry);
    }

    proof fn lemma_handle_timeout_determined(
        x: &mut Self,
        y: &mut Self,
        now: Instant,
        rx: Result<(), P::Error>,
        ry: Result<(), P::Error>,
    ) {
        let inner_x = choose|z: &mut P| #[trigger]
            call_ensures(P::handle_timeout, (z, now), rx) && &*z == &**old(x) && &*final(z) == &**final(x);
        let inner_y = choose|z: &mut P| #[trigger]
            call_ensures(P::handle_timeout, (z, now), ry) && &*z == &**old(y) && &*final(z) == &**final(y);
        P::lemma_handle_timeout_determined(inner_x, inner_y, now, rx, ry);
    }

    proof fn lemma_close_determined(
        x: &mut Self,
        y: &mut Self,
        rx: Result<(), P::Error>,
        ry: Result<(), P::Error>,
    ) {
        let inner_x = choose|z: &mut P| #[trigger]
            call_ensures(P::close, (z,), rx) && &*z == &**old(x) && &*final(z) == &**final(x);
        let inner_y = choose|z: &mut P| #[trigger]
            call_ensures(P::close, (z,), ry) && &*z == &**old(y) && &*final(z) == &**final(y);
        P::lemma_close_determined(inner_x, inner_y, rx, ry);
    }
}

/// A boxed protocol is pure where the protocol is.
impl<P, Rin, Win, Ein> Deterministic<Rin, Win, Ein> for Box<P> where
    P: Deterministic<Rin, Win, Ein> + ?Sized,
{
    proof fn lemma_handle_read_determined(
        x: &mut Self,
        y: &mut Self,
        msg: Rin,
        rx: Result<(), P::Error>,
        ry: Result<(), P::Error>,
    ) {
        let inner_x = choose|z: &mut P| #[trigger]
            call_ensures(P::handle_read, (z, msg), rx) && &*z == &**old(x) && &*final(z) == &**final(x);
        let inner_y = choose|z: &mut P| #[trigger]
            call_ensures(P::handle_read, (z, msg), ry) && &*z == &**old(y) && &*final(z) == &**final(y);
        P::lemma_handle_read_determined(inner_x, inner_y, msg, rx, ry);
    }

    proof fn lemma_handle_write_determined(
        x: &mut Self,
        y: &mut Self,
        msg: Win,
        rx: Result<(), P::Error>,
        ry: Result<(), P::Error>,
    ) {
        let inner_x = choose|z: &mut P| #[trigger]
            call_ensures(P::handle_write, (z, msg), rx) && &*z == &**old(x) && &*final(z) == &**final(x);
        let inner_y = choose|z: &mut P| #[trigger]
            call_ensures(P::handle_write, (z, msg), ry) && &*z == &**old(y) && &*final(z) == &**final(y);
        P::lemma_handle_write_determined(inner_x, inner_y, msg, rx, ry);
    }

    proof fn lemma_handle_event_determined(
        x: &mut Self,
        y: &mut Self,
        evt: Ein,
        rx: Result<(), P::Error>,
        ry: Result<(), P::Error>,
    ) {
        let inner_x = choose|z: &mut P| #[trigger]
            call_ensures(P::handle_event, (z, evt), rx) && &*z == &**old(x) && &*final(z) == &**final(x);
        let inner_y = choose|z: &mut P| #[trigger]
            call_ensures(P::handle_event, (z, evt), ry) && &*z == &**old(y) && &*final(z) == &**final(y);
        P::lemma_handle_event_determined(inner_x, inner_y, evt, rx, ry);
    }

    proof fn lemma_handle_timeout_determined(
        x: &mut Self,
        y: &mut Self,
        now: Instant,
        rx: Result<(), P::Error>,
        ry: Result<(), P::Error>,
    ) {
        let inner_x = choose|z: &mut P| #[trigger]
            call_ensures(P::handle_timeout, (z, now), rx) && &*z == &**old(x) && &*final(z) == &**final(x);
        let inner_y = choose|z: &mut P| #[trigger]
            call_ensures(P::handle_timeout, (z, now), ry) && &*z == &**old(y) && &*final(z) == &**final(y);
        P::lemma_handle_timeout_determined(inner_x, inner_y, now, rx, ry);
    }

    proof fn lemma_close_determined(
        x: &mut Self,
        y: &mut Self,
        rx: Result<(), P::Error>,
        ry: Result<(), P::Error>,
    ) {
        let inner_x = choose|z: &mut P| #[trigger]
            call_ensures(P::close, (z,), rx) && &*z == &**old(x) && &*final(z) == &**final(x);
        let inner_y = choose|z: &mut P| #[trigger]
            call_ensures(P::close, (z,), ry) && &*z == &**old(y) && &*final(z) == &**final(y);
        P::lemma_close_determined(inner_x, inner_y, rx, ry);
    }
}

} // verus!
