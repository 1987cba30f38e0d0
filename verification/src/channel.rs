//! An unbounded mpsc channel: a client of the executor's wake protocol.
//!
//! The shared state is a `Channel`: the queued messages in FIFO order, the
//! single consumer's registered wake handle, and liveness counts for the
//! two sides.  `Sender` and `Receiver` are capability tokens: each
//! operation takes the shared state explicitly, and returns the wake handle
//! the caller must invoke instead of invoking it under the lock, mirroring
//! the rule that waking never happens re-entrantly.  Dropping a side is the
//! explicit `close`, which consumes the token.

use std::collections::VecDeque;
use std::marker::PhantomData;
use vstd::prelude::*;

use crate::task::Poll;
use crate::wake::WakeRef;

verus! {

/// The abstract state of a channel.
pub struct ChannelView<T> {
    /// Messages in flight, oldest first.
    pub data: Seq<T>,
    /// The consumer's registered wake handle, if it is waiting.
    pub recv: Option<WakeRef>,
    /// Whether the receiver is still there.
    pub receiver: bool,
    /// How many senders are still there.
    pub senders: usize,
}

/// The shared state of one channel.
pub struct Channel<T> {
    data: VecDeque<T>,
    recv: Option<WakeRef>,
    receiver: bool,
    senders: usize,
}

impl<T> View for Channel<T> {
    type V = ChannelView<T>;

    closed spec fn view(&self) -> ChannelView<T> {
        ChannelView {
            data: self.data@,
            recv: self.recv,
            receiver: self.receiver,
            senders: self.senders,
        }
    }
}

/// The sending capability of a channel.  Unforgeable (the field is
/// private): senders exist only through `channel`, `duplicate` and
/// `close`, each of which adjusts the shared count, so a channel's
/// `senders` equals its live sending capabilities — `recv` reports
/// closure only once every one of them has been consumed.  Pairing a
/// capability with the channel state it was created for is the caller's
/// charge, as it was when a shared pointer tied the two.
pub struct Sender<T> {
    marker: PhantomData<T>,
}

/// The receiving capability of a channel: at most one exists per channel,
/// created by `channel` and consumed by `close`.  Unforgeable and paired
/// with its channel as for `Sender`.
pub struct Receiver<T> {
    marker: PhantomData<T>,
}

/// Creates an unbounded mpsc channel for communicating between
/// computations without backpressure: empty, one sender, receiver present.
pub fn channel<T>() -> (r: (Channel<T>, Sender<T>, Receiver<T>))
    ensures
        r.0@ == (ChannelView {
            data: Seq::<T>::empty(),
            recv: None::<WakeRef>,
            receiver: true,
            senders: 1,
        }),
{
    let ch = Channel { data: VecDeque::new(), recv: None, receiver: true, senders: 1 };
    (ch, Sender { marker: PhantomData }, Receiver { marker: PhantomData })
}

impl<T> Sender<T> {
    /// Send a message over the channel.  Fails, handing the message back,
    /// exactly when the receiver is gone; otherwise the message joins the
    /// back of the queue and the consumer's registered wake handle, if any,
    /// is taken for the caller to invoke.
    pub fn send(&self, ch: &mut Channel<T>, t: T) -> (r: Result<Option<WakeRef>, T>)
        ensures
            !old(ch)@.receiver ==> r == Err::<Option<WakeRef>, T>(t) && final(ch)@ == old(ch)@,
            old(ch)@.receiver ==> r == Ok::<Option<WakeRef>, T>(old(ch)@.recv) && final(ch)@
                == (ChannelView { data: old(ch)@.data.push(t), recv: None::<WakeRef>, ..old(ch)@ }),
    {
        if !ch.receiver {
            return Err(t);
        }
        ch.data.push_back(t);
        let w = ch.recv.take();
        Ok(w)
    }

    /// A further sending capability: the sender count grows by one.
    pub fn duplicate(&self, ch: &mut Channel<T>) -> (s: Sender<T>)
        requires
            old(ch)@.senders < usize::MAX,
        ensures
            final(ch)@ == (ChannelView { senders: (old(ch)@.senders + 1) as usize, ..old(ch)@ }),
    {
        ch.senders = ch.senders + 1;
        Sender { marker: PhantomData }
    }

    /// Drop this sending capability.  The last sender to go takes the
    /// consumer's registered wake handle, if any, for the caller to invoke,
    /// so a waiting receiver learns the channel is closed.
    pub fn close(self, ch: &mut Channel<T>) -> (w: Option<WakeRef>)
        requires
            old(ch)@.senders > 0,
        ensures
            old(ch)@.senders == 1 ==> w == old(ch)@.recv && final(ch)@ == (ChannelView {
                senders: 0,
                recv: None::<WakeRef>,
                ..old(ch)@
            }),
            old(ch)@.senders > 1 ==> w == None::<WakeRef> && final(ch)@ == (ChannelView {
                senders: (old(ch)@.senders - 1) as usize,
                ..old(ch)@
            }),
    {
        ch.senders = ch.senders - 1;
        if ch.senders == 0 {
            ch.recv.take()
        } else {
            None
        }
    }
}

impl<T> Receiver<T> {
    /// One poll of a receive: the oldest queued message if any, `None` once
    /// the queue is empty and every sender is gone, and otherwise "not
    /// yet", with `me` registered as the consumer's wake handle.
    pub fn recv(&self, ch: &mut Channel<T>, me: WakeRef) -> (r: Poll<Option<T>>)
        ensures
            old(ch)@.data.len() > 0 ==> r == Poll::<Option<T>>::Ready(Some(old(ch)@.data[0]))
                && final(ch)@ == (ChannelView { data: old(ch)@.data.drop_first(), ..old(ch)@ }),
            old(ch)@.data.len() == 0 && old(ch)@.senders == 0 ==> r == Poll::<Option<T>>::Ready(
                None::<T>,
            ) && final(ch)@ == old(ch)@,
            old(ch)@.data.len() == 0 && old(ch)@.senders > 0 ==> r == Poll::<Option<T>>::Pending
                && final(ch)@ == (ChannelView { recv: Some(me), ..old(ch)@ }),
    {
        match ch.data.pop_front() {
            Some(t) => {
                proof {
                    assert(final(ch)@.data =~= old(ch)@.data.drop_first());
                }
                Poll::Ready(Some(t))
            },
            None => {
                if ch.senders == 0 {
                    Poll::Ready(None)
                } else {
                    ch.recv = Some(me);
                    Poll::Pending
                }
            },
        }
    }

    /// Drop the receiving capability: senders learn of it when their next
    /// send fails.
    pub fn close(self, ch: &mut Channel<T>)
        ensures
            final(ch)@ == (ChannelView { receiver: false, ..old(ch)@ }),
    {
        ch.receiver = false;
    }
}

} // verus!
