//! What a client does before it asks the runner.
use vstd::prelude::*;

use crate::bounded::BoundedVec;
use crate::collections::NatsCollections;
use crate::error::CapacityError;
use crate::message::InternalCmd;

verus! {

/// The subscriptions of one client; `R` is where their messages come from.
///
/// Any number of clients can share a runner. They also share the count of all subscriptions, of
/// which the runner can handle `N`.
#[verifier::reject_recursive_types(R)]
pub struct Client<R, const N: usize> {
    sub_vec: BoundedVec<R, N>,
}

impl<R, const N: usize> View for Client<R, N> {
    type V = Seq<R>;

    closed spec fn view(&self) -> Seq<R> {
        self.sub_vec@
    }
}

/// The count of all subscriptions after one more was asked for.
pub open spec fn counted(count: nat, max: nat) -> nat {
    if count < max {
        count + 1
    } else {
        count
    }
}

/// Whether a client with `own` subscriptions gets one more where there are `count` in all.
pub open spec fn is_accepted(own: nat, count: nat, max: nat) -> bool {
    count < max && own < max
}

impl<R, const N: usize> Client<R, N> {
    /// A client without subscriptions.
    pub fn new() -> (client: Self)
        ensures
            client@ == Seq::<R>::empty(),
    {
        Client { sub_vec: BoundedVec::new() }
    }

    /// Where the messages of the subscriptions come from.
    pub fn receivers(&self) -> (receivers: &[R])
        ensures
            receivers@ == self@,
            receivers@.len() <= N,
    {
        self.sub_vec.as_slice()
    }

    /// The request to publish a payload under a topic.
    pub fn publish<C: NatsCollections, S>(topic: C::Topic, bytes: C::MsgBuf) -> (cmd: InternalCmd<
        C,
        S,
    >)
        ensures
            cmd == InternalCmd::<C, S>::Pub(topic, bytes),
    {
        InternalCmd::Pub(topic, bytes)
    }

    /// The request to subscribe to a topic, unless all the subscriptions that the runner can handle
    /// are taken. `sub_count` is the number of those of all clients.
    pub fn subscribe<C: NatsCollections, S>(
        &mut self,
        sub_count: &mut usize,
        topic: C::Topic,
        receiver: R,
        sender: S,
    ) -> (r: Result<InternalCmd<C, S>, CapacityError>)
        ensures
            *final(sub_count) == counted(*old(sub_count) as nat, N as nat),
            *old(sub_count) < N ==> *final(sub_count) == *old(sub_count) + 1,
            *old(sub_count) >= N ==> *final(sub_count) == *old(sub_count),
            if *old(sub_count) < N && old(self)@.len() < N {
                &&& r == Ok::<_, CapacityError>(InternalCmd::<C, S>::Sub(topic, sender))
                &&& final(self)@ == old(self)@.push(receiver)
            } else {
                &&& r == Err::<InternalCmd<C, S>, _>(CapacityError::Subscriptions)
                &&& final(self)@ == old(self)@
            },
            if is_accepted(old(self)@.len(), *old(sub_count) as nat, N as nat) {
                &&& r == Ok::<_, CapacityError>(InternalCmd::<C, S>::Sub(topic, sender))
                &&& final(self)@ == old(self)@.push(receiver)
            } else {
                &&& r == Err::<InternalCmd<C, S>, _>(CapacityError::Subscriptions)
                &&& final(self)@ == old(self)@
            },
    {
        if *sub_count >= N {
            return Err(CapacityError::Subscriptions);
        }
        *sub_count += 1;
        match self.sub_vec.push(receiver) {
            Ok(()) => Ok(InternalCmd::Sub(topic, sender)),
            Err(_) => Err(CapacityError::Subscriptions),
        }
    }
}

impl<R, const N: usize> Clone for Client<R, N> {
    /// Another client of the same runner, without subscriptions.
    fn clone(&self) -> (client: Self)
        ensures
            client@ == Seq::<R>::empty(),
    {
        Client::new()
    }
}

} // verus!
