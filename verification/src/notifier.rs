//! The notifier: per operation, a ring buffer of the states persisted last,
//! and subscriptions that read them in order.
//!
//! Publishing never waits for a reader. A reader that falls behind the ring
//! is moved forward to the latest state and told how many states it missed.

use std::collections::VecDeque;
use vstd::prelude::*;
use crate::dyn_state::{views, DynState, DynStateView};
use crate::ids::OperationId;

verus! {

/// How many of an operation's latest states the notifier keeps.
pub const RING_CAPACITY: usize = 1024;

/// The stream of an operation after one more state was published. A stream
/// numbers its states with 64 bits; what comes after the last number is
/// dropped.
pub open spec fn published(history: Seq<DynStateView>, state: DynStateView) -> Seq<DynStateView> {
    if history.len() < u64::MAX {
        history.push(state)
    } else {
        history
    }
}

/// Publishing only ever appends to a stream.
pub proof fn lemma_published_extends(history: Seq<DynStateView>, state: DynStateView)
    ensures
        history.is_prefix_of(published(history, state)),
{
}

/// How many of a stream's latest states are still in the ring.
pub open spec fn retained(history: Seq<DynStateView>) -> nat {
    if history.len() < RING_CAPACITY {
        history.len()
    } else {
        RING_CAPACITY as nat
    }
}

struct Channel {
    operation_id: OperationId,
    ring: VecDeque<DynState>,
    sent: u64,
    history: Ghost<Seq<DynStateView>>,
}

impl Channel {
    spec fn wf(&self) -> bool {
        &&& self.history@.len() == self.sent
        &&& self.ring@.len() == retained(self.history@)
        &&& views(self.ring@) == self.history@.subrange(
            self.sent - self.ring@.len(),
            self.sent as int,
        )
    }
}

/// What a subscription receives.
#[derive(Debug)]
pub enum Delivery {
    /// The next state of the operation.
    State(DynState),
    /// The reader fell behind the ring and missed this many states; the
    /// latest state comes next.
    Lagged(u64),
    /// Nothing new has been published.
    Pending,
}

/// A reader of one operation's states: first those persisted when it
/// subscribed, then every state published after.
pub struct Subscription {
    operation_id: OperationId,
    snapshot: Vec<DynState>,
    delivered: usize,
    start: u64,
    next: u64,
    lagged: bool,
    observed: Ghost<Seq<DynStateView>>,
}

impl Subscription {
    /// The operation that is read.
    pub closed spec fn operation(&self) -> OperationId {
        self.operation_id
    }

    /// The states that were persisted when the subscription was made.
    pub closed spec fn snapshot(&self) -> Seq<DynStateView> {
        views(self.snapshot@)
    }

    /// How many states of the snapshot were delivered.
    pub closed spec fn delivered(&self) -> nat {
        self.delivered as nat
    }

    /// The stream position at which the subscription was made.
    pub closed spec fn start(&self) -> nat {
        self.start as nat
    }

    /// The stream position of the state that is read next.
    pub closed spec fn position(&self) -> nat {
        self.next as nat
    }

    /// Whether the reader ever fell behind the ring.
    pub closed spec fn lagged(&self) -> bool {
        self.lagged
    }

    /// Every state delivered so far, in the order of delivery.
    pub closed spec fn observed(&self) -> Seq<DynStateView> {
        self.observed@
    }

    /// The reader is inside its snapshot and at or behind its stream
    /// position; one that never lagged has observed exactly the delivered
    /// part of the snapshot followed by the stream from where it subscribed
    /// to where it stands.
    pub open spec fn wf(&self, notifier: &Notifier) -> bool {
        &&& self.delivered() <= self.snapshot().len()
        &&& self.start() <= self.position() <= notifier.history(self.operation()).len()
        &&& self.delivered() < self.snapshot().len() ==> self.position() == self.start()
        &&& !self.lagged() ==> self.observed() == self.snapshot().subrange(
            0,
            self.delivered() as int,
        ) + notifier.history(self.operation()).subrange(
            self.start() as int,
            self.position() as int,
        )
    }

    /// A valid reader stays valid while its operation's stream only grows.
    pub proof fn lemma_wf_after(&self, before: &Notifier, after: &Notifier)
        requires
            self.wf(before),
            before.history(self.operation()).is_prefix_of(after.history(self.operation())),
        ensures
            self.wf(after),
    {
        let old_stream = before.history(self.operation());
        let new_stream = after.history(self.operation());
        assert(new_stream.subrange(self.start() as int, self.position() as int)
            =~= old_stream.subrange(self.start() as int, self.position() as int));
    }

    /// The operation that is read.
    pub fn operation_id(&self) -> (id: OperationId)
        ensures
            id == self.operation(),
    {
        self.operation_id
    }

    /// Tells whether the reader ever fell behind the ring.
    pub fn has_lagged(&self) -> (lagged: bool)
        ensures
            lagged == self.lagged(),
    {
        self.lagged
    }
}

/// The notifier.
pub struct Notifier {
    channels: Vec<Channel>,
}

impl Notifier {
    spec fn index_of(&self, operation_id: OperationId) -> Option<int> {
        if exists|i: int|
            0 <= i < self.channels@.len() && (#[trigger] self.channels@[i]).operation_id
                == operation_id {
            Some(
                choose|i: int|
                    0 <= i < self.channels@.len() && (#[trigger] self.channels@[i]).operation_id
                        == operation_id,
            )
        } else {
            None
        }
    }

    proof fn lemma_index_of(&self, operation_id: OperationId, i: int)
        requires
            self.wf(),
            0 <= i < self.channels@.len(),
            self.channels@[i].operation_id == operation_id,
        ensures
            self.index_of(operation_id) == Some(i),
    {
        let k = self.index_of(operation_id)->Some_0;
        assert(self.channels@[k].operation_id == operation_id);
        if k < i {
            assert(self.channels@[k].operation_id != self.channels@[i].operation_id);
        } else if i < k {
            assert(self.channels@[i].operation_id != self.channels@[k].operation_id);
        }
    }

    /// Every state published for the operation since the notifier was made,
    /// in the order of publication.
    pub closed spec fn history(&self, operation_id: OperationId) -> Seq<DynStateView> {
        match self.index_of(operation_id) {
            Some(i) => self.channels@[i].history@,
            None => Seq::empty(),
        }
    }

    /// Each ring holds the latest states of its operation's stream.
    pub closed spec fn wf(&self) -> bool {
        &&& forall|i: int| 0 <= i < self.channels@.len() ==> (#[trigger] self.channels@[i]).wf()
        &&& forall|i: int, j: int|
            0 <= i < j < self.channels@.len() ==> (#[trigger] self.channels@[i]).operation_id != (
            #[trigger] self.channels@[j]).operation_id
    }

    /// A notifier through which nothing was published.
    pub fn new() -> (notifier: Self)
        ensures
            notifier.wf(),
            forall|operation_id: OperationId|
                notifier.history(operation_id) == Seq::<DynStateView>::empty(),
    {
        Notifier { channels: Vec::new() }
    }

    fn find(&self, operation_id: &OperationId) -> (found: Option<usize>)
        requires
            self.wf(),
        ensures
            match found {
                Some(i) => self.index_of(*operation_id) == Some(i as int) && i
                    < self.channels@.len() && self.channels@[i as int].operation_id
                    == *operation_id,
                None => self.index_of(*operation_id) is None,
            },
    {
        let mut i: usize = 0;
        while i < self.channels.len()
            invariant
                i <= self.channels.len(),
                self.wf(),
                forall|j: int|
                    0 <= j < i ==> (#[trigger] self.channels@[j]).operation_id != *operation_id,
            decreases self.channels.len() - i,
        {
            if self.channels[i].operation_id == *operation_id {
                return Some(i);
            }
            i += 1;
        }
        None
    }

    /// The number of states published for the operation.
    pub fn sent(&self, operation_id: &OperationId) -> (count: u64)
        requires
            self.wf(),
        ensures
            count == self.history(*operation_id).len(),
    {
        match self.find(operation_id) {
            Some(i) => self.channels[i].sent,
            None => 0,
        }
    }

    /// Publishes a state of the operation to its readers. The ring drops its
    /// oldest state when it is full.
    pub fn publish(&mut self, operation_id: OperationId, state: DynState)
        requires
            old(self).wf(),
        ensures
            final(self).wf(),
            final(self).history(operation_id) == published(
                old(self).history(operation_id),
                state@,
            ),
            forall|other: OperationId|
                other != operation_id ==> final(self).history(other) == old(self).history(other),
    {
        let ghost before = *self;
        match self.find(&operation_id) {
            Some(i) => {
                if self.channels[i].sent == u64::MAX {
                    return ;
                }
                let mut channel = self.channels.remove(i);
                if channel.ring.len() == RING_CAPACITY {
                    channel.ring.pop_front();
                }
                let ghost pushed = state@;
                channel.ring.push_back(state);
                channel.sent = channel.sent + 1;
                channel.history = Ghost(channel.history@.push(pushed));
                proof {
                    assert(views(channel.ring@) =~= channel.history@.subrange(
                        channel.sent - channel.ring@.len(),
                        channel.sent as int,
                    )) by {
                        let old_channel = before.channels@[i as int];
                        assert(old_channel.wf());
                        assert forall|k: int| 0 <= k < channel.ring@.len() implies views(
                            channel.ring@,
                        )[k] == channel.history@.subrange(
                            channel.sent - channel.ring@.len(),
                            channel.sent as int,
                        )[k] by {
                            if k < channel.ring@.len() - 1 {
                                let shift = old_channel.ring@.len() - (channel.ring@.len() - 1);
                                assert(views(old_channel.ring@)[k + shift]
                                    == old_channel.history@.subrange(
                                    old_channel.sent - old_channel.ring@.len(),
                                    old_channel.sent as int,
                                )[k + shift]);
                            }
                        }
                    }
                    assert(channel.wf());
                }
                self.channels.insert(i, channel);
                proof {
                    assert forall|k: int| 0 <= k < self.channels@.len() implies (
                    #[trigger] self.channels@[k]).operation_id
                        == before.channels@[k].operation_id by {}
                    assert forall|k: int| 0 <= k < self.channels@.len() && k != i implies (
                    #[trigger] self.channels@[k]) == before.channels@[k] by {}
                    assert(self.wf());
                    self.lemma_index_of(operation_id, i as int);
                    assert forall|other: OperationId| other != operation_id implies self.history(
                        other,
                    ) == before.history(other) by {
                        match before.index_of(other) {
                            Some(k) => {
                                self.lemma_index_of(other, k);
                            },
                            None => {
                                if self.index_of(other) is Some {
                                    let k = self.index_of(other)->Some_0;
                                    assert(before.channels@[k].operation_id == other);
                                }
                            },
                        }
                    }
                }
            },
            None => {
                let ghost pushed = state@;
                let mut ring: VecDeque<DynState> = VecDeque::new();
                ring.push_back(state);
                let channel = Channel {
                    operation_id,
                    ring,
                    sent: 1,
                    history: Ghost(Seq::empty().push(pushed)),
                };
                proof {
                    assert(views(channel.ring@) =~= channel.history@.subrange(0, 1));
                    assert(channel.wf());
                    assert(before.history(operation_id).push(pushed) =~= channel.history@);
                }
                self.channels.push(channel);
                proof {
                    let last = self.channels@.len() - 1;
                    assert forall|k: int| 0 <= k < last implies (#[trigger] self.channels@[k])
                        == before.channels@[k] by {}
                    assert(self.channels@[last].operation_id == operation_id);
                    assert(self.wf());
                    self.lemma_index_of(operation_id, last);
                    assert forall|other: OperationId| other != operation_id implies self.history(
                        other,
                    ) == before.history(other) by {
                        match before.index_of(other) {
                            Some(k) => {
                                self.lemma_index_of(other, k);
                            },
                            None => {
                                if self.index_of(other) is Some {
                                    let k = self.index_of(other)->Some_0;
                                    assert(before.channels@[k].operation_id == other);
                                }
                            },
                        }
                    }
                }
            },
        }
    }

    /// Makes a reader of the operation that first receives `snapshot`, in
    /// order, and then every state published from now on.
    pub fn subscribe(&self, operation_id: OperationId, snapshot: Vec<DynState>) -> (subscription:
        Subscription)
        requires
            self.wf(),
        ensures
            subscription.wf(self),
            subscription.operation() == operation_id,
            subscription.snapshot() == views(snapshot@),
            subscription.delivered() == 0,
            subscription.start() == self.history(operation_id).len(),
            subscription.position() == self.history(operation_id).len(),
            !subscription.lagged(),
            subscription.observed() == Seq::<DynStateView>::empty(),
    {
        let at = self.sent(&operation_id);
        let subscription = Subscription {
            operation_id,
            snapshot,
            delivered: 0,
            start: at,
            next: at,
            lagged: false,
            observed: Ghost(Seq::empty()),
        };
        assert(subscription.observed() =~= subscription.snapshot().subrange(0, 0)
            + self.history(operation_id).subrange(at as int, at as int));
        subscription
    }

    /// Hands the reader its next state.
    ///
    /// States of the snapshot come first. After them comes the stream: the
    /// state at the reader's position, if the ring still holds it; `Lagged`
    /// with the number of states missed, if the ring has dropped it, and the
    /// reader then stands at the latest state; `Pending` at the end of the
    /// stream.
    pub fn recv(&self, subscription: &mut Subscription) -> (delivery: Delivery)
        requires
            self.wf(),
            old(subscription).wf(self),
        ensures
            final(subscription).wf(self),
            final(subscription).operation() == old(subscription).operation(),
            final(subscription).snapshot() == old(subscription).snapshot(),
            final(subscription).start() == old(subscription).start(),
            ({
                let sub = old(subscription);
                let history = self.history(sub.operation());
                if sub.delivered() < sub.snapshot().len() {
                    &&& delivery matches Delivery::State(state)
                    &&& state@ == sub.snapshot()[sub.delivered() as int]
                    &&& final(subscription).delivered() == sub.delivered() + 1
                    &&& final(subscription).position() == sub.position()
                    &&& final(subscription).lagged() == sub.lagged()
                    &&& final(subscription).observed() == sub.observed().push(state@)
                } else if sub.position() < history.len() - retained(history) {
                    &&& delivery matches Delivery::Lagged(missed)
                    &&& missed == history.len() - 1 - sub.position()
                    &&& final(subscription).delivered() == sub.delivered()
                    &&& final(subscription).position() == history.len() - 1
                    &&& final(subscription).lagged()
                    &&& final(subscription).observed() == sub.observed()
                } else if sub.position() < history.len() {
                    &&& delivery matches Delivery::State(state)
                    &&& state@ == history[sub.position() as int]
                    &&& final(subscription).delivered() == sub.delivered()
                    &&& final(subscription).position() == sub.position() + 1
                    &&& final(subscription).lagged() == sub.lagged()
                    &&& final(subscription).observed() == sub.observed().push(state@)
                } else {
                    &&& delivery is Pending
                    &&& final(subscription).delivered() == sub.delivered()
                    &&& final(subscription).position() == sub.position()
                    &&& final(subscription).lagged() == sub.lagged()
                    &&& final(subscription).observed() == sub.observed()
                }
            }),
    {
        let ghost history = self.history(subscription.operation_id);
        if subscription.delivered < subscription.snapshot.len() {
            let state = subscription.snapshot[subscription.delivered].clone();
            proof {
                let sub = *old(subscription);
                assert(sub.snapshot().subrange(0, sub.delivered() as int + 1) =~= sub.snapshot().subrange(
                    0,
                    sub.delivered() as int,
                ).push(state@));
            }
            subscription.delivered = subscription.delivered + 1;
            subscription.observed = Ghost(subscription.observed@.push(state@));
            proof {
                let sub = *old(subscription);
                let empty = history.subrange(sub.start() as int, sub.position() as int);
                assert(empty =~= Seq::<DynStateView>::empty());
                if !sub.lagged() {
                    assert(subscription.observed() =~= subscription.snapshot().subrange(
                        0,
                        subscription.delivered() as int,
                    ) + empty);
                }
            }
            return Delivery::State(state);
        }
        let i = match self.find(&subscription.operation_id) {
            Some(i) => i,
            None => {
                return Delivery::Pending;
            },
        };
        let channel = &self.channels[i];
        assert(channel.wf());
        let oldest: u64 = channel.sent - channel.ring.len() as u64;
        if subscription.next < oldest {
            let missed = channel.sent - 1 - subscription.next;
            subscription.next = channel.sent - 1;
            subscription.lagged = true;
            Delivery::Lagged(missed)
        } else if subscription.next < channel.sent {
            let state = channel.ring[(subscription.next - oldest) as usize].clone();
            proof {
                let sub = *old(subscription);
                assert(views(channel.ring@)[sub.next - oldest] == history[sub.next as int]);
                assert(history.subrange(sub.start() as int, sub.position() as int + 1)
                    =~= history.subrange(sub.start() as int, sub.position() as int).push(state@));
            }
            subscription.next = subscription.next + 1;
            subscription.observed = Ghost(subscription.observed@.push(state@));
            proof {
                let sub = *old(subscription);
                if !sub.lagged() {
                    assert(subscription.observed() =~= subscription.snapshot().subrange(
                        0,
                        subscription.delivered() as int,
                    ) + history.subrange(
                        subscription.start() as int,
                        subscription.position() as int,
                    ));
                }
            }
            Delivery::State(state)
        } else {
            Delivery::Pending
        }
    }
}

} // verus!
