//! The coordinator as a state machine over mathematical values: what it
//! holds, and what each event makes of it.

use crate::error::TranscodeError;
use crate::store_model::{ProductionView, StoreView};
use crate::target::Codec;
use vstd::prelude::*;

verus! {

/// How a coordinator is set up.
#[derive(Clone, Copy, Debug, PartialEq, Eq, Structural)]
pub struct Settings {
    /// How many bytes a consumer may have queued when a chunk arrives.
    /// One that would have more is dropped as too slow.
    pub queue_limit: usize,
    /// How long a production may take, from its claim on. The longest
    /// time that there is stands for no limit.
    pub claim_timeout: u64,
    /// Whether a production is given up when its last consumer goes away.
    /// If not, it runs to its end for the sake of later requests.
    pub cancel_abandoned: bool,
}

impl Settings {
    /// No time limit, and productions run to their end.
    pub open spec fn with_queue_limit(queue_limit: usize) -> Settings {
        Settings { queue_limit, claim_timeout: u64::MAX, cancel_abandoned: false }
    }
}

/// Where a consumer stands.
#[derive(Clone, Copy, Debug, PartialEq, Eq, Structural)]
pub enum ConsumerState {
    /// The slot belongs to nobody.
    Vacant,
    /// Attached to a production that is still running.
    Streaming,
    /// The production was committed; what is queued is the rest of the stream.
    Ended,
    /// The production failed, or the consumer was dropped from it.
    Failed(TranscodeError),
}

/// Where a fingerprint stands.
#[derive(Clone, Copy, Debug, PartialEq, Eq, Structural)]
pub enum Phase {
    /// Neither stored nor claimed.
    Absent,
    /// Claimed by a producer that has not written a byte yet.
    Claiming,
    /// Claimed, with output under way.
    Producing,
    /// Complete in the store.
    Committed,
}

/// One consumer slot.
pub struct ConsumerView {
    pub key: Seq<u8>,
    pub queue: Seq<u8>,
    pub state: ConsumerState,
}

/// What a consumer is handed when it asks for more.
pub enum DeliveryView {
    /// The next bytes of the stream; none if none are ready.
    Bytes(Seq<u8>),
    /// The stream is over.
    End,
    /// The consumer's request failed.
    Failed(TranscodeError),
}

/// What a request is answered with.
pub enum OutcomeView {
    /// The artifact is complete: here is its payload.
    Cached(Seq<u8>),
    /// The caller holds the claim and has to run the provider; its own
    /// consumer slot is given.
    Produce(int),
    /// A production is under way; the caller was attached in the given slot.
    Attached(int),
}

/// Something that happens to a coordinator.
pub enum Event {
    /// A caller asks for the artifact under `key`.
    Request { key: Seq<u8>, codec: Codec, now: u64 },
    /// The provider puts out a chunk for `key`.
    Produce { key: Seq<u8>, chunk: Seq<u8> },
    /// The provider ends well for `key`.
    Finish { key: Seq<u8>, now: u64 },
    /// The provider, or the store behind it, fails for `key`.
    Fail { key: Seq<u8>, error: TranscodeError },
    /// The time of the production of `key` is looked at.
    Expire { key: Seq<u8>, now: u64 },
    /// A consumer asks for its next bytes.
    Poll { consumer: int, max: nat },
    /// A consumer goes away.
    Disconnect { consumer: int },
    /// The artifact under `key` is taken out of the store.
    Evict { key: Seq<u8> },
    /// The least recently completed artifact is taken out of the store.
    EvictOldest,
    /// The store is cut down to its latest artifacts.
    Trim { limit: nat },
    /// What the remote store holds under `key` comes in.
    Restore { key: Seq<u8>, record: Seq<u8> },
}

impl ConsumerView {
    /// A slot that belongs to nobody.
    pub open spec fn vacant() -> ConsumerView {
        ConsumerView { key: Seq::empty(), queue: Seq::empty(), state: ConsumerState::Vacant }
    }

    /// Whether the consumer is attached to the running production of `key`.
    pub open spec fn follows(self, key: Seq<u8>) -> bool {
        self.state == ConsumerState::Streaming && self.key == key
    }

    /// The consumer after the production of `key` put out `chunk`: the chunk
    /// is queued, unless the queue would grow beyond `limit`; then the
    /// consumer is dropped as too slow.
    pub open spec fn deliver(self, key: Seq<u8>, chunk: Seq<u8>, limit: nat) -> ConsumerView {
        if !self.follows(key) {
            self
        } else if self.queue.len() + chunk.len() > limit {
            ConsumerView {
                key: self.key,
                queue: Seq::empty(),
                state: ConsumerState::Failed(TranscodeError::ConsumerTooSlow),
            }
        } else {
            ConsumerView { queue: self.queue + chunk, ..self }
        }
    }

    /// The consumer after the production of `key` was committed.
    pub open spec fn end(self, key: Seq<u8>) -> ConsumerView {
        if self.follows(key) {
            ConsumerView { state: ConsumerState::Ended, ..self }
        } else {
            self
        }
    }

    /// The consumer after the production of `key` failed with `error`.
    pub open spec fn fail(self, key: Seq<u8>, error: TranscodeError) -> ConsumerView {
        if self.follows(key) {
            ConsumerView {
                key: self.key,
                queue: Seq::empty(),
                state: ConsumerState::Failed(error),
            }
        } else {
            self
        }
    }

    /// How many bytes a poll for at most `max` takes from the queue.
    pub open spec fn ready(self, max: nat) -> nat {
        if max <= self.queue.len() {
            max
        } else {
            self.queue.len()
        }
    }

    /// What a poll for at most `max` bytes hands out.
    pub open spec fn poll_delivery(self, max: nat) -> DeliveryView {
        match self.state {
            ConsumerState::Vacant => DeliveryView::Failed(TranscodeError::NotFound),
            ConsumerState::Failed(error) => DeliveryView::Failed(error),
            ConsumerState::Streaming => DeliveryView::Bytes(
                self.queue.subrange(0, self.ready(max) as int),
            ),
            ConsumerState::Ended => if self.queue.len() == 0 {
                DeliveryView::End
            } else {
                DeliveryView::Bytes(self.queue.subrange(0, self.ready(max) as int))
            },
        }
    }

    /// The consumer after a poll for at most `max` bytes.
    pub open spec fn after_poll(self, max: nat) -> ConsumerView {
        match self.state {
            ConsumerState::Vacant => self,
            ConsumerState::Failed(_) => ConsumerView::vacant(),
            ConsumerState::Streaming => ConsumerView {
                queue: self.queue.subrange(self.ready(max) as int, self.queue.len() as int),
                ..self
            },
            ConsumerState::Ended => if self.queue.len() == 0 {
                ConsumerView::vacant()
            } else {
                ConsumerView {
                    queue: self.queue.subrange(self.ready(max) as int, self.queue.len() as int),
                    ..self
                }
            },
        }
    }
}

/// The time by which a production claimed at `now` has to be ended, if it
/// may take `timeout`: the sum of the two, or the longest time that there is.
pub open spec fn deadline_spec(now: u64, timeout: u64) -> u64 {
    if now + timeout > u64::MAX {
        u64::MAX
    } else {
        (now + timeout) as u64
    }
}

/// The first vacant slot at or behind `from`; the number of slots if there is none.
pub open spec fn first_vacant(slots: Seq<ConsumerView>, from: int) -> int
    decreases slots.len() - from,
{
    if from < 0 || from >= slots.len() {
        slots.len() as int
    } else if slots[from].state == ConsumerState::Vacant {
        from
    } else {
        first_vacant(slots, from + 1)
    }
}

impl Event {
    /// Whether the event is a request for `key`.
    pub open spec fn asks(self, key: Seq<u8>) -> bool {
        self matches Event::Request { key: asked, .. } && asked == key
    }

    /// Whether the event ends the production of `key`, or brings what the
    /// remote store holds under `key`.
    pub open spec fn settles(self, key: Seq<u8>) -> bool {
        self.ends(key) || (self matches Event::Restore { key: restored, .. } && restored == key)
    }

    /// Whether the event may end the production of `key` in a coordinator
    /// with these settings: it ends it, or it is a consumer's going away
    /// where abandoned productions are cancelled.
    pub open spec fn may_end(self, key: Seq<u8>, settings: Settings) -> bool {
        self.ends(key) || (settings.cancel_abandoned && self is Disconnect)
    }

    /// Whether the event may end the production of `key`, or brings what
    /// the remote store holds under `key`.
    pub open spec fn may_settle(self, key: Seq<u8>, settings: Settings) -> bool {
        self.may_end(key, settings) || self.settles(key)
    }

    /// Whether the event ends the production of `key`, well or badly, or
    /// because it is out of time.
    pub open spec fn ends(self, key: Seq<u8>) -> bool {
        match self {
            Event::Finish { key: ended, .. } => ended == key,
            Event::Fail { key: ended, .. } => ended == key,
            Event::Expire { key: ended, .. } => ended == key,
            _ => false,
        }
    }

    /// Whether the event is a poll by the consumer in slot `consumer`, or
    /// its going away.
    pub open spec fn is_by(self, consumer: int) -> bool {
        match self {
            Event::Poll { consumer: slot, .. } => slot == consumer,
            Event::Disconnect { consumer: slot } => slot == consumer,
            _ => false,
        }
    }

    /// The bytes that the event adds to the production of `key`.
    pub open spec fn output(self, key: Seq<u8>) -> Seq<u8> {
        match self {
            Event::Produce { key: produced, chunk } => if produced == key {
                chunk
            } else {
                Seq::empty()
            },
            _ => Seq::empty(),
        }
    }
}

/// All that `events` add to the production of `key`, in their order.
pub open spec fn output_of(events: Seq<Event>, key: Seq<u8>) -> Seq<u8>
    decreases events.len(),
{
    if events.len() == 0 {
        Seq::empty()
    } else {
        output_of(events.drop_last(), key) + events.last().output(key)
    }
}

/// The keys of the productions that are out of time at `now`, in their order.
pub open spec fn overdue_keys(jobs: Seq<ProductionView>, now: u64) -> Seq<Seq<u8>>
    decreases jobs.len(),
{
    if jobs.len() == 0 {
        Seq::empty()
    } else if jobs.last().deadline <= now {
        overdue_keys(jobs.drop_last(), now).push(jobs.last().key)
    } else {
        overdue_keys(jobs.drop_last(), now)
    }
}

/// Everything a coordinator holds.
pub struct CoordinatorView {
    /// The complete artifacts.
    pub store: StoreView,
    /// The productions in flight: the claim registry.
    pub jobs: Seq<ProductionView>,
    /// The consumer slots.
    pub consumers: Seq<ConsumerView>,
    /// How the coordinator is set up.
    pub settings: Settings,
}

impl CoordinatorView {
    /// A coordinator that holds nothing.
    pub open spec fn empty(settings: Settings) -> CoordinatorView {
        CoordinatorView {
            store: StoreView::empty(),
            jobs: Seq::empty(),
            consumers: Seq::empty(),
            settings,
        }
    }

    /// Whether a production of `key` is in flight.
    pub open spec fn has_job(self, key: Seq<u8>) -> bool {
        exists|i: int| 0 <= i < self.jobs.len() && self.jobs[i].key == key
    }

    /// Where the production of `key` stands in the registry, if there is one.
    pub open spec fn job_index(self, key: Seq<u8>) -> int {
        choose|i: int| 0 <= i < self.jobs.len() && self.jobs[i].key == key
    }

    /// The production of `key`, if there is one.
    pub open spec fn job(self, key: Seq<u8>) -> ProductionView {
        self.jobs[self.job_index(key)]
    }

    /// The store is well-formed; no key is claimed twice; no claimed key is
    /// complete in the store; every streaming consumer follows a
    /// production that is in flight.
    pub open spec fn wf(self) -> bool {
        &&& self.store.wf()
        &&& forall|i: int, j: int|
            0 <= i < j < self.jobs.len() ==> self.jobs[i].key != self.jobs[j].key
        &&& forall|i: int|
            0 <= i < self.jobs.len() ==> !self.store.holds(#[trigger] self.jobs[i].key)
        &&& forall|c: int|
            0 <= c < self.consumers.len() && (#[trigger] self.consumers[c]).state
                == ConsumerState::Streaming ==> self.has_job(self.consumers[c].key)
    }

    /// Where `key` stands.
    pub open spec fn phase(self, key: Seq<u8>) -> Phase {
        if self.store.holds(key) {
            Phase::Committed
        } else if self.has_job(key) {
            if self.job(key).produced.len() == 0 {
                Phase::Claiming
            } else {
                Phase::Producing
            }
        } else {
            Phase::Absent
        }
    }

    /// The slot that the next consumer gets: the first vacant one, or a new one.
    pub open spec fn free_slot(self) -> int {
        first_vacant(self.consumers, 0)
    }

    /// The coordinator with one more consumer following `key`, whose queue
    /// starts with `backlog`.
    pub open spec fn attach(self, key: Seq<u8>, backlog: Seq<u8>) -> CoordinatorView {
        let consumer = ConsumerView { key, queue: backlog, state: ConsumerState::Streaming };
        let slot = self.free_slot();
        CoordinatorView {
            consumers: if slot < self.consumers.len() {
                self.consumers.update(slot, consumer)
            } else {
                self.consumers.push(consumer)
            },
            ..self
        }
    }

    /// The coordinator with a new, empty production of `key`, claimed at `now`.
    pub open spec fn claim(self, key: Seq<u8>, codec: Codec, now: u64) -> CoordinatorView {
        CoordinatorView {
            jobs: self.jobs.push(
                ProductionView {
                    key,
                    codec,
                    produced: Seq::empty(),
                    deadline: deadline_spec(now, self.settings.claim_timeout),
                },
            ),
            ..self
        }
    }

    /// What a request for `key` is answered with.
    pub open spec fn request_outcome(self, key: Seq<u8>) -> OutcomeView {
        if self.store.holds(key) {
            OutcomeView::Cached(self.store.artifact(key).payload)
        } else if self.has_job(key) {
            OutcomeView::Attached(self.free_slot())
        } else {
            OutcomeView::Produce(self.free_slot())
        }
    }

    /// The coordinator after a request for `key` at `now`. A complete artifact is
    /// served and nothing changes. Else the caller is attached to the
    /// production in flight, from the first byte of its output; where there
    /// is none, one is claimed first.
    pub open spec fn after_request(self, key: Seq<u8>, codec: Codec, now: u64) -> CoordinatorView {
        if self.store.holds(key) {
            self
        } else if self.has_job(key) {
            self.attach(key, self.job(key).produced)
        } else {
            self.claim(key, codec, now).attach(key, Seq::empty())
        }
    }

    /// The coordinator after the production of `key` put out `chunk`.
    pub open spec fn after_produce(self, key: Seq<u8>, chunk: Seq<u8>) -> CoordinatorView {
        if self.has_job(key) {
            let job = self.job(key);
            CoordinatorView {
                jobs: self.jobs.update(
                    self.job_index(key),
                    ProductionView { produced: job.produced + chunk, ..job },
                ),
                consumers: self.consumers.map_values(
                    |c: ConsumerView| c.deliver(key, chunk, self.settings.queue_limit as nat),
                ),
                ..self
            }
        } else {
            self
        }
    }

    /// The coordinator after the production of `key` ended well at `now`:
    /// the artifact is complete, the claim is gone, the consumers' streams end.
    pub open spec fn after_finish(self, key: Seq<u8>, now: u64) -> CoordinatorView {
        if self.has_job(key) {
            CoordinatorView {
                store: self.store.commit(self.job(key).completed(now)),
                jobs: self.jobs.remove(self.job_index(key)),
                consumers: self.consumers.map_values(|c: ConsumerView| c.end(key)),
                ..self
            }
        } else {
            self
        }
    }

    /// The coordinator after the production of `key` failed with `error`:
    /// the claim is gone with all that was written, the consumers are told.
    pub open spec fn after_fail(self, key: Seq<u8>, error: TranscodeError) -> CoordinatorView {
        if self.has_job(key) {
            CoordinatorView {
                jobs: self.jobs.remove(self.job_index(key)),
                consumers: self.consumers.map_values(|c: ConsumerView| c.fail(key, error)),
                ..self
            }
        } else {
            self
        }
    }

    /// Whether the production of `key` is in flight and out of time at `now`.
    pub open spec fn overdue(self, key: Seq<u8>, now: u64) -> bool {
        self.has_job(key) && self.job(key).deadline <= now
    }

    /// The coordinator after the time of the production of `key` was
    /// looked at, at `now`: a production that is out of time fails as
    /// `TranscodeFailed`; any other goes on.
    pub open spec fn after_expire(self, key: Seq<u8>, now: u64) -> CoordinatorView {
        if self.overdue(key, now) {
            self.after_fail(key, TranscodeError::TranscodeFailed)
        } else {
            self
        }
    }

    /// Whether `consumer` is the number of a slot.
    pub open spec fn has_slot(self, consumer: int) -> bool {
        0 <= consumer < self.consumers.len()
    }

    /// What the consumer in slot `consumer` is handed by a poll for at most `max` bytes.
    pub open spec fn poll_delivery(self, consumer: int, max: nat) -> DeliveryView {
        if self.has_slot(consumer) {
            self.consumers[consumer].poll_delivery(max)
        } else {
            DeliveryView::Failed(TranscodeError::NotFound)
        }
    }

    /// The coordinator after that poll.
    pub open spec fn after_poll(self, consumer: int, max: nat) -> CoordinatorView {
        if self.has_slot(consumer) {
            CoordinatorView {
                consumers: self.consumers.update(
                    consumer,
                    self.consumers[consumer].after_poll(max),
                ),
                ..self
            }
        } else {
            self
        }
    }

    /// Whether no consumer follows the production of `key`.
    pub open spec fn abandoned(self, key: Seq<u8>) -> bool {
        forall|c: int|
            0 <= c < self.consumers.len() ==> !(#[trigger] self.consumers[c]).follows(key)
    }

    /// The coordinator without the consumer in slot `consumer`.
    pub open spec fn vacate(self, consumer: int) -> CoordinatorView {
        CoordinatorView {
            consumers: self.consumers.update(consumer, ConsumerView::vacant()),
            ..self
        }
    }

    /// The key of the production that is given up when the consumer in
    /// slot `consumer` goes away: the one that it follows, if it is the
    /// last to follow it and abandoned productions are to be cancelled.
    pub open spec fn cancelled_by(self, consumer: int) -> Option<Seq<u8>> {
        if self.settings.cancel_abandoned && self.has_slot(consumer)
            && self.consumers[consumer].state == ConsumerState::Streaming && self.has_job(
            self.consumers[consumer].key,
        ) && self.vacate(consumer).abandoned(self.consumers[consumer].key) {
            Some(self.consumers[consumer].key)
        } else {
            None
        }
    }

    /// The coordinator after the consumer in slot `consumer` went away. Its
    /// slot is vacant; the production that this cancels is gone with all
    /// that was written.
    pub open spec fn after_disconnect(self, consumer: int) -> CoordinatorView {
        if self.has_slot(consumer) {
            match self.cancelled_by(consumer) {
                Some(key) => CoordinatorView {
                    jobs: self.jobs.remove(self.job_index(key)),
                    ..self.vacate(consumer)
                },
                None => self.vacate(consumer),
            }
        } else {
            self
        }
    }

    /// The coordinator after what the remote store holds under `key` came
    /// in. While a production of the key is in flight it is left aside.
    pub open spec fn after_restore(self, key: Seq<u8>, record: Seq<u8>) -> CoordinatorView {
        if self.has_job(key) {
            self
        } else {
            CoordinatorView { store: self.store.restore(key, record), ..self }
        }
    }

    /// The coordinator after an event.
    pub open spec fn step(self, event: Event) -> CoordinatorView {
        match event {
            Event::Request { key, codec, now } => self.after_request(key, codec, now),
            Event::Produce { key, chunk } => self.after_produce(key, chunk),
            Event::Finish { key, now } => self.after_finish(key, now),
            Event::Fail { key, error } => self.after_fail(key, error),
            Event::Expire { key, now } => self.after_expire(key, now),
            Event::Poll { consumer, max } => self.after_poll(consumer, max),
            Event::Disconnect { consumer } => self.after_disconnect(consumer),
            Event::Evict { key } => CoordinatorView { store: self.store.without(key), ..self },
            Event::EvictOldest => CoordinatorView { store: self.store.evict_oldest(), ..self },
            Event::Trim { limit } => CoordinatorView { store: self.store.trim(limit), ..self },
            Event::Restore { key, record } => self.after_restore(key, record),
        }
    }

    /// The coordinator after a sequence of events, in their order.
    pub open spec fn run(self, events: Seq<Event>) -> CoordinatorView
        decreases events.len(),
    {
        if events.len() == 0 {
            self
        } else {
            self.run(events.drop_last()).step(events.last())
        }
    }

    /// The coordinator after `key` was claimed at `claimed_at` by a request
    /// and `events` happened.
    pub open spec fn production(
        self,
        key: Seq<u8>,
        codec: Codec,
        claimed_at: u64,
        events: Seq<Event>,
    ) -> CoordinatorView {
        self.after_request(key, codec, claimed_at).run(events)
    }

    /// Whether an event takes the complete artifact under `key` out of the store.
    pub open spec fn evicts(self, event: Event, key: Seq<u8>) -> bool {
        self.store.holds(key) && !self.step(event).store.holds(key)
    }

    /// Whether the complete artifact under `key` outlasts every one of `events`.
    pub open spec fn never_evicts(self, events: Seq<Event>, key: Seq<u8>) -> bool
        decreases events.len(),
    {
        events.len() > 0 ==> self.never_evicts(events.drop_last(), key) && !self.run(
            events.drop_last(),
        ).evicts(events.last(), key)
    }

    /// Whether an event makes the caller run the provider for `key`: a
    /// request that finds the key neither stored nor claimed.
    pub open spec fn invokes_provider(self, event: Event, key: Seq<u8>) -> bool {
        event.asks(key) && self.phase(key) == Phase::Absent
    }

    /// How often the provider is run for `key` in the course of `events`.
    pub open spec fn invocations(self, events: Seq<Event>, key: Seq<u8>) -> nat
        decreases events.len(),
    {
        if events.len() == 0 {
            0
        } else {
            let before = self.invocations(events.drop_last(), key);
            if self.run(events.drop_last()).invokes_provider(events.last(), key) {
                before + 1
            } else {
                before
            }
        }
    }
}

} // verus!
