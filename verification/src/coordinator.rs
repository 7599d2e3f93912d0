//! The transcode coordinator: for each fingerprint it serves the complete
//! artifact, or lets exactly one caller produce it while every other caller
//! is attached to that production.

use crate::bytes::{append_bytes, copy_bytes};
use crate::coordinator_model::{
    first_vacant, overdue_keys, ConsumerState, ConsumerView, CoordinatorView, DeliveryView, Event,
    OutcomeView, Phase, Settings,
};
use crate::error::TranscodeError;
use crate::fingerprint::Fingerprint;
use crate::record::{decode_record, parse_record_spec, record_spec};
use crate::store::{ArtifactReader, ArtifactStore, WriteHandle};
use crate::store_model::ProductionView;
use crate::target::Codec;
use vstd::prelude::*;

verus! {

/// One consumer slot: whom it follows, what is queued for it, where it stands.
#[derive(Debug)]
pub struct Consumer {
    key: Fingerprint,
    queue: Vec<u8>,
    state: ConsumerState,
}

impl View for Consumer {
    type V = ConsumerView;

    closed spec fn view(&self) -> ConsumerView {
        ConsumerView { key: self.key@, queue: self.queue@, state: self.state }
    }
}

/// What a consumer is handed when it asks for more.
#[derive(Debug)]
pub enum Delivery {
    /// The next bytes of the stream; none if none are ready yet.
    Bytes(Vec<u8>),
    /// The stream is over.
    End,
    /// The consumer's request failed.
    Failed(TranscodeError),
}

impl View for Delivery {
    type V = DeliveryView;

    open spec fn view(&self) -> DeliveryView {
        match self {
            Delivery::Bytes(bytes) => DeliveryView::Bytes(bytes@),
            Delivery::End => DeliveryView::End,
            Delivery::Failed(error) => DeliveryView::Failed(*error),
        }
    }
}

/// What a request is answered with.
#[derive(Debug)]
pub enum Outcome {
    /// The artifact is complete: a reader at its first byte.
    Cached(ArtifactReader),
    /// The caller holds the claim and has to run the provider. Its own
    /// consumer slot is given.
    Produce(usize),
    /// A production is under way; the caller was attached in the given slot.
    Attached(usize),
}

impl View for Outcome {
    type V = OutcomeView;

    open spec fn view(&self) -> OutcomeView {
        match self {
            Outcome::Cached(reader) => OutcomeView::Cached(reader@.payload),
            Outcome::Produce(slot) => OutcomeView::Produce(*slot as int),
            Outcome::Attached(slot) => OutcomeView::Attached(*slot as int),
        }
    }
}

/// The views of a vector of consumer slots.
pub open spec fn consumer_views(slots: Seq<Consumer>) -> Seq<ConsumerView> {
    slots.map_values(|c: Consumer| c@)
}

/// The views of a vector of write handles.
pub open spec fn production_views(handles: Seq<WriteHandle>) -> Seq<ProductionView> {
    handles.map_values(|h: WriteHandle| h@)
}

/// The byte strings of a vector of fingerprints.
pub open spec fn fingerprint_views(keys: Seq<Fingerprint>) -> Seq<Seq<u8>> {
    keys.map_values(|key: Fingerprint| key@)
}

/// A slot that belongs to nobody.
fn vacant_slot() -> (slot: Consumer)
    ensures
        slot@ == ConsumerView::vacant(),
{
    Consumer {
        key: Fingerprint { bytes: Vec::new() },
        queue: Vec::new(),
        state: ConsumerState::Vacant,
    }
}

/// Hands `chunk` to every consumer that follows `key`, and drops those
/// whose queue it would make longer than `limit`.
fn broadcast(slots: &mut Vec<Consumer>, key: &Fingerprint, chunk: &[u8], limit: usize)
    ensures
        consumer_views(final(slots)@) == consumer_views(old(slots)@).map_values(
            |c: ConsumerView| c.deliver(key@, chunk@, limit as nat),
        ),
{
    let mut at: usize = 0;
    while at < slots.len()
        invariant
            at <= slots.len(),
            slots.len() == old(slots).len(),
            forall|j: int|
                0 <= j < at ==> (#[trigger] slots@[j])@ == old(slots)@[j]@.deliver(
                    key@,
                    chunk@,
                    limit as nat,
                ),
            forall|j: int| at <= j < slots.len() ==> (#[trigger] slots@[j]) == old(slots)@[j],
        decreases slots.len() - at,
    {
        let slot = &mut slots[at];
        let follows = match slot.state {
            ConsumerState::Streaming => slot.key.equals_bytes(key.as_bytes()),
            _ => false,
        };
        if follows {
            if slot.queue.len() > limit || chunk.len() > limit - slot.queue.len() {
                slot.queue = Vec::new();
                slot.state = ConsumerState::Failed(TranscodeError::ConsumerTooSlow);
            } else {
                append_bytes(&mut slot.queue, chunk);
            }
        }
        at += 1;
    }
    assert(consumer_views(slots@) =~= consumer_views(old(slots)@).map_values(
        |c: ConsumerView| c.deliver(key@, chunk@, limit as nat),
    ));
}

/// Tells every consumer that follows `key` how its production went: that
/// the stream ends, or with which error it failed.
fn conclude(slots: &mut Vec<Consumer>, key: &Fingerprint, failure: Option<TranscodeError>)
    ensures
        failure matches Some(error) ==> consumer_views(final(slots)@) == consumer_views(
            old(slots)@,
        ).map_values(|c: ConsumerView| c.fail(key@, error)),
        failure is None ==> consumer_views(final(slots)@) == consumer_views(old(slots)@).map_values(
            |c: ConsumerView| c.end(key@),
        ),
{
    let mut at: usize = 0;
    while at < slots.len()
        invariant
            at <= slots.len(),
            slots.len() == old(slots).len(),
            forall|j: int|
                0 <= j < at ==> (#[trigger] slots@[j])@ == (match failure {
                    Some(error) => old(slots)@[j]@.fail(key@, error),
                    None => old(slots)@[j]@.end(key@),
                }),
            forall|j: int| at <= j < slots.len() ==> (#[trigger] slots@[j]) == old(slots)@[j],
        decreases slots.len() - at,
    {
        let slot = &mut slots[at];
        let follows = match slot.state {
            ConsumerState::Streaming => slot.key.equals_bytes(key.as_bytes()),
            _ => false,
        };
        if follows {
            match failure {
                Some(error) => {
                    slot.queue = Vec::new();
                    slot.state = ConsumerState::Failed(error);
                },
                None => {
                    slot.state = ConsumerState::Ended;
                },
            }
        }
        at += 1;
    }
    match failure {
        Some(error) => {
            assert(consumer_views(slots@) =~= consumer_views(old(slots)@).map_values(
                |c: ConsumerView| c.fail(key@, error),
            ));
        },
        None => {
            assert(consumer_views(slots@) =~= consumer_views(old(slots)@).map_values(
                |c: ConsumerView| c.end(key@),
            ));
        },
    }
}

/// Whether a consumer follows the production of `key`.
fn is_followed(slots: &Vec<Consumer>, key: &Fingerprint) -> (yes: bool)
    ensures
        yes == exists|c: int|
            0 <= c < slots@.len() && (#[trigger] consumer_views(slots@)[c]).follows(key@),
{
    let mut at: usize = 0;
    while at < slots.len()
        invariant
            at <= slots.len(),
            forall|c: int| 0 <= c < at ==> !(#[trigger] consumer_views(slots@)[c]).follows(key@),
        decreases slots.len() - at,
    {
        let follows = match slots[at].state {
            ConsumerState::Streaming => slots[at].key.equals_bytes(key.as_bytes()),
            _ => false,
        };
        if follows {
            assert(consumer_views(slots@)[at as int].follows(key@));
            return true;
        }
        at += 1;
    }
    false
}

/// The claim registry with the store behind it and the consumers in front.
#[derive(Debug)]
pub struct Coordinator {
    store: ArtifactStore,
    jobs: Vec<WriteHandle>,
    consumers: Vec<Consumer>,
    settings: Settings,
}

impl View for Coordinator {
    type V = CoordinatorView;

    closed spec fn view(&self) -> CoordinatorView {
        CoordinatorView {
            store: self.store@,
            jobs: production_views(self.jobs@),
            consumers: consumer_views(self.consumers@),
            settings: self.settings,
        }
    }
}

impl Coordinator {
    /// The coordinator's invariant: see `CoordinatorView::wf`.
    pub open spec fn wf(&self) -> bool {
        self@.wf()
    }

    /// A coordinator that holds nothing, in which a consumer may have
    /// `queue_limit` bytes queued when a chunk arrives, no production runs
    /// out of time and every production runs to its end.
    pub fn new(queue_limit: usize) -> (coordinator: Coordinator)
        ensures
            coordinator.wf(),
            coordinator@ == CoordinatorView::empty(Settings::with_queue_limit(queue_limit)),
    {
        Coordinator::with_settings(
            Settings { queue_limit, claim_timeout: u64::MAX, cancel_abandoned: false },
        )
    }

    /// A coordinator that holds nothing.
    pub fn with_settings(settings: Settings) -> (coordinator: Coordinator)
        ensures
            coordinator.wf(),
            coordinator@ == CoordinatorView::empty(settings),
    {
        let coordinator = Coordinator {
            store: ArtifactStore::new(),
            jobs: Vec::new(),
            consumers: Vec::new(),
            settings,
        };
        assert(coordinator@.jobs =~= Seq::empty());
        assert(coordinator@.consumers =~= Seq::empty());
        coordinator
    }

    /// How the coordinator is set up.
    pub fn settings(&self) -> (settings: Settings)
        ensures
            settings == self@.settings,
    {
        self.settings
    }

    /// The store behind the coordinator.
    pub fn store(&self) -> (store: &ArtifactStore)
        ensures
            store@ == self@.store,
    {
        &self.store
    }

    /// How many productions are in flight.
    pub fn in_flight(&self) -> (count: usize)
        ensures
            count == self@.jobs.len(),
    {
        self.jobs.len()
    }

    /// Where the production of `key` stands in the registry.
    fn job_position(&self, key: &Fingerprint) -> (place: Option<usize>)
        ensures
            place matches Some(i) ==> i < self@.jobs.len() && self@.jobs[i as int].key == key@,
            place is None ==> !self@.has_job(key@),
    {
        let mut i: usize = 0;
        while i < self.jobs.len()
            invariant
                i <= self.jobs.len(),
                forall|j: int| 0 <= j < i ==> self@.jobs[j].key != key@,
            decreases self.jobs.len() - i,
        {
            if self.jobs[i].key().equals_bytes(key.as_bytes()) {
                return Some(i);
            }
            i += 1;
        }
        None
    }

    /// Where `key` stands.
    pub fn phase(&self, key: &Fingerprint) -> (phase: Phase)
        requires
            self.wf(),
        ensures
            phase == self@.phase(key@),
    {
        if self.store.contains(key) {
            Phase::Committed
        } else {
            match self.job_position(key) {
                Some(i) => {
                    proof {
                        self@.lemma_job_unique(key@, i as int);
                    }
                    if self.jobs[i].written().len() == 0 {
                        Phase::Claiming
                    } else {
                        Phase::Producing
                    }
                },
                None => Phase::Absent,
            }
        }
    }

    /// Puts a new consumer that follows `key` into the first vacant slot,
    /// or into a new one, and gives the slot.
    fn seat(&mut self, key: &Fingerprint, backlog: Vec<u8>) -> (slot: usize)
        ensures
            final(self)@ == old(self)@.attach(key@, backlog@),
            slot == old(self)@.free_slot(),
    {
        let consumer = Consumer {
            key: key.clone(),
            queue: backlog,
            state: ConsumerState::Streaming,
        };
        let mut at: usize = 0;
        while at < self.consumers.len()
            invariant
                at <= self.consumers.len(),
                *self == *old(self),
                consumer@ == (ConsumerView {
                    key: key@,
                    queue: backlog@,
                    state: ConsumerState::Streaming,
                }),
                first_vacant(self@.consumers, at as int) == self@.free_slot(),
            decreases self.consumers.len() - at,
        {
            match self.consumers[at].state {
                ConsumerState::Vacant => {
                    assert(first_vacant(self@.consumers, at as int) == at);
                    self.consumers[at] = consumer;
                    assert(self@.consumers =~= old(self)@.attach(key@, backlog@).consumers);
                    return at;
                },
                _ => {},
            }
            at += 1;
        }
        assert(first_vacant(self@.consumers, at as int) == at);
        self.consumers.push(consumer);
        assert(self@.consumers =~= old(self)@.attach(key@, backlog@).consumers);
        at
    }

    /// Asks at `now` for the artifact under `key`, to be produced with
    /// `codec` if it has to be. A complete artifact is served from the store and nothing
    /// changes. Else the caller gets a consumer slot on the production of
    /// the key, which starts with all that was produced so far; the caller
    /// that finds no production in flight claims one and has to run the
    /// provider.
    pub fn request(&mut self, key: &Fingerprint, codec: Codec, now: u64) -> (outcome: Outcome)
        requires
            old(self).wf(),
        ensures
            final(self).wf(),
            final(self)@ == old(self)@.after_request(key@, codec, now),
            outcome@ == old(self)@.request_outcome(key@),
            outcome matches Outcome::Cached(reader) ==> reader.wf() && reader@.position == 0,
    {
        proof {
            old(self)@.lemma_request(key@, codec, now);
        }
        match self.store.open_read(key) {
            Ok(reader) => Outcome::Cached(reader),
            Err(_) => {
                match self.job_position(key) {
                    Some(i) => {
                        proof {
                            self@.lemma_job_unique(key@, i as int);
                        }
                        let backlog = copy_bytes(self.jobs[i].written());
                        let slot = self.seat(key, backlog);
                        Outcome::Attached(slot)
                    },
                    None => {
                        let deadline = now.saturating_add(self.settings.claim_timeout);
                        self.jobs.push(WriteHandle::new(key, codec, deadline));
                        assert(self@.jobs =~= old(self)@.claim(key@, codec, now).jobs);
                        assert(self@ == old(self)@.claim(key@, codec, now));
                        let slot = self.seat(key, Vec::new());
                        Outcome::Produce(slot)
                    },
                }
            },
        }
    }

    /// Takes a chunk that the provider put out for `key`: it is written to
    /// the artifact in the making and queued for every consumer of the
    /// production. A consumer whose queue would grow beyond the limit is
    /// dropped as too slow; the production goes on. Without a production
    /// of `key` in flight nothing changes and `NotFound` is reported.
    pub fn produce(&mut self, key: &Fingerprint, chunk: &[u8]) -> (taken: Result<
        (),
        TranscodeError,
    >)
        requires
            old(self).wf(),
        ensures
            final(self).wf(),
            final(self)@ == old(self)@.after_produce(key@, chunk@),
            taken is Ok == old(self)@.has_job(key@),
            taken matches Err(e) ==> e == TranscodeError::NotFound,
    {
        proof {
            old(self)@.lemma_produce(key@, chunk@);
        }
        match self.job_position(key) {
            Some(i) => {
                proof {
                    self@.lemma_job_unique(key@, i as int);
                }
                let job = &mut self.jobs[i];
                job.write(chunk);
                broadcast(&mut self.consumers, key, chunk, self.settings.queue_limit);
                assert(self@.jobs =~= old(self)@.after_produce(key@, chunk@).jobs);
                Ok(())
            },
            None => Err(TranscodeError::NotFound),
        }
    }

    /// Ends the production of `key` well: what was produced becomes the
    /// complete artifact, created at `now`; the claim is released; the
    /// consumers' streams end behind what is queued for them. Without a
    /// production of `key` in flight nothing changes and `NotFound` is reported.
    pub fn finish(&mut self, key: &Fingerprint, now: u64) -> (done: Result<(), TranscodeError>)
        requires
            old(self).wf(),
        ensures
            final(self).wf(),
            final(self)@ == old(self)@.after_finish(key@, now),
            done is Ok == old(self)@.has_job(key@),
            done matches Err(e) ==> e == TranscodeError::NotFound,
    {
        proof {
            old(self)@.lemma_finish(key@, now);
        }
        match self.job_position(key) {
            Some(i) => {
                proof {
                    self@.lemma_job_unique(key@, i as int);
                }
                let handle = self.jobs.remove(i);
                assert(self@.jobs =~= old(self)@.after_finish(key@, now).jobs);
                self.store.commit(handle, now);
                conclude(&mut self.consumers, key, None);
                Ok(())
            },
            None => Err(TranscodeError::NotFound),
        }
    }

    /// Ends the production of `key` with `error`: what was produced is
    /// thrown away, the claim is released, and every consumer of the
    /// production is told the error. The store is not touched. Without a
    /// production of `key` in flight nothing changes and `NotFound` is reported.
    pub fn fail(&mut self, key: &Fingerprint, error: TranscodeError) -> (done: Result<
        (),
        TranscodeError,
    >)
        requires
            old(self).wf(),
        ensures
            final(self).wf(),
            final(self)@ == old(self)@.after_fail(key@, error),
            done is Ok == old(self)@.has_job(key@),
            done matches Err(e) ==> e == TranscodeError::NotFound,
    {
        proof {
            old(self)@.lemma_fail(key@, error);
        }
        match self.job_position(key) {
            Some(i) => {
                proof {
                    self@.lemma_job_unique(key@, i as int);
                }
                let _ = self.jobs.remove(i);
                assert(self@.jobs =~= old(self)@.after_fail(key@, error).jobs);
                conclude(&mut self.consumers, key, Some(error));
                Ok(())
            },
            None => Err(TranscodeError::NotFound),
        }
    }

    /// Looks at `now` whether the production of `key` is out of time. If
    /// it is, it fails as `TranscodeFailed`, as `fail` has it. Says whether
    /// it was out of time.
    pub fn expire(&mut self, key: &Fingerprint, now: u64) -> (expired: bool)
        requires
            old(self).wf(),
        ensures
            final(self).wf(),
            final(self)@ == old(self)@.after_expire(key@, now),
            expired == old(self)@.overdue(key@, now),
    {
        match self.job_position(key) {
            Some(i) => {
                proof {
                    self@.lemma_job_unique(key@, i as int);
                }
                if self.jobs[i].deadline() <= now {
                    let _ = self.fail(key, TranscodeError::TranscodeFailed);
                    true
                } else {
                    false
                }
            },
            None => false,
        }
    }

    /// The keys of the productions that are out of time at `now`, in the
    /// order in which they were claimed.
    pub fn overdue(&self, now: u64) -> (keys: Vec<Fingerprint>)
        requires
            self.wf(),
        ensures
            fingerprint_views(keys@) == overdue_keys(self@.jobs, now),
    {
        let mut keys: Vec<Fingerprint> = Vec::new();
        let mut i: usize = 0;
        assert(self@.jobs.subrange(0, 0) =~= Seq::<ProductionView>::empty());
        assert(fingerprint_views(keys@) =~= Seq::<Seq<u8>>::empty());
        while i < self.jobs.len()
            invariant
                i <= self.jobs.len(),
                fingerprint_views(keys@) == overdue_keys(self@.jobs.subrange(0, i as int), now),
            decreases self.jobs.len() - i,
        {
            let ghost done = self@.jobs.subrange(0, i as int);
            let ghost next = self@.jobs.subrange(0, i + 1);
            assert(next.drop_last() =~= done);
            assert(next.last() == self.jobs@[i as int]@);
            if self.jobs[i].deadline() <= now {
                let ghost before = fingerprint_views(keys@);
                let key = self.jobs[i].key().clone();
                keys.push(key);
                assert(fingerprint_views(keys@) =~= before.push(self.jobs@[i as int]@.key));
            }
            i += 1;
        }
        assert(self@.jobs.subrange(0, i as int) =~= self@.jobs);
        keys
    }

    /// Hands the consumer in slot `consumer` the next bytes that are queued
    /// for it, at most `max`. With nothing queued, a consumer of a running
    /// production gets no bytes; one whose production was committed gets
    /// the end of the stream and leaves its slot. A consumer whose
    /// production failed, or that was dropped, gets the error and leaves
    /// its slot. A slot that belongs to nobody gives `NotFound`.
    pub fn poll(&mut self, consumer: usize, max: usize) -> (delivery: Delivery)
        requires
            old(self).wf(),
        ensures
            final(self).wf(),
            final(self)@ == old(self)@.after_poll(consumer as int, max as nat),
            delivery@ == old(self)@.poll_delivery(consumer as int, max as nat),
    {
        proof {
            old(self)@.lemma_poll(consumer as int, max as nat);
        }
        if consumer >= self.consumers.len() {
            return Delivery::Failed(TranscodeError::NotFound);
        }
        let slot = &mut self.consumers[consumer];
        let delivery = match slot.state {
            ConsumerState::Vacant => Delivery::Failed(TranscodeError::NotFound),
            ConsumerState::Failed(error) => {
                *slot = vacant_slot();
                Delivery::Failed(error)
            },
            ConsumerState::Streaming => {
                let ready = if max <= slot.queue.len() { max } else { slot.queue.len() };
                let mut taken = slot.queue.split_off(ready);
                std::mem::swap(&mut taken, &mut slot.queue);
                Delivery::Bytes(taken)
            },
            ConsumerState::Ended => {
                if slot.queue.len() == 0 {
                    *slot = vacant_slot();
                    Delivery::End
                } else {
                    let ready = if max <= slot.queue.len() { max } else { slot.queue.len() };
                    let mut taken = slot.queue.split_off(ready);
                    std::mem::swap(&mut taken, &mut slot.queue);
                    Delivery::Bytes(taken)
                }
            },
        };
        assert(self@.consumers =~= old(self)@.after_poll(consumer as int, max as nat).consumers);
        delivery
    }

    /// Takes in what the remote store holds under `key`. Bytes that are
    /// no record are reported as `Corrupt`, and the key is invalidated. A
    /// record becomes a complete artifact, unless the key is complete
    /// already; the answer says whether it was taken in. While a
    /// production of the key is in flight, nothing changes.
    pub fn restore(&mut self, key: &Fingerprint, record: &[u8]) -> (restored: Result<
        bool,
        TranscodeError,
    >)
        requires
            old(self).wf(),
        ensures
            final(self).wf(),
            final(self)@ == old(self)@.after_restore(key@, record@),
            restored is Ok == parse_record_spec(record@) is Some,
            restored matches Ok(taken) ==> taken == (old(self)@.phase(key@) == Phase::Absent),
            restored matches Err(e) ==> e == TranscodeError::Corrupt,
    {
        proof {
            old(self)@.lemma_restore(key@, record@);
        }
        match self.job_position(key) {
            Some(i) => {
                proof {
                    self@.lemma_job_unique(key@, i as int);
                }
                match decode_record(record) {
                    Ok(_) => Ok(false),
                    Err(error) => Err(error),
                }
            },
            None => self.store.restore(key, record),
        }
    }

    /// The complete artifact under `key` as a record for the remote store.
    pub fn export(&self, key: &Fingerprint) -> (record: Option<Vec<u8>>)
        requires
            self.wf(),
        ensures
            record is Some == self@.store.holds(key@),
            record matches Some(bytes) ==> bytes@ == record_spec(
                self@.store.artifact(key@).record(),
            ),
    {
        self.store.export(key)
    }

    /// Takes the complete artifact under `key` out of the store. Says
    /// whether there was one. Readers that have it open read on.
    pub fn evict(&mut self, key: &Fingerprint) -> (evicted: bool)
        requires
            old(self).wf(),
        ensures
            final(self).wf(),
            final(self)@ == old(self)@.step(Event::Evict { key: key@ }),
            evicted == old(self)@.store.holds(key@),
    {
        proof {
            old(self)@.lemma_step_wf(Event::Evict { key: key@ });
        }
        self.store.evict(key)
    }

    /// Takes the least recently completed artifact out of the store and gives its key.
    pub fn evict_oldest(&mut self) -> (evicted: Option<Fingerprint>)
        requires
            old(self).wf(),
        ensures
            final(self).wf(),
            final(self)@ == old(self)@.step(Event::EvictOldest),
            evicted is Some == (old(self)@.store.artifacts.len() > 0),
            evicted matches Some(key) ==> key@ == old(self)@.store.artifacts[0].key,
    {
        proof {
            old(self)@.lemma_step_wf(Event::EvictOldest);
        }
        self.store.evict_oldest()
    }

    /// Cuts the store down to its `limit` most recently completed
    /// artifacts. Gives the number of artifacts that had to go.
    pub fn trim(&mut self, limit: usize) -> (evicted: usize)
        requires
            old(self).wf(),
        ensures
            final(self).wf(),
            final(self)@ == old(self)@.step(Event::Trim { limit: limit as nat }),
            evicted == old(self)@.store.artifacts.len() - final(self)@.store.artifacts.len(),
    {
        proof {
            old(self)@.lemma_step_wf(Event::Trim { limit: limit as nat });
        }
        self.store.trim(limit)
    }

    /// Lets the consumer in slot `consumer` go. The other consumers are
    /// not touched, nor is its production, unless abandoned productions
    /// are cancelled and it was the last to follow it: then the claim is
    /// released with all that was written, and the key is given, for the
    /// caller to stop the provider.
    pub fn disconnect(&mut self, consumer: usize) -> (cancelled: Option<Fingerprint>)
        requires
            old(self).wf(),
        ensures
            final(self).wf(),
            final(self)@ == old(self)@.after_disconnect(consumer as int),
            cancelled is Some == old(self)@.cancelled_by(consumer as int) is Some,
            cancelled matches Some(key) ==> Some(key@) == old(self)@.cancelled_by(consumer as int),
    {
        proof {
            old(self)@.lemma_disconnect(consumer as int);
        }
        if consumer >= self.consumers.len() {
            return None;
        }
        let followed = match self.consumers[consumer].state {
            ConsumerState::Streaming => Some(self.consumers[consumer].key.clone()),
            _ => None,
        };
        self.consumers[consumer] = vacant_slot();
        assert(self@.consumers =~= old(self)@.vacate(consumer as int).consumers);
        assert(self@ == old(self)@.vacate(consumer as int));
        if !self.settings.cancel_abandoned {
            return None;
        }
        match followed {
            Some(key) => {
                if is_followed(&self.consumers, &key) {
                    return None;
                }
                match self.job_position(&key) {
                    Some(i) => {
                        proof {
                            old(self)@.lemma_job_unique(key@, i as int);
                        }
                        let _ = self.jobs.remove(i);
                        assert(self@.jobs =~= old(self)@.after_disconnect(consumer as int).jobs);
                        Some(key)
                    },
                    None => None,
                }
            },
            None => None,
        }
    }
}

} // verus!
