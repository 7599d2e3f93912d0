//! What holds of a coordinator whatever happens to it.

use crate::coordinator_model::{
    output_of, ConsumerState, ConsumerView, CoordinatorView, Event, OutcomeView, Phase,
};
use crate::error::TranscodeError;
use crate::target::Codec;
use vstd::prelude::*;

verus! {

impl CoordinatorView {
    /// A key that is neither stored nor claimed stays so until it is asked for.
    pub proof fn lemma_step_keeps_absent(self, event: Event, key: Seq<u8>)
        requires
            self.wf(),
            self.phase(key) == Phase::Absent,
            !event.asks(key),
            !event.settles(key),
        ensures
            self.step(event).phase(key) == Phase::Absent,
    {
        self.lemma_step_wf(event);
        match event {
            Event::Request { key: other, codec, now } => self.lemma_request(other, codec, now),
            Event::Produce { key: other, chunk } => self.lemma_produce(other, chunk),
            Event::Finish { key: other, now } => self.lemma_finish(other, now),
            Event::Fail { key: other, error } => self.lemma_fail(other, error),
            Event::Expire { key: other, now } => self.lemma_fail(
                other,
                TranscodeError::TranscodeFailed,
            ),
            Event::Poll { consumer, max } => self.lemma_poll(consumer, max),
            Event::Disconnect { consumer } => self.lemma_disconnect(consumer),
            Event::Evict { key: other } => self.store.lemma_without(other),
            Event::EvictOldest => self.store.lemma_evictions(0),
            Event::Trim { limit } => self.store.lemma_evictions(limit),
            Event::Restore { key: other, record } => self.lemma_restore(other, record),
        }
    }

    /// A production in flight stays in flight until it is ended, keeps its
    /// key out of the store, and grows by exactly what is produced for it.
    pub proof fn lemma_step_keeps_job(self, event: Event, key: Seq<u8>)
        requires
            self.wf(),
            self.has_job(key),
            !event.may_end(key, self.settings),
        ensures
            self.step(event).has_job(key),
            !self.step(event).store.holds(key),
            self.step(event).job(key).key == key,
            self.step(event).job(key).codec == self.job(key).codec,
            self.step(event).job(key).produced == self.job(key).produced + event.output(key),
    {
        self.lemma_step_wf(event);
        let after = self.step(event);
        let at = self.job_index(key);
        assert(!self.store.holds(self.jobs[at].key));
        assert(self.job(key).produced + Seq::<u8>::empty() =~= self.job(key).produced);
        match event {
            Event::Request { key: other, codec, now } => self.lemma_request(other, codec, now),
            Event::Produce { key: other, chunk } => self.lemma_produce(other, chunk),
            Event::Finish { key: other, now } => self.lemma_finish(other, now),
            Event::Fail { key: other, error } => self.lemma_fail(other, error),
            Event::Expire { key: other, now } => self.lemma_fail(
                other,
                TranscodeError::TranscodeFailed,
            ),
            Event::Poll { consumer, max } => self.lemma_poll(consumer, max),
            Event::Disconnect { consumer } => self.lemma_disconnect(consumer),
            Event::Evict { key: other } => self.store.lemma_without(other),
            Event::EvictOldest => self.store.lemma_evictions(0),
            Event::Trim { limit } => self.store.lemma_evictions(limit),
            Event::Restore { key: other, record } => self.lemma_restore(other, record),
        }
        assert(after.has_job(key));
        let now_at = after.job_index(key);
        assert(!after.store.holds(after.jobs[now_at].key));
    }

    /// A complete artifact stays in the store, as it is, through every
    /// event that does not evict it.
    pub proof fn lemma_step_keeps_artifact(self, event: Event, key: Seq<u8>)
        requires
            self.wf(),
            self.store.holds(key),
            !self.evicts(event, key),
        ensures
            self.step(event).store.holds(key),
            self.step(event).store.artifact(key) == self.store.artifact(key),
            !self.step(event).has_job(key),
    {
        self.lemma_step_wf(event);
        let after = self.step(event);
        if after.has_job(key) {
            let at = after.job_index(key);
            assert(!after.store.holds(after.jobs[at].key));
        }
        match event {
            Event::Request { key: other, codec, now } => self.lemma_request(other, codec, now),
            Event::Produce { key: other, chunk } => self.lemma_produce(other, chunk),
            Event::Finish { key: other, now } => {
                self.lemma_finish(other, now);
                if self.has_job(other) {
                    let at = self.job_index(other);
                    assert(!self.store.holds(self.jobs[at].key));
                }
            },
            Event::Fail { key: other, error } => self.lemma_fail(other, error),
            Event::Expire { key: other, now } => self.lemma_fail(
                other,
                TranscodeError::TranscodeFailed,
            ),
            Event::Poll { consumer, max } => self.lemma_poll(consumer, max),
            Event::Disconnect { consumer } => self.lemma_disconnect(consumer),
            Event::Evict { key: other } => self.store.lemma_without(other),
            Event::EvictOldest => self.store.lemma_evictions(0),
            Event::Trim { limit } => self.store.lemma_evictions(limit),
            Event::Restore { key: other, record } => self.lemma_restore(other, record),
        }
    }

    /// As long as a production of `key` is not ended, it stays in flight,
    /// holds exactly what was produced for it, and no request for the key
    /// makes anyone run the provider.
    pub proof fn lemma_production_accumulates(self, events: Seq<Event>, key: Seq<u8>)
        requires
            self.wf(),
            self.has_job(key),
            forall|i: int| 0 <= i < events.len() ==> !events[i].may_end(key, self.settings),
        ensures
            self.run(events).wf(),
            self.run(events).has_job(key),
            !self.run(events).store.holds(key),
            self.run(events).job(key).key == key,
            self.run(events).job(key).codec == self.job(key).codec,
            self.run(events).job(key).produced == self.job(key).produced + output_of(events, key),
            self.invocations(events, key) == 0,
        decreases events.len(),
    {
        let at = self.job_index(key);
        assert(!self.store.holds(self.jobs[at].key));
        if events.len() == 0 {
            assert(self.job(key).produced + Seq::<u8>::empty() =~= self.job(key).produced);
        } else {
            let earlier = events.drop_last();
            assert forall|i: int| 0 <= i < earlier.len() implies !earlier[i].may_end(
                key,
                self.settings,
            ) by {
                assert(earlier[i] == events[i]);
            }
            self.lemma_production_accumulates(earlier, key);
            self.lemma_run_wf(earlier);
            let before = self.run(earlier);
            before.lemma_step_keeps_job(events.last(), key);
            before.lemma_step_wf(events.last());
            assert(self.job(key).produced + output_of(events, key) =~= self.job(key).produced
                + output_of(earlier, key) + events.last().output(key));
        }
    }

    /// A consumer that follows a production and does nothing itself is
    /// handed exactly what is produced, as long as its queue has room for it.
    pub proof fn lemma_step_feeds_consumer(self, event: Event, key: Seq<u8>, consumer: int)
        requires
            self.wf(),
            self.has_slot(consumer),
            self.consumers[consumer].follows(key),
            !event.may_end(key, self.settings),
            !event.is_by(consumer),
            self.consumers[consumer].queue.len() + event.output(key).len()
                <= self.settings.queue_limit,
        ensures
            self.step(event).has_slot(consumer),
            self.step(event).consumers[consumer] == (ConsumerView {
                queue: self.consumers[consumer].queue + event.output(key),
                ..self.consumers[consumer]
            }),
    {
        let before = self.consumers[consumer];
        assert(before.queue + Seq::<u8>::empty() =~= before.queue);
        assert(self.has_job(key));
        match event {
            Event::Request { key: other, codec, now } => {
                self.lemma_free_slot();
                if !self.store.holds(other) {
                    if self.has_job(other) {
                        self.lemma_attach(other, self.job(other).produced);
                    } else {
                        self.lemma_claim(other, codec, now);
                        let claimed = self.claim(other, codec, now);
                        claimed.lemma_attach(other, Seq::empty());
                    }
                }
            },
            _ => {},
        }
    }

    /// A consumer that follows a production and does nothing itself has
    /// queued, after whatever else happens, all that was produced
    /// meanwhile, in its order, as long as its queue has room for it.
    pub proof fn lemma_consumer_receives_output(
        self,
        events: Seq<Event>,
        key: Seq<u8>,
        consumer: int,
    )
        requires
            self.wf(),
            self.has_slot(consumer),
            self.consumers[consumer].follows(key),
            forall|i: int|
                0 <= i < events.len() ==> !events[i].may_end(key, self.settings)
                    && !events[i].is_by(consumer),
            self.consumers[consumer].queue.len() + output_of(events, key).len()
                <= self.settings.queue_limit,
        ensures
            self.run(events).has_slot(consumer),
            self.run(events).consumers[consumer] == (ConsumerView {
                queue: self.consumers[consumer].queue + output_of(events, key),
                ..self.consumers[consumer]
            }),
        decreases events.len(),
    {
        let start = self.consumers[consumer];
        if events.len() == 0 {
            assert(start.queue + Seq::<u8>::empty() =~= start.queue);
        } else {
            let earlier = events.drop_last();
            assert forall|i: int| 0 <= i < earlier.len() implies !earlier[i].may_end(
                key,
                self.settings,
            ) && !earlier[i].is_by(consumer) by {
                assert(earlier[i] == events[i]);
            }
            self.lemma_consumer_receives_output(earlier, key, consumer);
            self.lemma_run_wf(earlier);
            self.run(earlier).lemma_step_feeds_consumer(events.last(), key, consumer);
            assert(start.queue + output_of(events, key) =~= start.queue + output_of(earlier, key)
                + events.last().output(key));
        }
    }

    /// The caller of a request for a key that is not complete is seated as
    /// a consumer whose queue holds all that was produced so far: it misses
    /// nothing, however late it comes.
    pub proof fn lemma_request_seats_consumer(self, key: Seq<u8>, codec: Codec, now: u64)
        requires
            self.wf(),
            !self.store.holds(key),
        ensures
            self.after_request(key, codec, now).has_slot(self.free_slot()),
            self.after_request(key, codec, now).has_job(key),
            self.after_request(key, codec, now).consumers[self.free_slot()] == (ConsumerView {
                key,
                queue: self.after_request(key, codec, now).job(key).produced,
                state: ConsumerState::Streaming,
            }),
    {
        self.lemma_request(key, codec, now);
        self.lemma_free_slot();
        if self.has_job(key) {
            self.lemma_attach(key, self.job(key).produced);
        } else {
            self.lemma_claim(key, codec, now);
            self.claim(key, codec, now).lemma_attach(key, Seq::empty());
        }
    }

    /// However many requests for a key arrive while it is neither stored
    /// nor its production ended, and whatever else happens between them,
    /// exactly one of them makes its caller run the provider.
    pub proof fn lemma_one_invocation(self, events: Seq<Event>, key: Seq<u8>)
        requires
            self.wf(),
            self.phase(key) == Phase::Absent,
            exists|i: int| 0 <= i < events.len() && events[i].asks(key),
            forall|i: int| 0 <= i < events.len() ==> !events[i].may_settle(key, self.settings),
        ensures
            self.invocations(events, key) == 1,
            self.run(events).has_job(key),
        decreases events.len(),
    {
        let earlier = events.drop_last();
        let last = events.last();
        assert forall|i: int| 0 <= i < earlier.len() implies !earlier[i].may_settle(
            key,
            self.settings,
        ) by {
            assert(earlier[i] == events[i]);
        }
        self.lemma_run_wf(earlier);
        if exists|i: int| 0 <= i < earlier.len() && earlier[i].asks(key) {
            self.lemma_one_invocation(earlier, key);
            let before = self.run(earlier);
            before.lemma_step_keeps_job(last, key);
        } else {
            self.lemma_unasked_stays_absent(earlier, key);
            let before = self.run(earlier);
            let witness = choose|i: int| 0 <= i < events.len() && events[i].asks(key);
            if witness < earlier.len() {
                assert(earlier[witness] == events[witness]);
            }
            assert(last.asks(key));
            match last {
                Event::Request { key: asked, codec, now } => {
                    before.lemma_request(asked, codec, now);
                },
                _ => {},
            }
        }
    }

    /// A key that is neither stored nor claimed stays so, and nobody runs
    /// the provider for it, as long as nobody asks for it.
    pub proof fn lemma_unasked_stays_absent(self, events: Seq<Event>, key: Seq<u8>)
        requires
            self.wf(),
            self.phase(key) == Phase::Absent,
            forall|i: int|
                0 <= i < events.len() ==> !events[i].asks(key) && !events[i].settles(key),
        ensures
            self.run(events).wf(),
            self.run(events).phase(key) == Phase::Absent,
            self.invocations(events, key) == 0,
        decreases events.len(),
    {
        if events.len() > 0 {
            let earlier = events.drop_last();
            assert forall|i: int| 0 <= i < earlier.len() implies !earlier[i].asks(key)
                && !earlier[i].settles(key) by {
                assert(earlier[i] == events[i]);
            }
            self.lemma_unasked_stays_absent(earlier, key);
            self.run(earlier).lemma_step_keeps_absent(events.last(), key);
            self.run(earlier).lemma_step_wf(events.last());
        }
    }

    /// A request makes its caller run the provider exactly when it finds
    /// the key neither stored nor claimed.
    pub proof fn lemma_produce_means_absent(self, key: Seq<u8>, codec: Codec, now: u64)
        ensures
            self.request_outcome(key) is Produce <==> self.phase(key) == Phase::Absent,
            self.request_outcome(key) is Produce <==> self.invokes_provider(
                Event::Request { key, codec, now },
                key,
            ),
    {
    }

    /// A request for a key that is complete in the store is answered from
    /// the store and changes nothing.
    pub proof fn lemma_cache_hit(self, key: Seq<u8>, codec: Codec, now: u64)
        requires
            self.store.holds(key),
        ensures
            self.after_request(key, codec, now) == self,
            self.request_outcome(key) == OutcomeView::Cached(self.store.artifact(key).payload),
            !self.invokes_provider(Event::Request { key, codec, now }, key),
    {
    }

    /// Once a key is complete in the store, and for as long as it is not
    /// evicted, it stays complete with the same bytes, and no request makes
    /// anyone run the provider for it.
    pub proof fn lemma_committed_never_invokes(self, events: Seq<Event>, key: Seq<u8>)
        requires
            self.wf(),
            self.phase(key) == Phase::Committed,
            self.never_evicts(events, key),
        ensures
            self.run(events).wf(),
            self.run(events).phase(key) == Phase::Committed,
            self.run(events).store.artifact(key) == self.store.artifact(key),
            self.invocations(events, key) == 0,
        decreases events.len(),
    {
        if events.len() > 0 {
            let earlier = events.drop_last();
            self.lemma_committed_never_invokes(earlier, key);
            self.run(earlier).lemma_step_keeps_artifact(events.last(), key);
            self.run(earlier).lemma_step_wf(events.last());
        }
    }

    /// What the provider puts out between the claim and the commit is what
    /// the store then holds under the key, byte for byte, whatever else
    /// happened in between.
    pub proof fn lemma_round_trip(
        self,
        key: Seq<u8>,
        codec: Codec,
        events: Seq<Event>,
        claimed_at: u64,
        now: u64,
    )
        requires
            self.wf(),
            self.phase(key) == Phase::Absent,
            forall|i: int| 0 <= i < events.len() ==> !events[i].may_end(key, self.settings),
        ensures
            self.production(key, codec, claimed_at, events).after_finish(key, now).phase(key)
                == Phase::Committed,
            self.production(key, codec, claimed_at, events).after_finish(key, now).store.artifact(
                key,
            ).payload == output_of(events, key),
            self.production(key, codec, claimed_at, events).after_finish(key, now).store.artifact(
                key,
            ).codec == codec,
    {
        let claimed = self.after_request(key, codec, claimed_at);
        self.lemma_request(key, codec, claimed_at);
        self.lemma_claim(key, codec, claimed_at);
        self.claim(key, codec, claimed_at).lemma_attach(key, Seq::empty());
        claimed.lemma_production_accumulates(events, key);
        let produced = claimed.run(events);
        produced.lemma_finish(key, now);
        assert(Seq::<u8>::empty() + output_of(events, key) =~= output_of(events, key));
    }

    /// When a production fails, however far it had come, its key is
    /// neither stored nor claimed afterwards, and the store is as it was.
    pub proof fn lemma_failure_releases(self, key: Seq<u8>, error: TranscodeError)
        requires
            self.wf(),
            self.has_job(key),
        ensures
            self.after_fail(key, error).phase(key) == Phase::Absent,
            !self.after_fail(key, error).store.holds(key),
            self.after_fail(key, error).store == self.store,
    {
        self.lemma_fail(key, error);
        let at = self.job_index(key);
        assert(!self.store.holds(self.jobs[at].key));
    }

    /// A production that is claimed, runs for a while and then fails
    /// leaves its key neither stored nor claimed: the next request starts afresh.
    pub proof fn lemma_failed_production_leaves_nothing(
        self,
        key: Seq<u8>,
        codec: Codec,
        events: Seq<Event>,
        error: TranscodeError,
        now: u64,
    )
        requires
            self.wf(),
            self.phase(key) == Phase::Absent,
            forall|i: int| 0 <= i < events.len() ==> !events[i].may_end(key, self.settings),
        ensures
            self.production(key, codec, now, events).after_fail(key, error).phase(key)
                == Phase::Absent,
            !self.production(key, codec, now, events).after_fail(key, error).store.holds(key),
            self.production(key, codec, now, events).after_fail(key, error).invokes_provider(
                Event::Request { key, codec, now },
                key,
            ),
    {
        let claimed = self.after_request(key, codec, now);
        self.lemma_request(key, codec, now);
        claimed.lemma_production_accumulates(events, key);
        claimed.run(events).lemma_failure_releases(key, error);
    }
}

} // verus!
