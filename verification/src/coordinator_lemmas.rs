//! Every event keeps a coordinator well-formed.

use crate::coordinator_model::{
    first_vacant, ConsumerState, ConsumerView, CoordinatorView, Event, Settings,
};
use crate::error::TranscodeError;
use crate::record::parse_record_spec;
use crate::store_model::ProductionView;
use crate::target::Codec;
use vstd::prelude::*;

verus! {

impl CoordinatorView {
    /// In a well-formed registry the place of a key is the one place where it stands.
    pub proof fn lemma_job_unique(self, key: Seq<u8>, i: int)
        requires
            self.wf(),
            0 <= i < self.jobs.len(),
            self.jobs[i].key == key,
        ensures
            self.has_job(key),
            self.job_index(key) == i,
            self.job(key) == self.jobs[i],
    {
        let j = self.job_index(key);
        assert(0 <= j < self.jobs.len() && self.jobs[j].key == key);
        if j < i {
            assert(self.jobs[j].key != self.jobs[i].key);
        } else if i < j {
            assert(self.jobs[i].key != self.jobs[j].key);
        }
    }

    /// The first vacant slot behind `from` is vacant, and no slot between is.
    pub proof fn lemma_first_vacant(slots: Seq<ConsumerView>, from: int)
        requires
            0 <= from <= slots.len(),
        ensures
            from <= first_vacant(slots, from) <= slots.len(),
            first_vacant(slots, from) < slots.len() ==> slots[first_vacant(slots, from)].state
                == ConsumerState::Vacant,
            forall|j: int|
                from <= j < first_vacant(slots, from) ==> (#[trigger] slots[j]).state
                    != ConsumerState::Vacant,
        decreases slots.len() - from,
    {
        if from < slots.len() && slots[from].state != ConsumerState::Vacant {
            Self::lemma_first_vacant(slots, from + 1);
        }
    }

    /// The slot for the next consumer is a vacant one or lies right behind the last.
    pub proof fn lemma_free_slot(self)
        ensures
            0 <= self.free_slot() <= self.consumers.len(),
            self.free_slot() < self.consumers.len() ==> self.consumers[self.free_slot()].state
                == ConsumerState::Vacant,
            forall|j: int|
                0 <= j < self.free_slot() ==> (#[trigger] self.consumers[j]).state
                    != ConsumerState::Vacant,
    {
        Self::lemma_first_vacant(self.consumers, 0);
    }

    /// Attaching a consumer to a production in flight changes one slot and nothing else.
    pub proof fn lemma_attach(self, key: Seq<u8>, backlog: Seq<u8>)
        requires
            self.wf(),
            self.has_job(key),
        ensures
            self.attach(key, backlog).wf(),
            self.attach(key, backlog).store == self.store,
            self.attach(key, backlog).jobs == self.jobs,
            self.attach(key, backlog).settings == self.settings,
            self.attach(key, backlog).consumers.len() >= self.consumers.len(),
            self.attach(key, backlog).consumers[self.free_slot()] == (ConsumerView {
                key,
                queue: backlog,
                state: ConsumerState::Streaming,
            }),
            forall|c: int|
                0 <= c < self.consumers.len() && c != self.free_slot() ==> self.attach(
                    key,
                    backlog,
                ).consumers[c] == self.consumers[c],
    {
        self.lemma_free_slot();
        let after = self.attach(key, backlog);
        assert forall|c: int|
            0 <= c < after.consumers.len() && (#[trigger] after.consumers[c]).state
                == ConsumerState::Streaming implies after.has_job(after.consumers[c].key) by {
            if c != self.free_slot() {
                assert(after.consumers[c] == self.consumers[c]);
            }
        }
    }

    /// A new claim for a key that is neither stored nor claimed keeps the
    /// coordinator well-formed, and every other production as it is.
    pub proof fn lemma_claim(self, key: Seq<u8>, codec: Codec, now: u64)
        requires
            self.wf(),
            !self.store.holds(key),
            !self.has_job(key),
        ensures
            self.claim(key, codec, now).wf(),
            self.claim(key, codec, now).has_job(key),
            self.claim(key, codec, now).job(key) == self.claim(key, codec, now).jobs.last(),
            forall|other: Seq<u8>|
                other != key ==> (self.claim(key, codec, now).has_job(other) == self.has_job(
                    other,
                )),
            forall|other: Seq<u8>|
                self.has_job(other) ==> self.claim(key, codec, now).job(other) == self.job(other),
    {
        let claimed = self.claim(key, codec, now);
        let last = self.jobs.len() as int;
        assert(claimed.jobs[last].key == key);
        assert forall|i: int, j: int| 0 <= i < j < claimed.jobs.len() implies claimed.jobs[i].key
            != claimed.jobs[j].key by {
            assert(claimed.jobs[i] == self.jobs[i]);
            if j < last {
                assert(claimed.jobs[j] == self.jobs[j]);
            }
        }
        assert forall|i: int| 0 <= i < claimed.jobs.len() implies !claimed.store.holds(
            #[trigger] claimed.jobs[i].key,
        ) by {
            if i < last {
                assert(claimed.jobs[i] == self.jobs[i]);
            }
        }
        assert forall|other: Seq<u8>| self.has_job(other) implies claimed.has_job(other) by {
            let i = self.job_index(other);
            assert(claimed.jobs[i] == self.jobs[i]);
        }
        assert forall|c: int|
            0 <= c < claimed.consumers.len() && (#[trigger] claimed.consumers[c]).state
                == ConsumerState::Streaming implies claimed.has_job(claimed.consumers[c].key) by {
            assert(self.has_job(self.consumers[c].key));
        }
        assert(claimed.wf());
        claimed.lemma_job_unique(key, last);
        assert forall|other: Seq<u8>| self.has_job(other) implies claimed.job(other) == self.job(
            other,
        ) by {
            let i = self.job_index(other);
            assert(claimed.jobs[i] == self.jobs[i]);
            claimed.lemma_job_unique(other, i);
        }
        assert forall|other: Seq<u8>| other != key implies (claimed.has_job(other) == self.has_job(
            other,
        )) by {
            if claimed.has_job(other) {
                let i = claimed.job_index(other);
                assert(i < last);
                assert(claimed.jobs[i] == self.jobs[i]);
            }
        }
    }

    /// A request keeps the coordinator well-formed and the store as it is.
    /// It leaves every production of another key as it is, and the
    /// production of its own key too where there is one.
    pub proof fn lemma_request(self, key: Seq<u8>, codec: Codec, now: u64)
        requires
            self.wf(),
        ensures
            self.after_request(key, codec, now).wf(),
            self.after_request(key, codec, now).store == self.store,
            self.after_request(key, codec, now).settings == self.settings,
            self.store.holds(key) ==> self.after_request(key, codec, now) == self,
            !self.store.holds(key) ==> self.after_request(key, codec, now).has_job(key),
            !self.store.holds(key) && self.has_job(key) ==> self.after_request(key, codec, now).jobs
                == self.jobs,
            forall|other: Seq<u8>|
                other != key ==> (self.after_request(key, codec, now).has_job(other)
                    == self.has_job(other)),
            forall|other: Seq<u8>|
                other != key && self.has_job(other) ==> self.after_request(key, codec, now).job(
                    other,
                ) == self.job(other),
    {
        if self.store.holds(key) {
        } else if self.has_job(key) {
            self.lemma_attach(key, self.job(key).produced);
        } else {
            self.lemma_claim(key, codec, now);
            self.claim(key, codec, now).lemma_attach(key, Seq::empty());
        }
    }

    /// A chunk keeps the coordinator well-formed; it is appended to the
    /// production of its key and changes no other production nor the store.
    pub proof fn lemma_produce(self, key: Seq<u8>, chunk: Seq<u8>)
        requires
            self.wf(),
        ensures
            self.after_produce(key, chunk).wf(),
            self.after_produce(key, chunk).store == self.store,
            self.after_produce(key, chunk).settings == self.settings,
            forall|other: Seq<u8>|
                self.after_produce(key, chunk).has_job(other) == self.has_job(other),
            self.has_job(key) ==> self.after_produce(key, chunk).job(key) == (ProductionView {
                produced: self.job(key).produced + chunk,
                ..self.job(key)
            }),
            forall|other: Seq<u8>|
                other != key && self.has_job(other) ==> self.after_produce(key, chunk).job(other)
                    == self.job(other),
    {
        if self.has_job(key) {
            let at = self.job_index(key);
            let after = self.after_produce(key, chunk);
            assert forall|i: int| 0 <= i < after.jobs.len() implies (#[trigger] after.jobs[i]).key
                == self.jobs[i].key by {}
            assert forall|i: int, j: int| 0 <= i < j < after.jobs.len() implies after.jobs[i].key
                != after.jobs[j].key by {
                assert(after.jobs[i].key == self.jobs[i].key);
                assert(after.jobs[j].key == self.jobs[j].key);
            }
            assert forall|i: int| 0 <= i < after.jobs.len() implies !after.store.holds(
                #[trigger] after.jobs[i].key,
            ) by {
                assert(after.jobs[i].key == self.jobs[i].key);
            }
            assert forall|other: Seq<u8>| after.has_job(other) == self.has_job(other) by {
                if after.has_job(other) {
                    let i = after.job_index(other);
                    assert(after.jobs[i].key == self.jobs[i].key);
                }
                if self.has_job(other) {
                    let i = self.job_index(other);
                    assert(after.jobs[i].key == self.jobs[i].key);
                }
            }
            assert forall|c: int|
                0 <= c < after.consumers.len() && (#[trigger] after.consumers[c]).state
                    == ConsumerState::Streaming implies after.has_job(after.consumers[c].key) by {
                assert(self.consumers[c].state == ConsumerState::Streaming);
                assert(self.has_job(self.consumers[c].key));
            }
            assert(after.wf());
            after.lemma_job_unique(key, at);
            assert forall|other: Seq<u8>| other != key && self.has_job(other) implies after.job(
                other,
            ) == self.job(other) by {
                let i = self.job_index(other);
                assert(after.jobs[i] == self.jobs[i]);
                after.lemma_job_unique(other, i);
            }
        }
    }

    /// Taking the production of `key` out of a well-formed registry leaves
    /// every other production as it is.
    pub proof fn lemma_release(self, key: Seq<u8>, after: CoordinatorView)
        requires
            self.wf(),
            self.has_job(key),
            after.jobs == self.jobs.remove(self.job_index(key)),
        ensures
            !after.has_job(key),
            forall|i: int, j: int|
                0 <= i < j < after.jobs.len() ==> after.jobs[i].key != after.jobs[j].key,
            forall|i: int|
                0 <= i < after.jobs.len() ==> self.has_job(#[trigger] after.jobs[i].key)
                    && after.jobs[i].key != key,
            forall|other: Seq<u8>| other != key ==> (after.has_job(other) == self.has_job(other)),
            forall|other: Seq<u8>|
                other != key && self.has_job(other) ==> after.job(other) == self.job(other),
    {
        let at = self.job_index(key);
        assert forall|i: int| 0 <= i < after.jobs.len() implies after.jobs[i] == self.jobs[if i
            < at {
            i
        } else {
            i + 1
        }] by {}
        assert forall|i: int, j: int| 0 <= i < j < after.jobs.len() implies after.jobs[i].key
            != after.jobs[j].key by {
            let si = if i < at { i } else { i + 1 };
            let sj = if j < at { j } else { j + 1 };
            assert(after.jobs[i] == self.jobs[si]);
            assert(after.jobs[j] == self.jobs[sj]);
        }
        assert forall|i: int| 0 <= i < after.jobs.len() implies self.has_job(
            #[trigger] after.jobs[i].key,
        ) && after.jobs[i].key != key by {
            let si = if i < at { i } else { i + 1 };
            assert(after.jobs[i] == self.jobs[si]);
            if si < at {
                assert(self.jobs[si].key != self.jobs[at].key);
            } else {
                assert(self.jobs[at].key != self.jobs[si].key);
            }
        }
        if after.has_job(key) {
            let i = after.job_index(key);
            assert(after.jobs[i].key != key);
        }
        assert forall|other: Seq<u8>| other != key implies (after.has_job(other) == self.has_job(
            other,
        )) by {
            if after.has_job(other) {
                let i = after.job_index(other);
                assert(self.has_job(after.jobs[i].key));
            }
            if self.has_job(other) {
                let si = self.job_index(other);
                let i = if si < at { si } else { si - 1 };
                assert(after.jobs[i] == self.jobs[si]);
            }
        }
        assert forall|other: Seq<u8>| other != key && self.has_job(other) implies after.job(other)
            == self.job(other) by {
            let si = self.job_index(other);
            let i = if si < at { si } else { si - 1 };
            assert(after.jobs[i] == self.jobs[si]);
            let j = after.job_index(other);
            assert(0 <= j < after.jobs.len() && after.jobs[j].key == other);
            if i < j {
                assert(after.jobs[i].key != after.jobs[j].key);
            } else if j < i {
                assert(after.jobs[j].key != after.jobs[i].key);
            }
        }
    }

    /// The end of a production keeps the coordinator well-formed: its
    /// artifact is complete with exactly what was produced, the claim is
    /// gone, and no other key is touched.
    pub proof fn lemma_finish(self, key: Seq<u8>, now: u64)
        requires
            self.wf(),
        ensures
            self.after_finish(key, now).wf(),
            self.after_finish(key, now).settings == self.settings,
            !self.after_finish(key, now).has_job(key),
            self.has_job(key) ==> self.after_finish(key, now).store.holds(key)
                && self.after_finish(key, now).store.artifact(key) == self.job(key).completed(now),
            forall|other: Seq<u8>|
                other != key ==> (self.after_finish(key, now).has_job(other) == self.has_job(other))
                    && (self.after_finish(key, now).store.holds(other) == self.store.holds(other)),
            forall|other: Seq<u8>|
                other != key && self.has_job(other) ==> self.after_finish(key, now).job(other)
                    == self.job(other),
            forall|other: Seq<u8>|
                other != key && self.store.holds(other) ==> self.after_finish(
                    key,
                    now,
                ).store.artifact(other) == self.store.artifact(other),
    {
        if self.has_job(key) {
            let after = self.after_finish(key, now);
            let artifact = self.job(key).completed(now);
            self.lemma_release(key, after);
            self.store.lemma_commit(artifact);
            assert forall|c: int|
                0 <= c < after.consumers.len() && (#[trigger] after.consumers[c]).state
                    == ConsumerState::Streaming implies after.has_job(after.consumers[c].key) by {
                assert(self.consumers[c].state == ConsumerState::Streaming);
                assert(self.has_job(self.consumers[c].key));
            }
            assert forall|i: int| 0 <= i < after.jobs.len() implies !after.store.holds(
                #[trigger] after.jobs[i].key,
            ) by {
                let other = after.jobs[i].key;
                assert(self.has_job(other));
                let si = self.job_index(other);
                assert(!self.store.holds(self.jobs[si].key));
            }
        }
    }

    /// The failure of a production keeps the coordinator well-formed: the
    /// claim is gone, the store is as it was, and no other key is touched.
    pub proof fn lemma_fail(self, key: Seq<u8>, error: TranscodeError)
        requires
            self.wf(),
        ensures
            self.after_fail(key, error).wf(),
            self.after_fail(key, error).store == self.store,
            self.after_fail(key, error).settings == self.settings,
            !self.after_fail(key, error).has_job(key),
            forall|other: Seq<u8>|
                other != key ==> (self.after_fail(key, error).has_job(other) == self.has_job(
                    other,
                )),
            forall|other: Seq<u8>|
                other != key && self.has_job(other) ==> self.after_fail(key, error).job(other)
                    == self.job(other),
    {
        if self.has_job(key) {
            let after = self.after_fail(key, error);
            self.lemma_release(key, after);
            assert forall|c: int|
                0 <= c < after.consumers.len() && (#[trigger] after.consumers[c]).state
                    == ConsumerState::Streaming implies after.has_job(after.consumers[c].key) by {
                assert(self.consumers[c].state == ConsumerState::Streaming);
                assert(self.has_job(self.consumers[c].key));
            }
            assert forall|i: int| 0 <= i < after.jobs.len() implies !after.store.holds(
                #[trigger] after.jobs[i].key,
            ) by {
                let other = after.jobs[i].key;
                assert(self.has_job(other));
                let si = self.job_index(other);
                assert(!self.store.holds(self.jobs[si].key));
            }
        }
    }

    /// A poll keeps the coordinator well-formed and touches neither the
    /// store nor the registry.
    pub proof fn lemma_poll(self, consumer: int, max: nat)
        requires
            self.wf(),
        ensures
            self.after_poll(consumer, max).wf(),
            self.after_poll(consumer, max).store == self.store,
            self.after_poll(consumer, max).jobs == self.jobs,
            self.after_poll(consumer, max).settings == self.settings,
    {
        if self.has_slot(consumer) {
            let polled = self.after_poll(consumer, max);
            assert forall|c: int|
                0 <= c < polled.consumers.len() && (#[trigger] polled.consumers[c]).state
                    == ConsumerState::Streaming implies polled.has_job(polled.consumers[c].key) by {
                assert(self.consumers[c].state == ConsumerState::Streaming);
                assert(self.has_job(self.consumers[c].key));
            }
        }
    }

    /// A consumer's going away keeps the coordinator well-formed and the
    /// store as it is. It ends no production unless abandoned productions
    /// are cancelled, and then only the one that it was the last to
    /// follow; every other production goes on as it is.
    pub proof fn lemma_disconnect(self, consumer: int)
        requires
            self.wf(),
        ensures
            self.after_disconnect(consumer).wf(),
            self.after_disconnect(consumer).store == self.store,
            self.after_disconnect(consumer).settings == self.settings,
            self.cancelled_by(consumer) is None ==> self.after_disconnect(consumer).jobs
                == self.jobs,
            !self.settings.cancel_abandoned ==> self.cancelled_by(consumer) is None,
            self.cancelled_by(consumer) matches Some(key) ==> self.has_job(key)
                && !self.after_disconnect(consumer).has_job(key),
            forall|other: Seq<u8>|
                self.cancelled_by(consumer) != Some(other) ==> (self.after_disconnect(
                    consumer,
                ).has_job(other) == self.has_job(other)),
            forall|other: Seq<u8>|
                self.cancelled_by(consumer) != Some(other) && self.has_job(other)
                    ==> self.after_disconnect(consumer).job(other) == self.job(other),
    {
        if self.has_slot(consumer) {
            let left = self.vacate(consumer);
            assert forall|c: int|
                0 <= c < left.consumers.len() && (#[trigger] left.consumers[c]).state
                    == ConsumerState::Streaming implies left.has_job(left.consumers[c].key) by {
                assert(self.consumers[c].state == ConsumerState::Streaming);
                assert(self.has_job(self.consumers[c].key));
            }
            assert(left.wf());
            match self.cancelled_by(consumer) {
                Some(key) => {
                    let after = self.after_disconnect(consumer);
                    left.lemma_release(key, after);
                    assert forall|c: int|
                        0 <= c < after.consumers.len() && (#[trigger] after.consumers[c]).state
                            == ConsumerState::Streaming implies after.has_job(
                        after.consumers[c].key,
                    ) by {
                        assert(left.has_job(left.consumers[c].key));
                        assert(!left.consumers[c].follows(key));
                    }
                    assert forall|i: int| 0 <= i < after.jobs.len() implies !after.store.holds(
                        #[trigger] after.jobs[i].key,
                    ) by {
                        let other = after.jobs[i].key;
                        assert(left.has_job(other));
                        let si = left.job_index(other);
                        assert(!left.store.holds(left.jobs[si].key));
                    }
                },
                None => {},
            }
        }
    }

    /// A coordinator that holds nothing is well-formed.
    pub proof fn lemma_empty_wf(settings: Settings)
        ensures
            CoordinatorView::empty(settings).wf(),
    {
    }

    /// Whatever happens, a well-formed coordinator stays well-formed.
    pub proof fn lemma_step_wf(self, event: Event)
        requires
            self.wf(),
        ensures
            self.step(event).wf(),
            self.step(event).settings == self.settings,
    {
        match event {
            Event::Request { key, codec, now } => self.lemma_request(key, codec, now),
            Event::Produce { key, chunk } => self.lemma_produce(key, chunk),
            Event::Finish { key, now } => self.lemma_finish(key, now),
            Event::Fail { key, error } => self.lemma_fail(key, error),
            Event::Expire { key, now } => self.lemma_fail(key, TranscodeError::TranscodeFailed),
            Event::Poll { consumer, max } => self.lemma_poll(consumer, max),
            Event::Disconnect { consumer } => self.lemma_disconnect(consumer),
            Event::Evict { key } => {
                self.store.lemma_without(key);
                self.lemma_store_shrinks(self.step(event));
            },
            Event::EvictOldest => {
                self.store.lemma_evictions(0);
                self.lemma_store_shrinks(self.step(event));
            },
            Event::Trim { limit } => {
                self.store.lemma_evictions(limit);
                self.lemma_store_shrinks(self.step(event));
            },
            Event::Restore { key, record } => self.lemma_restore(key, record),
        }
    }

    /// What comes in from the remote store keeps the coordinator
    /// well-formed, and touches neither the registry nor the consumers nor
    /// an artifact of another key.
    pub proof fn lemma_restore(self, key: Seq<u8>, record: Seq<u8>)
        requires
            self.wf(),
        ensures
            self.after_restore(key, record).wf(),
            self.after_restore(key, record).jobs == self.jobs,
            self.after_restore(key, record).consumers == self.consumers,
            self.after_restore(key, record).settings == self.settings,
            self.store.holds(key) && parse_record_spec(record) is Some ==> self.after_restore(
                key,
                record,
            ) == self,
            forall|other: Seq<u8>|
                other != key ==> (self.after_restore(key, record).store.holds(other)
                    == self.store.holds(other)),
            forall|other: Seq<u8>|
                other != key && self.store.holds(other) ==> self.after_restore(
                    key,
                    record,
                ).store.artifact(other) == self.store.artifact(other),
    {
        let after = self.after_restore(key, record);
        if !self.has_job(key) {
            self.store.lemma_without(key);
            match parse_record_spec(record) {
                None => {
                    self.lemma_store_shrinks(after);
                },
                Some(held) => {
                    if !self.store.holds(key) {
                        self.store.lemma_commit(held.artifact(key));
                        assert forall|i: int| 0 <= i < after.jobs.len() implies !after.store.holds(
                            #[trigger] after.jobs[i].key,
                        ) by {
                            assert(!self.store.holds(self.jobs[i].key));
                        }
                        assert forall|c: int|
                            0 <= c < after.consumers.len() && (#[trigger] after.consumers[c]).state
                                == ConsumerState::Streaming implies after.has_job(
                            after.consumers[c].key,
                        ) by {
                            assert(self.has_job(self.consumers[c].key));
                            let i = self.job_index(self.consumers[c].key);
                            assert(after.jobs[i].key == self.consumers[c].key);
                        }
                    }
                },
            }
        }
    }

    /// A coordinator whose store lost artifacts and gained none is still well-formed.
    pub proof fn lemma_store_shrinks(self, after: CoordinatorView)
        requires
            self.wf(),
            after.store.wf(),
            after.jobs == self.jobs,
            after.consumers == self.consumers,
            forall|key: Seq<u8>| after.store.holds(key) ==> self.store.holds(key),
        ensures
            after.wf(),
    {
        assert forall|c: int|
            0 <= c < after.consumers.len() && (#[trigger] after.consumers[c]).state
                == ConsumerState::Streaming implies after.has_job(after.consumers[c].key) by {
            assert(self.has_job(self.consumers[c].key));
            let i = self.job_index(self.consumers[c].key);
            assert(after.jobs[i].key == self.consumers[c].key);
        }
    }

    /// Whatever sequence of events happens, a well-formed coordinator stays well-formed.
    pub proof fn lemma_run_wf(self, events: Seq<Event>)
        requires
            self.wf(),
        ensures
            self.run(events).wf(),
            self.run(events).settings == self.settings,
        decreases events.len(),
    {
        if events.len() > 0 {
            self.lemma_run_wf(events.drop_last());
            self.run(events.drop_last()).lemma_step_wf(events.last());
        }
    }
}

} // verus!
