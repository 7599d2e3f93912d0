//! What an artifact store holds, as a mathematical value: the complete
//! artifacts in the order in which they were completed, oldest first.

use crate::record::{parse_record_spec, RecordView};
use crate::target::Codec;
use vstd::prelude::*;

verus! {

/// A complete artifact.
pub struct ArtifactView {
    pub key: Seq<u8>,
    pub codec: Codec,
    pub created_at: u64,
    pub payload: Seq<u8>,
}

impl ArtifactView {
    /// What the record of the artifact holds.
    pub open spec fn record(self) -> RecordView {
        RecordView { codec: self.codec, created_at: self.created_at, payload: self.payload }
    }
}

impl RecordView {
    /// The artifact that the record holds for `key`.
    pub open spec fn artifact(self, key: Seq<u8>) -> ArtifactView {
        ArtifactView { key, codec: self.codec, created_at: self.created_at, payload: self.payload }
    }
}

/// A production in progress: the bytes written so far for a key.
pub struct ProductionView {
    pub key: Seq<u8>,
    pub codec: Codec,
    pub produced: Seq<u8>,
    /// The time by which the production has to be ended.
    pub deadline: u64,
}

impl ProductionView {
    /// The artifact that the production becomes when it is committed at `now`.
    pub open spec fn completed(self, now: u64) -> ArtifactView {
        ArtifactView { key: self.key, codec: self.codec, created_at: now, payload: self.produced }
    }
}

/// The contents of a store.
pub struct StoreView {
    pub artifacts: Seq<ArtifactView>,
}

impl StoreView {
    /// The store that holds nothing.
    pub open spec fn empty() -> StoreView {
        StoreView { artifacts: Seq::empty() }
    }

    /// No key is held twice.
    pub open spec fn wf(self) -> bool {
        forall|i: int, j: int|
            0 <= i < j < self.artifacts.len() ==> self.artifacts[i].key != self.artifacts[j].key
    }

    /// Whether a complete artifact is held under `key`.
    pub open spec fn holds(self, key: Seq<u8>) -> bool {
        exists|i: int| 0 <= i < self.artifacts.len() && self.artifacts[i].key == key
    }

    /// Where the artifact under `key` stands, if one is held.
    pub open spec fn index_of(self, key: Seq<u8>) -> int {
        choose|i: int| 0 <= i < self.artifacts.len() && self.artifacts[i].key == key
    }

    /// The artifact under `key`, if one is held.
    pub open spec fn artifact(self, key: Seq<u8>) -> ArtifactView {
        self.artifacts[self.index_of(key)]
    }

    /// The store without the artifact under `key`.
    pub open spec fn without(self, key: Seq<u8>) -> StoreView {
        if self.holds(key) {
            StoreView { artifacts: self.artifacts.remove(self.index_of(key)) }
        } else {
            self
        }
    }

    /// The store after `artifact` became visible under its key: it replaces
    /// what was held there and is the most recently completed.
    pub open spec fn commit(self, artifact: ArtifactView) -> StoreView {
        StoreView { artifacts: self.without(artifact.key).artifacts.push(artifact) }
    }

    /// The store after a record for `key` came in from outside. Bytes
    /// that are no record invalidate the key. A record is taken in as the
    /// most recently completed artifact, unless the key is held already.
    pub open spec fn restore(self, key: Seq<u8>, record: Seq<u8>) -> StoreView {
        match parse_record_spec(record) {
            None => self.without(key),
            Some(held) => if self.holds(key) {
                self
            } else {
                self.commit(held.artifact(key))
            },
        }
    }

    /// The store without its least recently completed artifact.
    pub open spec fn evict_oldest(self) -> StoreView {
        if self.artifacts.len() > 0 {
            StoreView { artifacts: self.artifacts.drop_first() }
        } else {
            self
        }
    }

    /// The store without the artifacts that stand before place `from`.
    pub open spec fn suffix(self, from: int) -> StoreView {
        StoreView { artifacts: self.artifacts.subrange(from, self.artifacts.len() as int) }
    }

    /// The store cut down to its `limit` most recently completed artifacts.
    pub open spec fn trim(self, limit: nat) -> StoreView {
        if self.artifacts.len() > limit {
            self.suffix(self.artifacts.len() - limit)
        } else {
            self
        }
    }

    /// In a well-formed store the place of a key is the one place where it stands.
    pub proof fn lemma_index_unique(self, key: Seq<u8>, i: int)
        requires
            self.wf(),
            0 <= i < self.artifacts.len(),
            self.artifacts[i].key == key,
        ensures
            self.holds(key),
            self.index_of(key) == i,
            self.artifact(key) == self.artifacts[i],
    {
        let j = self.index_of(key);
        assert(0 <= j < self.artifacts.len() && self.artifacts[j].key == key);
        if j < i {
            assert(self.artifacts[j].key != self.artifacts[i].key);
        } else if i < j {
            assert(self.artifacts[i].key != self.artifacts[j].key);
        }
    }

    /// Taking a key out leaves a well-formed store that no longer holds it
    /// and holds every other artifact as before.
    pub proof fn lemma_without(self, key: Seq<u8>)
        requires
            self.wf(),
        ensures
            self.without(key).wf(),
            !self.without(key).holds(key),
            forall|other: Seq<u8>|
                other != key ==> (self.without(key).holds(other) == self.holds(other)),
            forall|other: Seq<u8>|
                other != key && self.holds(other) ==> self.without(key).artifact(other)
                    == self.artifact(other),
    {
        let after = self.without(key);
        if self.holds(key) {
            let at = self.index_of(key);
            assert forall|i: int, j: int|
                0 <= i < j < after.artifacts.len() implies after.artifacts[i].key
                != after.artifacts[j].key by {
                let si = if i < at { i } else { i + 1 };
                let sj = if j < at { j } else { j + 1 };
                assert(after.artifacts[i] == self.artifacts[si]);
                assert(after.artifacts[j] == self.artifacts[sj]);
            }
            if after.holds(key) {
                let i = after.index_of(key);
                let si = if i < at { i } else { i + 1 };
                assert(after.artifacts[i] == self.artifacts[si]);
                self.lemma_index_unique(key, si);
            }
            assert forall|other: Seq<u8>| other != key implies (after.holds(other) == self.holds(
                other,
            )) by {
                if after.holds(other) {
                    let i = after.index_of(other);
                    let si = if i < at { i } else { i + 1 };
                    assert(after.artifacts[i] == self.artifacts[si]);
                }
                if self.holds(other) {
                    let si = self.index_of(other);
                    let i = if si < at { si } else { si - 1 };
                    assert(after.artifacts[i] == self.artifacts[si]);
                }
            }
            assert forall|other: Seq<u8>| other != key && self.holds(other) implies after.artifact(
                other,
            ) == self.artifact(other) by {
                let si = self.index_of(other);
                let i = if si < at { si } else { si - 1 };
                assert(after.artifacts[i] == self.artifacts[si]);
                after.lemma_index_unique(other, i);
            }
        }
    }

    /// What is left of a well-formed store after artifacts were taken from
    /// its old end is well-formed and holds nothing new.
    pub proof fn lemma_suffix(self, from: int)
        requires
            self.wf(),
            0 <= from <= self.artifacts.len(),
        ensures
            self.suffix(from).wf(),
            forall|key: Seq<u8>|
                self.suffix(from).holds(key) ==> self.holds(key) && self.suffix(from).artifact(key)
                    == self.artifact(key),
    {
        let after = self.suffix(from);
        assert forall|i: int, j: int|
            0 <= i < j < after.artifacts.len() implies after.artifacts[i].key
            != after.artifacts[j].key by {
            assert(after.artifacts[i] == self.artifacts[i + from]);
            assert(after.artifacts[j] == self.artifacts[j + from]);
        }
        assert forall|key: Seq<u8>| after.holds(key) implies self.holds(key) && after.artifact(key)
            == self.artifact(key) by {
            let i = after.index_of(key);
            assert(after.artifacts[i] == self.artifacts[i + from]);
            self.lemma_index_unique(key, i + from);
        }
    }

    /// Eviction of the oldest artifact, and trimming, leave a well-formed
    /// store that holds nothing new.
    pub proof fn lemma_evictions(self, limit: nat)
        requires
            self.wf(),
        ensures
            self.evict_oldest().wf(),
            self.trim(limit).wf(),
            forall|key: Seq<u8>|
                self.evict_oldest().holds(key) ==> self.holds(key) && self.evict_oldest().artifact(
                    key,
                ) == self.artifact(key),
            forall|key: Seq<u8>|
                self.trim(limit).holds(key) ==> self.holds(key) && self.trim(limit).artifact(key)
                    == self.artifact(key),
    {
        if self.artifacts.len() > 0 {
            self.lemma_suffix(1);
            assert(self.artifacts.drop_first() =~= self.artifacts.subrange(
                1,
                self.artifacts.len() as int,
            ));
        }
        if self.artifacts.len() > limit {
            self.lemma_suffix(self.artifacts.len() - limit);
        }
    }

    /// Committing an artifact leaves a well-formed store that holds it under
    /// its key and every artifact of another key as before.
    pub proof fn lemma_commit(self, artifact: ArtifactView)
        requires
            self.wf(),
        ensures
            self.commit(artifact).wf(),
            self.commit(artifact).holds(artifact.key),
            self.commit(artifact).artifact(artifact.key) == artifact,
            forall|other: Seq<u8>|
                other != artifact.key ==> (self.commit(artifact).holds(other) == self.holds(other)),
            forall|other: Seq<u8>|
                other != artifact.key && self.holds(other) ==> self.commit(artifact).artifact(other)
                    == self.artifact(other),
    {
        let mid = self.without(artifact.key);
        let after = self.commit(artifact);
        let last = mid.artifacts.len() as int;
        self.lemma_without(artifact.key);
        assert(after.artifacts[last] == artifact);
        assert forall|i: int, j: int|
            0 <= i < j < after.artifacts.len() implies after.artifacts[i].key
            != after.artifacts[j].key by {
            assert(after.artifacts[i] == mid.artifacts[i]);
            if j < last {
                assert(after.artifacts[j] == mid.artifacts[j]);
            } else {
                assert(mid.artifacts[i].key != artifact.key);
            }
        }
        after.lemma_index_unique(artifact.key, last);
        assert forall|other: Seq<u8>| other != artifact.key implies (after.holds(other)
            == self.holds(other)) by {
            if after.holds(other) {
                let i = after.index_of(other);
                assert(after.artifacts[i] == mid.artifacts[i]);
                assert(mid.holds(other));
            }
            if self.holds(other) {
                assert(mid.holds(other));
                let i = mid.index_of(other);
                assert(after.artifacts[i] == mid.artifacts[i]);
            }
        }
        assert forall|other: Seq<u8>|
            other != artifact.key && self.holds(other) implies after.artifact(other)
            == self.artifact(other) by {
            assert(mid.holds(other));
            let i = mid.index_of(other);
            assert(after.artifacts[i] == mid.artifacts[i]);
            after.lemma_index_unique(other, i);
        }
    }
}

} // verus!
