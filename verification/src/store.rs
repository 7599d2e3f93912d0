//! The artifact store: complete artifacts by fingerprint, readers that
//! stream them, and write handles through which an artifact becomes
//! visible all at once or not at all.

use crate::bytes::{append_bytes, copy_range};
use crate::error::TranscodeError;
use crate::fingerprint::Fingerprint;
use crate::record::{decode_record, encode_record, parse_record_spec, record_spec};
use crate::store_model::{ArtifactView, ProductionView, StoreView};
use crate::target::Codec;
use std::sync::Arc;
use vstd::prelude::*;

verus! {

/// A complete artifact as the store holds it. Readers share the payload.
#[derive(Debug)]
pub struct Artifact {
    key: Fingerprint,
    codec: Codec,
    created_at: u64,
    payload: Arc<Vec<u8>>,
}

impl View for Artifact {
    type V = ArtifactView;

    closed spec fn view(&self) -> ArtifactView {
        ArtifactView {
            key: self.key@,
            codec: self.codec,
            created_at: self.created_at,
            payload: self.payload@,
        }
    }
}

/// What is known of an artifact besides its bytes.
#[derive(Clone, Copy, Debug, PartialEq, Eq, Structural)]
pub struct ArtifactMeta {
    pub codec: Codec,
    pub length: usize,
    pub created_at: u64,
}

/// The right to write one artifact. The bytes written through it are seen
/// by no reader until the store commits the handle; a handle that is dropped
/// leaves no trace.
#[derive(Debug)]
pub struct WriteHandle {
    key: Fingerprint,
    codec: Codec,
    buffer: Vec<u8>,
    deadline: u64,
}

impl View for WriteHandle {
    type V = ProductionView;

    closed spec fn view(&self) -> ProductionView {
        ProductionView {
            key: self.key@,
            codec: self.codec,
            produced: self.buffer@,
            deadline: self.deadline,
        }
    }
}

impl WriteHandle {
    /// A handle for `key` with nothing written yet, to be committed by `deadline`.
    pub fn new(key: &Fingerprint, codec: Codec, deadline: u64) -> (handle: WriteHandle)
        ensures
            handle@ == (ProductionView { key: key@, codec, produced: Seq::empty(), deadline }),
    {
        WriteHandle { key: key.clone(), codec, buffer: Vec::new(), deadline }
    }

    /// The time by which the handle has to be committed.
    pub fn deadline(&self) -> (deadline: u64)
        ensures
            deadline == self@.deadline,
    {
        self.deadline
    }

    /// The key that is written.
    pub fn key(&self) -> (key: &Fingerprint)
        ensures
            key@ == self@.key,
    {
        &self.key
    }

    /// The codec of what is written.
    pub fn codec(&self) -> (codec: Codec)
        ensures
            codec == self@.codec,
    {
        self.codec
    }

    /// The bytes written so far.
    pub fn written(&self) -> (bytes: &[u8])
        ensures
            bytes@ == self@.produced,
    {
        self.buffer.as_slice()
    }

    /// Appends a chunk.
    pub fn write(&mut self, chunk: &[u8])
        ensures
            final(self)@ == (ProductionView {
                produced: old(self)@.produced + chunk@,
                ..old(self)@
            }),
    {
        append_bytes(&mut self.buffer, chunk);
    }
}

/// A reader's place in an artifact.
pub struct ReaderView {
    pub payload: Seq<u8>,
    pub position: nat,
}

/// A forward-only stream over one complete artifact, which can be started
/// over. It keeps the payload alive: eviction does not cut a reader short.
#[derive(Debug)]
pub struct ArtifactReader {
    payload: Arc<Vec<u8>>,
    position: usize,
}

impl View for ArtifactReader {
    type V = ReaderView;

    closed spec fn view(&self) -> ReaderView {
        ReaderView { payload: self.payload@, position: self.position as nat }
    }
}

impl ArtifactReader {
    /// The place is inside the payload or at its end.
    pub open spec fn wf(&self) -> bool {
        self@.position <= self@.payload.len()
    }

    /// The length of the artifact.
    pub fn len(&self) -> (length: usize)
        ensures
            length == self@.payload.len(),
    {
        self.payload.len()
    }

    /// How many bytes were read.
    pub fn position(&self) -> (position: usize)
        ensures
            position == self@.position,
    {
        self.position
    }

    /// How many bytes are left to read.
    pub fn remaining(&self) -> (left: usize)
        requires
            self.wf(),
        ensures
            left == self@.payload.len() - self@.position,
    {
        self.payload.len() - self.position
    }

    /// The next bytes of the artifact, at most `max` of them; none at the end.
    pub fn read(&mut self, max: usize) -> (chunk: Vec<u8>)
        requires
            old(self).wf(),
        ensures
            final(self).wf(),
            final(self)@.payload == old(self)@.payload,
            chunk@ == old(self)@.payload.subrange(
                old(self)@.position as int,
                final(self)@.position as int,
            ),
            final(self)@.position == old(self)@.position + chunk@.len(),
            chunk@.len() == if max <= old(self)@.payload.len() - old(self)@.position {
                max as int
            } else {
                old(self)@.payload.len() - old(self)@.position
            },
    {
        let left = self.payload.len() - self.position;
        let take = if max <= left { max } else { left };
        let end = self.position + take;
        let chunk = copy_range(self.payload.as_slice(), self.position, end);
        self.position = end;
        chunk
    }

    /// Starts over at the first byte.
    pub fn restart(&mut self)
        ensures
            final(self).wf(),
            final(self)@ == (ReaderView { position: 0, ..old(self)@ }),
    {
        self.position = 0;
    }

    /// Moves to the byte at `offset`. An offset behind the end is refused
    /// and leaves the reader where it was.
    pub fn seek(&mut self, offset: usize) -> (moved: bool)
        requires
            old(self).wf(),
        ensures
            final(self).wf(),
            moved == (offset <= old(self)@.payload.len()),
            moved ==> final(self)@ == (ReaderView { position: offset as nat, ..old(self)@ }),
            !moved ==> final(self)@ == old(self)@,
    {
        if offset <= self.payload.len() {
            self.position = offset;
            true
        } else {
            false
        }
    }
}

/// The complete artifacts, least recently completed first.
#[derive(Debug)]
pub struct ArtifactStore {
    entries: Vec<Artifact>,
}

impl View for ArtifactStore {
    type V = StoreView;

    closed spec fn view(&self) -> StoreView {
        StoreView { artifacts: self.entries@.map_values(|a: Artifact| a@) }
    }
}

impl ArtifactStore {
    /// No key is held twice.
    pub open spec fn wf(&self) -> bool {
        self@.wf()
    }

    /// A store that holds nothing.
    pub fn new() -> (store: ArtifactStore)
        ensures
            store.wf(),
            store@ == StoreView::empty(),
    {
        let store = ArtifactStore { entries: Vec::new() };
        assert(store@.artifacts =~= Seq::empty());
        store
    }

    /// How many artifacts are held.
    pub fn len(&self) -> (count: usize)
        ensures
            count == self@.artifacts.len(),
    {
        self.entries.len()
    }

    /// Where `key` stands among the entries.
    fn position(&self, key: &Fingerprint) -> (place: Option<usize>)
        ensures
            place matches Some(i) ==> i < self@.artifacts.len() && self@.artifacts[i as int].key
                == key@,
            place is None ==> !self@.holds(key@),
    {
        let mut i: usize = 0;
        while i < self.entries.len()
            invariant
                i <= self.entries.len(),
                forall|j: int| 0 <= j < i ==> self@.artifacts[j].key != key@,
            decreases self.entries.len() - i,
        {
            if self.entries[i].key.equals_bytes(key.as_bytes()) {
                return Some(i);
            }
            i += 1;
        }
        None
    }

    /// Whether a complete artifact is held under `key`.
    pub fn contains(&self, key: &Fingerprint) -> (held: bool)
        ensures
            held == self@.holds(key@),
    {
        self.position(key).is_some()
    }

    /// Codec, length and creation time of the artifact under `key`.
    pub fn metadata(&self, key: &Fingerprint) -> (meta: Option<ArtifactMeta>)
        requires
            self.wf(),
        ensures
            meta is Some == self@.holds(key@),
            meta matches Some(m) ==> m.codec == self@.artifact(key@).codec && m.length
                == self@.artifact(key@).payload.len() && m.created_at == self@.artifact(
                key@,
            ).created_at,
    {
        match self.position(key) {
            Some(i) => {
                proof {
                    self@.lemma_index_unique(key@, i as int);
                }
                let entry = &self.entries[i];
                Some(
                    ArtifactMeta {
                        codec: entry.codec,
                        length: entry.payload.len(),
                        created_at: entry.created_at,
                    },
                )
            },
            None => None,
        }
    }

    /// Opens the artifact under `key` for reading from its first byte, or
    /// reports `NotFound` where none is held.
    pub fn open_read(&self, key: &Fingerprint) -> (opened: Result<ArtifactReader, TranscodeError>)
        requires
            self.wf(),
        ensures
            opened is Ok == self@.holds(key@),
            opened matches Ok(reader) ==> reader.wf() && reader@ == (ReaderView {
                payload: self@.artifact(key@).payload,
                position: 0,
            }),
            opened matches Err(e) ==> e == TranscodeError::NotFound,
    {
        match self.position(key) {
            Some(i) => {
                proof {
                    self@.lemma_index_unique(key@, i as int);
                }
                Ok(ArtifactReader { payload: self.entries[i].payload.clone(), position: 0 })
            },
            None => Err(TranscodeError::NotFound),
        }
    }

    /// A handle through which an artifact for `key` is written. Nothing of
    /// it is seen in the store before `commit`.
    pub fn begin_write(&self, key: &Fingerprint, codec: Codec) -> (handle: WriteHandle)
        ensures
            handle@ == (ProductionView {
                key: key@,
                codec,
                produced: Seq::empty(),
                deadline: u64::MAX,
            }),
    {
        WriteHandle::new(key, codec, u64::MAX)
    }

    /// Makes what was written through `handle` visible as a complete
    /// artifact, created at `now`. It takes the place of an artifact held
    /// under the same key and counts as the most recently completed.
    pub fn commit(&mut self, handle: WriteHandle, now: u64)
        requires
            old(self).wf(),
        ensures
            final(self).wf(),
            final(self)@ == old(self)@.commit(
                ArtifactView {
                    key: handle@.key,
                    codec: handle@.codec,
                    created_at: now,
                    payload: handle@.produced,
                },
            ),
    {
        let ghost artifact = ArtifactView {
            key: handle@.key,
            codec: handle@.codec,
            created_at: now,
            payload: handle@.produced,
        };
        proof {
            old(self)@.lemma_commit(artifact);
        }
        let _ = self.evict(&handle.key);
        let entry = Artifact {
            key: handle.key,
            codec: handle.codec,
            created_at: now,
            payload: Arc::new(handle.buffer),
        };
        assert(entry@ == artifact);
        self.entries.push(entry);
        assert(self@.artifacts =~= old(self)@.commit(artifact).artifacts);
    }

    /// The artifact under `key` as a record for the remote store.
    pub fn export(&self, key: &Fingerprint) -> (record: Option<Vec<u8>>)
        requires
            self.wf(),
        ensures
            record is Some == self@.holds(key@),
            record matches Some(bytes) ==> bytes@ == record_spec(self@.artifact(key@).record()),
    {
        match self.position(key) {
            Some(i) => {
                proof {
                    self@.lemma_index_unique(key@, i as int);
                }
                let entry = &self.entries[i];
                Some(encode_record(entry.codec, entry.created_at, entry.payload.as_slice()))
            },
            None => None,
        }
    }

    /// Takes in what the remote store holds under `key`. Bytes that are no
    /// record are reported as `Corrupt`, and the key is invalidated. A
    /// record becomes the most recently completed artifact, unless the key
    /// is held already; the answer says whether it was taken in.
    pub fn restore(&mut self, key: &Fingerprint, record: &[u8]) -> (restored: Result<
        bool,
        TranscodeError,
    >)
        requires
            old(self).wf(),
        ensures
            final(self).wf(),
            final(self)@ == old(self)@.restore(key@, record@),
            restored is Ok == parse_record_spec(record@) is Some,
            restored matches Ok(taken) ==> taken == !old(self)@.holds(key@),
            restored matches Err(e) ==> e == TranscodeError::Corrupt,
    {
        match decode_record(record) {
            Ok(held) => {
                if self.contains(key) {
                    Ok(false)
                } else {
                    let handle = WriteHandle {
                        key: key.clone(),
                        codec: held.codec,
                        buffer: held.payload,
                        deadline: u64::MAX,
                    };
                    self.commit(handle, held.created_at);
                    Ok(true)
                }
            },
            Err(error) => {
                let _ = self.evict(key);
                Err(error)
            },
        }
    }

    /// Takes the artifact under `key` out of the store. Says whether there was one.
    pub fn evict(&mut self, key: &Fingerprint) -> (evicted: bool)
        requires
            old(self).wf(),
        ensures
            final(self).wf(),
            evicted == old(self)@.holds(key@),
            final(self)@ == old(self)@.without(key@),
    {
        proof {
            old(self)@.lemma_without(key@);
        }
        match self.position(key) {
            Some(i) => {
                proof {
                    self@.lemma_index_unique(key@, i as int);
                }
                let _ = self.entries.remove(i);
                assert(self@.artifacts =~= old(self)@.without(key@).artifacts);
                true
            },
            None => false,
        }
    }

    /// Takes out the least recently completed artifact and gives its key.
    pub fn evict_oldest(&mut self) -> (evicted: Option<Fingerprint>)
        ensures
            final(self)@ == old(self)@.evict_oldest(),
            old(self).wf() ==> final(self).wf(),
            evicted is Some == (old(self)@.artifacts.len() > 0),
            evicted matches Some(key) ==> key@ == old(self)@.artifacts[0].key,
    {
        if self.entries.len() == 0 {
            None
        } else {
            let entry = self.entries.remove(0);
            assert(self@.artifacts =~= old(self)@.artifacts.drop_first());
            assert(old(self).wf() ==> self.wf()) by {
                if old(self).wf() {
                    assert forall|i: int, j: int|
                        0 <= i < j < self@.artifacts.len() implies self@.artifacts[i].key
                        != self@.artifacts[j].key by {
                        assert(self@.artifacts[i] == old(self)@.artifacts[i + 1]);
                        assert(self@.artifacts[j] == old(self)@.artifacts[j + 1]);
                    }
                }
            }
            Some(entry.key)
        }
    }

    /// Cuts the store down to its `limit` most recently completed artifacts.
    /// Gives the number of artifacts that had to go.
    pub fn trim(&mut self, limit: usize) -> (evicted: usize)
        ensures
            final(self)@ == old(self)@.trim(limit as nat),
            old(self).wf() ==> final(self).wf(),
            evicted == old(self)@.artifacts.len() - final(self)@.artifacts.len(),
    {
        let total = self.entries.len();
        let mut evicted: usize = 0;
        while self.entries.len() > limit
            invariant
                total == old(self)@.artifacts.len(),
                evicted > 0 ==> self@.artifacts.len() >= limit,
                evicted + self@.artifacts.len() == old(self)@.artifacts.len(),
                self@.artifacts == old(self)@.artifacts.subrange(
                    evicted as int,
                    old(self)@.artifacts.len() as int,
                ),
                old(self).wf() ==> self.wf(),
            decreases self.entries.len(),
        {
            assert(self@.artifacts.len() == self.entries@.len());
            assert(old(self)@.artifacts.len() == old(self).entries@.len());
            let _ = self.evict_oldest();
            assert(self@.artifacts =~= old(self)@.artifacts.subrange(
                evicted + 1,
                old(self)@.artifacts.len() as int,
            ));
            evicted += 1;
        }
        assert(self@.artifacts.len() == self.entries@.len());
        assert(self@.artifacts =~= old(self)@.trim(limit as nat).artifacts);
        evicted
    }
}

} // verus!
