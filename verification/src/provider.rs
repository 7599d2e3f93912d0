//! The side of the provider that needs no backend: which kind of provider
//! serves a transcode, and the provider for sources that are in the target
//! format already. It hands its input on through a bounded buffer: where
//! the output is not pulled, no more input is taken.

use crate::bytes::{append_bytes, copy_range};
use crate::target::Codec;
use vstd::prelude::*;

verus! {

/// The kinds of provider.
#[derive(Clone, Copy, Debug, PartialEq, Eq, Structural)]
pub enum ProviderKind {
    /// Hands the source on as it is.
    Passthrough,
    /// Runs an encoder as a process of its own.
    ExternalProcess,
    /// Asks a remote service.
    RemoteApi,
}

/// The provider for a source whose codec is known or not: a source in the
/// target codec is handed on as it is, any other goes to the configured provider.
pub open spec fn choose_provider_spec(
    source: Option<Codec>,
    target: Codec,
    configured: ProviderKind,
) -> ProviderKind {
    if source == Some(target) {
        ProviderKind::Passthrough
    } else {
        configured
    }
}

/// The provider for a source whose codec is known or not.
pub fn choose_provider(source: Option<Codec>, target: Codec, configured: ProviderKind) -> (kind:
    ProviderKind)
    ensures
        kind == choose_provider_spec(source, target, configured),
{
    match source {
        Some(codec) => {
            if codec == target {
                ProviderKind::Passthrough
            } else {
                configured
            }
        },
        None => configured,
    }
}

/// What a passthrough holds.
pub struct PassthroughView {
    /// What was taken in and not pulled yet.
    pub buffered: Seq<u8>,
    /// How much may be buffered.
    pub capacity: nat,
    /// Whether the source has ended.
    pub closed: bool,
}

/// What a pull gives.
#[derive(Debug, PartialEq, Eq)]
pub enum Pulled {
    /// The next bytes of the output.
    Bytes(Vec<u8>),
    /// Nothing is buffered; the source has to give more first.
    Waiting,
    /// The output is over.
    Done,
}

/// What a pull gives.
pub enum PulledView {
    Bytes(Seq<u8>),
    Waiting,
    Done,
}

impl View for Pulled {
    type V = PulledView;

    open spec fn view(&self) -> PulledView {
        match self {
            Pulled::Bytes(bytes) => PulledView::Bytes(bytes@),
            Pulled::Waiting => PulledView::Waiting,
            Pulled::Done => PulledView::Done,
        }
    }
}

impl PassthroughView {
    /// How many of `offered` bytes are taken in.
    pub open spec fn accepts(self, offered: nat) -> nat {
        if self.closed || self.buffered.len() >= self.capacity {
            0
        } else if offered <= self.capacity - self.buffered.len() {
            offered
        } else {
            (self.capacity - self.buffered.len()) as nat
        }
    }

    /// How many bytes a pull for at most `max` takes out.
    pub open spec fn yields(self, max: nat) -> nat {
        if max <= self.buffered.len() {
            max
        } else {
            self.buffered.len()
        }
    }

    /// What a pull for at most `max` bytes gives.
    pub open spec fn pulled(self, max: nat) -> PulledView {
        if self.buffered.len() > 0 {
            PulledView::Bytes(self.buffered.subrange(0, self.yields(max) as int))
        } else if self.closed {
            PulledView::Done
        } else {
            PulledView::Waiting
        }
    }
}

/// The provider that hands its source on as it is.
#[derive(Debug)]
pub struct Passthrough {
    buffer: Vec<u8>,
    capacity: usize,
    closed: bool,
}

impl View for Passthrough {
    type V = PassthroughView;

    closed spec fn view(&self) -> PassthroughView {
        PassthroughView {
            buffered: self.buffer@,
            capacity: self.capacity as nat,
            closed: self.closed,
        }
    }
}

impl Passthrough {
    /// No more is buffered than may be.
    pub open spec fn wf(&self) -> bool {
        self@.buffered.len() <= self@.capacity
    }

    /// A passthrough that buffers at most `capacity` bytes.
    pub fn new(capacity: usize) -> (provider: Passthrough)
        ensures
            provider.wf(),
            provider@ == (PassthroughView {
                buffered: Seq::empty(),
                capacity: capacity as nat,
                closed: false,
            }),
    {
        Passthrough { buffer: Vec::new(), capacity, closed: false }
    }

    /// How many bytes can be taken in now.
    pub fn room(&self) -> (room: usize)
        requires
            self.wf(),
        ensures
            room == self@.capacity - self@.buffered.len(),
    {
        self.capacity - self.buffer.len()
    }

    /// Takes in the next bytes of the source, as many as there is room
    /// for, from the first on, and says how many. After the end of the
    /// source none are taken.
    pub fn offer(&mut self, source: &[u8]) -> (taken: usize)
        requires
            old(self).wf(),
        ensures
            final(self).wf(),
            taken == old(self)@.accepts(source@.len()),
            final(self)@ == (PassthroughView {
                buffered: old(self)@.buffered + source@.subrange(0, taken as int),
                ..old(self)@
            }),
    {
        if self.closed {
            assert(self.buffer@ + source@.subrange(0, 0) =~= self.buffer@);
            return 0;
        }
        let room = self.capacity - self.buffer.len();
        let taken = if source.len() <= room { source.len() } else { room };
        append_bytes(&mut self.buffer, vstd::slice::slice_subrange(source, 0, taken));
        taken
    }

    /// Marks the end of the source.
    pub fn close(&mut self)
        ensures
            final(self)@ == (PassthroughView { closed: true, ..old(self)@ }),
            old(self).wf() ==> final(self).wf(),
    {
        self.closed = true;
    }

    /// Gives the next bytes of the output, at most `max`, and makes room
    /// for as many. With nothing buffered the output is over if the source
    /// has ended, and waits for the source if not.
    pub fn pull(&mut self, max: usize) -> (pulled: Pulled)
        requires
            old(self).wf(),
        ensures
            final(self).wf(),
            pulled@ == old(self)@.pulled(max as nat),
            final(self)@ == (PassthroughView {
                buffered: old(self)@.buffered.subrange(
                    old(self)@.yields(max as nat) as int,
                    old(self)@.buffered.len() as int,
                ),
                ..old(self)@
            }),
    {
        if self.buffer.len() == 0 {
            assert(self.buffer@.subrange(0, 0) =~= self.buffer@);
            if self.closed {
                Pulled::Done
            } else {
                Pulled::Waiting
            }
        } else {
            let count = if max <= self.buffer.len() { max } else { self.buffer.len() };
            let bytes = copy_range(self.buffer.as_slice(), 0, count);
            let rest = copy_range(self.buffer.as_slice(), count, self.buffer.len());
            self.buffer = rest;
            Pulled::Bytes(bytes)
        }
    }
}

} // verus!
