//! Finding where a part of a text ends.

use vstd::prelude::*;

verus! {

/// The bytes at which a part of a text ends.
#[derive(Clone, Copy, Debug, PartialEq, Eq, Structural)]
pub enum Stop {
    /// `:`
    Colon,
    /// `/`, `?` or `#`
    AuthorityEnd,
    /// `?` or `#`
    PathEnd,
    /// `#`
    Fragment,
    /// `/`
    Slash,
    /// `-`
    Dash,
}

impl Stop {
    /// Whether `byte` is one at which the part ends.
    pub open spec fn hits_spec(self, byte: u8) -> bool {
        match self {
            Stop::Colon => byte == 58,
            Stop::AuthorityEnd => byte == 47 || byte == 63 || byte == 35,
            Stop::PathEnd => byte == 63 || byte == 35,
            Stop::Fragment => byte == 35,
            Stop::Slash => byte == 47,
            Stop::Dash => byte == 45,
        }
    }

    /// Whether `byte` is one at which the part ends.
    pub fn hits(self, byte: u8) -> (yes: bool)
        ensures
            yes == self.hits_spec(byte),
    {
        match self {
            Stop::Colon => byte == 58,
            Stop::AuthorityEnd => byte == 47 || byte == 63 || byte == 35,
            Stop::PathEnd => byte == 63 || byte == 35,
            Stop::Fragment => byte == 35,
            Stop::Slash => byte == 47,
            Stop::Dash => byte == 45,
        }
    }
}

/// The first place at or behind `from` where a part ends; the length of
/// the text if it ends nowhere.
pub open spec fn first_stop(text: Seq<u8>, stop: Stop, from: int) -> int
    decreases text.len() - from,
{
    if from < 0 || from >= text.len() {
        text.len() as int
    } else if stop.hits_spec(text[from]) {
        from
    } else {
        first_stop(text, stop, from + 1)
    }
}

/// Where a stop stands with none before it, there the first stop is.
pub proof fn lemma_first_stop_at(text: Seq<u8>, stop: Stop, from: int, at: int)
    requires
        0 <= from <= at <= text.len(),
        forall|j: int| from <= j < at ==> !stop.hits_spec(#[trigger] text[j]),
        at < text.len() ==> stop.hits_spec(text[at]),
    ensures
        first_stop(text, stop, from) == at,
    decreases at - from,
{
    if from < at {
        assert(!stop.hits_spec(text[from]));
        lemma_first_stop_at(text, stop, from + 1, at);
    }
}

/// The first place at or behind `from` where a part ends.
pub fn find_stop(text: &[u8], stop: Stop, from: usize) -> (at: usize)
    requires
        from <= text.len(),
    ensures
        at == first_stop(text@, stop, from as int),
        from <= at <= text.len(),
{
    let mut at: usize = from;
    while at < text.len()
        invariant
            from <= at <= text.len(),
            first_stop(text@, stop, at as int) == first_stop(text@, stop, from as int),
        decreases text.len() - at,
    {
        if stop.hits(text[at]) {
            return at;
        }
        at += 1;
    }
    at
}

} // verus!
