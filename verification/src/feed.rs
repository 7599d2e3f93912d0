//! The feed rewriter: every enclosure of a feed is pointed at the play
//! path of its transcoded artifact. Nothing is transcoded here.

use crate::bytes::{append_bytes, copy_bytes};
use crate::endpoint::{
    lemma_play_path_round_trip, parse_play_path_spec, play_path, play_path_spec, PlayView,
};
use crate::error::TranscodeError;
use crate::fingerprint::{fingerprint_spec, Fingerprint};
use crate::hash::lemma_digits_format;
use crate::target::TargetParams;
use vstd::prelude::*;

verus! {

/// A media reference of a feed entry.
pub struct EnclosureView {
    pub url: Option<Seq<u8>>,
    pub media_type: Seq<u8>,
    pub length: u64,
}

/// A media reference of a feed entry.
#[derive(Debug)]
pub struct Enclosure {
    /// Where the media is; an entry may lack it.
    pub url: Option<Vec<u8>>,
    pub media_type: Vec<u8>,
    pub length: u64,
}

impl View for Enclosure {
    type V = EnclosureView;

    open spec fn view(&self) -> EnclosureView {
        EnclosureView {
            url: match self.url {
                Some(url) => Some(url@),
                None => None,
            },
            media_type: self.media_type@,
            length: self.length,
        }
    }
}

impl EnclosureView {
    /// The fingerprint of the enclosure for `target`, if it has a source
    /// URL that is one.
    pub open spec fn fingerprint(self, target: TargetParams) -> Option<Seq<u8>> {
        match self.url {
            Some(url) => fingerprint_spec(url, target),
            None => None,
        }
    }

    /// Whether the enclosure lacks a source URL that can be resolved.
    pub open spec fn is_malformed(self, target: TargetParams) -> bool {
        self.fingerprint(target) is None
    }

    /// The enclosure as the rewritten feed has it: its URL is `base` with
    /// the play path of its artifact; a malformed one stays as it is.
    pub open spec fn rewritten(self, base: Seq<u8>, target: TargetParams) -> EnclosureView {
        match self.fingerprint(target) {
            Some(fingerprint) => EnclosureView {
                url: Some(base + play_path_spec(fingerprint, self.url.unwrap())),
                ..self
            },
            None => self,
        }
    }
}

/// The views of the enclosures of a feed.
pub open spec fn enclosure_views(feed: Seq<Enclosure>) -> Seq<EnclosureView> {
    feed.map_values(|e: Enclosure| e@)
}

/// The places of the malformed enclosures of a feed, in rising order.
pub open spec fn malformed_in(feed: Seq<EnclosureView>, target: TargetParams) -> Seq<usize>
    decreases feed.len(),
{
    if feed.len() == 0 {
        Seq::empty()
    } else {
        let before = malformed_in(feed.drop_last(), target);
        if feed.last().is_malformed(target) {
            before.push((feed.len() - 1) as usize)
        } else {
            before
        }
    }
}

/// The play path that the rewriter writes for an enclosure leads back to
/// the enclosure's fingerprint and source.
pub proof fn lemma_rewritten_leads_back(enclosure: EnclosureView, target: TargetParams)
    requires
        !enclosure.is_malformed(target),
    ensures
        parse_play_path_spec(
            play_path_spec(enclosure.fingerprint(target).unwrap(), enclosure.url.unwrap()),
        ) == Some(
            PlayView {
                fingerprint: enclosure.fingerprint(target).unwrap(),
                source: enclosure.url.unwrap(),
            },
        ),
{
    let source = enclosure.url.unwrap();
    let canonical = crate::canonical::canonical_source_spec(source).unwrap();
    let hash = crate::hash::fnv1a_spec(crate::fingerprint::serialized(canonical, target));
    lemma_digits_format(hash);
    lemma_play_path_round_trip(enclosure.fingerprint(target).unwrap(), source);
}

/// A feed after rewriting.
#[derive(Debug)]
pub struct Rewritten {
    /// The enclosures, as many as before and in their order.
    pub enclosures: Vec<Enclosure>,
    /// The places of the enclosures that were malformed and stayed as they were.
    pub malformed: Vec<usize>,
}

/// A copy of an enclosure.
fn copy_enclosure(enclosure: &Enclosure) -> (copy: Enclosure)
    ensures
        copy@ == enclosure@,
{
    Enclosure {
        url: match &enclosure.url {
            Some(url) => Some(copy_bytes(url.as_slice())),
            None => None,
        },
        media_type: copy_bytes(enclosure.media_type.as_slice()),
        length: enclosure.length,
    }
}

/// Points an enclosure at the play path of its artifact for `target`,
/// under `base`. An enclosure without a source URL that can be resolved is
/// refused as `MalformedEnclosure`.
pub fn rewrite_enclosure(enclosure: &Enclosure, base: &[u8], target: &TargetParams) -> (rewritten:
    Result<Enclosure, TranscodeError>)
    ensures
        rewritten is Ok == !enclosure@.is_malformed(*target),
        rewritten matches Ok(e) ==> e@ == enclosure@.rewritten(base@, *target),
        rewritten matches Err(e) ==> e == TranscodeError::MalformedEnclosure,
{
    match &enclosure.url {
        Some(source) => match Fingerprint::compute(source.as_slice(), target) {
            Ok(fingerprint) => {
                let mut url = copy_bytes(base);
                let path = play_path(&fingerprint, source.as_slice());
                append_bytes(&mut url, path.as_slice());
                Ok(
                    Enclosure {
                        url: Some(url),
                        media_type: copy_bytes(enclosure.media_type.as_slice()),
                        length: enclosure.length,
                    },
                )
            },
            Err(_) => Err(TranscodeError::MalformedEnclosure),
        },
        None => Err(TranscodeError::MalformedEnclosure),
    }
}

/// Rewrites the enclosures of a feed. Every enclosure that can be
/// resolved is pointed at its play path; every other one stays as it is,
/// and its place is reported. No enclosure is dropped.
pub fn rewrite_feed(feed: &Vec<Enclosure>, base: &[u8], target: &TargetParams) -> (rewritten:
    Rewritten)
    ensures
        enclosure_views(rewritten.enclosures@) == enclosure_views(feed@).map_values(
            |e: EnclosureView| e.rewritten(base@, *target),
        ),
        rewritten.malformed@ == malformed_in(enclosure_views(feed@), *target),
{
    let mut enclosures: Vec<Enclosure> = Vec::new();
    let mut malformed: Vec<usize> = Vec::new();
    let mut i: usize = 0;
    assert(enclosure_views(feed@).subrange(0, 0) =~= Seq::<EnclosureView>::empty());
    while i < feed.len()
        invariant
            i <= feed.len(),
            enclosures@.len() == i,
            forall|j: int|
                0 <= j < i ==> (#[trigger] enclosures@[j])@ == feed@[j]@.rewritten(base@, *target),
            malformed@ == malformed_in(enclosure_views(feed@).subrange(0, i as int), *target),
        decreases feed.len() - i,
    {
        let ghost done = enclosure_views(feed@).subrange(0, i as int);
        let ghost next = enclosure_views(feed@).subrange(0, i + 1);
        assert(next.drop_last() =~= done);
        assert(next.last() == feed@[i as int]@);
        match rewrite_enclosure(&feed[i], base, target) {
            Ok(enclosure) => {
                enclosures.push(enclosure);
            },
            Err(_) => {
                enclosures.push(copy_enclosure(&feed[i]));
                malformed.push(i);
            },
        }
        i += 1;
    }
    assert(enclosure_views(feed@).subrange(0, i as int) =~= enclosure_views(feed@));
    assert(enclosure_views(enclosures@) =~= enclosure_views(feed@).map_values(
        |e: EnclosureView| e.rewritten(base@, *target),
    ));
    Rewritten { enclosures, malformed }
}

} // verus!
