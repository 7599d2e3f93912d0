//! The cache key of an artifact.

use crate::bytes::{bytes_equal, copy_bytes};
use crate::canonical::{canonical_source, canonical_source_spec};
use crate::error::TranscodeError;
use crate::hash::{digits, digits_spec, fnv1a, fnv1a_spec};
use crate::target::TargetParams;
use vstd::prelude::*;
use vstd::std_specs::cmp::PartialEqSpecImpl;

verus! {

/// The key under which an artifact is stored and claimed: an opaque byte
/// string, derived from the source and the target parameters.
#[derive(Debug)]
pub struct Fingerprint {
    pub bytes: Vec<u8>,
}

impl View for Fingerprint {
    type V = Seq<u8>;

    open spec fn view(&self) -> Seq<u8> {
        self.bytes@
    }
}

impl Clone for Fingerprint {
    fn clone(&self) -> (copy: Self)
        ensures
            copy@ == self@,
    {
        Fingerprint { bytes: copy_bytes(self.bytes.as_slice()) }
    }
}

impl PartialEq for Fingerprint {
    fn eq(&self, other: &Fingerprint) -> (same: bool) {
        bytes_equal(self.bytes.as_slice(), other.bytes.as_slice())
    }
}

impl Eq for Fingerprint {

}

impl PartialEqSpecImpl for Fingerprint {
    open spec fn obeys_eq_spec() -> bool {
        true
    }

    open spec fn eq_spec(&self, other: &Fingerprint) -> bool {
        self@ == other@
    }
}

/// What is hashed for a source in canonical form and a target: the source,
/// a zero byte, the codec's tag, and the bitrate in four bytes, the top first.
pub open spec fn serialized(canonical: Seq<u8>, target: TargetParams) -> Seq<u8> {
    canonical + seq![
        0u8,
        target.codec.tag_spec(),
        (target.bitrate / 16777216) as u8,
        (target.bitrate / 65536 % 256) as u8,
        (target.bitrate / 256 % 256) as u8,
        (target.bitrate % 256) as u8,
    ]
}

/// The fingerprint of a source URL and a target, if the source is a URL:
/// the hash of what is serialized for them, in sixteen digits.
pub open spec fn fingerprint_spec(source: Seq<u8>, target: TargetParams) -> Option<Seq<u8>> {
    match canonical_source_spec(source) {
        Some(canonical) => Some(digits_spec(fnv1a_spec(serialized(canonical, target)))),
        None => None,
    }
}

/// Different sources or different targets are serialized differently: two
/// fingerprints can fall together only where the hash does.
pub proof fn lemma_serialized_injective(
    a: Seq<u8>,
    target_a: TargetParams,
    b: Seq<u8>,
    target_b: TargetParams,
)
    requires
        serialized(a, target_a) == serialized(b, target_b),
    ensures
        a == b,
        target_a == target_b,
{
    let sa = serialized(a, target_a);
    let sb = serialized(b, target_b);
    assert(sa.len() == a.len() + 6);
    assert(sb.len() == b.len() + 6);
    assert(a =~= sa.subrange(0, a.len() as int));
    assert(b =~= sb.subrange(0, b.len() as int));
    let n = a.len() as int;
    assert(sa[n + 1] == target_a.codec.tag_spec());
    assert(sb[n + 1] == target_b.codec.tag_spec());
    assert(sa[n + 2] == (target_a.bitrate / 16777216) as u8);
    assert(sb[n + 2] == (target_b.bitrate / 16777216) as u8);
    assert(sa[n + 3] == (target_a.bitrate / 65536 % 256) as u8);
    assert(sb[n + 3] == (target_b.bitrate / 65536 % 256) as u8);
    assert(sa[n + 4] == (target_a.bitrate / 256 % 256) as u8);
    assert(sb[n + 4] == (target_b.bitrate / 256 % 256) as u8);
    assert(sa[n + 5] == (target_a.bitrate % 256) as u8);
    assert(sb[n + 5] == (target_b.bitrate % 256) as u8);
    assert(target_a.bitrate == target_b.bitrate);
    assert(target_a.codec == target_b.codec);
}

/// Sources with the same canonical form have the same fingerprint for a target.
pub proof fn lemma_same_canonical_same_fingerprint(a: Seq<u8>, b: Seq<u8>, target: TargetParams)
    requires
        canonical_source_spec(a) == canonical_source_spec(b),
    ensures
        fingerprint_spec(a, target) == fingerprint_spec(b, target),
{
}

impl Fingerprint {
    /// The fingerprint of a source URL and a target. A source that is no
    /// URL is refused as `InvalidInput`.
    pub fn compute(source: &[u8], target: &TargetParams) -> (computed: Result<
        Fingerprint,
        TranscodeError,
    >)
        ensures
            computed is Ok == fingerprint_spec(source@, *target) is Some,
            computed matches Ok(key) ==> key@ == fingerprint_spec(source@, *target).unwrap(),
            computed matches Err(e) ==> e == TranscodeError::InvalidInput,
    {
        match canonical_source(source) {
            Ok(canonical) => {
                let mut input = canonical;
                let bitrate = target.bitrate;
                input.push(0);
                input.push(target.codec.tag());
                input.push((bitrate / 16777216) as u8);
                input.push((bitrate / 65536 % 256) as u8);
                input.push((bitrate / 256 % 256) as u8);
                input.push((bitrate % 256) as u8);
                assert(input@ =~= serialized(canonical_source_spec(source@).unwrap(), *target));
                Ok(Fingerprint { bytes: digits(fnv1a(input.as_slice())) })
            },
            Err(error) => Err(error),
        }
    }

    /// The fingerprint that is written with the given bytes.
    pub fn from_bytes(bytes: &[u8]) -> (key: Fingerprint)
        ensures
            key@ == bytes@,
    {
        Fingerprint { bytes: copy_bytes(bytes) }
    }

    /// The bytes of the fingerprint.
    pub fn as_bytes(&self) -> (bytes: &[u8])
        ensures
            bytes@ == self@,
    {
        self.bytes.as_slice()
    }

    /// Whether the fingerprint is written with exactly these bytes.
    pub fn equals_bytes(&self, bytes: &[u8]) -> (same: bool)
        ensures
            same == (self@ == bytes@),
    {
        bytes_equal(self.bytes.as_slice(), bytes)
    }
}

} // verus!
