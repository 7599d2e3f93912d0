//! What the serving side needs besides the coordinator: the paths under
//! which artifacts are played, and byte ranges.

use crate::bytes::{append_bytes, bytes_equal, copy_range};
use crate::coordinator_model::Phase;
use crate::error::TranscodeError;
use crate::fingerprint::{fingerprint_spec, Fingerprint};
use crate::hex::{
    hex_decode, hex_decode_spec, hex_encode, hex_encode_spec, is_hex, lemma_hex_round_trip,
};
use crate::scan::{find_stop, first_stop, lemma_first_stop_at, Stop};
use crate::store::ArtifactReader;
use crate::target::TargetParams;
use vstd::prelude::*;

verus! {

/// `/play/`
pub open spec fn play_prefix() -> Seq<u8> {
    seq![47u8, 112u8, 108u8, 97u8, 121u8, 47u8]
}

/// The path under which the artifact with `fingerprint` is played:
/// `/play/`, the fingerprint, `/`, and the source in hexadecimal digits.
pub open spec fn play_path_spec(fingerprint: Seq<u8>, source: Seq<u8>) -> Seq<u8> {
    play_prefix() + fingerprint + seq![47u8] + hex_encode_spec(source)
}

/// What a play path asks for.
pub struct PlayView {
    pub fingerprint: Seq<u8>,
    pub source: Seq<u8>,
}

/// What a path asks for, if it is a play path: a fingerprint that is not
/// empty, between `/play/` and the next `/`, and behind that the source in
/// hexadecimal digits.
pub open spec fn parse_play_path_spec(path: Seq<u8>) -> Option<PlayView> {
    let slash = first_stop(path, Stop::Slash, 6);
    if path.len() >= 6 && path.subrange(0, 6) == play_prefix() && 6 < slash < path.len() && is_hex(
        path.subrange(slash + 1, path.len() as int),
    ) {
        Some(
            PlayView {
                fingerprint: path.subrange(6, slash),
                source: hex_decode_spec(path.subrange(slash + 1, path.len() as int)),
            },
        )
    } else {
        None
    }
}

/// A play path made from a fingerprint without `/` and a source is read
/// back as that fingerprint and that source.
pub proof fn lemma_play_path_round_trip(fingerprint: Seq<u8>, source: Seq<u8>)
    requires
        fingerprint.len() > 0,
        forall|i: int| 0 <= i < fingerprint.len() ==> fingerprint[i] != 47,
    ensures
        parse_play_path_spec(play_path_spec(fingerprint, source)) == Some(
            PlayView { fingerprint, source },
        ),
{
    let path = play_path_spec(fingerprint, source);
    let slash = 6 + fingerprint.len() as int;
    assert(path.subrange(0, 6) =~= play_prefix());
    assert forall|j: int| 6 <= j < slash implies !Stop::Slash.hits_spec(#[trigger] path[j]) by {
        assert(path[j] == fingerprint[j - 6]);
    }
    assert(path[slash] == 47);
    lemma_first_stop_at(path, Stop::Slash, 6, slash);
    assert(path.subrange(6, slash) =~= fingerprint);
    assert(path.subrange(slash + 1, path.len() as int) =~= hex_encode_spec(source));
    lemma_hex_round_trip(source);
}

/// A request to play an artifact.
#[derive(Debug)]
pub struct PlayRequest {
    pub fingerprint: Fingerprint,
    pub source: Vec<u8>,
}

impl View for PlayRequest {
    type V = PlayView;

    open spec fn view(&self) -> PlayView {
        PlayView { fingerprint: self.fingerprint@, source: self.source@ }
    }
}

/// The path under which the artifact with `fingerprint`, made from
/// `source`, is played.
pub fn play_path(fingerprint: &Fingerprint, source: &[u8]) -> (path: Vec<u8>)
    ensures
        path@ == play_path_spec(fingerprint@, source@),
{
    let mut path: Vec<u8> = Vec::new();
    path.push(47);
    path.push(112);
    path.push(108);
    path.push(97);
    path.push(121);
    path.push(47);
    assert(path@ =~= play_prefix());
    append_bytes(&mut path, fingerprint.as_bytes());
    path.push(47);
    let reference = hex_encode(source);
    append_bytes(&mut path, reference.as_slice());
    path
}

/// Reads a path as a request to play an artifact. What is no play path is
/// refused as `InvalidInput`.
pub fn parse_play_path(path: &[u8]) -> (parsed: Result<PlayRequest, TranscodeError>)
    ensures
        parsed is Ok == parse_play_path_spec(path@) is Some,
        parsed matches Ok(request) ==> request@ == parse_play_path_spec(path@).unwrap(),
        parsed matches Err(e) ==> e == TranscodeError::InvalidInput,
{
    if path.len() < 6 {
        return Err(TranscodeError::InvalidInput);
    }
    let prefix: [u8; 6] = [47, 112, 108, 97, 121, 47];
    assert(prefix@ =~= play_prefix());
    if !bytes_equal(vstd::slice::slice_subrange(path, 0, 6), prefix.as_slice()) {
        return Err(TranscodeError::InvalidInput);
    }
    let slash = find_stop(path, Stop::Slash, 6);
    if slash == 6 || slash >= path.len() {
        return Err(TranscodeError::InvalidInput);
    }
    match hex_decode(vstd::slice::slice_subrange(path, slash + 1, path.len())) {
        Some(source) => Ok(
            PlayRequest {
                fingerprint: Fingerprint { bytes: copy_range(path, 6, slash) },
                source,
            },
        ),
        None => Err(TranscodeError::InvalidInput),
    }
}

impl PlayRequest {
    /// Whether the fingerprint is the one of the source for `target`.
    pub fn is_consistent(&self, target: &TargetParams) -> (yes: bool)
        ensures
            yes == (fingerprint_spec(self@.source, *target) == Some(self@.fingerprint)),
    {
        match Fingerprint::compute(self.source.as_slice(), target) {
            Ok(expected) => expected.equals_bytes(self.fingerprint.as_bytes()),
            Err(_) => false,
        }
    }
}

/// Whether a text is made of decimal digits only.
pub open spec fn is_digits(text: Seq<u8>) -> bool {
    forall|i: int| 0 <= i < text.len() ==> 48 <= #[trigger] text[i] <= 57
}

/// The number that decimal digits stand for.
pub open spec fn decimal(text: Seq<u8>) -> nat
    decreases text.len(),
{
    if text.len() == 0 {
        0
    } else {
        decimal(text.drop_last()) * 10 + (text.last() - 48) as nat
    }
}

/// Whether a text is a number that fits in 64 bits.
pub open spec fn is_number(text: Seq<u8>) -> bool {
    text.len() > 0 && is_digits(text) && decimal(text) <= u64::MAX
}

/// A longer text of digits stands for no smaller number than its beginning.
pub proof fn lemma_decimal_grows(text: Seq<u8>, upto: int)
    requires
        is_digits(text),
        0 <= upto <= text.len(),
    ensures
        decimal(text.subrange(0, upto)) <= decimal(text),
    decreases text.len() - upto,
{
    if upto < text.len() {
        let shorter = text.drop_last();
        assert(shorter.subrange(0, upto) =~= text.subrange(0, upto));
        assert(48 <= text[text.len() - 1] <= 57);
        assert forall|i: int| 0 <= i < shorter.len() implies 48 <= #[trigger] shorter[i] <= 57 by {
            assert(shorter[i] == text[i]);
        }
        lemma_decimal_grows(shorter, upto);
    } else {
        assert(text.subrange(0, upto) =~= text);
    }
}

/// The number that the bytes of `text` from `from` up to `to` stand for.
pub fn parse_decimal(text: &[u8], from: usize, to: usize) -> (number: Option<u64>)
    requires
        from <= to <= text.len(),
    ensures
        number is Some == is_number(text@.subrange(from as int, to as int)),
        number matches Some(n) ==> n == decimal(text@.subrange(from as int, to as int)),
{
    let ghost digits = text@.subrange(from as int, to as int);
    if from == to {
        return None;
    }
    let mut value: u64 = 0;
    let mut i: usize = from;
    assert(digits.subrange(0, 0) =~= Seq::<u8>::empty());
    while i < to
        invariant
            from <= i <= to <= text.len(),
            digits == text@.subrange(from as int, to as int),
            is_digits(digits.subrange(0, i - from)),
            value == decimal(digits.subrange(0, i - from)),
        decreases to - i,
    {
        let byte = text[i];
        let ghost done = digits.subrange(0, i - from);
        let ghost next = digits.subrange(0, i - from + 1);
        assert(next.drop_last() =~= done);
        assert(next.last() == byte);
        if byte < 48 || byte > 57 {
            assert(!(48 <= digits[i - from] <= 57));
            return None;
        }
        assert forall|j: int| 0 <= j < next.len() implies 48 <= #[trigger] next[j] <= 57 by {
            if j < done.len() {
                assert(next[j] == done[j]);
            }
        }
        let digit: u64 = (byte - 48) as u64;
        if value > (u64::MAX - digit) / 10 {
            proof {
                assert(decimal(next) == value * 10 + digit);
                assert(decimal(next) > u64::MAX);
                if is_digits(digits) {
                    lemma_decimal_grows(digits, i - from + 1);
                }
            }
            return None;
        }
        value = value * 10 + digit;
        i += 1;
    }
    assert(digits.subrange(0, i - from) =~= digits);
    Some(value)
}

/// The bytes that a range header asks for.
#[derive(Clone, Copy, Debug, PartialEq, Eq, Structural)]
pub enum RangeSpec {
    /// From the first position to the second, both counted.
    FromTo(u64, u64),
    /// From a position to the end.
    From(u64),
    /// The last bytes, as many as given.
    Last(u64),
}

/// `bytes=`
pub open spec fn range_prefix() -> Seq<u8> {
    seq![98u8, 121u8, 116u8, 101u8, 115u8, 61u8]
}

/// What a range header asks for, if it is one of a single range:
/// `bytes=a-b`, `bytes=a-` or `bytes=-n`, the numbers in 64 bits.
pub open spec fn parse_range_spec(header: Seq<u8>) -> Option<RangeSpec> {
    let dash = first_stop(header, Stop::Dash, 6);
    let first = header.subrange(6, dash);
    let second = header.subrange(dash + 1, header.len() as int);
    if header.len() >= 6 && header.subrange(0, 6) == range_prefix() && dash < header.len() {
        if first.len() == 0 {
            if is_number(second) {
                Some(RangeSpec::Last(decimal(second) as u64))
            } else {
                None
            }
        } else if second.len() == 0 {
            if is_number(first) {
                Some(RangeSpec::From(decimal(first) as u64))
            } else {
                None
            }
        } else if is_number(first) && is_number(second) {
            Some(RangeSpec::FromTo(decimal(first) as u64, decimal(second) as u64))
        } else {
            None
        }
    } else {
        None
    }
}

/// Reads a range header. One that asks for no single range gives nothing.
pub fn parse_range(header: &[u8]) -> (range: Option<RangeSpec>)
    ensures
        range == parse_range_spec(header@),
{
    if header.len() < 6 {
        return None;
    }
    let prefix: [u8; 6] = [98, 121, 116, 101, 115, 61];
    assert(prefix@ =~= range_prefix());
    if !bytes_equal(vstd::slice::slice_subrange(header, 0, 6), prefix.as_slice()) {
        return None;
    }
    let dash = find_stop(header, Stop::Dash, 6);
    if dash >= header.len() {
        return None;
    }
    if dash == 6 {
        match parse_decimal(header, dash + 1, header.len()) {
            Some(count) => Some(RangeSpec::Last(count)),
            None => None,
        }
    } else if dash + 1 == header.len() {
        match parse_decimal(header, 6, dash) {
            Some(start) => Some(RangeSpec::From(start)),
            None => None,
        }
    } else {
        match (parse_decimal(header, 6, dash), parse_decimal(header, dash + 1, header.len())) {
            (Some(start), Some(last)) => Some(RangeSpec::FromTo(start, last)),
            _ => None,
        }
    }
}

/// A stretch of an artifact: from `start` up to, not counting, `end`.
#[derive(Clone, Copy, Debug, PartialEq, Eq, Structural)]
pub struct ByteRange {
    pub start: usize,
    pub end: usize,
}

/// The stretch of an artifact of `length` bytes that a range asks for, if
/// it asks for any byte of it.
pub open spec fn resolve_spec(range: RangeSpec, length: usize) -> Option<ByteRange> {
    match range {
        RangeSpec::FromTo(first, last) => if first <= last && first < length {
            Some(
                ByteRange {
                    start: first as usize,
                    end: if last < length {
                        (last + 1) as usize
                    } else {
                        length
                    },
                },
            )
        } else {
            None
        },
        RangeSpec::From(first) => if first < length {
            Some(ByteRange { start: first as usize, end: length })
        } else {
            None
        },
        RangeSpec::Last(count) => if count > 0 && length > 0 {
            Some(
                ByteRange {
                    start: if count < length {
                        (length - count) as usize
                    } else {
                        0
                    },
                    end: length,
                },
            )
        } else {
            None
        },
    }
}

/// A resolved range is not empty and lies inside the artifact.
pub proof fn lemma_resolved_in_bounds(range: RangeSpec, length: usize)
    ensures
        resolve_spec(range, length) matches Some(stretch) ==> stretch.start < stretch.end
            <= length,
{
}

/// The stretch of an artifact of `length` bytes that a range asks for.
pub fn resolve_range(range: RangeSpec, length: usize) -> (stretch: Option<ByteRange>)
    ensures
        stretch == resolve_spec(range, length),
{
    match range {
        RangeSpec::FromTo(first, last) => {
            if first <= last && first < length as u64 {
                let end = if last < length as u64 { (last + 1) as usize } else { length };
                Some(ByteRange { start: first as usize, end })
            } else {
                None
            }
        },
        RangeSpec::From(first) => {
            if first < length as u64 {
                Some(ByteRange { start: first as usize, end: length })
            } else {
                None
            }
        },
        RangeSpec::Last(count) => {
            if count > 0 && length > 0 {
                let start = if count < length as u64 { length - count as usize } else { 0 };
                Some(ByteRange { start, end: length })
            } else {
                None
            }
        },
    }
}

/// What to do with a range request for an artifact that is not complete yet.
#[derive(Clone, Copy, Debug, PartialEq, Eq, Structural)]
pub enum RangePolicy {
    /// Let the request wait until the artifact is committed.
    Block,
    /// Refuse the request.
    Reject,
}

/// What becomes of a range request.
#[derive(Clone, Copy, Debug, PartialEq, Eq, Structural)]
pub enum RangeDecision {
    /// Serve this stretch of the complete artifact.
    Serve(ByteRange),
    /// Wait for the commit, then decide again.
    Wait,
    /// Refuse with this error.
    Refuse(TranscodeError),
}

/// What becomes of a request for `range` of an artifact in `phase`, of
/// `length` bytes if it is complete.
pub open spec fn decide_range_spec(
    phase: Phase,
    length: usize,
    range: RangeSpec,
    policy: RangePolicy,
) -> RangeDecision {
    if phase == Phase::Committed {
        match resolve_spec(range, length) {
            Some(stretch) => RangeDecision::Serve(stretch),
            None => RangeDecision::Refuse(TranscodeError::InvalidInput),
        }
    } else if policy == RangePolicy::Block {
        RangeDecision::Wait
    } else {
        RangeDecision::Refuse(TranscodeError::RangeNotYetAvailable)
    }
}

/// Decides a range request. Of a complete artifact the stretch is served,
/// or the request refused as `InvalidInput` where it asks for none of its
/// bytes. Of any other the policy decides: wait, or `RangeNotYetAvailable`.
pub fn decide_range(
    phase: Phase,
    length: usize,
    range: RangeSpec,
    policy: RangePolicy,
) -> (decision: RangeDecision)
    ensures
        decision == decide_range_spec(phase, length, range, policy),
{
    match phase {
        Phase::Committed => match resolve_range(range, length) {
            Some(stretch) => RangeDecision::Serve(stretch),
            None => RangeDecision::Refuse(TranscodeError::InvalidInput),
        },
        _ => match policy {
            RangePolicy::Block => RangeDecision::Wait,
            RangePolicy::Reject => RangeDecision::Refuse(TranscodeError::RangeNotYetAvailable),
        },
    }
}

/// Reads a stretch of an artifact: the reader is moved to its start and
/// stands at its end afterwards.
pub fn read_stretch(reader: &mut ArtifactReader, stretch: ByteRange) -> (bytes: Vec<u8>)
    requires
        old(reader).wf(),
        stretch.start <= stretch.end <= old(reader)@.payload.len(),
    ensures
        final(reader).wf(),
        final(reader)@.payload == old(reader)@.payload,
        final(reader)@.position == stretch.end,
        bytes@ == old(reader)@.payload.subrange(stretch.start as int, stretch.end as int),
{
    let _ = reader.seek(stretch.start);
    reader.read(stretch.end - stretch.start)
}

} // verus!
