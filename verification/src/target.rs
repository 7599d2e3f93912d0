//! What an artifact is transcoded to.

use vstd::prelude::*;
use vstd::string::StringExecFns;

verus! {

/// The codecs that a provider can be asked for.
#[derive(Clone, Copy, Debug, PartialEq, Eq, Structural)]
pub enum Codec {
    /// MPEG audio layer III.
    Mp3,
    /// Advanced audio coding.
    Aac,
    /// Opus in an Ogg container.
    Opus,
}

/// Target codec and bitrate of a transcode.
#[derive(Clone, Copy, Debug, PartialEq, Eq, Structural)]
pub struct TargetParams {
    pub codec: Codec,
    /// In kilobits per second.
    pub bitrate: u32,
}

impl Codec {
    /// The byte that stands for the codec in a canonical serialization.
    pub open spec fn tag_spec(self) -> u8 {
        match self {
            Codec::Mp3 => 1u8,
            Codec::Aac => 2u8,
            Codec::Opus => 3u8,
        }
    }

    /// The codec that a tag byte stands for, if any.
    pub open spec fn from_tag_spec(tag: u8) -> Option<Codec> {
        if tag == 1 {
            Some(Codec::Mp3)
        } else if tag == 2 {
            Some(Codec::Aac)
        } else if tag == 3 {
            Some(Codec::Opus)
        } else {
            None
        }
    }

    /// A codec is the one that its tag stands for.
    pub proof fn lemma_tag_round_trip(self)
        ensures
            Codec::from_tag_spec(self.tag_spec()) == Some(self),
    {
    }

    /// The media type under which an artifact of this codec is served.
    pub open spec fn content_type_spec(self) -> Seq<char> {
        match self {
            Codec::Mp3 => "audio/mpeg"@,
            Codec::Aac => "audio/aac"@,
            Codec::Opus => "audio/ogg"@,
        }
    }

    /// The byte that stands for the codec in a canonical serialization.
    pub fn tag(self) -> (tag: u8)
        ensures
            tag == self.tag_spec(),
    {
        match self {
            Codec::Mp3 => 1,
            Codec::Aac => 2,
            Codec::Opus => 3,
        }
    }

    /// The codec that a tag byte stands for, if any.
    pub fn from_tag(tag: u8) -> (codec: Option<Codec>)
        ensures
            codec == Codec::from_tag_spec(tag),
    {
        if tag == 1 {
            Some(Codec::Mp3)
        } else if tag == 2 {
            Some(Codec::Aac)
        } else if tag == 3 {
            Some(Codec::Opus)
        } else {
            None
        }
    }

    /// The media type under which an artifact of this codec is served.
    pub fn content_type(self) -> (media: String)
        ensures
            media@ == self.content_type_spec(),
    {
        match self {
            Codec::Mp3 => String::from_str("audio/mpeg"),
            Codec::Aac => String::from_str("audio/aac"),
            Codec::Opus => String::from_str("audio/ogg"),
        }
    }
}

} // verus!
