//! The failures that the core reports, and what a caller may do about each.

use vstd::prelude::*;

verus! {

/// Every way in which a request can fail.
#[derive(Clone, Copy, Debug, PartialEq, Eq, Structural)]
pub enum TranscodeError {
    /// The source identity cannot be brought into canonical form.
    InvalidInput,
    /// The backend of the artifact store cannot be reached.
    StoreUnavailable,
    /// Nothing is held under the fingerprint.
    NotFound,
    /// What is stored does not agree with its own metadata.
    Corrupt,
    /// The transcoding backend is down.
    ProviderUnavailable,
    /// The provider cannot produce the target format.
    UnsupportedFormat,
    /// The upstream audio cannot be fetched.
    SourceFetchFailed,
    /// Decoding or encoding broke off, or ran out of time.
    TranscodeFailed,
    /// One consumer fell too far behind the production and was dropped.
    ConsumerTooSlow,
    /// A feed entry has no source URL that can be resolved.
    MalformedEnclosure,
    /// A byte range was asked of an artifact that is still being produced.
    RangeNotYetAvailable,
}

/// What a failure means for the one who sees it.
#[derive(Clone, Copy, Debug, PartialEq, Eq, Structural)]
pub enum Recovery {
    /// The request itself is wrong: reject it, do not retry.
    Reject,
    /// Infrastructure is down for now: retry with backoff.
    RetryWithBackoff,
    /// This item cannot be served; other items are not affected.
    FatalForItem,
    /// A production broke off: its claim is released, a later request starts afresh.
    RetryFresh,
    /// Only the one consumer is affected.
    ConsumerOnly,
    /// Nothing can be served under the key as things stand.
    Unavailable,
}

impl TranscodeError {
    /// The class of a failure.
    pub open spec fn recovery_spec(self) -> Recovery {
        match self {
            TranscodeError::InvalidInput => Recovery::Reject,
            TranscodeError::StoreUnavailable => Recovery::RetryWithBackoff,
            TranscodeError::ProviderUnavailable => Recovery::RetryWithBackoff,
            TranscodeError::UnsupportedFormat => Recovery::FatalForItem,
            TranscodeError::MalformedEnclosure => Recovery::FatalForItem,
            TranscodeError::SourceFetchFailed => Recovery::RetryFresh,
            TranscodeError::TranscodeFailed => Recovery::RetryFresh,
            TranscodeError::ConsumerTooSlow => Recovery::ConsumerOnly,
            TranscodeError::NotFound => Recovery::Unavailable,
            TranscodeError::Corrupt => Recovery::Unavailable,
            TranscodeError::RangeNotYetAvailable => Recovery::Unavailable,
        }
    }

    /// Whether a caller may try the same request again and hope for another outcome.
    pub open spec fn retryable_spec(self) -> bool {
        self.recovery_spec() == Recovery::RetryWithBackoff || self.recovery_spec()
            == Recovery::RetryFresh
    }

    /// The class of this failure.
    pub fn recovery(self) -> (class: Recovery)
        ensures
            class == self.recovery_spec(),
    {
        match self {
            TranscodeError::InvalidInput => Recovery::Reject,
            TranscodeError::StoreUnavailable | TranscodeError::ProviderUnavailable => {
                Recovery::RetryWithBackoff
            },
            TranscodeError::UnsupportedFormat | TranscodeError::MalformedEnclosure => {
                Recovery::FatalForItem
            },
            TranscodeError::SourceFetchFailed | TranscodeError::TranscodeFailed => {
                Recovery::RetryFresh
            },
            TranscodeError::ConsumerTooSlow => Recovery::ConsumerOnly,
            TranscodeError::NotFound | TranscodeError::Corrupt
            | TranscodeError::RangeNotYetAvailable => Recovery::Unavailable,
        }
    }

    /// Whether the same request may be tried again.
    pub fn is_retryable(self) -> (yes: bool)
        ensures
            yes == self.retryable_spec(),
    {
        match self.recovery() {
            Recovery::RetryWithBackoff | Recovery::RetryFresh => true,
            _ => false,
        }
    }
}

} // verus!
