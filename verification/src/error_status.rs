//! Outcomes of fallible operations and the failure record that carries them.

use vstd::prelude::*;
use vstd::string::*;

verus! {

/// Why an operation failed. `Okay` marks the absence of a failure.
#[derive(Debug, Clone, Copy, PartialEq, Eq, Structural)]
pub enum ErrorStatusOutcome {
    Okay,
    InvalidTimecodeRate,
    NonDropframeRate,
    InvalidTimecodeString,
    InvalidTimeString,
    TimecodeRateMismatch,
    NegativeValue,
    InvalidRateForDropFrameTimecode,
}

impl ErrorStatusOutcome {
    /// The fixed description of each outcome, as a sequence of characters.
    pub open spec fn description(self) -> Seq<char> {
        match self {
            ErrorStatusOutcome::Okay => ""@,
            ErrorStatusOutcome::InvalidTimecodeRate => "invalid timecode rate"@,
            ErrorStatusOutcome::NonDropframeRate => "rate is not a dropframe rate"@,
            ErrorStatusOutcome::InvalidTimecodeString => "string is not a valid timecode string"@,
            ErrorStatusOutcome::InvalidTimeString => "invalid time string"@,
            ErrorStatusOutcome::TimecodeRateMismatch => "timecode specifies a frame higher than its rate"@,
            ErrorStatusOutcome::NegativeValue => "value cannot be negative here"@,
            ErrorStatusOutcome::InvalidRateForDropFrameTimecode => "rate is not valid for drop frame timecode"@,
        }
    }

    /// The description as a static string slice.
    pub fn as_str(&self) -> (text: &'static str)
        ensures
            text@ == self.description(),
    {
        match self {
            ErrorStatusOutcome::Okay => "",
            ErrorStatusOutcome::InvalidTimecodeRate => "invalid timecode rate",
            ErrorStatusOutcome::NonDropframeRate => "rate is not a dropframe rate",
            ErrorStatusOutcome::InvalidTimecodeString => "string is not a valid timecode string",
            ErrorStatusOutcome::InvalidTimeString => "invalid time string",
            ErrorStatusOutcome::TimecodeRateMismatch => "timecode specifies a frame higher than its rate",
            ErrorStatusOutcome::NegativeValue => "value cannot be negative here",
            ErrorStatusOutcome::InvalidRateForDropFrameTimecode => "rate is not valid for drop frame timecode",
        }
    }

    /// The description as an owned string.
    pub fn to_string(&self) -> (text: String)
        ensures
            text@ == self.description(),
    {
        String::from_str(self.as_str())
    }
}

/// The record of a failed operation: what went wrong and, optionally, a
/// free-text detail. A record whose outcome is `Okay` reports no error,
/// whatever detail it carries.
#[derive(Debug)]
pub struct ErrorStatus {
    pub outcome: ErrorStatusOutcome,
    pub details: Option<String>,
}

impl ErrorStatus {
    /// What the record reads as: the outcome's description, followed by a
    /// colon, a space and the detail where there is one.
    pub open spec fn full_description(self) -> Seq<char> {
        match self.details {
            Some(details) => self.outcome.description() + ": "@ + details@,
            None => self.outcome.description(),
        }
    }

    /// A record that reports no error.
    pub fn new() -> (status: ErrorStatus)
        ensures
            status.outcome == ErrorStatusOutcome::Okay,
            status.details is None,
    {
        ErrorStatus { outcome: ErrorStatusOutcome::Okay, details: None }
    }

    /// A record of `outcome` without detail.
    pub fn with_outcome(outcome: ErrorStatusOutcome) -> (status: ErrorStatus)
        ensures
            status.outcome == outcome,
            status.details is None,
    {
        ErrorStatus { outcome, details: None }
    }

    /// A record of `outcome` with a detail text.
    pub fn with_outcome_and_details(outcome: ErrorStatusOutcome, details: &str) -> (status:
        ErrorStatus)
        ensures
            status.outcome == outcome,
            status.details matches Some(text) && text@ == details@,
    {
        ErrorStatus { outcome, details: Some(String::from_str(details)) }
    }

    /// Whether the record reports a failure.
    pub fn is_error(&self) -> (b: bool)
        ensures
            b == (self.outcome != ErrorStatusOutcome::Okay),
    {
        !matches!(self.outcome, ErrorStatusOutcome::Okay)
    }

    /// The record as text.
    pub fn to_string(&self) -> (text: String)
        ensures
            text@ == self.full_description(),
    {
        let mut text = self.outcome.to_string();
        match &self.details {
            Some(details) => {
                text.append(": ");
                text.append(details.as_str());
            },
            None => {},
        }
        text
    }
}

/// The detail that the record of a text with a NUL character inside
/// carries.
pub open spec fn nul_detail() -> Seq<char> {
    "nul byte found in provided data"@
}

/// The detail that a failure to read `text` carries: `nul_detail()` for a
/// text with a NUL character inside, and none for any other text.
pub open spec fn detail_for(text: Seq<char>) -> Option<Seq<char>> {
    if text.contains('\0') {
        Some(nul_detail())
    } else {
        None
    }
}

/// The detail of a record as a sequence of characters, if it has one.
pub open spec fn detail_of(status: ErrorStatus) -> Option<Seq<char>> {
    match status.details {
        Some(details) => Some(details@),
        None => None,
    }
}

/// The record of a text that cannot be read because it holds a NUL
/// character.
pub fn nul_character(outcome: ErrorStatusOutcome) -> (status: ErrorStatus)
    ensures
        status.outcome == outcome,
        detail_of(status) == Some(nul_detail()),
{
    ErrorStatus::with_outcome_and_details(outcome, "nul byte found in provided data")
}

/// Whether the text holds a NUL character.
pub fn contains_nul(text: &str) -> (found: bool)
    ensures
        found == text@.contains('\0'),
{
    let mut found = false;
    for c in it: text.chars()
        invariant
            it.seq() == text@,
            found == exists|j: int| 0 <= j < it.index() && text@[j] == '\0',
    {
        if c == '\0' {
            found = true;
        }
    }
    found
}

} // verus!
