//! Confidence levels for the interval around a sample mean.

use crate::text::same_text;
use vstd::prelude::*;

verus! {

/// The confidence level at which an interval is computed.
#[derive(Copy, Clone, Debug, PartialEq, Eq, Structural)]
pub enum ConfidenceLevel {
    CL90,
    CL95,
    CL99,
}

impl ConfidenceLevel {
    /// The two-tailed normal critical value, in thousandths.
    pub open spec fn spec_zval(self) -> int {
        match self {
            ConfidenceLevel::CL90 => 1645,
            ConfidenceLevel::CL95 => 1960,
            ConfidenceLevel::CL99 => 2576,
        }
    }

    /// The level as a whole percentage.
    pub open spec fn spec_as_percent(self) -> int {
        match self {
            ConfidenceLevel::CL90 => 90,
            ConfidenceLevel::CL95 => 95,
            ConfidenceLevel::CL99 => 99,
        }
    }

    /// The level that `input` names, where it names one.
    pub open spec fn spec_from_str(input: Seq<char>) -> Option<ConfidenceLevel> {
        if input == "90"@ {
            Some(ConfidenceLevel::CL90)
        } else if input == "95"@ {
            Some(ConfidenceLevel::CL95)
        } else if input == "99"@ {
            Some(ConfidenceLevel::CL99)
        } else {
            None
        }
    }

    /// Reads a level from its name, which is its percentage: `90`, `95` or
    /// `99`. The names have no letters, so that `ignore_case` changes nothing.
    pub fn from_str(input: &str, ignore_case: bool) -> (r: Result<ConfidenceLevel, String>)
        ensures
            match r {
                Ok(level) => Self::spec_from_str(input@) == Some(level),
                Err(message) => Self::spec_from_str(input@) is None && message@
                    == "invalid variant: "@ + input@,
            },
    {
        if same_text(input, "90") {
            Ok(ConfidenceLevel::CL90)
        } else if same_text(input, "95") {
            Ok(ConfidenceLevel::CL95)
        } else if same_text(input, "99") {
            Ok(ConfidenceLevel::CL99)
        } else {
            let mut message: String = "invalid variant: ".to_owned();
            message.append(input);
            Err(message)
        }
    }

    /// The two-tailed normal critical value, in thousandths: 1645 stands for 1.645.
    pub fn zval(self) -> (z: u32)
        ensures
            z == self.spec_zval(),
    {
        match self {
            ConfidenceLevel::CL90 => 1645,
            ConfidenceLevel::CL95 => 1960,
            ConfidenceLevel::CL99 => 2576,
        }
    }

    /// The level as a whole percentage.
    pub fn as_percent(self) -> (p: u8)
        ensures
            p == self.spec_as_percent(),
    {
        match self {
            ConfidenceLevel::CL90 => 90,
            ConfidenceLevel::CL95 => 95,
            ConfidenceLevel::CL99 => 99,
        }
    }
}

impl Default for ConfidenceLevel {
    fn default() -> (level: ConfidenceLevel)
        ensures
            level == ConfidenceLevel::CL99,
    {
        ConfidenceLevel::CL99
    }
}

} // verus!
