use vstd::prelude::*;

verus! {

/// The failure kinds of the library: one variant per way a command,
/// argument, date, duration, magnitude or truncation can be rejected.
#[derive(Debug, Clone, PartialEq, Eq)]
pub enum Error {
    /// An unrecognized top-level command (driver concern).
    NoSuchCommand(String),
    /// A required value is absent or empty.
    MissingArgument(String),
    /// A date string matched no recognized form.
    ParseDateError,
    /// A duration string violated the unit-value grammar.
    ParseDurationError,
    /// A magnitude was non-numeric or overflowed at integer conversion.
    ParseIntError,
    /// A truncation was attempted against a degenerate (non-positive) unit.
    DurationRoundingError,
}

impl Error {
    /// The user-facing description of the failure, one fixed phrase per
    /// kind, with the offending command or argument name appended.
    pub fn message(&self) -> (r: String)
        ensures
            ({
                match self {
                    Error::NoSuchCommand(msg) => r@ == "No such command: "@ + msg@,
                    Error::MissingArgument(msg) => r@ == "Missing argument: "@ + msg@,
                    Error::ParseDateError => r@ == "Invalid date"@,
                    Error::ParseDurationError => r@ == "Invalid duration"@,
                    Error::ParseIntError => r@ == "Invalid number"@,
                    Error::DurationRoundingError => r@ == "Invalid rounding"@,
                }
            }),
    {
        match self {
            Error::NoSuchCommand(msg) => {
                let mut s = String::from_str("No such command: ");
                s.append(msg.as_str());
                s
            },
            Error::MissingArgument(msg) => {
                let mut s = String::from_str("Missing argument: ");
                s.append(msg.as_str());
                s
            },
            Error::ParseDateError => String::from_str("Invalid date"),
            Error::ParseDurationError => String::from_str("Invalid duration"),
            Error::ParseIntError => String::from_str("Invalid number"),
            Error::DurationRoundingError => String::from_str("Invalid rounding"),
        }
    }
}

} // verus!
