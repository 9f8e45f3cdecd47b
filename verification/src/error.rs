use vstd::prelude::*;

verus! {

/// Errors surfaced by the matchmaker, following a small taxonomy: user-input
/// errors (bad rank or time format, missing timezone) are replied to the user
/// verbatim; a missing record is a not-found error.
#[derive(Debug)]
pub enum Error {
    /// The user has not stored a timezone preference yet.
    MissingTimezone,
    /// A timezone name that the timezone database does not know.
    InvalidTimezone,
    /// No time of day could be resolved from the scheduling input.
    NoTimeSpecified,
    /// The civil time does not exist (or is ambiguous) in the zone.
    InvalidTime,
    /// A rank or rank range that does not parse; carries the offending input.
    InvalidRankRange(String),
    /// A referenced record does not exist.
    NotFound,
}

impl Error {
    /// Whether this error is caused by bad user input (as opposed to a
    /// missing record).
    pub open spec fn spec_is_user_input(&self) -> bool {
        !(self is NotFound)
    }

    #[verifier::when_used_as_spec(spec_is_user_input)]
    pub fn is_user_input(&self) -> (r: bool)
        ensures
            r == self.spec_is_user_input(),
    {
        !matches!(self, Error::NotFound)
    }

    /// The exact message each error shows to the user.
    pub open spec fn spec_message(e: Error) -> Seq<char> {
        match e {
            Error::MissingTimezone => "You haven't set your timezone yet. Use `/timezone zone:<timezone>` to set it"@,
            Error::InvalidTimezone => "Invalid timezone"@,
            Error::NoTimeSpecified => "No time specified. Please try again"@,
            Error::InvalidTime => "Invalid time"@,
            Error::InvalidRankRange(input) => "Invalid rank range. Must be formatted like `4.3k` or `4k-4.5k`. You entered: `"@
                + input@ + "`"@,
            Error::NotFound => "Not found"@,
        }
    }

    /// The message shown to the user for this error.
    pub fn message(&self) -> (r: String)
        ensures
            r@ == Error::spec_message(*self),
    {
        match self {
            Error::MissingTimezone => String::from_str(
                "You haven't set your timezone yet. Use `/timezone zone:<timezone>` to set it",
            ),
            Error::InvalidTimezone => String::from_str("Invalid timezone"),
            Error::NoTimeSpecified => String::from_str("No time specified. Please try again"),
            Error::InvalidTime => String::from_str("Invalid time"),
            Error::InvalidRankRange(input) => {
                let mut m = String::from_str(
                    "Invalid rank range. Must be formatted like `4.3k` or `4k-4.5k`. You entered: `",
                );
                m.append(input.as_str());
                m.append("`");
                proof {
                    assert(m@ =~= Error::spec_message(*self));
                }
                m
            },
            Error::NotFound => String::from_str("Not found"),
        }
    }
}

} // verus!
