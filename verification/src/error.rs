use vstd::prelude::*;

verus! {

/// The recoverable failures that submitting the edit buffer can produce.
///
/// Every variant is surfaced to the user as a display label and leaves the
/// session running; none is fatal.
#[derive(Clone, Copy, Debug, PartialEq, Eq, Structural)]
pub enum Error {
    /// The interval specification before the tab is not one of the accepted
    /// token shapes, or a numeric field in it does not parse as an integer.
    InvalidInterval,
    /// A timestamp parsed syntactically but names a calendrically impossible
    /// civil time, one outside the supported year range, or a local time that
    /// the current time zone cannot resolve uniquely.
    InvalidTimestamp,
    /// The submitted line holds no tab separator at all.
    InvalidRecord,
    /// The submitted line has a separator but neither a start nor a
    /// description: there is nothing to add.
    NoInformation,
}

impl Error {
    /// The stable display label for this failure.
    pub fn label(&self) -> (r: &'static str)
        ensures
            *self == Error::InvalidInterval ==> r@ == "malformed-interval-spec"@,
            *self == Error::InvalidTimestamp ==> r@ == "invalid-or-underspecified-timestamp"@,
            *self == Error::InvalidRecord ==> r@ == "malformed-record-(missing-separator)"@,
            *self == Error::NoInformation ==> r@ == "nothing-to-add"@,
    {
        match self {
            Error::InvalidInterval => "malformed-interval-spec",
            Error::InvalidTimestamp => "invalid-or-underspecified-timestamp",
            Error::InvalidRecord => "malformed-record-(missing-separator)",
            Error::NoInformation => "nothing-to-add",
        }
    }
}

} // verus!
