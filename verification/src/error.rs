use vstd::prelude::*;

verus! {

/// Every failure a core operation can report. Each failure is synchronous
/// and aborts the whole call: no partial mutation is ever observable.
#[derive(Clone, Copy, Debug, PartialEq, Eq, Structural)]
pub enum Error {
    /// A bad deed id, an out-of-range page index, or a zero page limit.
    ValidationError,
    /// The stated author of a new deed is not the calling account.
    AuthorizationError,
    /// An author tried to credit their own deed.
    SelfCreditError,
    /// The caller has already credited this deed.
    DuplicateCreditError,
    /// The attached payment does not cover the storage growth of the call.
    InsufficientPaymentError,
    /// A balance computation was impossible: a reward transfer could not be
    /// settled, or a donation denominator was zero or a share overflowed.
    AccountingError,
}

impl Error {
    /// A human-readable description of the failure.
    pub fn message(&self) -> (r: &'static str)
        ensures
            r@ == self.spec_message(),
    {
        match self {
            Error::ValidationError => "The id is out of range.",
            Error::AuthorizationError => "The author must be the same as the calling account.",
            Error::SelfCreditError => "You cannot credit yourself.",
            Error::DuplicateCreditError => "You cannot credit the same deed again.",
            Error::InsufficientPaymentError => "Must attach enough payment to cover storage.",
            Error::AccountingError => "The balances do not admit this operation.",
        }
    }

    /// The text `message` returns, as a mathematical sequence of characters.
    pub open spec fn spec_message(&self) -> Seq<char> {
        match self {
            Error::ValidationError => "The id is out of range."@,
            Error::AuthorizationError => "The author must be the same as the calling account."@,
            Error::SelfCreditError => "You cannot credit yourself."@,
            Error::DuplicateCreditError => "You cannot credit the same deed again."@,
            Error::InsufficientPaymentError => "Must attach enough payment to cover storage."@,
            Error::AccountingError => "The balances do not admit this operation."@,
        }
    }
}

} // verus!
