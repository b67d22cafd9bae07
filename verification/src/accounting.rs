use vstd::prelude::*;

use crate::error::Error;

verus! {

/// Storage units charged for one deed record beyond its string payload.
pub const DEED_RECORD_OVERHEAD: u64 = 64;

/// Storage units charged for one creditor entry beyond the account name.
pub const CREDITOR_RECORD_OVERHEAD: u64 = 16;

/// Storage units charged for one donatable-account entry beyond the name.
pub const ACCOUNT_RECORD_OVERHEAD: u64 = 16;

/// A value transfer the host is asked to perform: return `amount` to
/// `recipient`.
pub struct RefundAction {
    pub recipient: String,
    pub amount: u128,
}

/// The fee owed for `used` storage units at `fee_rate` per unit.
pub open spec fn spec_required_cost(used: u128, fee_rate: u128) -> int {
    used * fee_rate
}

/// The storage footprint of one deed record: the measured sizes of its four
/// string fields plus a fixed per-record overhead.
pub open spec fn spec_deed_storage(
    author: Seq<char>,
    title: Seq<char>,
    description: Seq<char>,
    evidence: Seq<char>,
) -> int {
    author.len() + title.len() + description.len() + evidence.len() + DEED_RECORD_OVERHEAD
}

/// The storage footprint of one creditor entry.
pub open spec fn spec_creditor_storage(creditor: Seq<char>) -> int {
    creditor.len() + CREDITOR_RECORD_OVERHEAD
}

/// The storage footprint of one donatable-account entry.
pub open spec fn spec_account_storage(account: Seq<char>) -> int {
    account.len() + ACCOUNT_RECORD_OVERHEAD
}

/// Reconciles a storage delta against an attached payment: fails with
/// `InsufficientPaymentError` when the payment does not cover
/// `used * fee_rate`, and otherwise returns the remainder.
pub fn calculate_and_check_deposit(used: u128, fee_rate: u128, payment: u128) -> (r: Result<
    u128,
    Error,
>)
    ensures
        r is Ok <==> payment >= spec_required_cost(used, fee_rate),
        r is Ok ==> r->Ok_0 == payment - spec_required_cost(used, fee_rate),
        r is Err ==> r == Result::<u128, Error>::Err(Error::InsufficientPaymentError),
{
    match used.checked_mul(fee_rate) {
        Some(required) => {
            if payment >= required {
                Ok(payment - required)
            } else {
                Err(Error::InsufficientPaymentError)
            }
        },
        None => Err(Error::InsufficientPaymentError),
    }
}

/// Reconciles a storage delta against an attached payment and, when more than
/// a dust remainder (at least two smallest units) is left over, asks the host
/// to return it to `recipient`.
pub fn refund_deposit_to_account(
    used: u128,
    fee_rate: u128,
    payment: u128,
    recipient: &String,
) -> (r: Result<Option<RefundAction>, Error>)
    ensures
        r is Ok <==> payment >= spec_required_cost(used, fee_rate),
        r is Err ==> r == Result::<Option<RefundAction>, Error>::Err(
            Error::InsufficientPaymentError,
        ),
        r is Ok ==> match r->Ok_0 {
            Some(refund) => refund.recipient@ == recipient@ && refund.amount == payment
                - spec_required_cost(used, fee_rate) && refund.amount > 1,
            None => payment - spec_required_cost(used, fee_rate) <= 1,
        },
{
    let remainder = match calculate_and_check_deposit(used, fee_rate, payment) {
        Ok(remainder) => remainder,
        Err(e) => {
            return Err(e);
        },
    };
    if remainder > 1 {
        Ok(Some(RefundAction { recipient: recipient.clone(), amount: remainder }))
    } else {
        Ok(None)
    }
}

/// Reconciles a storage delta for the calling account itself: the remainder
/// of the caller's own payment, when above the dust floor, goes back to the
/// caller.
pub fn refund_deposit(used: u128, fee_rate: u128, payment: u128, caller: &String) -> (r: Result<
    Option<RefundAction>,
    Error,
>)
    ensures
        r is Ok <==> payment >= spec_required_cost(used, fee_rate),
        r is Err ==> r == Result::<Option<RefundAction>, Error>::Err(
            Error::InsufficientPaymentError,
        ),
        r is Ok ==> match r->Ok_0 {
            Some(refund) => refund.recipient@ == caller@ && refund.amount == payment
                - spec_required_cost(used, fee_rate) && refund.amount > 1,
            None => payment - spec_required_cost(used, fee_rate) <= 1,
        },
{
    refund_deposit_to_account(used, fee_rate, payment, caller)
}

} // verus!
