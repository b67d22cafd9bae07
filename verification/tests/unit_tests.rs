use social_deeds::accounting::{
    calculate_and_check_deposit, refund_deposit, refund_deposit_to_account,
};
use social_deeds::error::Error;
use social_deeds::math::mul_div;
use social_deeds::text::{credit_memo, donation_log, u128_to_dec};

#[test]
fn mul_div_computes_exact_quotients() {
    assert_eq!(mul_div(6, 7, 3), Some(14));
    assert_eq!(mul_div(10, 10, 3), Some(33));
    assert_eq!(mul_div(0, u128::MAX, 5), Some(0));
    assert_eq!(mul_div(1, 1, u128::MAX), Some(0));
    assert_eq!(mul_div(2, 1_000_000_000_000_000_000_000_000, 3), Some(666_666_666_666_666_666_666_666));
}

#[test]
fn mul_div_handles_wide_products() {
    // the product needs 256 bits, the quotient fits
    assert_eq!(mul_div(u128::MAX, u128::MAX, u128::MAX), Some(u128::MAX));
    assert_eq!(mul_div(u128::MAX, 1 << 100, 1 << 100), Some(u128::MAX));
    let b: u128 = 1 << 127;
    assert_eq!(mul_div(u128::MAX, b, u128::MAX), Some(b));
}

#[test]
fn mul_div_reports_overflowing_quotients() {
    assert_eq!(mul_div(u128::MAX, 2, 1), None);
    assert_eq!(mul_div(u128::MAX, u128::MAX, 2), None);
}

#[test]
fn decimal_rendering_is_exact() {
    assert_eq!(u128_to_dec(0), "0");
    assert_eq!(u128_to_dec(7), "7");
    assert_eq!(u128_to_dec(12345), "12345");
    assert_eq!(u128_to_dec(1_000_000_000_000_000_000_000_000), "1000000000000000000000000");
    assert_eq!(
        u128_to_dec(u128::MAX),
        "340282366920938463463374607431768211455"
    );
}

#[test]
fn message_texts_are_built_exactly() {
    assert_eq!(
        credit_memo(&"alice".to_string(), &"bob".to_string()),
        "Social deed of alice credited by bob"
    );
    assert_eq!(donation_log(42, &"bob".to_string()), "Donated 42 to bob.");
}

#[test]
fn deposit_reconciliation_returns_the_remainder() {
    assert_eq!(calculate_and_check_deposit(10, 3, 31), Ok(1));
    assert_eq!(calculate_and_check_deposit(10, 3, 30), Ok(0));
    assert_eq!(
        calculate_and_check_deposit(10, 3, 29),
        Err(Error::InsufficientPaymentError)
    );
    // a fee that cannot even be represented is never covered
    assert_eq!(
        calculate_and_check_deposit(u128::MAX, 2, u128::MAX),
        Err(Error::InsufficientPaymentError)
    );
}

#[test]
fn refunds_respect_the_dust_floor() {
    let who = "bob".to_string();
    let r = refund_deposit_to_account(10, 3, 32, &who).unwrap();
    let refund = r.unwrap();
    assert_eq!(refund.recipient, "bob");
    assert_eq!(refund.amount, 2);
    assert!(refund_deposit_to_account(10, 3, 31, &who).unwrap().is_none());
    assert!(refund_deposit(10, 3, 30, &who).unwrap().is_none());
    assert!(matches!(
        refund_deposit(10, 3, 0, &who),
        Err(Error::InsufficientPaymentError)
    ));
}

#[test]
fn error_messages_are_descriptive() {
    assert_eq!(Error::ValidationError.message(), "The id is out of range.");
    assert_eq!(
        Error::AuthorizationError.message(),
        "The author must be the same as the calling account."
    );
    assert_eq!(Error::SelfCreditError.message(), "You cannot credit yourself.");
    assert_eq!(
        Error::DuplicateCreditError.message(),
        "You cannot credit the same deed again."
    );
    assert_eq!(
        Error::InsufficientPaymentError.message(),
        "Must attach enough payment to cover storage."
    );
    assert_eq!(
        Error::AccountingError.message(),
        "The balances do not admit this operation."
    );
}
