use social_deeds::contract::Contract;
use social_deeds::error::Error;

const TOTAL_SUPPLY: u128 = 1_000_000_000_000_000;
const SAFE_STORAGE_COST: u128 = 10_000_000_000_000_000_000_000;
const ONE_PAYMENT_UNIT: u128 = 1_000_000_000_000_000_000_000_000;

fn acct(name: &str) -> String {
    name.to_string()
}

/// The full flow: mint to the owner, publish, credit once, fail the second
/// credit, then donate and check the proportional payout and its log line.
#[test]
fn scenario_publish_credit_donate() {
    let mut contract = Contract::new_default_meta(acct("owner"), TOTAL_SUPPLY);

    contract.register_account(&acct("alice"));
    contract
        .add_deed(
            acct("alice"),
            "title".to_string(),
            "description".to_string(),
            "proof".to_string(),
            &acct("alice"),
            SAFE_STORAGE_COST,
        )
        .unwrap();

    contract.register_account(&acct("bob"));
    let outcome = contract.credit(0, &acct("bob"), SAFE_STORAGE_COST).unwrap();
    assert_eq!(outcome.memo, "Social deed of alice credited by bob");
    assert_eq!(contract.ft_balance_of(&acct("alice")), 1);
    let deed = contract.get_deed(0).unwrap();
    assert_eq!(deed.creditors, vec!["bob".to_string()]);

    let again = contract.credit(0, &acct("bob"), SAFE_STORAGE_COST);
    assert!(matches!(again, Err(Error::DuplicateCreditError)));

    let page = contract
        .social_deeds(&acct("bob"), Some(0), Some(1))
        .unwrap();
    assert_eq!(page.len(), 1);
    assert_eq!(page[0].creditors, 1);
    assert!(page[0].is_creditor);

    contract.register_account(&acct("carol"));
    let donation = contract.donate(&acct("carol"), ONE_PAYMENT_UNIT).unwrap();
    // storage for the donation record: 5 + 21 + 74 + 67 + 64 + (5 + 16)
    // units at 10^19 each; the rest of the payment is the pool, and alice
    // holds all of the circulating supply.
    let remaining = ONE_PAYMENT_UNIT - 252 * 10_000_000_000_000_000_000;
    assert_eq!(donation.payouts.len(), 1);
    assert_eq!(donation.payouts[0].recipient, "alice");
    assert_eq!(donation.payouts[0].amount, remaining);
    assert_eq!(donation.logs, [format!("Donated {} to alice.", remaining)]);

    let donation_deed = contract.get_deed(1).unwrap();
    assert_eq!(donation_deed.author, "carol");
    assert_eq!(donation_deed.title, "Donation to all users");
    assert_eq!(
        donation_deed.description,
        "carol donated 1000000000000000000000000 to all users. Thank you very much!"
    );
    assert_eq!(
        donation_deed.evidence,
        "https://gifimage.net/wp-content/uploads/2017/10/donation-gif-10.gif"
    );
}

#[test]
fn social_deeds_rejects_out_of_range_start() {
    let mut contract = Contract::new_default_meta(acct("owner"), TOTAL_SUPPLY);
    contract.register_account(&acct("alice"));
    contract
        .add_deed(
            acct("alice"),
            "title".to_string(),
            "description".to_string(),
            "proof".to_string(),
            &acct("alice"),
            SAFE_STORAGE_COST,
        )
        .unwrap();
    let r = contract.social_deeds(&acct("bob"), Some(1), Some(1));
    assert!(matches!(r, Err(Error::ValidationError)));
    let r = contract.social_deeds(&acct("bob"), Some(7), None);
    assert!(matches!(r, Err(Error::ValidationError)));
}

#[test]
fn social_deeds_rejects_zero_limit() {
    let mut contract = Contract::new_default_meta(acct("owner"), TOTAL_SUPPLY);
    contract.register_account(&acct("alice"));
    contract
        .add_deed(
            acct("alice"),
            "title".to_string(),
            "description".to_string(),
            "proof".to_string(),
            &acct("alice"),
            SAFE_STORAGE_COST,
        )
        .unwrap();
    let r = contract.social_deeds(&acct("bob"), Some(0), Some(0));
    assert!(matches!(r, Err(Error::ValidationError)));
}

#[test]
fn social_deeds_pages_everything_without_limit() {
    let mut contract = Contract::new_default_meta(acct("owner"), TOTAL_SUPPLY);
    contract.register_account(&acct("alice"));
    for _ in 0..3 {
        contract
            .add_deed(
                acct("alice"),
                "title".to_string(),
                "description".to_string(),
                "proof".to_string(),
                &acct("alice"),
                SAFE_STORAGE_COST,
            )
            .unwrap();
    }
    let page = contract.social_deeds(&acct("bob"), Some(1), None).unwrap();
    assert_eq!(page.len(), 2);
    assert_eq!(page[0].id, 1);
    assert_eq!(page[1].id, 2);
    assert!(!page[0].is_creditor);
}

#[test]
fn credit_rejects_unknown_deed() {
    let mut contract = Contract::new_default_meta(acct("owner"), TOTAL_SUPPLY);
    let r = contract.credit(5, &acct("bob"), SAFE_STORAGE_COST);
    assert!(matches!(r, Err(Error::ValidationError)));
}

#[test]
fn credit_rejects_unsettleable_reward() {
    let mut contract = Contract::new_default_meta(acct("owner"), TOTAL_SUPPLY);
    // the author of this deed never registered, so the reward transfer
    // cannot settle
    contract
        .add_deed(
            acct("ghost"),
            "title".to_string(),
            "description".to_string(),
            "proof".to_string(),
            &acct("ghost"),
            SAFE_STORAGE_COST,
        )
        .unwrap();
    contract.register_account(&acct("bob"));
    let r = contract.credit(0, &acct("bob"), SAFE_STORAGE_COST);
    assert!(matches!(r, Err(Error::AccountingError)));
    assert_eq!(contract.get_deed(0).unwrap().creditors.len(), 0);
}

#[test]
fn credit_rejects_reward_to_reserve() {
    let mut contract = Contract::new_default_meta(acct("owner"), TOTAL_SUPPLY);
    contract
        .add_deed(
            acct("owner"),
            "title".to_string(),
            "description".to_string(),
            "proof".to_string(),
            &acct("owner"),
            SAFE_STORAGE_COST,
        )
        .unwrap();
    contract.register_account(&acct("bob"));
    let r = contract.credit(0, &acct("bob"), SAFE_STORAGE_COST);
    assert!(matches!(r, Err(Error::AccountingError)));
}

#[test]
fn credit_rejects_insufficient_payment() {
    let mut contract = Contract::new_default_meta(acct("owner"), TOTAL_SUPPLY);
    contract.register_account(&acct("alice"));
    contract
        .add_deed(
            acct("alice"),
            "title".to_string(),
            "description".to_string(),
            "proof".to_string(),
            &acct("alice"),
            SAFE_STORAGE_COST,
        )
        .unwrap();
    contract.register_account(&acct("bob"));
    // "bob" plus the per-creditor overhead is 19 storage units
    let required: u128 = 19 * 10_000_000_000_000_000_000;
    let r = contract.credit(0, &acct("bob"), required - 1);
    assert!(matches!(r, Err(Error::InsufficientPaymentError)));
    assert_eq!(contract.get_deed(0).unwrap().creditors.len(), 0);
    assert_eq!(contract.ft_balance_of(&acct("alice")), 0);
}

#[test]
fn donate_rejects_zero_circulating_supply() {
    let mut contract = Contract::new_default_meta(acct("owner"), TOTAL_SUPPLY);
    contract.register_account(&acct("bob"));
    // the owner holds the whole supply and bob holds nothing, so the
    // donation denominator would be zero
    let r = contract.donate(&acct("bob"), ONE_PAYMENT_UNIT);
    assert!(matches!(r, Err(Error::AccountingError)));
    assert_eq!(contract.get_deeds_count(), 0);
}

#[test]
fn donate_rejects_insufficient_payment() {
    let mut contract = Contract::new_default_meta(acct("owner"), TOTAL_SUPPLY);
    let r = contract.donate(&acct("bob"), 0);
    assert!(matches!(r, Err(Error::InsufficientPaymentError)));
    assert_eq!(contract.get_deeds_count(), 0);
}

#[test]
fn donate_skips_dust_shares() {
    let mut contract = Contract::new_default_meta(acct("charlie"), TOTAL_SUPPLY);
    contract.register_account(&acct("alice"));
    contract
        .add_deed(
            acct("alice"),
            "title".to_string(),
            "description".to_string(),
            "proof".to_string(),
            &acct("alice"),
            SAFE_STORAGE_COST,
        )
        .unwrap();
    contract.register_account(&acct("bob"));
    contract.credit(0, &acct("bob"), SAFE_STORAGE_COST).unwrap();

    // the donation record for "dora" with a 22-digit amount takes 246
    // storage units, so this payment leaves a pool of 10^21 — below the
    // dust threshold, so alice's whole-pool share is skipped
    let deposit: u128 = 246 * 10_000_000_000_000_000_000 + 1_000_000_000_000_000_000_000;
    let donation = contract.donate(&acct("dora"), deposit).unwrap();
    assert!(donation.payouts.is_empty());
    assert!(donation.logs.is_empty());
    assert_eq!(contract.get_deeds_count(), 2);
}

#[test]
fn add_deed_refunds_overpayment() {
    let mut contract = Contract::new_default_meta(acct("owner"), TOTAL_SUPPLY);
    contract.register_account(&acct("bob"));
    // "bob" + "title" + "description" + "proof" + record overhead + the
    // donatable entry for a first-time author: 107 storage units
    let required: u128 = 107 * 10_000_000_000_000_000_000;
    let refund = contract
        .add_deed(
            acct("bob"),
            "title".to_string(),
            "description".to_string(),
            "proof".to_string(),
            &acct("bob"),
            SAFE_STORAGE_COST,
        )
        .unwrap()
        .unwrap();
    assert_eq!(refund.recipient, "bob");
    assert_eq!(refund.amount, SAFE_STORAGE_COST - required);
}

#[test]
fn add_deed_keeps_dust_remainder() {
    let mut contract = Contract::new_default_meta(acct("owner"), TOTAL_SUPPLY);
    contract.register_account(&acct("bob"));
    let required: u128 = 107 * 10_000_000_000_000_000_000;
    let refund = contract
        .add_deed(
            acct("bob"),
            "title".to_string(),
            "description".to_string(),
            "proof".to_string(),
            &acct("bob"),
            required + 1,
        )
        .unwrap();
    assert!(refund.is_none());
}

#[test]
fn donatable_accounts_are_recorded_once() {
    let mut contract = Contract::new_default_meta(acct("charlie"), TOTAL_SUPPLY);
    contract.register_account(&acct("alice"));
    contract
        .add_deed(
            acct("alice"),
            "title".to_string(),
            "description".to_string(),
            "proof".to_string(),
            &acct("alice"),
            SAFE_STORAGE_COST,
        )
        .unwrap();
    contract.register_account(&acct("bob"));
    contract.credit(0, &acct("bob"), SAFE_STORAGE_COST).unwrap();
    contract.donate(&acct("dora"), ONE_PAYMENT_UNIT).unwrap();
    contract.donate(&acct("dora"), ONE_PAYMENT_UNIT).unwrap();
    assert_eq!(contract.donatable_accounts, vec![acct("alice"), acct("dora")]);
    assert_eq!(contract.get_deeds_count(), 3);
}

#[test]
fn registration_is_observable() {
    let mut contract = Contract::new_default_meta(acct("owner"), TOTAL_SUPPLY);
    assert!(contract.is_registered(&acct("owner")));
    assert!(!contract.is_registered(&acct("bob")));
    contract.register_account(&acct("bob"));
    assert!(contract.is_registered(&acct("bob")));
    assert_eq!(contract.ft_balance_of(&acct("bob")), 0);
}
