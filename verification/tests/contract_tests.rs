use social_deeds::contract::Contract;
use social_deeds::error::Error;

const TOTAL_SUPPLY: u128 = 1_000_000_000_000_000;
const SAFE_STORAGE_COST: u128 = 10_000_000_000_000_000_000_000;

fn acct(name: &str) -> String {
    name.to_string()
}

#[test]
fn test_new() {
    let contract = Contract::new_default_meta(acct("bob"), TOTAL_SUPPLY);
    assert_eq!(contract.ft_total_supply(), TOTAL_SUPPLY);
    assert_eq!(contract.ft_balance_of(&acct("bob")), TOTAL_SUPPLY);
}

#[test]
fn test_add_deed_panics_on_different_author() {
    let mut contract = Contract::new_default_meta(acct("charlie"), TOTAL_SUPPLY);
    contract.register_account(&acct("bob"));
    let r = contract.add_deed(
        acct("charlie"),
        "".to_string(),
        "".to_string(),
        "".to_string(),
        &acct("bob"),
        SAFE_STORAGE_COST,
    );
    assert!(matches!(r, Err(Error::AuthorizationError)));
    assert_eq!(contract.get_deeds_count(), 0);
}

#[test]
fn test_add_deed_panics_without_attached_deposit() {
    let mut contract = Contract::new_default_meta(acct("charlie"), TOTAL_SUPPLY);
    contract.register_account(&acct("bob"));
    let r = contract.add_deed(
        acct("bob"),
        "".to_string(),
        "".to_string(),
        "".to_string(),
        &acct("bob"),
        0,
    );
    assert!(matches!(r, Err(Error::InsufficientPaymentError)));
    assert_eq!(contract.get_deeds_count(), 0);
}

#[test]
fn test_add_deed_adds_all_data() {
    let mut contract = Contract::new_default_meta(acct("charlie"), TOTAL_SUPPLY);
    contract.register_account(&acct("bob"));
    contract
        .add_deed(
            acct("bob"),
            "title".to_string(),
            "description".to_string(),
            "proof".to_string(),
            &acct("bob"),
            SAFE_STORAGE_COST,
        )
        .unwrap();

    let deed = contract.get_deed(0).unwrap();
    assert_eq!(deed.author, "bob");
    assert_eq!(deed.title, "title");
    assert_eq!(deed.description, "description");
    assert_eq!(deed.evidence, "proof");
}

#[test]
fn test_add_deed_sets_id_correctly() {
    let mut contract = Contract::new_default_meta(acct("charlie"), TOTAL_SUPPLY);
    contract.register_account(&acct("bob"));
    contract
        .add_deed(
            acct("bob"),
            "title".to_string(),
            "description".to_string(),
            "proof".to_string(),
            &acct("bob"),
            SAFE_STORAGE_COST,
        )
        .unwrap();
    contract
        .add_deed(
            acct("bob"),
            "title".to_string(),
            "description".to_string(),
            "proof".to_string(),
            &acct("bob"),
            SAFE_STORAGE_COST,
        )
        .unwrap();

    assert_eq!(contract.get_deed(0).unwrap().id, 0u64);
    assert_eq!(contract.get_deed(1).unwrap().id, 1u64);
}

#[test]
fn cannot_credit_deed_twice() {
    let mut contract = Contract::new_default_meta(acct("charlie"), TOTAL_SUPPLY);
    contract.register_account(&acct("bob"));
    contract
        .add_deed(
            acct("bob"),
            "title".to_string(),
            "description".to_string(),
            "proof".to_string(),
            &acct("bob"),
            SAFE_STORAGE_COST,
        )
        .unwrap();
    contract.register_account(&acct("danny"));
    contract.credit(0, &acct("danny"), SAFE_STORAGE_COST).unwrap();
    let creditors_before = contract.get_deed(0).unwrap().creditors.len();
    let r = contract.credit(0, &acct("danny"), SAFE_STORAGE_COST);
    assert!(matches!(r, Err(Error::DuplicateCreditError)));
    assert_eq!(contract.get_deed(0).unwrap().creditors.len(), creditors_before);
}

#[test]
fn cannot_credit_own_deed() {
    let mut contract = Contract::new_default_meta(acct("charlie"), TOTAL_SUPPLY);
    contract.register_account(&acct("bob"));
    contract
        .add_deed(
            acct("bob"),
            "title".to_string(),
            "description".to_string(),
            "proof".to_string(),
            &acct("bob"),
            SAFE_STORAGE_COST,
        )
        .unwrap();
    let r = contract.credit(0, &acct("bob"), SAFE_STORAGE_COST);
    assert!(matches!(r, Err(Error::SelfCreditError)));
    assert_eq!(contract.get_deed(0).unwrap().creditors.len(), 0);
    assert_eq!(contract.ft_balance_of(&acct("bob")), 0);
}

#[test]
fn test_credit_transfers_token_to_author() {
    let mut contract = Contract::new_default_meta(acct("charlie"), TOTAL_SUPPLY);
    contract.register_account(&acct("bob"));
    contract
        .add_deed(
            acct("bob"),
            "title".to_string(),
            "description".to_string(),
            "proof".to_string(),
            &acct("bob"),
            SAFE_STORAGE_COST,
        )
        .unwrap();
    contract.register_account(&acct("danny"));
    contract.credit(0, &acct("danny"), SAFE_STORAGE_COST).unwrap();

    assert_eq!(contract.ft_balance_of(&acct("charlie")), TOTAL_SUPPLY - 1);
    assert_eq!(contract.ft_balance_of(&acct("bob")), 1);
    assert_eq!(contract.ft_balance_of(&acct("danny")), 0);
}

#[test]
fn test_donation_donated_to_single_account() {
    let mut contract = Contract::new_default_meta(acct("charlie"), TOTAL_SUPPLY);
    contract.register_account(&acct("bob"));
    contract
        .add_deed(
            acct("bob"),
            "title".to_string(),
            "description".to_string(),
            "proof".to_string(),
            &acct("bob"),
            SAFE_STORAGE_COST,
        )
        .unwrap();
    contract.register_account(&acct("danny"));
    contract.credit(0, &acct("danny"), SAFE_STORAGE_COST).unwrap();

    contract.register_account(&acct("eugene"));
    let outcome = contract
        .donate(&acct("eugene"), 1_000_000_000_000_000_000_000_000)
        .unwrap();

    assert_eq!(
        outcome.logs,
        ["Donated 997450000000000000000000 to bob."],
        "Expected a donation log."
    );
    assert_eq!(outcome.payouts.len(), 1);
    assert_eq!(outcome.payouts[0].recipient, "bob");
    assert_eq!(outcome.payouts[0].amount, 997_450_000_000_000_000_000_000);
}

#[test]
fn test_donation_donated_to_two_accounts() {
    let mut contract = Contract::new_default_meta(acct("charlie"), TOTAL_SUPPLY);
    contract.register_account(&acct("bob"));
    contract
        .add_deed(
            acct("bob"),
            "title".to_string(),
            "description".to_string(),
            "proof".to_string(),
            &acct("bob"),
            SAFE_STORAGE_COST,
        )
        .unwrap();
    contract.register_account(&acct("fargo"));
    contract
        .add_deed(
            acct("fargo"),
            "title".to_string(),
            "description".to_string(),
            "proof".to_string(),
            &acct("fargo"),
            SAFE_STORAGE_COST,
        )
        .unwrap();
    contract.credit(0, &acct("fargo"), SAFE_STORAGE_COST).unwrap();
    contract.register_account(&acct("danny"));
    contract.credit(0, &acct("danny"), SAFE_STORAGE_COST).unwrap();
    contract.credit(1, &acct("danny"), SAFE_STORAGE_COST).unwrap();

    contract.register_account(&acct("eugene"));
    let outcome = contract
        .donate(&acct("eugene"), 1_000_000_000_000_000_000_000_000)
        .unwrap();

    assert_eq!(
        outcome.logs,
        [
            "Donated 664966666666666666666666 to bob.",
            "Donated 332483333333333333333333 to fargo.",
        ],
        "Expected a donation log."
    );
}

#[test]
fn test_creditors_calculation() {
    let mut contract = Contract::new_default_meta(acct("charlie"), TOTAL_SUPPLY);
    contract.register_account(&acct("bob"));
    contract
        .add_deed(
            acct("bob"),
            "title".to_string(),
            "description".to_string(),
            "proof".to_string(),
            &acct("bob"),
            SAFE_STORAGE_COST,
        )
        .unwrap();
    contract.register_account(&acct("fargo"));
    contract
        .add_deed(
            acct("fargo"),
            "title".to_string(),
            "description".to_string(),
            "proof".to_string(),
            &acct("fargo"),
            SAFE_STORAGE_COST,
        )
        .unwrap();
    contract.credit(0, &acct("fargo"), SAFE_STORAGE_COST).unwrap();
    contract.register_account(&acct("danny"));
    contract.credit(0, &acct("danny"), SAFE_STORAGE_COST).unwrap();
    contract.credit(1, &acct("danny"), SAFE_STORAGE_COST).unwrap();

    let deeds = contract
        .social_deeds(&acct("fargo"), None, Some(2u64))
        .unwrap();
    let deed = deeds.first().unwrap();

    assert_eq!(deed.creditors, 2, "creditors should be counted correctly.");
    assert!(deed.is_creditor);
}
