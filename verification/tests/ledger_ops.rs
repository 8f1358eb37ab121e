use smartolana::ledger::{Ledger, LedgerError};
use smartolana::settle::{apply_settlement, TransferIntent};

#[test]
fn mint_and_burn_move_the_total() {
    let mut l = Ledger::new();
    l.mint(1, 700).unwrap();
    l.mint(2, 300).unwrap();
    assert_eq!(l.balance(1), 700);
    assert_eq!(l.balance(2), 300);
    l.burn(1, 200).unwrap();
    assert_eq!(l.balance(1), 500);
    assert_eq!(l.burn(1, 501).unwrap_err(), LedgerError::InsufficientFunds);
    assert_eq!(l.burn(9, 1).unwrap_err(), LedgerError::UnknownAccount);
}

#[test]
fn transfer_conserves_and_checks_funds() {
    let mut l = Ledger::new();
    l.mint(1, 700).unwrap();
    l.mint(2, 300).unwrap();
    l.transfer(1, 2, 250).unwrap();
    assert_eq!(l.balance(1), 450);
    assert_eq!(l.balance(2), 550);
    assert_eq!(l.balance(1) + l.balance(2), 1000);
    assert_eq!(
        l.transfer(1, 2, 451).unwrap_err(),
        LedgerError::InsufficientFunds
    );
    assert_eq!(l.transfer(1, 9, 1).unwrap_err(), LedgerError::UnknownAccount);
    assert_eq!(l.balance(1), 450);
}

#[test]
fn failed_settlement_rolls_back_the_first_leg() {
    let mut l = Ledger::new();
    l.mint(1, 100).unwrap();
    l.mint(2, 100).unwrap();
    let intents = vec![
        TransferIntent { from: 1, to: 2, amount: 60 },
        TransferIntent { from: 1, to: 2, amount: 60 },
    ];
    // The second leg cannot be covered, so the first is undone.
    assert_eq!(
        apply_settlement(&mut l, &intents).unwrap_err(),
        LedgerError::InsufficientFunds
    );
    assert_eq!(l.balance(1), 100);
    assert_eq!(l.balance(2), 100);
}
