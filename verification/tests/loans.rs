use lend::{Error, Event, ExtBuilder, Runtime, ALICE, BOB, BTC, DOT, XUSD};

#[test]
fn debits_key() {
    let mut rt = ExtBuilder::default().build();
    assert_eq!(rt.positions(BTC, ALICE).debit, 0);
    assert!(rt.adjust_position(ALICE, BTC, 100, 100).is_ok());
    assert_eq!(rt.positions(BTC, ALICE).debit, 100);
    assert!(rt.adjust_position(ALICE, BTC, -100, -100).is_ok());
    assert_eq!(rt.positions(BTC, ALICE).debit, 0);
}

#[test]
fn check_update_loan_overflow_work() {
    let mut rt = ExtBuilder::default().build();
    // collateral underflow
    assert_eq!(rt.update_loan(ALICE, BTC, -100, 0), Err(Error::CollateralTooLow));
    assert_eq!(rt.positions(BTC, ALICE).collateral, 0);
    assert_eq!(rt.total_positions(BTC).collateral, 0);
    // debit underflow
    assert_eq!(rt.update_loan(ALICE, BTC, 0, -100), Err(Error::DebitTooLow));
    assert_eq!(rt.positions(BTC, ALICE).debit, 0);
    assert_eq!(rt.total_positions(BTC).debit, 0);
}

#[test]
fn adjust_position_should_work() {
    let mut rt = ExtBuilder::default().build();
    rt.set_block_number(1);
    assert_eq!(rt.free_balance(BTC, ALICE), 1000);

    // balance too low
    assert_eq!(rt.adjust_position(ALICE, BTC, 2000, 0).is_ok(), false);

    // DOT cannot pass the position validity check
    assert_eq!(rt.adjust_position(ALICE, DOT, 500, 0).is_ok(), false);

    // exceeds the debit value cap
    assert_eq!(rt.adjust_position(ALICE, BTC, 1000, 1000).is_ok(), false);

    assert_eq!(rt.free_balance(BTC, ALICE), 1000);
    assert_eq!(rt.free_balance(BTC, Runtime::account_id()), 0);
    assert_eq!(rt.total_positions(BTC).debit, 0);
    assert_eq!(rt.total_positions(BTC).collateral, 0);
    assert_eq!(rt.positions(BTC, ALICE).debit, 0);
    assert_eq!(rt.positions(BTC, ALICE).collateral, 0);
    assert_eq!(rt.free_balance(XUSD, ALICE), 0);

    // success
    assert!(rt.adjust_position(ALICE, BTC, 500, 300).is_ok());
    assert_eq!(rt.free_balance(BTC, ALICE), 500);
    assert_eq!(rt.free_balance(BTC, Runtime::account_id()), 500);
    assert_eq!(rt.total_positions(BTC).debit, 300);
    assert_eq!(rt.total_positions(BTC).collateral, 500);
    assert_eq!(rt.positions(BTC, ALICE).debit, 300);
    assert_eq!(rt.positions(BTC, ALICE).collateral, 500);
    assert_eq!(rt.free_balance(XUSD, ALICE), 150);

    assert!(rt.has_event(Event::PositionUpdated(ALICE, BTC, 500, 300)));
}

#[test]
fn update_loan_should_work() {
    let mut rt = ExtBuilder::default().build();
    assert_eq!(rt.free_balance(BTC, Runtime::account_id()), 0);
    assert_eq!(rt.free_balance(BTC, ALICE), 1000);
    assert_eq!(rt.total_positions(BTC).debit, 0);
    assert_eq!(rt.total_positions(BTC).collateral, 0);
    assert_eq!(rt.positions(BTC, ALICE).debit, 0);
    assert_eq!(rt.positions(BTC, ALICE).collateral, 0);
    assert_eq!(rt.contains_position(BTC, ALICE), false);
    assert_eq!(rt.refs(ALICE), 0);

    assert!(rt.update_loan(ALICE, BTC, 3000, 2000).is_ok());

    // just updates the records
    assert_eq!(rt.total_positions(BTC).debit, 2000);
    assert_eq!(rt.total_positions(BTC).collateral, 3000);
    assert_eq!(rt.positions(BTC, ALICE).debit, 2000);
    assert_eq!(rt.positions(BTC, ALICE).collateral, 3000);

    // increases the ref count when a new position is opened
    assert_eq!(rt.refs(ALICE), 1);

    // does not manipulate balances
    assert_eq!(rt.free_balance(BTC, Runtime::account_id()), 0);
    assert_eq!(rt.free_balance(BTC, ALICE), 1000);

    // removes the stored record once the position returns to zero
    assert_eq!(rt.contains_position(BTC, ALICE), true);
    assert!(rt.update_loan(ALICE, BTC, -3000, -2000).is_ok());
    assert_eq!(rt.positions(BTC, ALICE).debit, 0);
    assert_eq!(rt.positions(BTC, ALICE).collateral, 0);
    assert_eq!(rt.contains_position(BTC, ALICE), false);

    // decreases the ref count after the position is removed
    assert_eq!(rt.refs(ALICE), 0);
}

#[test]
fn transfer_loan_should_work() {
    let mut rt = ExtBuilder::default().build();
    rt.set_block_number(1);
    assert!(rt.update_loan(ALICE, BTC, 400, 500).is_ok());
    assert!(rt.update_loan(BOB, BTC, 100, 600).is_ok());
    assert_eq!(rt.positions(BTC, ALICE).debit, 500);
    assert_eq!(rt.positions(BTC, ALICE).collateral, 400);
    assert_eq!(rt.positions(BTC, BOB).debit, 600);
    assert_eq!(rt.positions(BTC, BOB).collateral, 100);

    assert!(rt.transfer_loan(ALICE, BOB, BTC).is_ok());
    assert_eq!(rt.positions(BTC, ALICE).debit, 0);
    assert_eq!(rt.positions(BTC, ALICE).collateral, 0);
    assert_eq!(rt.positions(BTC, BOB).debit, 1100);
    assert_eq!(rt.positions(BTC, BOB).collateral, 500);

    assert!(rt.has_event(Event::TransferLoan(ALICE, BOB, BTC)));
}

#[test]
fn confiscate_collateral_and_debit_work() {
    let mut rt = ExtBuilder::default().build();
    rt.set_block_number(1);
    assert!(rt.update_loan(BOB, BTC, 5000, 1000).is_ok());
    assert_eq!(rt.free_balance(BTC, Runtime::account_id()), 0);

    // the escrow has no sufficient balance
    assert_eq!(rt.confiscate_collateral_and_debit(BOB, BTC, 5000, 1000).is_ok(), false);

    assert!(rt.adjust_position(ALICE, BTC, 500, 300).is_ok());
    assert_eq!(rt.get_total_collaterals(BTC), 0);
    assert_eq!(rt.debit_pool(), 0);
    assert_eq!(rt.positions(BTC, ALICE).debit, 300);
    assert_eq!(rt.positions(BTC, ALICE).collateral, 500);

    assert!(rt.confiscate_collateral_and_debit(ALICE, BTC, 300, 200).is_ok());
    assert_eq!(rt.get_total_collaterals(BTC), 300);
    assert_eq!(rt.debit_pool(), 100);
    assert_eq!(rt.positions(BTC, ALICE).debit, 100);
    assert_eq!(rt.positions(BTC, ALICE).collateral, 200);

    assert!(rt.has_event(Event::ConfiscateCollateralAndDebit(ALICE, BTC, 300, 200)));
}
