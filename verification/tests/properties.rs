use lend::{Error, Event, ExtBuilder, Runtime, ALICE, BOB, BTC, CAROL, XUSD};

#[test]
fn update_loan_changes_records_by_exact_deltas() {
    let mut rt = ExtBuilder::default().build();
    assert!(rt.update_loan(ALICE, BTC, 700, 250).is_ok());
    assert!(rt.update_loan(BOB, BTC, 50, 10).is_ok());
    assert!(rt.update_loan(ALICE, BTC, -200, 40).is_ok());
    assert_eq!(rt.positions(BTC, ALICE).collateral, 500);
    assert_eq!(rt.positions(BTC, ALICE).debit, 290);
    assert_eq!(rt.positions(BTC, BOB).collateral, 50);
    assert_eq!(rt.positions(BTC, BOB).debit, 10);
    assert_eq!(rt.total_positions(BTC).collateral, 550);
    assert_eq!(rt.total_positions(BTC).debit, 300);
}

#[test]
fn update_loan_emits_no_event() {
    let mut rt = ExtBuilder::default().build();
    assert!(rt.update_loan(ALICE, BTC, 3000, 2000).is_ok());
    assert!(!rt.has_event(Event::PositionUpdated(ALICE, BTC, 3000, 2000)));
}

#[test]
fn update_loan_total_overflow_leaves_state_unchanged() {
    let mut rt = ExtBuilder::default().build();
    assert!(rt.update_loan(ALICE, BTC, i128::MAX, 0).is_ok());
    assert!(rt.update_loan(BOB, BTC, i128::MAX, 0).is_ok());
    // the per-asset total can no longer absorb two more units
    assert_eq!(rt.update_loan(CAROL, BTC, 2, 0), Err(Error::AmountOverflow));
    assert_eq!(rt.positions(BTC, CAROL).collateral, 0);
    assert_eq!(rt.refs(CAROL), 0);
    assert_eq!(rt.total_positions(BTC).collateral, u128::MAX - 1);
}

#[test]
fn refs_unchanged_on_nonzero_to_nonzero_mutation() {
    let mut rt = ExtBuilder::default().build();
    assert!(rt.update_loan(ALICE, BTC, 100, 100).is_ok());
    assert_eq!(rt.refs(ALICE), 1);
    assert!(rt.update_loan(ALICE, BTC, 50, 0).is_ok());
    assert_eq!(rt.refs(ALICE), 1);
    assert!(rt.update_loan(ALICE, BTC, 0, -100).is_ok());
    assert_eq!(rt.refs(ALICE), 1);
    assert!(rt.update_loan(ALICE, BTC, -150, 0).is_ok());
    assert_eq!(rt.refs(ALICE), 0);
}

#[test]
fn adjust_position_below_liquidation_ratio_is_a_noop() {
    let mut rt = ExtBuilder::default().build();
    // 300 debit is worth 150 stablecoin and needs 300 collateral
    assert_eq!(rt.adjust_position(ALICE, BTC, 100, 300), Err(Error::BelowLiquidationRatio));
    assert_eq!(rt.free_balance(BTC, ALICE), 1000);
    assert_eq!(rt.free_balance(BTC, Runtime::account_id()), 0);
    assert_eq!(rt.free_balance(XUSD, ALICE), 0);
    assert_eq!(rt.positions(BTC, ALICE).collateral, 0);
    assert_eq!(rt.total_positions(BTC).collateral, 0);
}

#[test]
fn adjust_position_exact_error_kinds() {
    let mut rt = ExtBuilder::default().build();
    assert_eq!(rt.adjust_position(ALICE, BTC, 2000, 0), Err(Error::InsufficientBalance));
    assert_eq!(rt.adjust_position(ALICE, BTC, 1000, 1000), Err(Error::ExceedDebitValueCap));
}

#[test]
fn repay_without_stablecoin_fails_without_mutation() {
    let mut rt = ExtBuilder::default().build();
    // a position opened through the primitive never received stablecoin
    assert!(rt.update_loan(BOB, BTC, 500, 300).is_ok());
    assert_eq!(rt.free_balance(XUSD, BOB), 0);
    assert_eq!(rt.adjust_position(BOB, BTC, 0, -300), Err(Error::InsufficientBalance));
    assert_eq!(rt.positions(BTC, BOB).debit, 300);
    assert_eq!(rt.free_balance(XUSD, BOB), 0);
}

#[test]
fn transfer_loan_conserves_the_combined_position() {
    let mut rt = ExtBuilder::default().build();
    assert!(rt.update_loan(ALICE, BTC, 400, 500).is_ok());
    assert!(rt.update_loan(BOB, BTC, 100, 600).is_ok());
    let before_c = rt.positions(BTC, ALICE).collateral + rt.positions(BTC, BOB).collateral;
    let before_d = rt.positions(BTC, ALICE).debit + rt.positions(BTC, BOB).debit;
    assert!(rt.transfer_loan(ALICE, BOB, BTC).is_ok());
    let after_c = rt.positions(BTC, ALICE).collateral + rt.positions(BTC, BOB).collateral;
    let after_d = rt.positions(BTC, ALICE).debit + rt.positions(BTC, BOB).debit;
    assert_eq!(before_c, after_c);
    assert_eq!(before_d, after_d);
    assert_eq!(rt.total_positions(BTC).collateral, 500);
    assert_eq!(rt.total_positions(BTC).debit, 1100);
    assert_eq!(rt.refs(ALICE), 0);
    assert_eq!(rt.refs(BOB), 1);
}

#[test]
fn transfer_loan_to_self_changes_nothing_but_the_log() {
    let mut rt = ExtBuilder::default().build();
    assert!(rt.update_loan(ALICE, BTC, 400, 500).is_ok());
    assert!(rt.transfer_loan(ALICE, ALICE, BTC).is_ok());
    assert_eq!(rt.positions(BTC, ALICE).collateral, 400);
    assert_eq!(rt.positions(BTC, ALICE).debit, 500);
    assert_eq!(rt.total_positions(BTC).collateral, 400);
    assert_eq!(rt.refs(ALICE), 1);
    assert!(rt.has_event(Event::TransferLoan(ALICE, ALICE, BTC)));
}

#[test]
fn confiscate_exact_errors_and_noop() {
    let mut rt = ExtBuilder::default().build();
    assert!(rt.update_loan(BOB, BTC, 5000, 1000).is_ok());
    // the escrow was never funded by a real transfer
    assert_eq!(
        rt.confiscate_collateral_and_debit(BOB, BTC, 5000, 1000),
        Err(Error::InsufficientBalance),
    );
    assert_eq!(rt.get_total_collaterals(BTC), 0);
    assert_eq!(rt.debit_pool(), 0);
    assert_eq!(rt.positions(BTC, BOB).collateral, 5000);

    // fund the escrow, then try to confiscate more than the position holds
    assert!(rt.adjust_position(ALICE, BTC, 500, 300).is_ok());
    assert_eq!(
        rt.confiscate_collateral_and_debit(CAROL, BTC, 100, 0),
        Err(Error::CollateralTooLow),
    );
    assert_eq!(rt.get_total_collaterals(BTC), 0);
}

#[test]
fn confiscate_moves_exact_amounts() {
    let mut rt = ExtBuilder::default().build();
    assert!(rt.adjust_position(ALICE, BTC, 500, 300).is_ok());
    let escrow_before = rt.free_balance(BTC, Runtime::account_id());
    assert!(rt.confiscate_collateral_and_debit(ALICE, BTC, 200, 100).is_ok());
    assert_eq!(rt.free_balance(BTC, Runtime::account_id()), escrow_before - 200);
    assert_eq!(rt.get_total_collaterals(BTC), 200);
    // 100 debit is worth 50 stablecoin under the default rate
    assert_eq!(rt.debit_pool(), 50);
    assert_eq!(rt.positions(BTC, ALICE).collateral, 300);
    assert_eq!(rt.positions(BTC, ALICE).debit, 200);
    assert_eq!(rt.total_positions(BTC).collateral, 300);
    assert_eq!(rt.total_positions(BTC).debit, 200);
}

#[test]
fn full_confiscation_removes_the_position() {
    let mut rt = ExtBuilder::default().build();
    assert!(rt.adjust_position(ALICE, BTC, 500, 300).is_ok());
    assert_eq!(rt.refs(ALICE), 1);
    assert!(rt.confiscate_collateral_and_debit(ALICE, BTC, 500, 300).is_ok());
    assert_eq!(rt.contains_position(BTC, ALICE), false);
    assert_eq!(rt.refs(ALICE), 0);
    assert_eq!(rt.get_total_collaterals(BTC), 500);
    assert_eq!(rt.debit_pool(), 150);
}

#[test]
fn repay_succeeds_once_stablecoin_is_deposited() {
    let mut rt = ExtBuilder::default().build();
    assert!(rt.update_loan(BOB, BTC, 500, 300).is_ok());
    assert!(rt.deposit(BOB, XUSD, 150).is_ok());
    assert!(rt.adjust_position(BOB, BTC, 0, -300).is_ok());
    assert_eq!(rt.positions(BTC, BOB).debit, 0);
    assert_eq!(rt.positions(BTC, BOB).collateral, 500);
    assert_eq!(rt.free_balance(XUSD, BOB), 0);
}

#[test]
fn balance_transfer_moves_exact_amounts() {
    let mut rt = ExtBuilder::default().build();
    assert_eq!(rt.transfer(ALICE, BOB, BTC, 2000), Err(Error::InsufficientBalance));
    assert!(rt.transfer(ALICE, BOB, BTC, 400).is_ok());
    assert_eq!(rt.free_balance(BTC, ALICE), 600);
    assert_eq!(rt.free_balance(BTC, BOB), 1400);
    assert!(rt.withdraw(BOB, BTC, 1400).is_ok());
    assert_eq!(rt.free_balance(BTC, BOB), 0);
    assert_eq!(rt.withdraw(BOB, BTC, 1), Err(Error::InsufficientBalance));
}
