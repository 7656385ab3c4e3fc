use eth_transfer::ether::format_ether;
use eth_transfer::protocol::{
    assemble_bundle, authorize_transfer, check_block_binding, check_request, check_restore,
    verify_outcome, ProofResult,
    TransferBundle, TransferError, TransferPlan,
};
use eth_transfer::wei::Wei;

const ETH: u128 = 1_000_000_000_000_000_000;
const SENDER: &str = "0x1111111111111111111111111111111111111111";
const RECIPIENT: &str = "0x2222222222222222222222222222222222222222";

fn bundle(sender_balance: &str, recipient_balance: &str, amount: &str) -> TransferBundle {
    TransferBundle {
        evm_json: "{}".to_string(),
        sender: SENDER.to_string(),
        recipient: RECIPIENT.to_string(),
        eth_amt: amount.to_string(),
        sender_initial_balance: sender_balance.to_string(),
        recipient_initial_balance: recipient_balance.to_string(),
        block_data: "{}".to_string(),
    }
}

fn standard_plan() -> TransferPlan {
    bundle("5000000000000000000", "2000000000000000000", "1.0").plan().unwrap()
}

fn w(x: u128) -> Wei {
    Wei::from_u128(x)
}

#[test]
fn plan_parses_bundle() {
    let p = standard_plan();
    assert!(p.sender_initial.equals(&w(5 * ETH)));
    assert!(p.recipient_initial.equals(&w(2 * ETH)));
    assert!(p.amount.equals(&w(ETH)));
    assert_eq!(p.sender.bytes, [0x11; 20]);
    assert_eq!(p.recipient.bytes, [0x22; 20]);
}

#[test]
fn plan_rejects_bad_address() {
    let mut b = bundle("1", "1", "1");
    b.sender = "0x123".to_string();
    assert_eq!(b.plan().unwrap_err(), TransferError::InvalidAddress);
    let mut b = bundle("1", "1", "1");
    b.recipient = "not an address".to_string();
    assert_eq!(b.plan().unwrap_err(), TransferError::InvalidAddress);
}

#[test]
fn plan_rejects_bad_balance() {
    let b = bundle("5.0", "1", "1");
    assert_eq!(b.plan().unwrap_err(), TransferError::MalformedBalance);
    let b = bundle("1", "", "1");
    assert_eq!(b.plan().unwrap_err(), TransferError::MalformedBalance);
}

#[test]
fn plan_rejects_bad_amount() {
    let b = bundle("1", "1", "abc");
    assert_eq!(b.plan().unwrap_err(), TransferError::InvalidAmount);
}

#[test]
fn plan_checks_addresses_before_balances() {
    let mut b = bundle("bad", "bad", "bad");
    b.sender = "zz".to_string();
    assert_eq!(b.plan().unwrap_err(), TransferError::InvalidAddress);
}

#[test]
fn tampered_balance_aborts_at_restore_gate() {
    // the bundle claims 6 ETH for the sender, the restored snapshot holds 5 ETH
    let p = bundle("6000000000000000000", "2000000000000000000", "1.0").plan().unwrap();
    let proofs = vec![ProofResult::Invalid];
    let r = authorize_transfer(p, &w(5 * ETH), &w(2 * ETH), &proofs);
    assert_eq!(r.unwrap_err(), TransferError::BalanceMismatchAfterRestore);
    let r = authorize_transfer(p, &w(6 * ETH), &w(2 * ETH + 1), &vec![]);
    assert_eq!(r.unwrap_err(), TransferError::BalanceMismatchAfterRestore);
}

#[test]
fn invalid_proof_blocks_transfer() {
    let p = standard_plan();
    let proofs = vec![ProofResult::Valid, ProofResult::Invalid, ProofResult::Valid];
    let r = authorize_transfer(p, &w(5 * ETH), &w(2 * ETH), &proofs);
    assert_eq!(r.unwrap_err(), TransferError::ProofVerificationFailed);
}

#[test]
fn empty_proof_set_proceeds_to_transfer() {
    let p = standard_plan();
    let order = authorize_transfer(p, &w(5 * ETH), &w(2 * ETH), &vec![]).unwrap();
    assert!(order.plan().amount.equals(&w(ETH)));
    let rep = verify_outcome(&order, true, &w(4 * ETH), &w(3 * ETH)).unwrap();
    assert!(rep.sender_final.equals(&w(4 * ETH)));
}

#[test]
fn end_to_end_transfer_of_one_ether() {
    let p = standard_plan();
    let proofs = vec![ProofResult::Valid, ProofResult::Valid];
    let order = authorize_transfer(p, &w(5 * ETH), &w(2 * ETH), &proofs).unwrap();
    let rep = verify_outcome(&order, true, &w(4 * ETH), &w(3 * ETH)).unwrap();
    assert_eq!(format_ether(&rep.sender_final), "4.0");
    assert_eq!(format_ether(&rep.recipient_final), "3.0");
    assert_eq!(rep.sender_change_text(), "-1.0");
    assert_eq!(rep.recipient_change_text(), "+1.0");
}

#[test]
fn fractional_transfer_is_exact() {
    let p = bundle("5000000000000000000", "0", "0.123456789012345678").plan().unwrap();
    let order = authorize_transfer(p, &w(5 * ETH), &w(0), &vec![]).unwrap();
    let amount = 123_456_789_012_345_678u128;
    let rep = verify_outcome(&order, true, &w(5 * ETH - amount), &w(amount)).unwrap();
    assert_eq!(rep.sender_change_text(), "-0.123456789012345678");
    assert_eq!(rep.recipient_change_text(), "+0.123456789012345678");
    let bad = verify_outcome(&order, true, &w(5 * ETH - amount + 1), &w(amount));
    assert_eq!(bad.unwrap_err(), TransferError::BalanceChangeInvariantViolation);
}

#[test]
fn failed_execution_is_reported() {
    let order = authorize_transfer(standard_plan(), &w(5 * ETH), &w(2 * ETH), &vec![]).unwrap();
    let r = verify_outcome(&order, false, &w(4 * ETH), &w(3 * ETH));
    assert_eq!(r.unwrap_err(), TransferError::TransferExecutionFailed);
}

#[test]
fn wrong_final_balances_are_rejected() {
    let order = authorize_transfer(standard_plan(), &w(5 * ETH), &w(2 * ETH), &vec![]).unwrap();
    let r = verify_outcome(&order, true, &w(5 * ETH), &w(2 * ETH));
    assert_eq!(r.unwrap_err(), TransferError::BalanceChangeInvariantViolation);
    let r = verify_outcome(&order, true, &w(4 * ETH), &w(3 * ETH + 1));
    assert_eq!(r.unwrap_err(), TransferError::BalanceChangeInvariantViolation);
}

#[test]
fn overdrawn_sender_is_rejected() {
    let p = bundle("500000000000000000", "0", "1").plan().unwrap();
    let order = authorize_transfer(p, &w(ETH / 2), &w(0), &vec![]).unwrap();
    let r = verify_outcome(&order, true, &w(0), &w(ETH));
    assert_eq!(r.unwrap_err(), TransferError::BalanceChangeInvariantViolation);
}

#[test]
fn block_binding_matches() {
    let h = [7u8; 32];
    assert_eq!(check_block_binding(&h, &Some([7u8; 32])), Ok(()));
}

#[test]
fn block_binding_mismatch_fails() {
    let h = [7u8; 32];
    let mut other = [7u8; 32];
    other[31] = 8;
    assert_eq!(
        check_block_binding(&h, &Some(other)),
        Err(TransferError::BlockBindingMismatch)
    );
    assert_eq!(check_block_binding(&h, &None), Err(TransferError::BlockBindingMismatch));
}

fn host(fetched: Option<[u8; 32]>) -> Result<TransferBundle, TransferError> {
    assemble_bundle(
        SENDER.to_string(),
        RECIPIENT.to_string(),
        "1.0".to_string(),
        &[9u8; 32],
        &fetched,
        &w(5 * ETH),
        &w(2 * ETH),
        "{\"state\":1}".to_string(),
        "{\"block\":2}".to_string(),
    )
}

#[test]
fn host_mismatched_block_produces_no_bundle() {
    let mut other = [9u8; 32];
    other[0] = 0;
    assert_eq!(host(Some(other)).unwrap_err(), TransferError::BlockBindingMismatch);
    assert_eq!(host(None).unwrap_err(), TransferError::BlockBindingMismatch);
}

#[test]
fn host_rejects_bad_request() {
    let r = assemble_bundle(
        "0xnope".to_string(),
        RECIPIENT.to_string(),
        "1.0".to_string(),
        &[9u8; 32],
        &Some([9u8; 32]),
        &w(0),
        &w(0),
        String::new(),
        String::new(),
    );
    assert_eq!(r.unwrap_err(), TransferError::InvalidAddress);
    let r = assemble_bundle(
        SENDER.to_string(),
        RECIPIENT.to_string(),
        "one".to_string(),
        &[9u8; 32],
        &Some([9u8; 32]),
        &w(0),
        &w(0),
        String::new(),
        String::new(),
    );
    assert_eq!(r.unwrap_err(), TransferError::InvalidAmount);
}

#[test]
fn host_bundle_feeds_enclave() {
    let b = host(Some([9u8; 32])).unwrap();
    assert_eq!(b.sender_initial_balance, "5000000000000000000");
    assert_eq!(b.recipient_initial_balance, "2000000000000000000");
    assert_eq!(b.evm_json, "{\"state\":1}");
    assert_eq!(b.block_data, "{\"block\":2}");
    let p = b.plan().unwrap();
    assert!(p.sender_initial.equals(&w(5 * ETH)));
    assert!(p.amount.equals(&w(ETH)));
}

#[test]
fn restore_gate_alone() {
    let p = standard_plan();
    assert_eq!(check_restore(&p, &w(5 * ETH), &w(2 * ETH)), Ok(()));
    assert_eq!(
        check_restore(&p, &w(6 * ETH), &w(2 * ETH)),
        Err(TransferError::BalanceMismatchAfterRestore)
    );
    assert_eq!(
        check_restore(&p, &w(5 * ETH), &w(0)),
        Err(TransferError::BalanceMismatchAfterRestore)
    );
}

#[test]
fn host_request_checked_first() {
    assert_eq!(check_request(SENDER, RECIPIENT, "1.5"), Ok(()));
    assert_eq!(check_request("0x12", RECIPIENT, "x"), Err(TransferError::InvalidAddress));
    assert_eq!(check_request(SENDER, RECIPIENT, "1,5"), Err(TransferError::InvalidAmount));
}
