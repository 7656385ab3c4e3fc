//! The transfer protocol: the bundle the host hands over, and the gates that
//! host and enclave pass in order. Each gate is all-or-nothing: it returns the
//! first failing check's error and nothing else.
use crate::ether::{lemma_decimal, ether_text, ether_text_wei, format_ether, is_ether_text, parse_ether};
use crate::text::{address_bytes, all_digits, decimal, digits_value, is_address_text, push_char, Address};
use crate::wei::{wei_limit, Wei};
use vstd::prelude::*;
use vstd::string::*;

verus! {

/// Why a run of the protocol stopped.
#[derive(Clone, Copy, Debug, PartialEq, Eq, Structural)]
pub enum TransferError {
    /// A sender or recipient text is not an address.
    InvalidAddress,
    /// A recorded balance is not a decimal wei amount.
    MalformedBalance,
    /// The transfer amount is not a decimal ether amount within 128 bits of wei.
    InvalidAmount,
    /// The independently fetched block does not carry the engine's block hash.
    BlockBindingMismatch,
    /// A restored balance differs from the one the host recorded.
    BalanceMismatchAfterRestore,
    /// Some account proof failed verification.
    ProofVerificationFailed,
    /// The state engine did not carry out the transfer.
    TransferExecutionFailed,
    /// The balances after the transfer are not the recorded ones moved by the amount.
    BalanceChangeInvariantViolation,
}

/// The verdict on one embedded account proof.
#[derive(Clone, Copy, Debug, PartialEq, Eq, Structural)]
pub enum ProofResult {
    Valid,
    Invalid,
}

/// What the host hands to the enclave. The snapshot and the block are opaque
/// texts; the balances are decimal wei; the amount is decimal ether.
#[derive(Debug)]
pub struct TransferBundle {
    pub evm_json: String,
    pub sender: String,
    pub recipient: String,
    pub eth_amt: String,
    pub sender_initial_balance: String,
    pub recipient_initial_balance: String,
    pub block_data: String,
}

/// The bundle's facts, parsed.
#[derive(Clone, Copy, Debug)]
pub struct TransferPlan {
    pub sender: Address,
    pub recipient: Address,
    pub amount: Wei,
    pub sender_initial: Wei,
    pub recipient_initial: Wei,
}

/// Whether `s` is a recorded balance: nonempty decimal digits below 2^256.
pub open spec fn is_wei_text(s: Seq<char>) -> bool {
    s.len() > 0 && all_digits(s) && digits_value(s) < wei_limit()
}

/// Whether `s` is a transfer amount the protocol accepts.
pub open spec fn is_amount_text(s: Seq<char>) -> bool {
    is_ether_text(s) && ether_text_wei(s) <= u128::MAX
}

/// The first check that the bundle's texts fail, if any.
pub open spec fn bundle_error(b: TransferBundle) -> Option<TransferError> {
    if !is_address_text(b.sender@) || !is_address_text(b.recipient@) {
        Some(TransferError::InvalidAddress)
    } else if !is_wei_text(b.sender_initial_balance@) || !is_wei_text(
        b.recipient_initial_balance@,
    ) {
        Some(TransferError::MalformedBalance)
    } else if !is_amount_text(b.eth_amt@) {
        Some(TransferError::InvalidAmount)
    } else {
        None
    }
}

/// Whether every proof verdict is `Valid` (true of none at all).
pub open spec fn all_valid(proofs: Seq<ProofResult>) -> bool {
    forall|i: int| 0 <= i < proofs.len() ==> proofs[i] == ProofResult::Valid
}

/// Whether the restored balances are exactly the recorded ones.
pub open spec fn restore_matches(plan: TransferPlan, sender: Wei, recipient: Wei) -> bool {
    sender.value() == plan.sender_initial.value() && recipient.value()
        == plan.recipient_initial.value()
}

/// The first enclave gate before the transfer that fails, if any.
pub open spec fn authorize_error(
    plan: TransferPlan,
    sender: Wei,
    recipient: Wei,
    proofs: Seq<ProofResult>,
) -> Option<TransferError> {
    if !restore_matches(plan, sender, recipient) {
        Some(TransferError::BalanceMismatchAfterRestore)
    } else if !all_valid(proofs) {
        Some(TransferError::ProofVerificationFailed)
    } else {
        None
    }
}

/// Whether the final balances are the recorded ones moved by the amount.
pub open spec fn balances_moved(plan: TransferPlan, sender_final: Wei, recipient_final: Wei) -> bool {
    sender_final.value() == plan.sender_initial.value() - plan.amount.value()
        && recipient_final.value() == plan.recipient_initial.value() + plan.amount.value()
}

impl TransferBundle {
    /// Parses the bundle's addresses, recorded balances and amount, checked in
    /// that order.
    pub fn plan(&self) -> (r: Result<TransferPlan, TransferError>)
        ensures
            r is Err <==> bundle_error(*self) is Some,
            r matches Err(e) ==> bundle_error(*self) == Some(e),
            r matches Ok(p) ==> {
                &&& p.sender.bytes@ == address_bytes(self.sender@)
                &&& p.recipient.bytes@ == address_bytes(self.recipient@)
                &&& p.sender_initial.value() == digits_value(self.sender_initial_balance@)
                &&& p.recipient_initial.value() == digits_value(self.recipient_initial_balance@)
                &&& p.amount.value() == ether_text_wei(self.eth_amt@)
            },
    {
        let sender = match Address::parse(self.sender.as_str()) {
            Some(a) => a,
            None => return Err(TransferError::InvalidAddress),
        };
        let recipient = match Address::parse(self.recipient.as_str()) {
            Some(a) => a,
            None => return Err(TransferError::InvalidAddress),
        };
        let sender_initial = match Wei::parse_decimal(self.sender_initial_balance.as_str()) {
            Some(w) => w,
            None => return Err(TransferError::MalformedBalance),
        };
        let recipient_initial = match Wei::parse_decimal(self.recipient_initial_balance.as_str()) {
            Some(w) => w,
            None => return Err(TransferError::MalformedBalance),
        };
        let amount = match parse_ether(self.eth_amt.as_str()) {
            Some(w) => Wei::from_u128(w),
            None => return Err(TransferError::InvalidAmount),
        };
        Ok(TransferPlan { sender, recipient, amount, sender_initial, recipient_initial })
    }
}

/// Permission to execute a plan's transfer. Only [`authorize_transfer`]
/// makes one, after the restore and proof gates have passed.
#[derive(Debug)]
pub struct TransferOrder {
    plan: TransferPlan,
}

impl TransferOrder {
    /// The plan that was authorized.
    pub closed spec fn authorized(&self) -> TransferPlan {
        self.plan
    }

    /// The plan that was authorized.
    pub fn plan(&self) -> (r: TransferPlan)
        ensures
            r == self.authorized(),
    {
        self.plan
    }
}

/// The enclave's restore gate: the balances read back from the restored
/// snapshot must equal the recorded ones exactly. It comes before the block is
/// read and before any proof is verified.
pub fn check_restore(plan: &TransferPlan, restored_sender: &Wei, restored_recipient: &Wei) -> (r:
    Result<(), TransferError>)
    ensures
        r is Ok <==> restore_matches(*plan, *restored_sender, *restored_recipient),
        r is Err ==> r == Err::<(), TransferError>(TransferError::BalanceMismatchAfterRestore),
{
    if restored_sender.equals(&plan.sender_initial) && restored_recipient.equals(
        &plan.recipient_initial,
    ) {
        Ok(())
    } else {
        Err(TransferError::BalanceMismatchAfterRestore)
    }
}

/// The enclave's gates before the transfer: the balances read back from the
/// restored snapshot must equal the recorded ones, then every proof verdict
/// must be `Valid` (no verdicts at all is no failure).
pub fn authorize_transfer(
    plan: TransferPlan,
    restored_sender: &Wei,
    restored_recipient: &Wei,
    proofs: &Vec<ProofResult>,
) -> (r: Result<TransferOrder, TransferError>)
    ensures
        r is Err <==> authorize_error(plan, *restored_sender, *restored_recipient, proofs@) is Some,
        r matches Err(e) ==> authorize_error(plan, *restored_sender, *restored_recipient, proofs@)
            == Some(e),
        r matches Ok(o) ==> o.authorized() == plan,
{
    match check_restore(&plan, restored_sender, restored_recipient) {
        Ok(()) => {},
        Err(e) => return Err(e),
    }
    let mut i: usize = 0;
    while i < proofs.len()
        invariant
            i <= proofs@.len(),
            restore_matches(plan, *restored_sender, *restored_recipient),
            forall|j: int| 0 <= j < i ==> proofs@[j] == ProofResult::Valid,
        decreases proofs@.len() - i,
    {
        match proofs[i] {
            ProofResult::Valid => {},
            ProofResult::Invalid => {
                assert(proofs@[i as int] == ProofResult::Invalid);
                return Err(TransferError::ProofVerificationFailed);
            },
        }
        i = i + 1;
    }
    Ok(TransferOrder { plan })
}

/// A transfer that passed every gate.
#[derive(Clone, Copy, Debug)]
pub struct TransferReport {
    pub plan: TransferPlan,
    pub sender_final: Wei,
    pub recipient_final: Wei,
}

impl TransferReport {
    /// The final balances are the recorded ones moved by the amount.
    pub open spec fn wf(&self) -> bool {
        balances_moved(self.plan, self.sender_final, self.recipient_final)
    }

    /// The sender's change, `-` and the amount it lost in ether (`"-1.0"`).
    pub fn sender_change_text(&self) -> (r: String)
        requires
            self.wf(),
        ensures
            r@ == seq!['-'] + ether_text(
                (self.plan.sender_initial.value() - self.sender_final.value()) as nat,
            ),
    {
        let change = match self.plan.sender_initial.checked_sub(&self.sender_final) {
            Some(c) => c,
            None => Wei::zero(),
        };
        let mut r = String::new();
        push_char(&mut r, '-');
        let text = format_ether(&change);
        r.append(text.as_str());
        r
    }

    /// The recipient's change, `+` and the amount it gained in ether (`"+1.0"`).
    pub fn recipient_change_text(&self) -> (r: String)
        requires
            self.wf(),
        ensures
            r@ == seq!['+'] + ether_text(
                (self.recipient_final.value() - self.plan.recipient_initial.value()) as nat,
            ),
    {
        let change = match self.recipient_final.checked_sub(&self.plan.recipient_initial) {
            Some(c) => c,
            None => Wei::zero(),
        };
        let mut r = String::new();
        push_char(&mut r, '+');
        let text = format_ether(&change);
        r.append(text.as_str());
        r
    }
}

/// The enclave's gates after the transfer: the engine must have carried it
/// out, and the final balances must be the recorded ones moved by exactly the
/// amount (expected values come from the bundle, not from the engine).
pub fn verify_outcome(
    order: &TransferOrder,
    executed: bool,
    sender_final: &Wei,
    recipient_final: &Wei,
) -> (r: Result<TransferReport, TransferError>)
    ensures
        !executed <==> r == Err::<TransferReport, TransferError>(
            TransferError::TransferExecutionFailed,
        ),
        (executed && !balances_moved(order.authorized(), *sender_final, *recipient_final))
            <==> r == Err::<TransferReport, TransferError>(
            TransferError::BalanceChangeInvariantViolation,
        ),
        r is Ok <==> (executed && balances_moved(order.authorized(), *sender_final, *recipient_final)),
        r matches Ok(rep) ==> {
            &&& rep.plan == order.authorized()
            &&& rep.sender_final == *sender_final
            &&& rep.recipient_final == *recipient_final
            &&& rep.wf()
        },
{
    if !executed {
        return Err(TransferError::TransferExecutionFailed);
    }
    let plan = order.plan();
    let expected_sender = match plan.sender_initial.checked_sub(&plan.amount) {
        Some(w) => w,
        None => return Err(TransferError::BalanceChangeInvariantViolation),
    };
    let expected_recipient = match plan.recipient_initial.checked_add(&plan.amount) {
        Some(w) => w,
        None => {
            proof {
                recipient_final.lemma_bounded();
            }
            return Err(TransferError::BalanceChangeInvariantViolation);
        },
    };
    if !sender_final.equals(&expected_sender) || !recipient_final.equals(&expected_recipient) {
        return Err(TransferError::BalanceChangeInvariantViolation);
    }
    Ok(TransferReport { plan, sender_final: *sender_final, recipient_final: *recipient_final })
}

/// The host's binding check: the block fetched independently by number must
/// exist and carry exactly the hash the state engine reported.
#[verifier::loop_isolation(false)]
pub fn check_block_binding(engine_hash: &[u8; 32], fetched_hash: &Option<[u8; 32]>) -> (r: Result<
    (),
    TransferError,
>)
    ensures
        r is Ok <==> (fetched_hash matches Some(h) && h@ == engine_hash@),
        r is Err ==> r == Err::<(), TransferError>(TransferError::BlockBindingMismatch),
{
    let h = match fetched_hash {
        Some(h) => h,
        None => return Err(TransferError::BlockBindingMismatch),
    };
    let mut i: usize = 0;
    while i < 32
        invariant
            i <= 32,
            forall|j: int| 0 <= j < i ==> h@[j] == engine_hash@[j],
        decreases 32 - i,
    {
        if h[i] != engine_hash[i] {
            assert(h@[i as int] != engine_hash@[i as int]);
            return Err(TransferError::BlockBindingMismatch);
        }
        i = i + 1;
    }
    assert(h@ =~= engine_hash@);
    Ok(())
}

/// The first check that a host request fails, if any: the addresses, then
/// the amount.
pub open spec fn request_error(sender: Seq<char>, recipient: Seq<char>, eth_amt: Seq<char>) -> Option<
    TransferError,
> {
    if !is_address_text(sender) || !is_address_text(recipient) {
        Some(TransferError::InvalidAddress)
    } else if !is_amount_text(eth_amt) {
        Some(TransferError::InvalidAmount)
    } else {
        None
    }
}

/// The host's check of its request, made before any network work.
pub fn check_request(sender: &str, recipient: &str, eth_amt: &str) -> (r: Result<(), TransferError>)
    ensures
        r is Err <==> request_error(sender@, recipient@, eth_amt@) is Some,
        r matches Err(e) ==> request_error(sender@, recipient@, eth_amt@) == Some(e),
{
    if Address::parse(sender).is_none() || Address::parse(recipient).is_none() {
        return Err(TransferError::InvalidAddress);
    }
    if parse_ether(eth_amt).is_none() {
        return Err(TransferError::InvalidAmount);
    }
    Ok(())
}

/// The first check that a host run fails, if any: the request, then the
/// block binding.
pub open spec fn host_error(
    sender: Seq<char>,
    recipient: Seq<char>,
    eth_amt: Seq<char>,
    engine_hash: Seq<u8>,
    fetched_hash: Option<Seq<u8>>,
) -> Option<TransferError> {
    if request_error(sender, recipient, eth_amt) is Some {
        request_error(sender, recipient, eth_amt)
    } else if fetched_hash != Some(engine_hash) {
        Some(TransferError::BlockBindingMismatch)
    } else {
        None
    }
}

/// The host's run: checks the request and the block binding, then records
/// the balances the engine reported, in decimal wei, beside the snapshot and
/// the block. No bundle comes out of a failed check.
pub fn assemble_bundle(
    sender: String,
    recipient: String,
    eth_amt: String,
    engine_hash: &[u8; 32],
    fetched_hash: &Option<[u8; 32]>,
    sender_balance: &Wei,
    recipient_balance: &Wei,
    evm_json: String,
    block_data: String,
) -> (r: Result<TransferBundle, TransferError>)
    ensures
        r is Err <==> host_error(
            sender@,
            recipient@,
            eth_amt@,
            engine_hash@,
            match *fetched_hash {
                Some(h) => Some(h@),
                None => None,
            },
        ) is Some,
        r matches Err(e) ==> host_error(
            sender@,
            recipient@,
            eth_amt@,
            engine_hash@,
            match *fetched_hash {
                Some(h) => Some(h@),
                None => None,
            },
        ) == Some(e),
        r matches Ok(b) ==> {
            &&& b.evm_json == evm_json
            &&& b.sender == sender
            &&& b.recipient == recipient
            &&& b.eth_amt == eth_amt
            &&& b.sender_initial_balance@ == decimal(sender_balance.value())
            &&& b.recipient_initial_balance@ == decimal(recipient_balance.value())
            &&& b.block_data == block_data
        },
{
    match check_request(sender.as_str(), recipient.as_str(), eth_amt.as_str()) {
        Ok(()) => {},
        Err(e) => return Err(e),
    }
    match check_block_binding(engine_hash, fetched_hash) {
        Ok(()) => {},
        Err(e) => return Err(e),
    }
    Ok(TransferBundle {
        evm_json,
        sender,
        recipient,
        eth_amt,
        sender_initial_balance: sender_balance.to_decimal(),
        recipient_initial_balance: recipient_balance.to_decimal(),
        block_data,
    })
}

/// The enclave never authorizes a transfer past a failed gate: a restored
/// balance that differs from the recorded one stops the run at the restore
/// gate whatever the proofs say, and an `Invalid` verdict stops it otherwise.
pub proof fn lemma_gate_ordering(plan: TransferPlan, sender: Wei, recipient: Wei, proofs: Seq<ProofResult>)
    ensures
        !restore_matches(plan, sender, recipient) ==> authorize_error(plan, sender, recipient, proofs)
            == Some(TransferError::BalanceMismatchAfterRestore),
        (exists|i: int| 0 <= i < proofs.len() && proofs[i] == ProofResult::Invalid)
            ==> authorize_error(plan, sender, recipient, proofs) is Some,
{
}

/// No proofs at all is no failure: with matching restored balances and an
/// empty set of verdicts the transfer is authorized.
pub proof fn lemma_empty_proofs_pass(plan: TransferPlan, sender: Wei, recipient: Wei)
    requires
        restore_matches(plan, sender, recipient),
    ensures
        authorize_error(plan, sender, recipient, Seq::<ProofResult>::empty()) is None,
{
}

/// Every successful run moves exactly the amount: the sender ends with the
/// recorded balance less the amount, the recipient with it plus the amount,
/// and both changes equal the amount.
pub proof fn lemma_success_moves_amount(rep: TransferReport)
    requires
        rep.wf(),
    ensures
        rep.sender_final.value() + rep.plan.amount.value() == rep.plan.sender_initial.value(),
        rep.recipient_final.value() == rep.plan.recipient_initial.value() + rep.plan.amount.value(),
        rep.plan.sender_initial.value() - rep.sender_final.value() == rep.plan.amount.value(),
        rep.recipient_final.value() - rep.plan.recipient_initial.value() == rep.plan.amount.value(),
{
}

/// A balance the host records in a bundle is read back by the enclave as
/// exactly the same amount: its decimal text is a well-formed balance text
/// whose value is the balance.
pub proof fn lemma_recorded_balance_round_trip(w: Wei)
    ensures
        is_wei_text(decimal(w.value())),
        digits_value(decimal(w.value())) == w.value(),
{
    lemma_decimal(w.value());
    w.lemma_bounded();
}

/// A bundle written by an honest host passes the enclave's restore gate:
/// when the restored snapshot reports the balances the host recorded, the
/// plan parsed from the recorded texts matches them.
pub proof fn lemma_honest_bundle_restores(
    b: TransferBundle,
    plan: TransferPlan,
    sender_balance: Wei,
    recipient_balance: Wei,
)
    requires
        b.sender_initial_balance@ == decimal(sender_balance.value()),
        b.recipient_initial_balance@ == decimal(recipient_balance.value()),
        plan.sender_initial.value() == digits_value(b.sender_initial_balance@),
        plan.recipient_initial.value() == digits_value(b.recipient_initial_balance@),
    ensures
        restore_matches(plan, sender_balance, recipient_balance),
{
    lemma_decimal(sender_balance.value());
    lemma_decimal(recipient_balance.value());
}

} // verus!
