//! Utilities for managing the secret state of a wallet.

use crate::crypto::keys::{Digest, PublicKey, SecretKey};
use crate::crypto::proofs::{
    is_canonical_scalar, lemma_scalar_sum_of_difference, scalar_difference, scalar_sum,
    slice_to_vec, zero_bytes, Commitment, Opening, OpeningView,
    SimpleRangeProof, PROOF_LEN,
};
use crate::storage::WalletInfo;
use crate::transactions::{CreateWallet, Transfer};
use vstd::prelude::*;

verus! {

/// Encrypted information embedded into transfers: the opening of the amount,
/// sealed for the receiver by the sender. Sealing and opening are the host's
/// part; the service carries the bytes.
#[derive(Debug, PartialEq, Eq)]
pub struct EncryptedData {
    /// Cryptographic nonce of the sealed box.
    pub nonce: Vec<u8>,
    /// Data of the sealed box.
    pub encrypted_data: Vec<u8>,
}

/// What a sealed box holds, for use in contracts.
pub struct EncryptedDataView {
    /// Cryptographic nonce of the sealed box.
    pub nonce: Seq<u8>,
    /// Data of the sealed box.
    pub encrypted_data: Seq<u8>,
}

impl View for EncryptedData {
    type V = EncryptedDataView;

    open spec fn view(&self) -> EncryptedDataView {
        EncryptedDataView { nonce: self.nonce@, encrypted_data: self.encrypted_data@ }
    }
}

impl Clone for EncryptedData {
    fn clone(&self) -> (copy: EncryptedData)
        ensures
            copy@ == self@,
    {
        EncryptedData { nonce: self.nonce.clone(), encrypted_data: self.encrypted_data.clone() }
    }
}

impl EncryptedData {
    /// Puts a sealed box together from its nonce and its data.
    pub fn new(nonce: &[u8], encrypted_data: &[u8]) -> (data: EncryptedData)
        ensures
            data@.nonce == nonce@,
            data@.encrypted_data == encrypted_data@,
    {
        EncryptedData { nonce: slice_to_vec(nonce), encrypted_data: slice_to_vec(encrypted_data) }
    }

    /// Cryptographic nonce of the sealed box.
    pub fn nonce(&self) -> (nonce: &[u8])
        ensures
            nonce@ == self@.nonce,
    {
        self.nonce.as_slice()
    }

    /// Data of the sealed box.
    pub fn encrypted_data(&self) -> (data: &[u8])
        ensures
            data@ == self@.encrypted_data,
    {
        self.encrypted_data.as_slice()
    }
}

/// Information about an incoming transfer successfully verified with respect
/// to the secret state of the receiver's wallet. The receiver accepts the
/// transfer by signing an `Accept` for `transfer_id`.
#[derive(Debug, Clone, Copy, PartialEq)]
pub struct VerifiedTransfer {
    /// Opening for the transferred amount.
    pub opening: Opening,
    /// Hash of the transfer to accept.
    pub transfer_id: Digest,
}

impl VerifiedTransfer {
    /// Gets the transferred amount in plaintext.
    pub fn value(&self) -> (value: u64)
        ensures
            value == self.opening@.value,
    {
        self.opening.value()
    }
}

/// Why a transfer cannot be created.
#[derive(Debug, Clone, Copy, PartialEq, Eq, Structural)]
pub enum CreateTransferError {
    /// The rollback delay is not within the acceptable range.
    InvalidDelay,
    /// The amount is lower than the minimum transfer amount.
    AmountTooSmall,
    /// The balance of the wallet is lower than the amount.
    InsufficientBalance,
    /// The receiver is the same as the sender.
    SelfTransfer,
    /// The prover could not produce one of the range proofs.
    ProofFailed,
}

/// A transfer that waits for the host to seal the opening of its amount for
/// the receiver, and to sign it.
#[derive(Debug)]
pub struct TransferDraft {
    /// Sender.
    pub from: PublicKey,
    /// Receiver.
    pub to: PublicKey,
    /// Delay until the automatic rollback.
    pub rollback_delay: u32,
    /// Length of the wallet history as perceived by the sender.
    pub history_len: u64,
    /// Commitment to the transferred amount.
    pub amount: Commitment,
    /// Proof that the amount is not below the minimum.
    pub amount_proof: SimpleRangeProof,
    /// Proof that the sender's balance is sufficient.
    pub sufficient_balance_proof: SimpleRangeProof,
    /// Opening of the amount, to be sealed for the receiver.
    pub opening: Opening,
}

impl TransferDraft {
    /// Completes the transfer with the sealed opening and the hash of the
    /// signed transaction.
    pub fn seal(self, encrypted_data: EncryptedData, hash: &Digest) -> (transfer: Transfer)
        ensures
            transfer.from == self.from,
            transfer.to == self.to,
            transfer.rollback_delay == self.rollback_delay,
            transfer.history_len == self.history_len,
            transfer.amount == self.amount,
            transfer.amount_proof == self.amount_proof,
            transfer.sufficient_balance_proof == self.sufficient_balance_proof,
            transfer.encrypted_data == encrypted_data,
            transfer.hash == *hash,
    {
        Transfer::new(
            &self.from,
            &self.to,
            self.rollback_delay,
            self.history_len,
            self.amount,
            self.amount_proof,
            self.sufficient_balance_proof,
            encrypted_data,
            hash,
        )
    }
}

/// Secret state of an account owner.
///
/// The state holds the opening of the commitment to the wallet balance that
/// the blockchain stores, without which the owner can neither produce
/// transfers nor tell her balance. It should be updated based on the wallet
/// history; each transaction in the history should be applied to the state
/// exactly once. If the opening is lost, it can be restored by replaying the
/// history from scratch.
#[derive(Debug)]
pub struct SecretState {
    signing_key: SecretKey,
    verifying_key: PublicKey,
    balance_opening: Opening,
    history_len: u64,
}

/// What a secret state holds, for use in contracts.
pub struct SecretStateView {
    /// Key that signs the transactions of the wallet.
    pub signing_key: SecretKey,
    /// Key of the wallet.
    pub verifying_key: PublicKey,
    /// Opening of the balance.
    pub balance: OpeningView,
    /// Number of events of the history that the state has seen.
    pub history_len: u64,
}

impl View for SecretState {
    type V = SecretStateView;

    closed spec fn view(&self) -> SecretStateView {
        SecretStateView {
            signing_key: self.signing_key,
            verifying_key: self.verifying_key,
            balance: self.balance_opening@,
            history_len: self.history_len,
        }
    }
}

impl SecretStateView {
    /// What stands in the way of a transfer of the given amount, if anything.
    /// The conditions are tried in this order: the delay lies within its
    /// bounds; the amount is not below the minimum; the balance covers the
    /// amount; the receiver is another wallet.
    pub open spec fn transfer_obstacle(self, amount: u64, receiver: PublicKey, rollback_delay: u32) -> Option<
        CreateTransferError,
    > {
        if !(crate::MIN_ROLLBACK_DELAY <= rollback_delay < crate::MAX_ROLLBACK_DELAY) {
            Some(CreateTransferError::InvalidDelay)
        } else if amount < crate::MIN_TRANSFER_AMOUNT {
            Some(CreateTransferError::AmountTooSmall)
        } else if self.balance.value < amount {
            Some(CreateTransferError::InsufficientBalance)
        } else if receiver == self.verifying_key {
            Some(CreateTransferError::SelfTransfer)
        } else {
            None
        }
    }

    /// Whether the state can take in a transfer whose opening decodes from
    /// the given bytes: the wallet is its sender or its receiver, the bytes
    /// decode, and neither the balance nor the count of events leaves `u64`.
    pub open spec fn can_apply(self, from: PublicKey, to: PublicKey, plaintext: Seq<u8>) -> bool {
        &&& OpeningView::decode(plaintext) is Some
        &&& self.history_len < u64::MAX
        &&& if self.verifying_key == from {
            self.balance.value >= OpeningView::decode(plaintext)->0.value
        } else {
            self.verifying_key == to && self.balance.value + OpeningView::decode(plaintext)->0.value
                <= u64::MAX
        }
    }

    /// The state after a transfer: the sender's balance loses the amount, the
    /// receiver's gains it, and the history has one more event.
    pub open spec fn applied(self, from: PublicKey, plaintext: Seq<u8>) -> SecretStateView {
        let opening = OpeningView::decode(plaintext)->0;
        SecretStateView {
            balance: if self.verifying_key == from {
                OpeningView {
                    value: (self.balance.value - opening.value) as u64,
                    blinding: scalar_difference(self.balance.blinding, opening.blinding),
                }
            } else {
                OpeningView {
                    value: (self.balance.value + opening.value) as u64,
                    blinding: scalar_sum(self.balance.blinding, opening.blinding),
                }
            },
            history_len: (self.history_len + 1) as u64,
            ..self
        }
    }

    /// Whether the state can take in the rollback of a transfer whose opening
    /// decodes from the given bytes: the wallet is its sender, the bytes
    /// decode, and neither the balance nor the count of events leaves `u64`.
    pub open spec fn can_roll_back(self, from: PublicKey, plaintext: Seq<u8>) -> bool {
        &&& OpeningView::decode(plaintext) is Some
        &&& self.history_len < u64::MAX
        &&& self.verifying_key == from
        &&& self.balance.value + OpeningView::decode(plaintext)->0.value <= u64::MAX
    }

    /// The state after the rollback of a transfer: the balance gains the
    /// amount back, and the history has one more event.
    pub open spec fn rolled_back(self, plaintext: Seq<u8>) -> SecretStateView {
        let opening = OpeningView::decode(plaintext)->0;
        SecretStateView {
            balance: OpeningView {
                value: (self.balance.value + opening.value) as u64,
                blinding: scalar_sum(self.balance.blinding, opening.blinding),
            },
            history_len: (self.history_len + 1) as u64,
            ..self
        }
    }
}

/// A transfer moves its amount from the sender to the receiver: after both have
/// applied it, their balances add up to what they added up to before.
pub proof fn lemma_transfer_conserves(
    sender: SecretStateView,
    receiver: SecretStateView,
    from: PublicKey,
    to: PublicKey,
    plaintext: Seq<u8>,
)
    requires
        sender.verifying_key == from,
        receiver.verifying_key == to,
        from != to,
        sender.can_apply(from, to, plaintext),
        receiver.can_apply(from, to, plaintext),
    ensures
        sender.applied(from, plaintext).balance.value + receiver.applied(
            from,
            plaintext,
        ).balance.value == sender.balance.value + receiver.balance.value,
{
}

/// The rollback of a transfer gives the sender back what the transfer took
/// from her: the balance opens the same commitment as before the transfer,
/// with the same value and the same blinding.
pub proof fn lemma_rollback_restores(
    sender: SecretStateView,
    from: PublicKey,
    to: PublicKey,
    plaintext: Seq<u8>,
)
    requires
        sender.verifying_key == from,
        sender.can_apply(from, to, plaintext),
        sender.history_len + 1 < u64::MAX,
        is_canonical_scalar(sender.balance.blinding),
    ensures
        sender.applied(from, plaintext).can_roll_back(from, plaintext),
        sender.applied(from, plaintext).rolled_back(plaintext).balance == sender.balance,
        sender.applied(from, plaintext).rolled_back(plaintext).history_len == sender.history_len
            + 2,
{
    let opening = OpeningView::decode(plaintext)->0;
    lemma_scalar_sum_of_difference(sender.balance.blinding, opening.blinding);
}

/// An accepted transfer leaves the receiver with a balance from which the
/// amount can be taken again: subtracting the opening of the amount gives the
/// balance that she had, with the same value and the same blinding.
pub proof fn lemma_receipt_can_be_undone(
    receiver: SecretStateView,
    from: PublicKey,
    to: PublicKey,
    plaintext: Seq<u8>,
)
    requires
        receiver.verifying_key == to,
        from != to,
        receiver.can_apply(from, to, plaintext),
        is_canonical_scalar(receiver.balance.blinding),
    ensures
        ({
            let opening = OpeningView::decode(plaintext)->0;
            let after = receiver.applied(from, plaintext).balance;
            &&& after.value - opening.value == receiver.balance.value
            &&& scalar_difference(after.blinding, opening.blinding) == receiver.balance.blinding
        }),
{
    let opening = OpeningView::decode(plaintext)->0;
    lemma_scalar_sum_of_difference(receiver.balance.blinding, opening.blinding);
}

impl SecretState {
    /// Creates an uninitialized state from the specified Ed25519 keypair.
    pub fn from_keypair(verifying_key: PublicKey, signing_key: SecretKey) -> (state: SecretState)
        ensures
            state@.verifying_key == verifying_key,
            state@.signing_key == signing_key,
            state@.balance.value == 0,
            state@.balance.blinding == zero_bytes(),
            state@.history_len == 0,
    {
        SecretState {
            verifying_key,
            signing_key,
            balance_opening: Opening::with_no_blinding(0),
            history_len: 0,
        }
    }

    /// Gets the public key of the wallet, which verifies its digital
    /// signatures.
    pub fn public_key(&self) -> (key: &PublicKey)
        ensures
            *key == self@.verifying_key,
    {
        &self.verifying_key
    }

    /// Gets the key that the host signs the transactions of the wallet with.
    pub fn signing_key(&self) -> (key: &SecretKey)
        ensures
            *key == self@.signing_key,
    {
        &self.signing_key
    }

    /// Gets the current wallet balance.
    pub fn balance(&self) -> (balance: u64)
        ensures
            balance == self@.balance.value,
    {
        self.balance_opening.value()
    }

    /// Gets the number of events of the wallet history that the state has
    /// seen.
    pub fn history_len(&self) -> (len: u64)
        ensures
            len == self@.history_len,
    {
        self.history_len
    }

    /// Produces a `CreateWallet` transaction for this wallet, given the hash
    /// of the transaction once it is signed.
    pub fn create_wallet(&self, hash: &Digest) -> (tx: CreateWallet)
        ensures
            tx.key == self@.verifying_key,
            tx.hash == *hash,
    {
        CreateWallet::new(&self.verifying_key, hash)
    }

    /// Tells what stands in the way of a transfer from this wallet, if
    /// anything.
    pub fn check_transfer(&self, amount: u64, receiver: &PublicKey, rollback_delay: u32) -> (obstacle:
        Option<CreateTransferError>)
        ensures
            obstacle == self@.transfer_obstacle(amount, *receiver, rollback_delay),
    {
        if !(crate::MIN_ROLLBACK_DELAY <= rollback_delay && rollback_delay
            < crate::MAX_ROLLBACK_DELAY) {
            Some(CreateTransferError::InvalidDelay)
        } else if amount < crate::MIN_TRANSFER_AMOUNT {
            Some(CreateTransferError::AmountTooSmall)
        } else if self.balance_opening.value() < amount {
            Some(CreateTransferError::InsufficientBalance)
        } else if *receiver == self.verifying_key {
            Some(CreateTransferError::SelfTransfer)
        } else {
            None
        }
    }

    /// Puts a draft together from the opening of the amount and from what the
    /// prover made of the two statements of the transfer. Without one of the
    /// proofs there is no transfer.
    pub fn draft_transfer(
        &self,
        receiver: &PublicKey,
        rollback_delay: u32,
        opening: Opening,
        amount_proof: Option<SimpleRangeProof>,
        sufficient_balance_proof: Option<SimpleRangeProof>,
    ) -> (result: Result<TransferDraft, CreateTransferError>)
        ensures
            result is Ok <==> amount_proof is Some && sufficient_balance_proof is Some,
            result is Err ==> result->Err_0 == CreateTransferError::ProofFailed,
            result is Ok ==> {
                let draft = result->Ok_0;
                &&& draft.from == self@.verifying_key
                &&& draft.to == *receiver
                &&& draft.rollback_delay == rollback_delay
                &&& draft.history_len == self@.history_len
                &&& draft.opening == opening
                &&& draft.amount@ == opening@.commitment()
                &&& draft.amount_proof == amount_proof->0
                &&& draft.sufficient_balance_proof == sufficient_balance_proof->0
            },
    {
        match amount_proof {
            Some(amount_proof) => {
                match sufficient_balance_proof {
                    Some(sufficient_balance_proof) => Ok(
                        TransferDraft {
                            from: self.verifying_key,
                            to: *receiver,
                            rollback_delay,
                            history_len: self.history_len,
                            amount: Commitment::from_opening(&opening),
                            amount_proof,
                            sufficient_balance_proof,
                            opening,
                        },
                    ),
                    None => Err(CreateTransferError::ProofFailed),
                }
            },
            None => Err(CreateTransferError::ProofFailed),
        }
    }

    /// Produces a transfer from this wallet to the specified receiver, ready
    /// to be sealed and signed. The amount is committed to with a fresh
    /// blinding factor; one proof shows that the amount less the minimum
    /// transfer amount is in range, the other that the balance less the
    /// amount is; both proofs have the standard size. A transfer that breaks a
    /// rule of the service is refused with the rule; otherwise the draft is as
    /// `draft_transfer` makes it, unless the prover fails.
    pub fn create_transfer(&self, amount: u64, receiver: &PublicKey, rollback_delay: u32) -> (result:
        Result<TransferDraft, CreateTransferError>)
        ensures
            self@.transfer_obstacle(amount, *receiver, rollback_delay) is Some ==> result == Err::<
                TransferDraft,
                CreateTransferError,
            >(self@.transfer_obstacle(amount, *receiver, rollback_delay)->0),
            self@.transfer_obstacle(amount, *receiver, rollback_delay) is None && result is Err
                ==> result->Err_0 == CreateTransferError::ProofFailed,
            result is Ok ==> {
                let draft = result->Ok_0;
                &&& self@.transfer_obstacle(amount, *receiver, rollback_delay) is None
                &&& draft.from == self@.verifying_key
                &&& draft.to == *receiver
                &&& draft.rollback_delay == rollback_delay
                &&& draft.history_len == self@.history_len
                &&& draft.opening@.value == amount
                &&& draft.amount@ == draft.opening@.commitment()
                &&& draft.amount_proof@.len() == PROOF_LEN
                &&& draft.sufficient_balance_proof@.len() == PROOF_LEN
            },
    {
        match self.check_transfer(amount, receiver, rollback_delay) {
            Some(obstacle) => {
                return Err(obstacle);
            },
            None => {},
        }
        let opening = Opening::with_random_blinding(amount);
        let minimum = Opening::with_no_blinding(crate::MIN_TRANSFER_AMOUNT);
        let amount_proof = match opening.checked_sub(&minimum) {
            Ok(excess) => SimpleRangeProof::prove(&excess),
            Err(_) => None,
        };
        let sufficient_balance_proof = match self.balance_opening.checked_sub(&opening) {
            Ok(remaining_balance) => SimpleRangeProof::prove(&remaining_balance),
            Err(_) => None,
        };
        self.draft_transfer(receiver, rollback_delay, opening, amount_proof, sufficient_balance_proof)
    }

    /// Initializes the state, once the `CreateWallet` transaction of the
    /// wallet is committed. It must be called on a fresh state, once.
    pub fn initialize(&mut self)
        requires
            old(self)@.history_len == 0,
        ensures
            final(self)@.verifying_key == old(self)@.verifying_key,
            final(self)@.signing_key == old(self)@.signing_key,
            final(self)@.balance.value == crate::INITIAL_BALANCE,
            final(self)@.balance.blinding == zero_bytes(),
            final(self)@.history_len == 1,
    {
        self.balance_opening = Opening::with_no_blinding(crate::INITIAL_BALANCE);
        self.history_len = 1;
    }

    /// Verifies an incoming transfer, given what the host found when it opened
    /// the sealed data of the transfer with the sender's public encryption key
    /// and the receiver's secret one. The transfer is verified if it is
    /// addressed to this wallet and the data holds an opening.
    pub fn verify_transfer(&self, transfer: &Transfer, plaintext: Option<&[u8]>) -> (verified: Option<
        VerifiedTransfer,
    >)
        ensures
            verified is Some <==> self@.verifying_key == transfer.to && plaintext is Some
                && OpeningView::decode(plaintext->0@) is Some,
            verified is Some ==> Some(verified->0.opening@) == OpeningView::decode(plaintext->0@)
                && verified->0.transfer_id == transfer.hash,
    {
        if self.verifying_key == transfer.to {
            let plaintext = match plaintext {
                Some(plaintext) => plaintext,
                None => {
                    return None;
                },
            };
            match Opening::from_slice(plaintext) {
                Some(opening) => Some(VerifiedTransfer { opening, transfer_id: transfer.hash }),
                None => None,
            }
        } else {
            None
        }
    }

    /// Updates the state according to a committed transfer, given the opening
    /// of its amount as the host found it in the sealed data. The wallet must
    /// be the sender or the receiver of the transfer; as the sender it pays
    /// the amount, as the receiver it gets it.
    pub fn transfer(&mut self, transfer: &Transfer, plaintext: &[u8])
        requires
            old(self)@.can_apply(transfer.from, transfer.to, plaintext@),
        ensures
            final(self)@ == old(self)@.applied(transfer.from, plaintext@),
    {
        if let Some(opening) = Opening::from_slice(plaintext) {
            let balance = if self.verifying_key == transfer.from {
                self.balance_opening.checked_sub(&opening)
            } else {
                self.balance_opening.checked_add(&opening)
            };
            if let Ok(balance) = balance {
                self.balance_opening = balance;
            }
        }
        self.history_len = self.history_len + 1;
    }

    /// Updates the state according to a committed transfer if it can, and
    /// tells whether it could. A transfer that does not concern the wallet,
    /// an opening that does not decode, and a balance that would leave `u64`
    /// leave the state as it is.
    pub fn try_transfer(&mut self, transfer: &Transfer, plaintext: &[u8]) -> (applied: bool)
        ensures
            applied == old(self)@.can_apply(transfer.from, transfer.to, plaintext@),
            applied ==> final(self)@ == old(self)@.applied(transfer.from, plaintext@),
            !applied ==> final(self)@ == old(self)@,
    {
        let opening = match Opening::from_slice(plaintext) {
            Some(opening) => opening,
            None => {
                return false;
            },
        };
        if self.history_len == u64::MAX {
            return false;
        }
        let balance = self.balance_opening.value();
        let fits = if self.verifying_key == transfer.from {
            balance >= opening.value()
        } else {
            self.verifying_key == transfer.to && opening.value() <= u64::MAX - balance
        };
        if !fits {
            return false;
        }
        self.transfer(transfer, plaintext);
        true
    }

    /// Rolls back a previously committed transfer of this wallet, given the
    /// opening of its amount as the host found it in the sealed data. The
    /// wallet must be the sender of the transfer.
    pub fn rollback(&mut self, transfer: &Transfer, plaintext: &[u8])
        requires
            old(self)@.can_roll_back(transfer.from, plaintext@),
        ensures
            final(self)@ == old(self)@.rolled_back(plaintext@),
    {
        if let Some(opening) = Opening::from_slice(plaintext) {
            if let Ok(balance) = self.balance_opening.checked_add(&opening) {
                self.balance_opening = balance;
            }
        }
        self.history_len = self.history_len + 1;
    }

    /// Rolls back a previously committed transfer if it can, and tells
    /// whether it could. A transfer of another wallet, an opening that does
    /// not decode, and a balance that would leave `u64` leave the state as it
    /// is.
    pub fn try_rollback(&mut self, transfer: &Transfer, plaintext: &[u8]) -> (applied: bool)
        ensures
            applied == old(self)@.can_roll_back(transfer.from, plaintext@),
            applied ==> final(self)@ == old(self)@.rolled_back(plaintext@),
            !applied ==> final(self)@ == old(self)@,
    {
        let opening = match Opening::from_slice(plaintext) {
            Some(opening) => opening,
            None => {
                return false;
            },
        };
        if self.history_len == u64::MAX || !(self.verifying_key == transfer.from) {
            return false;
        }
        if opening.value() > u64::MAX - self.balance_opening.value() {
            return false;
        }
        self.rollback(transfer, plaintext);
        true
    }

    /// Checks if this state corresponds to the supplied public info about a
    /// wallet: the keys are the same, and the balance of the state opens the
    /// commitment of the wallet.
    pub fn corresponds_to(&self, wallet: &WalletInfo) -> (corresponds: bool)
        ensures
            corresponds == (wallet.public_key == self@.verifying_key && wallet.balance@
                == self@.balance.commitment()),
    {
        wallet.public_key == self.verifying_key && wallet.balance.verify(&self.balance_opening)
    }

    /// Produces a public info about the state.
    pub fn to_public(&self) -> (info: WalletInfo)
        ensures
            info.public_key == self@.verifying_key,
            info.balance@ == self@.balance.commitment(),
    {
        WalletInfo {
            public_key: self.verifying_key,
            balance: Commitment::from_opening(&self.balance_opening),
        }
    }
}

} // verus!
