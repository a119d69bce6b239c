//! Transactions of the service and the rules by which they are checked and
//! executed.
//!
//! A transaction reaches the service after the host has parsed it, hashed it
//! and checked its signature; each transaction carries its hash, and the
//! stateless checks take the verdict on the signature as an argument.

use crate::crypto::keys::{Digest, PublicKey};
use crate::crypto::proofs::{
    pedersen_commitment, ristretto_difference, zero_bytes, Commitment, SimpleRangeProof, PROOF_LEN,
};
use crate::ledger::Roots;
use crate::secrets::{EncryptedData, EncryptedDataView};
use crate::storage::Schema;
use vstd::prelude::*;

verus! {

/// Errors that can occur during transaction processing.
#[derive(Debug, Clone, Copy, Hash, PartialEq, Eq, Structural)]
pub enum Error {
    /// Wallet already exists.
    WalletExists,
    /// The sender of a transfer is not registered.
    UnregisteredSender,
    /// The receiver of a transfer is not registered.
    UnregisteredReceiver,
    /// The range proof for the sender's sufficient account balance is
    /// incorrect.
    IncorrectProof,
    /// There has been another outgoing transfer since the referenced point in
    /// time.
    OutdatedHistory,
    /// Transfer refers to wallet history length exceeding real one.
    InvalidHistoryRef,
    /// An `Accept` transaction references an unknown transfer.
    UnknownTransfer,
    /// The author of an `Accept` transaction differs from the receiver of the
    /// referenced transfer.
    UnauthorizedAccept,
}

impl Error {
    /// The code under which the error is recorded in a block.
    pub open spec fn spec_code(self) -> u8 {
        match self {
            Error::WalletExists => 0,
            Error::UnregisteredSender => 1,
            Error::UnregisteredReceiver => 2,
            Error::IncorrectProof => 3,
            Error::OutdatedHistory => 4,
            Error::InvalidHistoryRef => 5,
            Error::UnknownTransfer => 6,
            Error::UnauthorizedAccept => 7,
        }
    }

    /// The code under which the error is recorded in a block.
    #[verifier::when_used_as_spec(spec_code)]
    pub fn code(self) -> (code: u8)
        ensures
            code == self.spec_code(),
    {
        match self {
            Error::WalletExists => 0,
            Error::UnregisteredSender => 1,
            Error::UnregisteredReceiver => 2,
            Error::IncorrectProof => 3,
            Error::OutdatedHistory => 4,
            Error::InvalidHistoryRef => 5,
            Error::UnknownTransfer => 6,
            Error::UnauthorizedAccept => 7,
        }
    }

    /// The error with the given code, if there is one.
    pub fn from_code(code: u8) -> (error: Option<Error>)
        ensures
            error is Some <==> code < 8,
            error is Some ==> error->0.spec_code() == code,
    {
        match code {
            0 => Some(Error::WalletExists),
            1 => Some(Error::UnregisteredSender),
            2 => Some(Error::UnregisteredReceiver),
            3 => Some(Error::IncorrectProof),
            4 => Some(Error::OutdatedHistory),
            5 => Some(Error::InvalidHistoryRef),
            6 => Some(Error::UnknownTransfer),
            7 => Some(Error::UnauthorizedAccept),
            _ => None,
        }
    }

    /// The error in words, in contracts.
    pub open spec fn spec_description(self) -> Seq<char> {
        match self {
            Error::WalletExists => "wallet already exists"@,
            Error::UnregisteredSender => "the sender of a transfer is not registered"@,
            Error::UnregisteredReceiver => "the receiver of a transfer is not registered"@,
            Error::IncorrectProof => {
                "the range proof for the sender's sufficient account balance is incorrect"@
            },
            Error::OutdatedHistory => {
                "there has been another outgoing transfer since the referenced point in time"@
            },
            Error::InvalidHistoryRef => {
                "transfer refers to wallet history length exceeding real one"@
            },
            Error::UnknownTransfer => "an `Accept` transaction references an unknown transfer"@,
            Error::UnauthorizedAccept => {
                "the author of an `Accept` transaction differs from the receiver of the referenced transfer"@
            },
        }
    }

    /// Describes the error in words.
    pub fn description(self) -> (text: &'static str)
        ensures
            text@ == self.spec_description(),
    {
        match self {
            Error::WalletExists => "wallet already exists",
            Error::UnregisteredSender => "the sender of a transfer is not registered",
            Error::UnregisteredReceiver => "the receiver of a transfer is not registered",
            Error::IncorrectProof => {
                "the range proof for the sender's sufficient account balance is incorrect"
            },
            Error::OutdatedHistory => {
                "there has been another outgoing transfer since the referenced point in time"
            },
            Error::InvalidHistoryRef => {
                "transfer refers to wallet history length exceeding real one"
            },
            Error::UnknownTransfer => "an `Accept` transaction references an unknown transfer",
            Error::UnauthorizedAccept => {
                "the author of an `Accept` transaction differs from the receiver of the referenced transfer"
            },
        }
    }
}

/// Transaction for creating a new wallet.
///
/// The transaction names only the Ed25519 verification key used to check
/// digital signatures of transactions authored by the wallet owner. The public
/// encryption key of the owner is derived from the verification key.
#[derive(Debug, Clone, Copy, PartialEq, Eq)]
pub struct CreateWallet {
    /// Ed25519 key for the wallet.
    pub key: PublicKey,
    /// Hash of the signed transaction.
    pub hash: Digest,
}

impl CreateWallet {
    /// Puts a transaction together from its field and its hash.
    pub fn new(key: &PublicKey, hash: &Digest) -> (tx: CreateWallet)
        ensures
            tx.key == *key,
            tx.hash == *hash,
    {
        CreateWallet { key: *key, hash: *hash }
    }

    /// Ed25519 key for the wallet.
    pub fn key(&self) -> (key: &PublicKey)
        ensures
            *key == self.key,
    {
        &self.key
    }

    /// Hash of the signed transaction.
    pub fn hash(&self) -> (hash: Digest)
        ensures
            hash == self.hash,
    {
        self.hash
    }

    /// Stateless check: the transaction must be signed by the key that it
    /// registers.
    pub fn verify(&self, signature_valid: bool) -> (valid: bool)
        ensures
            valid == signature_valid,
    {
        signature_valid
    }

    /// Executes the transaction: registers the wallet, unless it exists. The
    /// hash of the transaction must be its own: no block may hold another
    /// transaction under it.
    /// `roots.history` is the root of the wallet's history once it holds its
    /// first event.
    pub fn execute(&self, schema: &mut Schema, roots: &Roots) -> (result: Result<(), Error>)
        requires
            old(schema).wf(),
            old(schema)@.height < u64::MAX,
            old(schema)@.free_for(TransactionView::CreateWallet(*self)),
        ensures
            final(schema).wf(),
            result == old(schema)@.create_wallet_result(self.key),
            final(schema)@ == old(schema)@.record(TransactionView::CreateWallet(*self)).create_wallet(
                self.key,
                self.hash,
                roots.history,
            ),
    {
        schema.record(&Transactions::CreateWallet(*self));
        schema.create_wallet(&self.key, &self.hash, &roots.history)
    }
}

/// Transfer from one wallet to another wallet.
#[derive(Debug, PartialEq)]
pub struct Transfer {
    /// Ed25519 public key of the sender. The transaction must be signed with
    /// the corresponding secret key.
    pub from: PublicKey,
    /// Ed25519 public key of the receiver.
    pub to: PublicKey,
    /// Relative delay (measured in block height) to wait for transfer
    /// acceptance from the receiver. The delay is counted from the height of
    /// the block containing the transfer. If the transfer is not accepted by
    /// the receiver when the delay expires, it is automatically rolled back.
    pub rollback_delay: u32,
    /// Length of the wallet history as perceived by the sender. This value
    /// may be less than the real length; what matters is that the sender is
    /// aware of all her outgoing transfers.
    pub history_len: u64,
    /// Commitment to the transferred amount.
    pub amount: Commitment,
    /// Proof that `amount` is not below the minimum.
    pub amount_proof: SimpleRangeProof,
    /// Proof that the sender's balance is sufficient relative to `amount`.
    pub sufficient_balance_proof: SimpleRangeProof,
    /// Encryption of the opening for `amount`.
    pub encrypted_data: EncryptedData,
    /// Hash of the signed transaction.
    pub hash: Digest,
}

/// What a transfer holds, for use in contracts.
pub struct TransferView {
    /// Sender.
    pub from: PublicKey,
    /// Receiver.
    pub to: PublicKey,
    /// Delay until the automatic rollback.
    pub rollback_delay: u32,
    /// Length of the history as perceived by the sender.
    pub history_len: u64,
    /// Encoded commitment to the amount.
    pub amount: Seq<u8>,
    /// Encoded proof for the amount.
    pub amount_proof: Seq<u8>,
    /// Encoded proof for the balance.
    pub sufficient_balance_proof: Seq<u8>,
    /// Encrypted opening.
    pub encrypted_data: EncryptedDataView,
    /// Hash of the signed transaction.
    pub hash: Digest,
}

impl View for Transfer {
    type V = TransferView;

    open spec fn view(&self) -> TransferView {
        TransferView {
            from: self.from,
            to: self.to,
            rollback_delay: self.rollback_delay,
            history_len: self.history_len,
            amount: self.amount@,
            amount_proof: self.amount_proof@,
            sufficient_balance_proof: self.sufficient_balance_proof@,
            encrypted_data: self.encrypted_data@,
            hash: self.hash,
        }
    }
}

impl Clone for Transfer {
    fn clone(&self) -> (copy: Transfer)
        ensures
            copy@ == self@,
    {
        Transfer {
            from: self.from,
            to: self.to,
            rollback_delay: self.rollback_delay,
            history_len: self.history_len,
            amount: self.amount,
            amount_proof: self.amount_proof.clone(),
            sufficient_balance_proof: self.sufficient_balance_proof.clone(),
            encrypted_data: self.encrypted_data.clone(),
            hash: self.hash,
        }
    }
}

impl TransferView {
    /// What the stateless checks come to, given the verdicts on the signature
    /// and on the proof for the amount: the delay lies within its bounds, the
    /// sender claims a history, sender and receiver differ, and both verdicts
    /// are favourable.
    pub open spec fn verifies(self, signature_valid: bool, amount_proof_valid: bool) -> bool {
        &&& crate::MIN_ROLLBACK_DELAY <= self.rollback_delay < crate::MAX_ROLLBACK_DELAY
        &&& self.history_len > 0
        &&& self.from != self.to
        &&& signature_valid
        &&& amount_proof_valid
    }

    /// The commitment that the proof for the amount is about: the amount less
    /// the minimum transfer amount, which is committed to with no blinding.
    pub open spec fn amount_excess(self) -> Seq<u8> {
        ristretto_difference(
            self.amount,
            pedersen_commitment(crate::MIN_TRANSFER_AMOUNT, zero_bytes()),
        )
    }

    /// The commitment that the proof for the balance is about: the given
    /// balance of the sender less the amount.
    pub open spec fn remaining_balance(self, balance: Seq<u8>) -> Seq<u8> {
        ristretto_difference(balance, self.amount)
    }
}

impl Transfer {
    /// Puts a transaction together from its fields and its hash.
    pub fn new(
        from: &PublicKey,
        to: &PublicKey,
        rollback_delay: u32,
        history_len: u64,
        amount: Commitment,
        amount_proof: SimpleRangeProof,
        sufficient_balance_proof: SimpleRangeProof,
        encrypted_data: EncryptedData,
        hash: &Digest,
    ) -> (tx: Transfer)
        ensures
            tx.from == *from,
            tx.to == *to,
            tx.rollback_delay == rollback_delay,
            tx.history_len == history_len,
            tx.amount == amount,
            tx.amount_proof == amount_proof,
            tx.sufficient_balance_proof == sufficient_balance_proof,
            tx.encrypted_data == encrypted_data,
            tx.hash == *hash,
    {
        Transfer {
            from: *from,
            to: *to,
            rollback_delay,
            history_len,
            amount,
            amount_proof,
            sufficient_balance_proof,
            encrypted_data,
            hash: *hash,
        }
    }

    /// Ed25519 public key of the sender.
    pub fn from(&self) -> (key: &PublicKey)
        ensures
            *key == self.from,
    {
        &self.from
    }

    /// Ed25519 public key of the receiver.
    pub fn to(&self) -> (key: &PublicKey)
        ensures
            *key == self.to,
    {
        &self.to
    }

    /// Relative delay until the automatic rollback.
    pub fn rollback_delay(&self) -> (delay: u32)
        ensures
            delay == self.rollback_delay,
    {
        self.rollback_delay
    }

    /// Length of the wallet history as perceived by the sender.
    pub fn history_len(&self) -> (len: u64)
        ensures
            len == self.history_len,
    {
        self.history_len
    }

    /// Commitment to the transferred amount.
    pub fn amount(&self) -> (amount: Commitment)
        ensures
            amount == self.amount,
    {
        self.amount
    }

    /// Proof that the amount is not below the minimum.
    pub fn amount_proof(&self) -> (proof: &SimpleRangeProof)
        ensures
            *proof == self.amount_proof,
    {
        &self.amount_proof
    }

    /// Proof that the sender's balance is sufficient.
    pub fn sufficient_balance_proof(&self) -> (proof: &SimpleRangeProof)
        ensures
            *proof == self.sufficient_balance_proof,
    {
        &self.sufficient_balance_proof
    }

    /// Encryption of the opening for the amount.
    pub fn encrypted_data(&self) -> (data: &EncryptedData)
        ensures
            *data == self.encrypted_data,
    {
        &self.encrypted_data
    }

    /// Hash of the signed transaction.
    pub fn hash(&self) -> (hash: Digest)
        ensures
            hash == self.hash,
    {
        self.hash
    }

    /// The commitment that the proof for the amount is about: the amount less
    /// the minimum transfer amount, which is committed to with no blinding, so
    /// that the difference keeps the blinding of the amount.
    pub fn amount_excess(&self) -> (excess: Commitment)
        ensures
            excess@ == self@.amount_excess(),
    {
        let minimum = Commitment::with_no_blinding(crate::MIN_TRANSFER_AMOUNT);
        self.amount.sub(&minimum)
    }

    /// The commitment that the proof for the balance is about: the given
    /// balance of the sender less the amount.
    pub fn remaining_balance(&self, balance: &Commitment) -> (rest: Commitment)
        ensures
            rest@ == self@.remaining_balance(balance@),
    {
        balance.sub(&self.amount)
    }

    /// Checks the proof for the amount against the excess of the amount over
    /// the minimum transfer amount. A proof of another size than the standard
    /// one is refused; on a proof of that size the proof system decides.
    pub fn verify_stateless(&self) -> (valid: bool)
        ensures
            valid ==> self@.amount_proof.len() == PROOF_LEN,
    {
        self.amount_proof.verify(&self.amount_excess())
    }

    /// Checks the proof for the balance against what is left of the given
    /// balance after the transfer. A proof of another size than the standard
    /// one is refused; on a proof of that size the proof system decides.
    pub fn verify_stateful(&self, balance: &Commitment) -> (valid: bool)
        ensures
            valid ==> self@.sufficient_balance_proof.len() == PROOF_LEN,
    {
        self.sufficient_balance_proof.verify(&self.remaining_balance(balance))
    }

    /// Decides the stateless checks from the verdicts on the signature and on
    /// the proof for the amount.
    pub fn verify_with(&self, signature_valid: bool, amount_proof_valid: bool) -> (valid: bool)
        ensures
            valid == self@.verifies(signature_valid, amount_proof_valid),
    {
        if crate::MIN_ROLLBACK_DELAY > self.rollback_delay || crate::MAX_ROLLBACK_DELAY
            <= self.rollback_delay {
            return false;
        }
        self.history_len > 0 && !(self.from == self.to) && signature_valid && amount_proof_valid
    }

    /// Stateless checks of a transfer. A transfer that fails a check on its
    /// fields or on its signature is refused, and so is one whose proof for
    /// the amount has not the standard size. On the others the proof system
    /// decides, whose verdict the contract cannot foretell: with that verdict,
    /// the answer is the one of `verify_with`.
    pub fn verify(&self, signature_valid: bool) -> (valid: bool)
        ensures
            valid ==> self@.verifies(signature_valid, true),
            valid ==> self@.amount_proof.len() == PROOF_LEN,
            !self@.verifies(signature_valid, true) ==> !valid,
            self@.amount_proof.len() != PROOF_LEN ==> !valid,
    {
        if !self.verify_with(signature_valid, true) {
            return false;
        }
        let amount_proof_valid = self.verify_stateless();
        self.verify_with(signature_valid, amount_proof_valid)
    }

    /// Executes the transfer, given the verdict on the proof for the balance.
    /// On success the sender is debited at once, the transfer waits among the
    /// receiver's unaccepted transfers, and its rollback is scheduled.
    pub fn execute_with(&self, schema: &mut Schema, roots: &Roots, balance_proof_valid: bool) -> (result:
        Result<(), Error>)
        requires
            old(schema).wf(),
            old(schema)@.height + 2 + self.rollback_delay <= u64::MAX,
            old(schema)@.free_for(TransactionView::Transfer(self@)),
        ensures
            final(schema).wf(),
            result == old(schema)@.transfer_result(self@, balance_proof_valid),
            final(schema)@ == old(schema)@.record(TransactionView::Transfer(self@)).apply_transfer(
                self@,
                *roots,
                balance_proof_valid,
            ),
    {
        schema.record(&Transactions::Transfer(self.clone()));
        schema.transfer(self, roots, balance_proof_valid)
    }

    /// Executes the transfer. The proof for the balance is checked against the
    /// balance that the sender had at the point of her history that the
    /// transfer refers to, less the amount. The verdict is that of the proof
    /// system; with it, the outcome is the one of `execute_with`.
    pub fn execute(&self, schema: &mut Schema, roots: &Roots) -> (result: Result<(), Error>)
        requires
            old(schema).wf(),
            old(schema)@.height + 2 + self.rollback_delay <= u64::MAX,
            old(schema)@.free_for(TransactionView::Transfer(self@)),
        ensures
            final(schema).wf(),
            exists|verdict: bool|
                result == old(schema)@.transfer_result(self@, verdict) && final(schema)@ == old(
                    schema,
                )@.record(TransactionView::Transfer(self@)).apply_transfer(self@, *roots, verdict),
            old(schema)@.transfer_result(self@, true) is Err ==> result == old(
                schema,
            )@.transfer_result(self@, true) && final(schema)@ == old(schema)@.record(
                TransactionView::Transfer(self@),
            ),
    {
        let verdict = match schema.referenced_balance(self) {
            Some(balance) => self.verify_stateful(&balance),
            None => false,
        };
        proof {
            let recorded = schema@.record(TransactionView::Transfer(self@));
            if schema@.transfer_result(self@, true) is Err {
                recorded.lemma_transfer_fails_early(self@, *roots, verdict);
            }
        }
        self.execute_with(schema, roots, verdict)
    }
}

/// Transaction to accept an incoming transfer.
#[derive(Debug, Clone, Copy, PartialEq, Eq)]
pub struct Accept {
    /// Public key of the receiver of the transfer.
    pub receiver: PublicKey,
    /// Hash of the transfer transaction.
    pub transfer_id: Digest,
    /// Hash of the signed transaction.
    pub hash: Digest,
}

impl Accept {
    /// Puts a transaction together from its fields and its hash.
    pub fn new(receiver: &PublicKey, transfer_id: &Digest, hash: &Digest) -> (tx: Accept)
        ensures
            tx.receiver == *receiver,
            tx.transfer_id == *transfer_id,
            tx.hash == *hash,
    {
        Accept { receiver: *receiver, transfer_id: *transfer_id, hash: *hash }
    }

    /// Public key of the receiver of the transfer.
    pub fn receiver(&self) -> (key: &PublicKey)
        ensures
            *key == self.receiver,
    {
        &self.receiver
    }

    /// Hash of the transfer transaction.
    pub fn transfer_id(&self) -> (id: &Digest)
        ensures
            *id == self.transfer_id,
    {
        &self.transfer_id
    }

    /// Hash of the signed transaction.
    pub fn hash(&self) -> (hash: Digest)
        ensures
            hash == self.hash,
    {
        self.hash
    }

    /// Stateless check: the transaction must be signed by the receiver.
    pub fn verify(&self, signature_valid: bool) -> (valid: bool)
        ensures
            valid == signature_valid,
    {
        signature_valid
    }

    /// Executes the transaction: credits the receiver with a transfer that
    /// waits for her, and takes the transfer off the rollback schedule.
    pub fn execute(&self, schema: &mut Schema, roots: &Roots) -> (result: Result<(), Error>)
        requires
            old(schema).wf(),
            old(schema)@.height < u64::MAX,
        ensures
            final(schema).wf(),
            result == old(schema)@.record(TransactionView::Accept(*self)).accept_result(*self),
            final(schema)@ == old(schema)@.record(TransactionView::Accept(*self)).apply_accept(
                *self,
                *roots,
            ),
    {
        schema.record(&Transactions::Accept(*self));
        schema.accept_payment(self, roots)
    }
}

/// Transactions accepted by the service.
#[derive(Debug, Clone, PartialEq)]
pub enum Transactions {
    /// Creation of a wallet.
    CreateWallet(CreateWallet),
    /// Transfer between two wallets.
    Transfer(Transfer),
    /// Acceptance of a transfer.
    Accept(Accept),
}

/// What a transaction holds, for use in contracts.
pub enum TransactionView {
    /// Creation of a wallet.
    CreateWallet(CreateWallet),
    /// Transfer between two wallets.
    Transfer(TransferView),
    /// Acceptance of a transfer.
    Accept(Accept),
}

impl TransactionView {
    /// Hash of the signed transaction.
    pub open spec fn hash(self) -> Digest {
        match self {
            TransactionView::CreateWallet(tx) => tx.hash,
            TransactionView::Transfer(tx) => tx.hash,
            TransactionView::Accept(tx) => tx.hash,
        }
    }
}

impl View for Transactions {
    type V = TransactionView;

    open spec fn view(&self) -> TransactionView {
        match self {
            Transactions::CreateWallet(tx) => TransactionView::CreateWallet(*tx),
            Transactions::Transfer(tx) => TransactionView::Transfer(tx@),
            Transactions::Accept(tx) => TransactionView::Accept(*tx),
        }
    }
}

impl Transactions {
    /// Hash of the signed transaction.
    pub fn hash(&self) -> (hash: Digest)
        ensures
            hash == self@.hash(),
    {
        match self {
            Transactions::CreateWallet(tx) => tx.hash,
            Transactions::Transfer(tx) => tx.hash,
            Transactions::Accept(tx) => tx.hash,
        }
    }

    /// Copies the transaction.
    pub fn duplicate(&self) -> (copy: Transactions)
        ensures
            copy@ == self@,
    {
        match self {
            Transactions::CreateWallet(tx) => Transactions::CreateWallet(*tx),
            Transactions::Transfer(tx) => Transactions::Transfer(tx.clone()),
            Transactions::Accept(tx) => Transactions::Accept(*tx),
        }
    }
}

} // verus!
