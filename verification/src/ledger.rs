//! The ledger as a mathematical object: what it holds, how each rule of the
//! service changes it, and what holds of every ledger that the rules can
//! reach.
//!
//! The executable ledger of the `storage` module is stated against this
//! model. Roots of Merkelized tables are computed by the storage engine of the
//! host; the model keeps, for every table that has one, the root that the
//! engine reported with the latest change of the table.

use crate::crypto::keys::{zero_digest, Digest, PublicKey};
use crate::crypto::proofs::{
    pedersen_commitment, ristretto_difference, ristretto_sum, zero_bytes,
};
use crate::storage::{Event, TAG_CREATE_WALLET, TAG_ROLLBACK, TAG_TRANSFER};
use crate::transactions::{Accept, Error, TransactionView, TransferView};
use vstd::prelude::*;

verus! {

/// Roots that the storage engine reports for the two Merkelized tables that a
/// step changes: the history of the wallet that gains an event, and the
/// unaccepted transfers of the wallet that gains or loses one.
#[derive(Debug, Clone, Copy)]
pub struct Roots {
    /// Root of the history list after the step.
    pub history: Digest,
    /// Root of the table of unaccepted transfers after the step.
    pub unaccepted: Digest,
}

impl Roots {
    /// Puts two roots together.
    pub fn new(history: Digest, unaccepted: Digest) -> (roots: Roots)
        ensures
            roots.history == history,
            roots.unaccepted == unaccepted,
    {
        Roots { history, unaccepted }
    }
}

/// A list of hashes without one of them.
pub open spec fn without(list: Seq<Digest>, id: Digest) -> Seq<Digest>
    decreases list.len(),
{
    if list.len() == 0 {
        list
    } else if list.last() == id {
        without(list.drop_last(), id)
    } else {
        without(list.drop_last(), id).push(list.last())
    }
}

/// A list of hashes with one more, unless it is there already.
pub open spec fn with(list: Seq<Digest>, id: Digest) -> Seq<Digest> {
    if list.contains(id) {
        list
    } else {
        list.push(id)
    }
}

/// Commitment to the balance of a new wallet. It has no blinding factor: the
/// initial balance is public.
pub open spec fn initial_commitment() -> Seq<u8> {
    pedersen_commitment(crate::INITIAL_BALANCE, zero_bytes())
}

/// Summary of a wallet, as stored in the table of wallets.
pub struct WalletView {
    /// Key of the owner.
    pub public_key: PublicKey,
    /// Encoded commitment to the current balance.
    pub balance: Seq<u8>,
    /// Number of entries in the wallet history.
    pub history_len: u64,
    /// Index of the last outgoing transfer in the wallet history.
    pub last_send_index: u64,
    /// Root of the wallet history.
    pub history_hash: Digest,
    /// Root of the unaccepted incoming transfers.
    pub unaccepted_transfers_hash: Digest,
}

/// All that the ledger holds for one wallet.
pub struct AccountState {
    /// Summary of the wallet.
    pub wallet: WalletView,
    /// Events that changed the balance, oldest first.
    pub history: Seq<Event>,
    /// Root of the history, as last reported.
    pub history_root: Digest,
    /// Incoming transfers that wait for acceptance.
    pub unaccepted: Seq<Digest>,
    /// Root of the unaccepted transfers, as last reported.
    pub unaccepted_root: Digest,
    /// Balances since the last outgoing transfer: the first one became
    /// current at `last_send_index` of the history, the next at the index
    /// after it, and so on.
    pub past_balances: Seq<Seq<u8>>,
}

/// A transaction that a block holds, and the height of that block.
pub struct StoredTransaction {
    /// The transaction.
    pub transaction: TransactionView,
    /// Height of its block.
    pub height: u64,
}

/// The ledger.
pub struct LedgerState {
    /// Height of the latest block.
    pub height: u64,
    /// Wallets by the key of their owner.
    pub accounts: Map<PublicKey, AccountState>,
    /// Transactions of all blocks, by hash.
    pub transactions: Map<Digest, StoredTransaction>,
    /// Transfers to roll back, by the height at which they expire.
    pub rollback: Map<u64, Seq<Digest>>,
    /// Transfers that expired with the latest block, for a debugger.
    pub rolled_back: Seq<Digest>,
}

/// A step that changes the ledger.
pub enum Step {
    /// A transaction joins the block that is being put together.
    Record(TransactionView),
    /// A wallet is created for a key, by the transaction with the given hash;
    /// the root is that of the new history.
    CreateWallet(PublicKey, Digest, Digest),
    /// A transfer is executed, with the roots of the tables that it changes
    /// and the verdict on its proof for the balance.
    Transfer(TransferView, Roots, bool),
    /// A transfer is accepted, with the roots of the tables that the
    /// acceptance changes.
    Accept(Accept, Roots),
    /// The transfers that expire with the block that is being put together are rolled back, with
    /// the roots of the tables that each rollback changes.
    Rollback(Seq<Roots>),
    /// The transfers that expire with the block that is being put together are noted down for a
    /// debugger.
    NoteExpiring,
    /// The block is committed.
    NextBlock,
}

impl AccountState {
    /// The account of a wallet that was just created.
    pub open spec fn created(key: PublicKey, tx_hash: Digest, history_root: Digest) -> AccountState {
        AccountState {
            wallet: WalletView {
                public_key: key,
                balance: initial_commitment(),
                history_len: 1,
                last_send_index: 0,
                history_hash: history_root,
                unaccepted_transfers_hash: zero_digest(),
            },
            history: seq![Event { tag: TAG_CREATE_WALLET, transaction_hash: tx_hash }],
            history_root,
            unaccepted: Seq::empty(),
            unaccepted_root: zero_digest(),
            past_balances: seq![initial_commitment()],
        }
    }

    /// The account after an outgoing transfer: the amount leaves the balance,
    /// the transfer becomes the last event of the history and the last
    /// outgoing one, and of the past balances only the new one is kept.
    pub open spec fn debit(self, amount: Seq<u8>, tx_hash: Digest, history_root: Digest) -> AccountState {
        let balance = ristretto_difference(self.wallet.balance, amount);
        AccountState {
            wallet: WalletView {
                balance,
                history_len: (self.wallet.history_len + 1) as u64,
                last_send_index: self.wallet.history_len,
                history_hash: history_root,
                ..self.wallet
            },
            history: self.history.push(Event { tag: TAG_TRANSFER, transaction_hash: tx_hash }),
            history_root,
            past_balances: seq![balance],
            ..self
        }
    }

    /// The account after a credit, by an accepted transfer or by a refund:
    /// the amount joins the balance, the event joins the history, and the new
    /// balance joins the past ones.
    pub open spec fn credit(self, amount: Seq<u8>, event: Event, history_root: Digest) -> AccountState {
        let balance = ristretto_sum(self.wallet.balance, amount);
        AccountState {
            wallet: WalletView {
                balance,
                history_len: (self.wallet.history_len + 1) as u64,
                history_hash: history_root,
                ..self.wallet
            },
            history: self.history.push(event),
            history_root,
            past_balances: self.past_balances.push(balance),
            ..self
        }
    }

    /// The account after a transfer has come in that waits for acceptance.
    pub open spec fn receive(self, id: Digest, unaccepted_root: Digest) -> AccountState {
        AccountState {
            wallet: WalletView { unaccepted_transfers_hash: unaccepted_root, ..self.wallet },
            unaccepted: with(self.unaccepted, id),
            unaccepted_root,
            ..self
        }
    }

    /// The account after a waiting transfer has left, accepted or expired.
    pub open spec fn settle(self, id: Digest, unaccepted_root: Digest) -> AccountState {
        AccountState {
            wallet: WalletView { unaccepted_transfers_hash: unaccepted_root, ..self.wallet },
            unaccepted: without(self.unaccepted, id),
            unaccepted_root,
            ..self
        }
    }

    /// The balance that became current at the given index of the history, as
    /// far as it is still kept.
    pub open spec fn past_balance(self, index: u64) -> Option<Seq<u8>> {
        if self.wallet.last_send_index <= index < self.wallet.last_send_index
            + self.past_balances.len() {
            Some(self.past_balances[index - self.wallet.last_send_index])
        } else {
            None
        }
    }

    /// Whether an event stands for a transfer to the given key, going by the
    /// transactions of the ledger.
    pub open spec fn incoming(
        transactions: Map<Digest, StoredTransaction>,
        event: Event,
        key: PublicKey,
    ) -> bool {
        &&& transactions.contains_key(event.transaction_hash)
        &&& transactions[event.transaction_hash].transaction is Transfer
        &&& transactions[event.transaction_hash].transaction->Transfer_0.to == key
    }

    /// Whether the ledger holds a transfer under the given hash.
    pub open spec fn is_transfer(transactions: Map<Digest, StoredTransaction>, id: Digest) -> bool {
        transactions.contains_key(id) && transactions[id].transaction is Transfer
    }

    /// Whether the ledger holds the transaction of an event: the creation of a
    /// wallet for the first kind of event, a transfer for the other two.
    pub open spec fn resolves(transactions: Map<Digest, StoredTransaction>, event: Event) -> bool {
        &&& transactions.contains_key(event.transaction_hash)
        &&& if event.tag == TAG_CREATE_WALLET {
            transactions[event.transaction_hash].transaction is CreateWallet
        } else {
            (event.tag == TAG_TRANSFER || event.tag == TAG_ROLLBACK)
                && transactions[event.transaction_hash].transaction is Transfer
        }
    }

    /// What holds of the account of every wallet: the summary agrees with the
    /// tables, the past balances cover the history from the last outgoing
    /// transfer on and end with the current balance, no transfer after the
    /// last outgoing one is outgoing, and the ledger holds the transaction of
    /// every event and of every transfer that waits.
    pub open spec fn consistent(
        self,
        key: PublicKey,
        transactions: Map<Digest, StoredTransaction>,
    ) -> bool {
        &&& self.wallet.public_key == key
        &&& self.wallet.history_hash == self.history_root
        &&& self.wallet.history_len == self.history.len()
        &&& self.wallet.unaccepted_transfers_hash == self.unaccepted_root
        &&& self.wallet.last_send_index < self.wallet.history_len
        &&& self.past_balances.len() == self.wallet.history_len - self.wallet.last_send_index
        &&& self.past_balances.last() == self.wallet.balance
        &&& forall|i: int|
            self.wallet.last_send_index < i < self.history.len() && (#[trigger] self.history[i]).tag
                == TAG_TRANSFER ==> Self::incoming(transactions, self.history[i], key)
        &&& forall|i: int|
            0 <= i < self.history.len() ==> Self::resolves(transactions, #[trigger] self.history[i])
        &&& forall|j: int|
            0 <= j < self.unaccepted.len() ==> Self::is_transfer(
                transactions,
                #[trigger] self.unaccepted[j],
            )
    }
}

/// A list without one hash holds what the list held, but for that hash.
pub proof fn lemma_without_members(list: Seq<Digest>, id: Digest)
    ensures
        forall|x: Digest| #[trigger] without(list, id).contains(x) <==> list.contains(x) && x != id,
    decreases list.len(),
{
    if list.len() > 0 {
        let head = list.drop_last();
        let last = list.last();
        let kept = without(head, id);
        let rest = without(list, id);
        lemma_without_members(head, id);
        assert(list[list.len() - 1] == last);
        assert forall|x: Digest| #[trigger] rest.contains(x) <==> list.contains(x) && x != id by {
            assert(kept.contains(x) <==> head.contains(x) && x != id);
            if rest.contains(x) {
                let i = choose|i: int| 0 <= i < rest.len() && rest[i] == x;
                if last != id && i == kept.len() {
                    assert(x == last);
                } else {
                    assert(kept[i] == x);
                    assert(kept.contains(x));
                    let j = choose|j: int| 0 <= j < head.len() && head[j] == x;
                    assert(list[j] == x);
                }
            }
            if list.contains(x) && x != id {
                let i = choose|i: int| 0 <= i < list.len() && list[i] == x;
                if i < head.len() {
                    assert(head[i] == x);
                    assert(head.contains(x));
                    let j = choose|j: int| 0 <= j < kept.len() && kept[j] == x;
                    assert(rest[j] == x);
                } else {
                    assert(x == last);
                    assert(rest[kept.len() as int] == x);
                }
            }
        }
    }
}

/// A list with one more hash holds what the list held, and that hash.
pub proof fn lemma_with_members(list: Seq<Digest>, id: Digest)
    ensures
        forall|x: Digest| #[trigger] with(list, id).contains(x) <==> list.contains(x) || x == id,
{
    if !list.contains(id) {
        let more = list.push(id);
        assert forall|x: Digest| #[trigger] more.contains(x) <==> list.contains(x) || x == id by {
            if list.contains(x) {
                let i = choose|i: int| 0 <= i < list.len() && list[i] == x;
                assert(more[i] == x);
            }
            assert(more[list.len() as int] == id);
            if more.contains(x) {
                let i = choose|i: int| 0 <= i < more.len() && more[i] == x;
                if i < list.len() {
                    assert(list[i] == x);
                }
            }
        }
    }
}

impl LedgerState {
    /// The ledger before the first block.
    pub open spec fn empty() -> LedgerState {
        LedgerState {
            height: 0,
            accounts: Map::empty(),
            transactions: Map::empty(),
            rollback: Map::empty(),
            rolled_back: Seq::empty(),
        }
    }

    /// Summary of the wallet with the given key.
    pub open spec fn wallet(self, key: PublicKey) -> Option<WalletView> {
        if self.accounts.contains_key(key) {
            Some(self.accounts[key].wallet)
        } else {
            None
        }
    }

    /// History of the wallet with the given key.
    pub open spec fn history(self, key: PublicKey) -> Seq<Event> {
        if self.accounts.contains_key(key) {
            self.accounts[key].history
        } else {
            Seq::empty()
        }
    }

    /// Unaccepted incoming transfers of the wallet with the given key.
    pub open spec fn unaccepted(self, key: PublicKey) -> Seq<Digest> {
        if self.accounts.contains_key(key) {
            self.accounts[key].unaccepted
        } else {
            Seq::empty()
        }
    }

    /// A past balance of the wallet with the given key.
    pub open spec fn past_balance(self, key: PublicKey, index: u64) -> Option<Seq<u8>> {
        if self.accounts.contains_key(key) {
            self.accounts[key].past_balance(index)
        } else {
            None
        }
    }

    /// Transfers that expire at the given height.
    pub open spec fn pending(self, height: u64) -> Seq<Digest> {
        if self.rollback.contains_key(height) {
            self.rollback[height]
        } else {
            Seq::empty()
        }
    }

    /// The transfer with the given hash, if a block holds one.
    pub open spec fn transfer(self, id: Digest) -> Option<TransferView> {
        if self.transactions.contains_key(id) {
            match self.transactions[id].transaction {
                TransactionView::Transfer(tx) => Some(tx),
                _ => None,
            }
        } else {
            None
        }
    }

    /// The height of the block with which the stored transfer with the given
    /// hash expires: the height of its own block, one, and its delay, capped
    /// at the largest height there is.
    pub open spec fn rollback_height(self, id: Digest) -> u64 {
        let height = self.transactions[id].height + 1 + self.transfer(id)->0.rollback_delay;
        if height <= u64::MAX {
            height as u64
        } else {
            u64::MAX
        }
    }

    /// Whether a block holds the creation of a wallet under the given hash.
    pub open spec fn holds_creation(self, id: Digest) -> bool {
        self.transactions.contains_key(id) && self.transactions[id].transaction is CreateWallet
    }

    /// Whether a block holds a transfer under the given hash.
    pub open spec fn holds_transfer(self, id: Digest) -> bool {
        AccountState::is_transfer(self.transactions, id)
    }

    /// Whether the hash of a transaction is its own: no block holds another
    /// transaction under it. Hashes that the host computes are.
    pub open spec fn free_for(self, tx: TransactionView) -> bool {
        self.transactions.contains_key(tx.hash()) ==> self.transactions[tx.hash()].transaction
            == tx
    }

    /// The height of the block that is being put together: the transfers in
    /// the rollback schedule of this height expire with it.
    pub open spec fn due(self) -> u64 {
        (self.height + 1) as u64
    }

    /// The ledger with one more transaction in the block that is being put
    /// together. A hash that is taken keeps its transaction.
    pub open spec fn record(self, tx: TransactionView) -> LedgerState {
        if self.transactions.contains_key(tx.hash()) {
            self
        } else {
            LedgerState {
                transactions: self.transactions.insert(
                    tx.hash(),
                    StoredTransaction { transaction: tx, height: (self.height + 1) as u64 },
                ),
                ..self
            }
        }
    }

    /// The ledger at the next height.
    pub open spec fn next_block(self) -> LedgerState {
        LedgerState { height: (self.height + 1) as u64, ..self }
    }

    /// How the creation of a wallet ends.
    pub open spec fn create_wallet_result(self, key: PublicKey) -> Result<(), Error> {
        if self.accounts.contains_key(key) {
            Err(Error::WalletExists)
        } else {
            Ok(())
        }
    }

    /// The ledger after the creation of a wallet.
    pub open spec fn create_wallet(self, key: PublicKey, tx_hash: Digest, history_root: Digest) -> LedgerState {
        if self.accounts.contains_key(key) {
            self
        } else {
            LedgerState {
                accounts: self.accounts.insert(key, AccountState::created(key, tx_hash, history_root)),
                ..self
            }
        }
    }

    /// How a transfer ends, given the verdict on its proof for the balance.
    /// The checks are made in this order, and the first that fails decides.
    pub open spec fn transfer_result(self, tx: TransferView, balance_proof_valid: bool) -> Result<
        (),
        Error,
    > {
        if !self.accounts.contains_key(tx.from) {
            Err(Error::UnregisteredSender)
        } else if !self.accounts.contains_key(tx.to) {
            Err(Error::UnregisteredReceiver)
        } else if self.accounts[tx.from].wallet.last_send_index + 1 > tx.history_len {
            Err(Error::OutdatedHistory)
        } else if self.accounts[tx.from].past_balance((tx.history_len - 1) as u64) is None {
            Err(Error::InvalidHistoryRef)
        } else if !balance_proof_valid {
            Err(Error::IncorrectProof)
        } else {
            Ok(())
        }
    }

    /// The balance that the proof of a transfer is checked against: the one
    /// the sender had at the point of her history that the transfer names.
    pub open spec fn referenced_balance(self, tx: TransferView) -> Option<Seq<u8>> {
        if tx.history_len == 0 {
            None
        } else {
            self.past_balance(tx.from, (tx.history_len - 1) as u64)
        }
    }

    /// The height of the block with which a transfer of the block that is
    /// being put together expires: the height of that block, one, and the
    /// delay of the transfer.
    pub open spec fn expiry(self, tx: TransferView) -> u64 {
        (self.height + 2 + tx.rollback_delay) as u64
    }

    /// The ledger after the sender of a transfer was debited.
    pub open spec fn send(self, tx: TransferView, history_root: Digest) -> LedgerState {
        LedgerState {
            accounts: self.accounts.insert(
                tx.from,
                self.accounts[tx.from].debit(tx.amount, tx.hash, history_root),
            ),
            ..self
        }
    }

    /// The ledger after a transfer was set to wait for its receiver, and its
    /// rollback was scheduled.
    pub open spec fn add_unaccepted(self, tx: TransferView, unaccepted_root: Digest) -> LedgerState {
        LedgerState {
            accounts: self.accounts.insert(
                tx.to,
                self.accounts[tx.to].receive(tx.hash, unaccepted_root),
            ),
            rollback: self.rollback.insert(
                self.expiry(tx),
                with(self.pending(self.expiry(tx)), tx.hash),
            ),
            ..self
        }
    }

    /// The ledger after a transfer, given the verdict on its proof for the
    /// balance. A transfer that fails changes nothing.
    pub open spec fn apply_transfer(self, tx: TransferView, roots: Roots, balance_proof_valid: bool) -> LedgerState {
        if self.transfer_result(tx, balance_proof_valid) is Err {
            self
        } else {
            self.send(tx, roots.history).add_unaccepted(tx, roots.unaccepted)
        }
    }

    /// How the acceptance of a transfer ends. The checks are made in this
    /// order, and the first that fails decides.
    pub open spec fn accept_result(self, accept: Accept) -> Result<(), Error> {
        match self.transfer(accept.transfer_id) {
            None => Err(Error::UnknownTransfer),
            Some(tx) => {
                if tx.to != accept.receiver {
                    Err(Error::UnauthorizedAccept)
                } else if !self.unaccepted(accept.receiver).contains(accept.transfer_id) {
                    Err(Error::UnknownTransfer)
                } else {
                    Ok(())
                }
            },
        }
    }

    /// The ledger without the given transfer in the rollback schedule of the
    /// given height.
    pub open spec fn unschedule(self, height: u64, id: Digest) -> LedgerState {
        if self.rollback.contains_key(height) {
            LedgerState {
                rollback: self.rollback.insert(height, without(self.rollback[height], id)),
                ..self
            }
        } else {
            self
        }
    }

    /// The ledger after the acceptance of a transfer. An acceptance that fails
    /// changes nothing.
    pub open spec fn apply_accept(self, accept: Accept, roots: Roots) -> LedgerState {
        if self.accept_result(accept) is Err {
            self
        } else {
            let id = accept.transfer_id;
            let tx = self.transfer(id)->0;
            LedgerState {
                accounts: self.accounts.insert(
                    accept.receiver,
                    self.accounts[accept.receiver].credit(
                        tx.amount,
                        Event { tag: TAG_TRANSFER, transaction_hash: id },
                        roots.history,
                    ).settle(id, roots.unaccepted),
                ),
                ..self
            }.unschedule(self.rollback_height(id), id)
        }
    }

    /// The ledger after the sender of an expired transfer got her refund.
    pub open spec fn refund(self, tx: TransferView, id: Digest, history_root: Digest) -> LedgerState {
        LedgerState {
            accounts: self.accounts.insert(
                tx.from,
                self.accounts[tx.from].credit(
                    tx.amount,
                    Event { tag: TAG_ROLLBACK, transaction_hash: id },
                    history_root,
                ),
            ),
            ..self
        }
    }

    /// The ledger without the given transfer among those that wait for the
    /// given receiver.
    pub open spec fn dismiss(self, receiver: PublicKey, id: Digest, unaccepted_root: Digest) -> LedgerState {
        if self.accounts.contains_key(receiver) {
            LedgerState {
                accounts: self.accounts.insert(
                    receiver,
                    self.accounts[receiver].settle(id, unaccepted_root),
                ),
                ..self
            }
        } else {
            self
        }
    }

    /// Whether the ledger holds all that it takes to roll a transfer back:
    /// the transfer itself and the wallet of its sender.
    pub open spec fn can_expire(self, id: Digest) -> bool {
        self.transfer(id) is Some && self.accounts.contains_key(self.transfer(id)->0.from)
    }

    /// The ledger after one transfer has expired with the block that is being
    /// put together: the
    /// sender is refunded, and the transfer neither waits for its receiver nor
    /// for its rollback any more. A hash that the ledger cannot resolve stays
    /// where it is.
    pub open spec fn expire(self, id: Digest, roots: Roots) -> LedgerState {
        if self.can_expire(id) {
            let tx = self.transfer(id)->0;
            self.refund(tx, id, roots.history).unschedule(self.due(), id).dismiss(
                tx.to,
                id,
                roots.unaccepted,
            )
        } else {
            self
        }
    }

    /// The ledger after the given transfers have expired, one after the
    /// other, each with the roots that the storage engine reported for it.
    pub open spec fn expire_all(self, ids: Seq<Digest>, roots: Seq<Roots>) -> LedgerState
        decreases ids.len(),
    {
        if ids.len() == 0 || roots.len() == 0 {
            self
        } else {
            self.expire_all(ids.drop_last(), roots.drop_last()).expire(ids.last(), roots.last())
        }
    }

    /// The ledger after the transfers that expire with the block that is being put together have
    /// been rolled back, as far as there are roots for them.
    pub open spec fn do_rollback(self, roots: Seq<Roots>) -> LedgerState {
        let ids = self.pending(self.due());
        let count = if ids.len() < roots.len() {
            ids.len()
        } else {
            roots.len()
        };
        self.expire_all(ids.subrange(0, count as int), roots.subrange(0, count as int))
    }

    /// The ledger after the transfers that expire with the block that is being put together have
    /// been noted down for a debugger.
    pub open spec fn note_expiring(self) -> LedgerState {
        LedgerState { rolled_back: self.pending(self.due()), ..self }
    }

    /// Whether every transaction is stored under its own hash.
    pub open spec fn hashes_match(self) -> bool {
        forall|id: Digest| #[trigger]
            self.transactions.contains_key(id) ==> self.transactions[id].transaction.hash() == id
    }

    /// Whether every account is consistent.
    pub open spec fn accounts_consistent(self) -> bool {
        forall|key: PublicKey| #[trigger]
            self.accounts.contains_key(key) ==> self.accounts[key].consistent(
                key,
                self.transactions,
            )
    }

    /// What holds of every ledger that the rules can reach: every account is
    /// consistent, and every transaction is stored under its own hash.
    pub open spec fn consistent(self) -> bool {
        self.accounts_consistent() && self.hashes_match()
    }

    /// Whether the history of a wallet still has room for an event.
    pub open spec fn has_room(self, key: PublicKey) -> bool {
        self.accounts.contains_key(key) ==> self.accounts[key].history.len() < u64::MAX
    }

    /// A transfer whose proof is not even looked at fails as it would with a
    /// proof that holds, and changes nothing.
    pub proof fn lemma_transfer_fails_early(self, tx: TransferView, roots: Roots, verdict: bool)
        requires
            self.transfer_result(tx, true) is Err,
        ensures
            self.transfer_result(tx, verdict) == self.transfer_result(tx, true),
            self.apply_transfer(tx, roots, verdict) == self,
    {
    }

    /// The empty ledger is consistent.
    pub proof fn lemma_empty_consistent()
        ensures
            LedgerState::empty().consistent(),
    {
    }

    /// Recording a transaction keeps the ledger consistent.
    pub proof fn lemma_record_consistent(self, tx: TransactionView)
        requires
            self.consistent(),
        ensures
            self.record(tx).consistent(),
    {
        let after = self.record(tx);
        assert forall|key: PublicKey| #[trigger] after.accounts.contains_key(key) implies after.accounts[key].consistent(
            key,
            after.transactions,
        ) by {
            assert(self.accounts.contains_key(key));
            assert(self.accounts[key].consistent(key, self.transactions));
        }
    }

    /// The next height keeps the ledger consistent.
    pub proof fn lemma_next_block_consistent(self)
        requires
            self.consistent(),
        ensures
            self.next_block().consistent(),
    {
        let after = self.next_block();
        assert forall|key: PublicKey| #[trigger] after.accounts.contains_key(key) implies after.accounts[key].consistent(
            key,
            after.transactions,
        ) by {
            assert(self.accounts.contains_key(key));
        }
    }

    /// Noting the expiring transfers down keeps the ledger consistent.
    pub proof fn lemma_note_expiring_consistent(self)
        requires
            self.consistent(),
        ensures
            self.note_expiring().consistent(),
    {
        let after = self.note_expiring();
        assert forall|key: PublicKey| #[trigger] after.accounts.contains_key(key) implies after.accounts[key].consistent(
            key,
            after.transactions,
        ) by {
            assert(self.accounts.contains_key(key));
        }
    }

    /// A ledger that differs from a consistent one in one account, which is
    /// consistent, and holds the same transactions, is consistent.
    pub proof fn lemma_one_account_changed(self, after: LedgerState, key: PublicKey)
        requires
            self.consistent(),
            after.transactions == self.transactions,
            after.accounts.contains_key(key),
            after.accounts == self.accounts.insert(key, after.accounts[key]),
            after.accounts[key].consistent(key, self.transactions),
        ensures
            after.consistent(),
    {
        assert forall|other: PublicKey| #[trigger] after.accounts.contains_key(other) implies after.accounts[other].consistent(
            other,
            after.transactions,
        ) by {
            if other != key {
                assert(self.accounts.contains_key(other));
            }
        }
    }

    /// The creation of a wallet keeps the ledger consistent.
    pub proof fn lemma_create_wallet_consistent(self, key: PublicKey, tx_hash: Digest, history_root: Digest)
        requires
            self.consistent(),
            self.holds_creation(tx_hash),
        ensures
            self.create_wallet(key, tx_hash, history_root).consistent(),
    {
        let after = self.create_wallet(key, tx_hash, history_root);
        if !self.accounts.contains_key(key) {
            let account = AccountState::created(key, tx_hash, history_root);
            assert(account.history.len() == 1);
            assert(account.past_balances.len() == 1);
            assert(account.past_balances.last() == initial_commitment());
            assert(AccountState::resolves(self.transactions, account.history[0]));
            assert(account.consistent(key, self.transactions));
            assert(after.accounts[key] == account);
            self.lemma_one_account_changed(after, key);
        }
    }

    /// A debit keeps an account consistent.
    pub proof fn lemma_debit_consistent(
        account: AccountState,
        key: PublicKey,
        transactions: Map<Digest, StoredTransaction>,
        amount: Seq<u8>,
        tx_hash: Digest,
        history_root: Digest,
    )
        requires
            account.consistent(key, transactions),
            account.history.len() < u64::MAX,
            AccountState::is_transfer(transactions, tx_hash),
        ensures
            account.debit(amount, tx_hash, history_root).consistent(key, transactions),
    {
        let after = account.debit(amount, tx_hash, history_root);
        assert(after.past_balances.len() == 1);
        assert(after.past_balances.last() == after.wallet.balance);
        assert forall|i: int| 0 <= i < after.history.len() implies AccountState::resolves(
            transactions,
            #[trigger] after.history[i],
        ) by {
            if i < account.history.len() {
                assert(after.history[i] == account.history[i]);
            }
        }
    }

    /// A transfer that comes to wait keeps an account consistent.
    pub proof fn lemma_receive_consistent(
        account: AccountState,
        key: PublicKey,
        transactions: Map<Digest, StoredTransaction>,
        id: Digest,
        unaccepted_root: Digest,
    )
        requires
            account.consistent(key, transactions),
            AccountState::is_transfer(transactions, id),
        ensures
            account.receive(id, unaccepted_root).consistent(key, transactions),
    {
        let after = account.receive(id, unaccepted_root);
        lemma_with_members(account.unaccepted, id);
        assert forall|j: int| 0 <= j < after.unaccepted.len() implies AccountState::is_transfer(
            transactions,
            #[trigger] after.unaccepted[j],
        ) by {
            let x = after.unaccepted[j];
            assert(after.unaccepted.contains(x));
            if x != id {
                let i = choose|i: int| 0 <= i < account.unaccepted.len() && account.unaccepted[i] == x;
                assert(AccountState::is_transfer(transactions, account.unaccepted[i]));
            }
        }
    }

    /// A waiting transfer that leaves keeps an account consistent.
    pub proof fn lemma_settle_consistent(
        account: AccountState,
        key: PublicKey,
        transactions: Map<Digest, StoredTransaction>,
        id: Digest,
        unaccepted_root: Digest,
    )
        requires
            account.consistent(key, transactions),
        ensures
            account.settle(id, unaccepted_root).consistent(key, transactions),
    {
        let after = account.settle(id, unaccepted_root);
        lemma_without_members(account.unaccepted, id);
        assert forall|j: int| 0 <= j < after.unaccepted.len() implies AccountState::is_transfer(
            transactions,
            #[trigger] after.unaccepted[j],
        ) by {
            let x = after.unaccepted[j];
            assert(after.unaccepted.contains(x));
            let i = choose|i: int| 0 <= i < account.unaccepted.len() && account.unaccepted[i] == x;
            assert(AccountState::is_transfer(transactions, account.unaccepted[i]));
        }
    }

    /// A credit keeps an account consistent, if the event is a refund or a
    /// transfer to the owner of the account.
    pub proof fn lemma_credit_consistent(
        account: AccountState,
        key: PublicKey,
        transactions: Map<Digest, StoredTransaction>,
        amount: Seq<u8>,
        event: Event,
        history_root: Digest,
    )
        requires
            account.consistent(key, transactions),
            account.history.len() < u64::MAX,
            event.tag == TAG_TRANSFER ==> AccountState::incoming(transactions, event, key),
            AccountState::resolves(transactions, event),
        ensures
            account.credit(amount, event, history_root).consistent(key, transactions),
    {
        let after = account.credit(amount, event, history_root);
        assert(after.past_balances.last() == after.wallet.balance);
        assert forall|i: int| 0 <= i < after.history.len() implies AccountState::resolves(
            transactions,
            #[trigger] after.history[i],
        ) by {
            if i < account.history.len() {
                assert(after.history[i] == account.history[i]);
            }
        }
        assert forall|i: int|
            after.wallet.last_send_index < i < after.history.len() && (
            #[trigger] after.history[i]).tag == TAG_TRANSFER implies AccountState::incoming(
            transactions,
            after.history[i],
            key,
        ) by {
            if i < account.history.len() {
                assert(after.history[i] == account.history[i]);
            }
        }
    }

    /// A transfer keeps the ledger consistent.
    pub proof fn lemma_transfer_consistent(self, tx: TransferView, roots: Roots, verdict: bool)
        requires
            self.consistent(),
            self.has_room(tx.from),
            self.holds_transfer(tx.hash),
        ensures
            self.apply_transfer(tx, roots, verdict).consistent(),
    {
        if self.transfer_result(tx, verdict) is Ok {
            let sent = self.send(tx, roots.history);
            assert(self.accounts.contains_key(tx.from));
            Self::lemma_debit_consistent(
                self.accounts[tx.from],
                tx.from,
                self.transactions,
                tx.amount,
                tx.hash,
                roots.history,
            );
            self.lemma_one_account_changed(sent, tx.from);
            let after = sent.add_unaccepted(tx, roots.unaccepted);
            assert(sent.accounts.contains_key(tx.to));
            assert(sent.accounts[tx.to].consistent(tx.to, sent.transactions));
            Self::lemma_receive_consistent(
                sent.accounts[tx.to],
                tx.to,
                sent.transactions,
                tx.hash,
                roots.unaccepted,
            );
            let received = LedgerState { accounts: after.accounts, ..sent };
            sent.lemma_one_account_changed(received, tx.to);
            assert forall|key: PublicKey| #[trigger] after.accounts.contains_key(key) implies after.accounts[key].consistent(
                key,
                after.transactions,
            ) by {
                assert(received.accounts.contains_key(key));
            }
        }
    }

    /// Taking a transfer off the schedule keeps the ledger consistent.
    pub proof fn lemma_unschedule_consistent(self, height: u64, id: Digest)
        requires
            self.consistent(),
        ensures
            self.unschedule(height, id).consistent(),
    {
        let after = self.unschedule(height, id);
        assert forall|key: PublicKey| #[trigger] after.accounts.contains_key(key) implies after.accounts[key].consistent(
            key,
            after.transactions,
        ) by {
            assert(self.accounts.contains_key(key));
        }
    }

    /// An acceptance keeps the ledger consistent.
    pub proof fn lemma_accept_consistent(self, accept: Accept, roots: Roots)
        requires
            self.consistent(),
            self.has_room(accept.receiver),
        ensures
            self.apply_accept(accept, roots).consistent(),
    {
        if self.accept_result(accept) is Ok {
            let id = accept.transfer_id;
            let tx = self.transfer(id)->0;
            let key = accept.receiver;
            let event = Event { tag: TAG_TRANSFER, transaction_hash: id };
            assert(self.accounts.contains_key(key));
            assert(AccountState::incoming(self.transactions, event, key));
            Self::lemma_credit_consistent(
                self.accounts[key],
                key,
                self.transactions,
                tx.amount,
                event,
                roots.history,
            );
            Self::lemma_settle_consistent(
                self.accounts[key].credit(tx.amount, event, roots.history),
                key,
                self.transactions,
                id,
                roots.unaccepted,
            );
            let account = self.accounts[key].credit(tx.amount, event, roots.history).settle(
                id,
                roots.unaccepted,
            );
            let credited = LedgerState { accounts: self.accounts.insert(key, account), ..self };
            self.lemma_one_account_changed(credited, key);
            credited.lemma_unschedule_consistent(self.rollback_height(id), id);
        }
    }

    /// The expiry of a transfer keeps the ledger consistent.
    pub proof fn lemma_expire_consistent(self, id: Digest, roots: Roots)
        requires
            self.consistent(),
            self.can_expire(id) ==> self.has_room(self.transfer(id)->0.from),
        ensures
            self.expire(id, roots).consistent(),
    {
        if self.can_expire(id) {
            let tx = self.transfer(id)->0;
            let event = Event { tag: TAG_ROLLBACK, transaction_hash: id };
            Self::lemma_credit_consistent(
                self.accounts[tx.from],
                tx.from,
                self.transactions,
                tx.amount,
                event,
                roots.history,
            );
            let refunded = self.refund(tx, id, roots.history);
            self.lemma_one_account_changed(refunded, tx.from);
            refunded.lemma_unschedule_consistent(self.due(), id);
            let unscheduled = refunded.unschedule(self.due(), id);
            let after = unscheduled.dismiss(tx.to, id, roots.unaccepted);
            if unscheduled.accounts.contains_key(tx.to) {
                assert(unscheduled.accounts[tx.to].consistent(tx.to, unscheduled.transactions));
                Self::lemma_settle_consistent(
                    unscheduled.accounts[tx.to],
                    tx.to,
                    unscheduled.transactions,
                    id,
                    roots.unaccepted,
                );
                unscheduled.lemma_one_account_changed(after, tx.to);
            }
        }
    }

    /// Whether every history has room for the given number of events, and
    /// one more.
    pub open spec fn room_for(self, events: nat) -> bool {
        forall|key: PublicKey| #[trigger]
            self.accounts.contains_key(key) ==> self.accounts[key].history.len() + events
                < u64::MAX
    }

    /// The expiry of a transfer takes up the room of one event at most.
    pub proof fn lemma_expire_room(self, id: Digest, roots: Roots, events: nat)
        requires
            self.room_for(events + 1),
        ensures
            self.expire(id, roots).room_for(events),
    {
        let after = self.expire(id, roots);
        if self.can_expire(id) {
            let tx = self.transfer(id)->0;
            let refunded = self.refund(tx, id, roots.history);
            let unscheduled = refunded.unschedule(self.due(), id);
            assert forall|key: PublicKey| #[trigger] after.accounts.contains_key(key) implies after.accounts[key].history.len()
                + events < u64::MAX by {
                assert(self.accounts.contains_key(key));
                assert(unscheduled.accounts == refunded.accounts);
                assert(refunded.accounts[key].history.len() <= self.accounts[key].history.len() + 1);
                assert(after.accounts[key].history == refunded.accounts[key].history);
            }
        }
    }

    /// The expiry of transfers, one after the other, keeps the ledger
    /// consistent, as long as every history has room for that many events.
    pub proof fn lemma_expire_all_consistent(self, ids: Seq<Digest>, roots: Seq<Roots>, spare: nat)
        requires
            self.consistent(),
            self.room_for(ids.len() + spare),
        ensures
            self.expire_all(ids, roots).consistent(),
            self.expire_all(ids, roots).room_for(spare),
        decreases ids.len(),
    {
        if ids.len() != 0 && roots.len() != 0 {
            self.lemma_expire_all_consistent(ids.drop_last(), roots.drop_last(), spare + 1);
            let before = self.expire_all(ids.drop_last(), roots.drop_last());
            if before.can_expire(ids.last()) {
                assert(before.accounts.contains_key(before.transfer(ids.last())->0.from));
            }
            before.lemma_expire_consistent(ids.last(), roots.last());
            before.lemma_expire_room(ids.last(), roots.last(), spare);
        }
    }

    /// Whether the ledger holds all that it takes to roll each transfer of a
    /// list back.
    pub open spec fn all_can_expire(self, ids: Seq<Digest>) -> bool {
        forall|i: int| 0 <= i < ids.len() ==> self.can_expire(#[trigger] ids[i])
    }

    /// The expiry of a transfer that the ledger can roll back takes it off the
    /// schedule of the block that is being put together, and leaves the height,
    /// the transactions and the set of wallets as they are.
    pub proof fn lemma_expire_unschedules(self, id: Digest, roots: Roots)
        requires
            self.can_expire(id),
        ensures
            self.expire(id, roots).height == self.height,
            self.expire(id, roots).transactions == self.transactions,
            forall|key: PublicKey|
                self.expire(id, roots).accounts.contains_key(key) <==> self.accounts.contains_key(
                    key,
                ),
            forall|x: Digest| #[trigger]
                self.expire(id, roots).pending(self.due()).contains(x) <==> self.pending(
                    self.due(),
                ).contains(x) && x != id,
    {
        let tx = self.transfer(id)->0;
        let refunded = self.refund(tx, id, roots.history);
        let unscheduled = refunded.unschedule(self.due(), id);
        let after = unscheduled.dismiss(tx.to, id, roots.unaccepted);
        assert(after.rollback == unscheduled.rollback);
        assert(refunded.rollback == self.rollback);
        lemma_without_members(self.pending(self.due()), id);
        assert forall|x: Digest| #[trigger]
            after.pending(self.due()).contains(x) <==> self.pending(self.due()).contains(x) && x
                != id by {
            if !self.rollback.contains_key(self.due()) {
                assert(self.pending(self.due()) =~= Seq::<Digest>::empty());
                assert(after.pending(self.due()) =~= Seq::<Digest>::empty());
            }
        }
        assert forall|key: PublicKey|
            after.accounts.contains_key(key) <==> self.accounts.contains_key(key) by {
            assert(self.accounts.contains_key(tx.from));
        }
    }

    /// The expiry of transfers that the ledger can roll back, one after the
    /// other, leaves on the schedule of the block that is being put together
    /// only what was there and is not among them.
    pub proof fn lemma_expire_all_unschedules(self, ids: Seq<Digest>, roots: Seq<Roots>)
        requires
            ids.len() == roots.len(),
            self.all_can_expire(ids),
        ensures
            self.expire_all(ids, roots).height == self.height,
            self.expire_all(ids, roots).transactions == self.transactions,
            forall|key: PublicKey|
                self.expire_all(ids, roots).accounts.contains_key(key)
                    <==> self.accounts.contains_key(key),
            forall|x: Digest| #[trigger]
                self.expire_all(ids, roots).pending(self.due()).contains(x) ==> self.pending(
                    self.due(),
                ).contains(x) && !ids.contains(x),
        decreases ids.len(),
    {
        if ids.len() != 0 {
            let head = ids.drop_last();
            assert forall|i: int| 0 <= i < head.len() implies self.can_expire(#[trigger] head[i]) by {
                assert(head[i] == ids[i]);
            }
            self.lemma_expire_all_unschedules(head, roots.drop_last());
            let before = self.expire_all(head, roots.drop_last());
            let last = ids.last();
            assert(ids[ids.len() - 1] == last);
            assert(self.can_expire(last));
            assert(before.can_expire(last));
            before.lemma_expire_unschedules(last, roots.last());
            let after = self.expire_all(ids, roots);
            assert(after == before.expire(last, roots.last()));
            assert forall|x: Digest| #[trigger]
                after.pending(self.due()).contains(x) implies self.pending(self.due()).contains(x)
                && !ids.contains(x) by {
                assert(before.pending(before.due()).contains(x) && x != last);
                if ids.contains(x) {
                    let i = choose|i: int| 0 <= i < ids.len() && ids[i] == x;
                    assert(head[i] == x);
                    assert(head.contains(x));
                }
            }
        }
    }

    /// Once the transfers that expire with the block that is being put
    /// together have been rolled back, none is left on the schedule of that
    /// block, provided that there is a pair of roots for each of them and that
    /// the ledger holds each of them and the wallet of its sender.
    pub proof fn lemma_do_rollback_clears(self, roots: Seq<Roots>)
        requires
            roots.len() >= self.pending(self.due()).len(),
            self.all_can_expire(self.pending(self.due())),
        ensures
            self.do_rollback(roots).pending(self.due()).len() == 0,
            self.do_rollback(roots).height == self.height,
    {
        let ids = self.pending(self.due());
        let count = ids.len() as int;
        assert(ids.subrange(0, count) =~= ids);
        self.lemma_expire_all_unschedules(ids, roots.subrange(0, count));
        let left = self.do_rollback(roots).pending(self.due());
        if left.len() > 0 {
            assert(left.contains(left[0]));
        }
    }

    /// Rolling back the transfers that expire with the block that is being put together keeps the
    /// ledger consistent, as long as every history has room for that many
    /// events.
    pub proof fn lemma_do_rollback_consistent(self, roots: Seq<Roots>)
        requires
            self.consistent(),
            self.room_for(self.pending(self.due()).len()),
        ensures
            self.do_rollback(roots).consistent(),
    {
        let ids = self.pending(self.due());
        let count = if ids.len() < roots.len() {
            ids.len()
        } else {
            roots.len()
        };
        self.lemma_expire_all_consistent(
            ids.subrange(0, count as int),
            roots.subrange(0, count as int),
            (ids.len() - count) as nat,
        );
    }

    /// On every wallet of a consistent ledger, the summary agrees with the
    /// history: it holds the root and the length of the list.
    pub proof fn lemma_history_matches(self, key: PublicKey)
        requires
            self.consistent(),
            self.accounts.contains_key(key),
        ensures
            self.wallet(key)->0.history_hash == self.accounts[key].history_root,
            self.wallet(key)->0.history_len == self.history(key).len(),
    {
    }

    /// On every wallet of a consistent ledger, the summary holds the root of
    /// the unaccepted transfers.
    pub proof fn lemma_unaccepted_matches(self, key: PublicKey)
        requires
            self.consistent(),
            self.accounts.contains_key(key),
        ensures
            self.wallet(key)->0.unaccepted_transfers_hash == self.accounts[key].unaccepted_root,
    {
    }

    /// On every wallet of a consistent ledger, a past balance is kept for
    /// every index of the history from the last outgoing transfer on and for
    /// no other, and the one at the last index is the current balance.
    pub proof fn lemma_past_balances_window(self, key: PublicKey)
        requires
            self.consistent(),
            self.accounts.contains_key(key),
        ensures
            forall|i: u64|
                (self.wallet(key)->0.last_send_index <= i < self.wallet(key)->0.history_len) <==> (
                #[trigger] self.past_balance(key, i)) is Some,
            self.wallet(key)->0.history_len > 0,
            self.past_balance(key, (self.wallet(key)->0.history_len - 1) as u64) == Some(
                self.wallet(key)->0.balance,
            ),
    {
    }

    /// The ledger after a step.
    pub open spec fn step(self, step: Step) -> LedgerState {
        match step {
            Step::Record(tx) => self.record(tx),
            Step::CreateWallet(key, tx_hash, history_root) => self.create_wallet(
                key,
                tx_hash,
                history_root,
            ),
            Step::Transfer(tx, roots, verdict) => self.apply_transfer(tx, roots, verdict),
            Step::Accept(accept, roots) => self.apply_accept(accept, roots),
            Step::Rollback(roots) => self.do_rollback(roots),
            Step::NoteExpiring => self.note_expiring(),
            Step::NextBlock => self.next_block(),
        }
    }

    /// Whether the histories that a step extends have room for it, and the
    /// ledger holds the transaction that the step executes.
    pub open spec fn fits(self, step: Step) -> bool {
        match step {
            Step::CreateWallet(_, tx_hash, _) => self.holds_creation(tx_hash),
            Step::Transfer(tx, _, _) => self.has_room(tx.from) && self.holds_transfer(tx.hash),
            Step::Accept(accept, _) => self.has_room(accept.receiver),
            Step::Rollback(_) => self.room_for(self.pending(self.due()).len()),
            _ => true,
        }
    }

    /// The ledger that a list of steps leads to from the empty ledger.
    pub open spec fn after(steps: Seq<Step>) -> LedgerState
        decreases steps.len(),
    {
        if steps.len() == 0 {
            LedgerState::empty()
        } else {
            Self::after(steps.drop_last()).step(steps.last())
        }
    }

    /// Whether every step of a list fits the ledger that the steps before it
    /// lead to.
    pub open spec fn all_fit(steps: Seq<Step>) -> bool
        decreases steps.len(),
    {
        steps.len() == 0 || (Self::all_fit(steps.drop_last()) && Self::after(
            steps.drop_last(),
        ).fits(steps.last()))
    }

    /// A step that fits keeps the ledger consistent.
    pub proof fn lemma_step_consistent(self, step: Step)
        requires
            self.consistent(),
            self.fits(step),
        ensures
            self.step(step).consistent(),
    {
        match step {
            Step::Record(tx) => self.lemma_record_consistent(tx),
            Step::CreateWallet(key, tx_hash, history_root) => self.lemma_create_wallet_consistent(
                key,
                tx_hash,
                history_root,
            ),
            Step::Transfer(tx, roots, verdict) => self.lemma_transfer_consistent(tx, roots, verdict),
            Step::Accept(accept, roots) => self.lemma_accept_consistent(accept, roots),
            Step::Rollback(roots) => self.lemma_do_rollback_consistent(roots),
            Step::NoteExpiring => self.lemma_note_expiring_consistent(),
            Step::NextBlock => self.lemma_next_block_consistent(),
        }
    }

    /// Every ledger that the rules of the service reach from the empty ledger
    /// is consistent, as long as no history outgrows `u64`.
    pub proof fn lemma_reachable_consistent(steps: Seq<Step>)
        requires
            Self::all_fit(steps),
        ensures
            Self::after(steps).consistent(),
        decreases steps.len(),
    {
        if steps.len() == 0 {
            Self::lemma_empty_consistent();
        } else {
            Self::lemma_reachable_consistent(steps.drop_last());
            Self::after(steps.drop_last()).lemma_step_consistent(steps.last());
        }
    }

    /// On a consistent ledger, a transfer between two registered wallets whose
    /// proof holds succeeds if and only if the point of the sender's history
    /// that it refers to is the last outgoing transfer or a later one: that
    /// is, if the history length that the sender claims lies above
    /// `last_send_index` and does not exceed the real length.
    pub proof fn lemma_transfer_window(self, tx: TransferView)
        requires
            self.consistent(),
            self.accounts.contains_key(tx.from),
            self.accounts.contains_key(tx.to),
        ensures
            self.transfer_result(tx, true) is Ok <==> self.wallet(tx.from)->0.last_send_index
                < tx.history_len <= self.wallet(tx.from)->0.history_len,
            tx.history_len <= self.wallet(tx.from)->0.last_send_index ==> self.transfer_result(
                tx,
                true,
            ) == Err::<(), Error>(Error::OutdatedHistory),
            tx.history_len > self.wallet(tx.from)->0.history_len ==> self.transfer_result(tx, true)
                == Err::<(), Error>(Error::InvalidHistoryRef),
    {
        assert(self.accounts[tx.from].consistent(tx.from, self.transactions));
    }

    /// On every wallet of a consistent ledger, a transfer that stands in the
    /// history after the last outgoing transfer is an incoming one.
    pub proof fn lemma_no_send_after_last(self, key: PublicKey, i: int)
        requires
            self.consistent(),
            self.accounts.contains_key(key),
            self.wallet(key)->0.last_send_index < i < self.history(key).len(),
            self.history(key)[i].tag == TAG_TRANSFER,
        ensures
            self.transfer(self.history(key)[i].transaction_hash) is Some,
            self.transfer(self.history(key)[i].transaction_hash)->0.to == key,
    {
        assert(AccountState::incoming(self.transactions, self.accounts[key].history[i], key));
    }
}

} // verus!
