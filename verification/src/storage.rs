//! The ledger of the service: the records it stores and the schema that
//! changes them.

use crate::collections::{keyed, VecMap};
use crate::crypto::keys::{zero_digest, Digest, PublicKey};
use crate::crypto::proofs::{ristretto_difference, ristretto_sum, Commitment};
use crate::ledger::{
    with, without, AccountState, LedgerState, Roots,
    StoredTransaction, WalletView,
};
use crate::transactions::{Accept, CreateWallet, Error, Transactions, TransactionView, Transfer};
use vstd::prelude::*;

verus! {

/// Tag of the event that a wallet was created.
pub const TAG_CREATE_WALLET: u8 = 0;

/// Tag of the event of a transfer to or from the wallet.
pub const TAG_TRANSFER: u8 = 1;

/// Tag of the event that a transfer was rolled back.
pub const TAG_ROLLBACK: u8 = 2;

/// Tag used in `Event`s.
#[derive(Debug, Clone, Copy, PartialEq, Eq, Structural)]
pub enum EventTag {
    /// Wallet initialization.
    CreateWallet,
    /// Transfer to or from the wallet.
    Transfer,
    /// Transfer rollback.
    Rollback,
}

impl EventTag {
    /// The byte that stands for the tag in a stored event.
    pub open spec fn spec_code(self) -> u8 {
        match self {
            EventTag::CreateWallet => TAG_CREATE_WALLET,
            EventTag::Transfer => TAG_TRANSFER,
            EventTag::Rollback => TAG_ROLLBACK,
        }
    }

    /// The byte that stands for the tag in a stored event.
    #[verifier::when_used_as_spec(spec_code)]
    pub fn code(self) -> (code: u8)
        ensures
            code == self.spec_code(),
    {
        match self {
            EventTag::CreateWallet => TAG_CREATE_WALLET,
            EventTag::Transfer => TAG_TRANSFER,
            EventTag::Rollback => TAG_ROLLBACK,
        }
    }

    /// The tag that a byte stands for, if it stands for one.
    pub fn from_code(code: u8) -> (tag: Option<EventTag>)
        ensures
            tag is Some <==> code <= TAG_ROLLBACK,
            tag is Some ==> tag->0.spec_code() == code,
    {
        if code == TAG_CREATE_WALLET {
            Some(EventTag::CreateWallet)
        } else if code == TAG_TRANSFER {
            Some(EventTag::Transfer)
        } else if code == TAG_ROLLBACK {
            Some(EventTag::Rollback)
        } else {
            None
        }
    }
}

/// Storage representation of an event concerning a wallet.
#[derive(Debug, Clone, Copy, PartialEq, Eq, Hash)]
pub struct Event {
    /// Event tag.
    pub tag: u8,
    /// Hash of a transaction associated with the event.
    pub transaction_hash: Digest,
}

impl Event {
    /// Creates an event from its tag and the hash of its transaction.
    pub fn new(tag: u8, transaction_hash: &Digest) -> (event: Event)
        ensures
            event == (Event { tag, transaction_hash: *transaction_hash }),
    {
        Event { tag, transaction_hash: *transaction_hash }
    }

    /// Event tag.
    pub fn tag(&self) -> (tag: u8)
        ensures
            tag == self.tag,
    {
        self.tag
    }

    /// Hash of a transaction associated with the event.
    pub fn transaction_hash(&self) -> (hash: &Digest)
        ensures
            *hash == self.transaction_hash,
    {
        &self.transaction_hash
    }

    /// Creates a new transfer event.
    pub fn transfer(id: &Digest) -> (event: Event)
        ensures
            event == (Event { tag: TAG_TRANSFER, transaction_hash: *id }),
    {
        Event::new(EventTag::Transfer.code(), id)
    }

    /// Creates a new wallet initialization event.
    pub fn create_wallet(id: &Digest) -> (event: Event)
        ensures
            event == (Event { tag: TAG_CREATE_WALLET, transaction_hash: *id }),
    {
        Event::new(EventTag::CreateWallet.code(), id)
    }

    /// Creates a new transfer rollback event.
    pub fn rollback(id: &Digest) -> (event: Event)
        ensures
            event == (Event { tag: TAG_ROLLBACK, transaction_hash: *id }),
    {
        Event::new(EventTag::Rollback.code(), id)
    }
}

/// Gist of information about the wallet, stripped of auxiliary data.
#[derive(Debug, Clone, Copy, PartialEq, Eq)]
pub struct WalletInfo {
    /// Ed25519 public key associated with the wallet. Transactions originating
    /// from the wallet need to be digitally signed with the paired secret key.
    pub public_key: PublicKey,
    /// Commitment to the current wallet balance.
    pub balance: Commitment,
}

/// Wallet summary.
#[derive(Debug, Clone, Copy, PartialEq, Eq)]
pub struct Wallet {
    /// Ed25519 public key associated with the wallet. Transactions originating
    /// from the wallet need to be digitally signed with the paired secret key.
    pub public_key: PublicKey,
    /// Commitment to the current wallet balance.
    pub balance: Commitment,
    /// Number of entries in the wallet history.
    pub history_len: u64,
    /// Index of the last outgoing transfer in the wallet history.
    pub last_send_index: u64,
    /// Merkle root of the wallet history list.
    pub history_hash: Digest,
    /// Merkle root of the unaccepted incoming transfers.
    pub unaccepted_transfers_hash: Digest,
}

impl View for Wallet {
    type V = WalletView;

    open spec fn view(&self) -> WalletView {
        WalletView {
            public_key: self.public_key,
            balance: self.balance@,
            history_len: self.history_len,
            last_send_index: self.last_send_index,
            history_hash: self.history_hash,
            unaccepted_transfers_hash: self.unaccepted_transfers_hash,
        }
    }
}

impl Wallet {
    /// Puts a wallet summary together from its fields.
    pub fn new(
        public_key: &PublicKey,
        balance: Commitment,
        history_len: u64,
        last_send_index: u64,
        history_hash: &Digest,
        unaccepted_transfers_hash: &Digest,
    ) -> (wallet: Wallet)
        ensures
            wallet == (Wallet {
                public_key: *public_key,
                balance,
                history_len,
                last_send_index,
                history_hash: *history_hash,
                unaccepted_transfers_hash: *unaccepted_transfers_hash,
            }),
    {
        Wallet {
            public_key: *public_key,
            balance,
            history_len,
            last_send_index,
            history_hash: *history_hash,
            unaccepted_transfers_hash: *unaccepted_transfers_hash,
        }
    }

    /// Ed25519 public key associated with the wallet.
    pub fn public_key(&self) -> (key: &PublicKey)
        ensures
            *key == self.public_key,
    {
        &self.public_key
    }

    /// Commitment to the current wallet balance.
    pub fn balance(&self) -> (balance: Commitment)
        ensures
            balance == self.balance,
    {
        self.balance
    }

    /// Number of entries in the wallet history.
    pub fn history_len(&self) -> (len: u64)
        ensures
            len == self.history_len,
    {
        self.history_len
    }

    /// Index of the last outgoing transfer in the wallet history.
    pub fn last_send_index(&self) -> (index: u64)
        ensures
            index == self.last_send_index,
    {
        self.last_send_index
    }

    /// Merkle root of the wallet history list.
    pub fn history_hash(&self) -> (hash: &Digest)
        ensures
            *hash == self.history_hash,
    {
        &self.history_hash
    }

    /// Merkle root of the unaccepted incoming transfers.
    pub fn unaccepted_transfers_hash(&self) -> (hash: &Digest)
        ensures
            *hash == self.unaccepted_transfers_hash,
    {
        &self.unaccepted_transfers_hash
    }

    /// The summary of a wallet that was just created: it commits to the
    /// initial balance with no blinding, and its history holds one event.
    pub fn initialize(key: &PublicKey, history_hash: &Digest) -> (wallet: Wallet)
        ensures
            wallet@ == AccountState::created(*key, zero_digest(), *history_hash).wallet,
    {
        let zero = Digest::zero();
        Wallet::new(key, Commitment::with_no_blinding(crate::INITIAL_BALANCE), 1, 0, history_hash, &zero)
    }

    /// Retrieves the wallet summary.
    pub fn info(&self) -> (info: WalletInfo)
        ensures
            info.public_key == self.public_key,
            info.balance == self.balance,
    {
        WalletInfo { public_key: self.public_key, balance: self.balance }
    }

    /// The summary after an outgoing transfer of the given amount, which
    /// became the last event of the history.
    pub fn subtract_balance(&self, difference: &Commitment, history_hash: &Digest) -> (wallet:
        Wallet)
        requires
            self.history_len < u64::MAX,
        ensures
            wallet@ == (WalletView {
                balance: ristretto_difference(self.balance@, difference@),
                history_len: (self.history_len + 1) as u64,
                last_send_index: self.history_len,
                history_hash: *history_hash,
                ..self@
            }),
    {
        Wallet::new(
            &self.public_key,
            self.balance.sub(difference),
            self.history_len + 1,
            self.history_len,
            history_hash,
            &self.unaccepted_transfers_hash,
        )
    }

    /// The summary after a credit of the given amount, by an incoming
    /// transfer or a refund, which became the last event of the history.
    pub fn add_balance(&self, difference: &Commitment, history_hash: &Digest) -> (wallet: Wallet)
        requires
            self.history_len < u64::MAX,
        ensures
            wallet@ == (WalletView {
                balance: ristretto_sum(self.balance@, difference@),
                history_len: (self.history_len + 1) as u64,
                history_hash: *history_hash,
                ..self@
            }),
    {
        Wallet::new(
            &self.public_key,
            self.balance.add(difference),
            self.history_len + 1,
            self.last_send_index,
            history_hash,
            &self.unaccepted_transfers_hash,
        )
    }

    /// The summary with another root of the unaccepted transfers.
    pub fn set_unaccepted_transfers_hash(&self, hash: &Digest) -> (wallet: Wallet)
        ensures
            wallet == (Wallet { unaccepted_transfers_hash: *hash, ..*self }),
    {
        Wallet::new(
            &self.public_key,
            self.balance,
            self.history_len,
            self.last_send_index,
            &self.history_hash,
            hash,
        )
    }
}

/// Tells whether a list of hashes holds the given one.
pub fn contains_digest(list: &Vec<Digest>, id: &Digest) -> (found: bool)
    ensures
        found == list@.contains(*id),
{
    let mut i: usize = 0;
    while i < list.len()
        invariant
            i <= list@.len(),
            forall|j: int| 0 <= j < i ==> list@[j] != *id,
        decreases list@.len() - i,
    {
        if list[i] == *id {
            return true;
        }
        i += 1;
    }
    false
}

/// Copies a list of hashes.
pub fn copy_digests(list: &Vec<Digest>) -> (copy: Vec<Digest>)
    ensures
        copy@ == list@,
{
    let mut copy: Vec<Digest> = Vec::new();
    let mut i: usize = 0;
    while i < list.len()
        invariant
            i <= list@.len(),
            copy@ == list@.subrange(0, i as int),
        decreases list@.len() - i,
    {
        copy.push(list[i]);
        assert(copy@ =~= list@.subrange(0, i + 1));
        i += 1;
    }
    assert(copy@ =~= list@);
    copy
}

/// Copies a list of events.
pub fn copy_events(list: &Vec<Event>) -> (copy: Vec<Event>)
    ensures
        copy@ == list@,
{
    let mut copy: Vec<Event> = Vec::new();
    let mut i: usize = 0;
    while i < list.len()
        invariant
            i <= list@.len(),
            copy@ == list@.subrange(0, i as int),
        decreases list@.len() - i,
    {
        copy.push(list[i]);
        assert(copy@ =~= list@.subrange(0, i + 1));
        i += 1;
    }
    assert(copy@ =~= list@);
    copy
}

/// Adds a hash to a list, unless the list holds it.
fn insert_digest(list: &mut Vec<Digest>, id: &Digest)
    ensures
        final(list)@ == with(old(list)@, *id),
{
    if !contains_digest(list, id) {
        list.push(*id);
    }
}

/// Takes a hash out of a list.
fn remove_digest(list: &mut Vec<Digest>, id: &Digest)
    ensures
        final(list)@ == without(old(list)@, *id),
{
    let mut kept: Vec<Digest> = Vec::new();
    let mut i: usize = 0;
    while i < list.len()
        invariant
            i <= list@.len(),
            kept@ == without(list@.subrange(0, i as int), *id),
        decreases list@.len() - i,
    {
        assert(list@.subrange(0, i + 1).drop_last() =~= list@.subrange(0, i as int));
        if !(list[i] == *id) {
            kept.push(list[i]);
        }
        i += 1;
    }
    assert(list@.subrange(0, list@.len() as int) =~= list@);
    *list = kept;
}

/// All that the ledger holds for one wallet, as the host stores it.
#[derive(Debug, PartialEq)]
pub struct Account {
    /// Summary of the wallet.
    pub wallet: Wallet,
    /// Events that changed the balance, oldest first.
    pub history: Vec<Event>,
    /// Root of the history, as the storage engine last reported it.
    pub history_root: Digest,
    /// Hashes of the incoming transfers that wait for acceptance.
    pub unaccepted: Vec<Digest>,
    /// Root of the unaccepted transfers, as the storage engine last reported
    /// it.
    pub unaccepted_root: Digest,
    /// Balances since the last outgoing transfer, oldest first.
    pub past_balances: Vec<Commitment>,
}

impl Clone for Account {
    fn clone(&self) -> (copy: Account)
        ensures
            copy@ == self@,
    {
        let mut past_balances: Vec<Commitment> = Vec::new();
        let mut i: usize = 0;
        while i < self.past_balances.len()
            invariant
                i <= self.past_balances@.len(),
                past_balances@ == self.past_balances@.subrange(0, i as int),
            decreases self.past_balances@.len() - i,
        {
            past_balances.push(self.past_balances[i]);
            assert(past_balances@ =~= self.past_balances@.subrange(0, i + 1));
            i += 1;
        }
        assert(past_balances@ =~= self.past_balances@);
        let copy = Account {
            wallet: self.wallet,
            history: copy_events(&self.history),
            history_root: self.history_root,
            unaccepted: copy_digests(&self.unaccepted),
            unaccepted_root: self.unaccepted_root,
            past_balances,
        };
        assert(copy@.past_balances =~= self@.past_balances);
        copy
    }
}

impl View for Account {
    type V = AccountState;

    open spec fn view(&self) -> AccountState {
        AccountState {
            wallet: self.wallet@,
            history: self.history@,
            history_root: self.history_root,
            unaccepted: self.unaccepted@,
            unaccepted_root: self.unaccepted_root,
            past_balances: Seq::new(self.past_balances@.len(), |i: int| self.past_balances@[i]@),
        }
    }
}

/// A transaction that a block holds, and the height of that block, as the
/// host stores them.
#[derive(Debug, PartialEq)]
pub struct Stored {
    /// The transaction.
    pub transaction: Transactions,
    /// Height of its block.
    pub height: u64,
}

/// The transfers that expire at one height, as the host stores them.
#[derive(Debug, PartialEq)]
pub struct RollbackBucket {
    /// The height.
    pub height: u64,
    /// Hashes of the transfers.
    pub transfers: Vec<Digest>,
}

impl View for Stored {
    type V = StoredTransaction;

    open spec fn view(&self) -> StoredTransaction {
        StoredTransaction { transaction: self.transaction@, height: self.height }
    }
}

/// Schema for the private currency service: the ledger with the operations
/// that read and change it.
///
/// The schema keeps the whole ledger in memory. Roots of Merkelized tables
/// are not computed here: every operation that changes such a table takes the
/// new root from its caller, who has it from the storage engine.
pub struct Schema {
    height: u64,
    accounts: VecMap<PublicKey, Account>,
    transactions: VecMap<Digest, Stored>,
    rollback: VecMap<u64, Vec<Digest>>,
    rolled_back: Vec<Digest>,
}

impl View for Schema {
    type V = LedgerState;

    closed spec fn view(&self) -> LedgerState {
        LedgerState {
            height: self.height,
            accounts: self.accounts@,
            transactions: self.transactions@,
            rollback: self.rollback@,
            rolled_back: self.rolled_back@,
        }
    }
}

impl Schema {
    /// Whether the tables of the schema are sound. `new` establishes this and
    /// every operation keeps it.
    pub closed spec fn sound(&self) -> bool {
        &&& self.accounts.sound()
        &&& self.transactions.sound()
        &&& self.rollback.sound()
    }

    /// Whether the schema is well formed: its tables are sound, and the ledger
    /// that it holds is consistent. `new` establishes this and every
    /// operation keeps it.
    pub open spec fn wf(&self) -> bool {
        &&& self.sound()
        &&& self@.consistent()
    }

    /// Creates a schema for an empty ledger, before the first block.
    pub fn new() -> (schema: Schema)
        ensures
            schema.wf(),
            schema@ == LedgerState::empty(),
    {
        let schema = Schema {
            height: 0,
            accounts: VecMap::new(),
            transactions: VecMap::new(),
            rollback: VecMap::new(),
            rolled_back: Vec::new(),
        };
        proof {
            assert(schema@.accounts =~= Map::empty());
            assert(schema@.rolled_back =~= Seq::empty());
            LedgerState::lemma_empty_consistent();
        }
        schema
    }

    /// Height of the latest block.
    pub fn height(&self) -> (height: u64)
        ensures
            height == self@.height,
    {
        self.height
    }

    /// Moves on to the next block.
    pub fn commit_block(&mut self)
        requires
            old(self).wf(),
            old(self)@.height < u64::MAX,
        ensures
            final(self).wf(),
            final(self)@ == old(self)@.next_block(),
    {
        proof {
            self@.lemma_next_block_consistent();
        }
        self.height = self.height + 1;
    }

    /// Records a transaction of the block that is being put together, so that
    /// later transactions can refer to it by its hash.
    pub fn record(&mut self, transaction: &Transactions)
        requires
            old(self).wf(),
            old(self)@.height < u64::MAX,
        ensures
            final(self).wf(),
            final(self)@ == old(self)@.record(transaction@),
    {
        proof {
            self@.lemma_record_consistent(transaction@);
        }
        let hash = transaction.hash();
        if self.transactions.index_of(&hash).is_none() {
            let stored = Stored { transaction: transaction.duplicate(), height: self.height + 1 };
            self.transactions.push_new(hash, stored);
        }
    }

    /// Loads a wallet with the specified public key.
    pub fn wallet(&self, public_key: &PublicKey) -> (wallet: Option<Wallet>)
        requires
            self.wf(),
        ensures
            wallet is Some <==> self@.wallet(*public_key) is Some,
            wallet is Some ==> wallet->0@ == self@.wallet(*public_key)->0,
    {
        match self.accounts.index_of(public_key) {
            Some(i) => Some(self.accounts.value_at(i).wallet),
            None => None,
        }
    }

    /// Returns all unaccepted incoming transfers for the account associated
    /// with the given public key.
    pub fn unaccepted_transfers(&self, key: &PublicKey) -> (transfers: Vec<Digest>)
        requires
            self.wf(),
        ensures
            transfers@ == self@.unaccepted(*key),
    {
        match self.accounts.index_of(key) {
            Some(i) => copy_digests(&self.accounts.value_at(i).unaccepted),
            None => Vec::new(),
        }
    }

    /// Returns all history entries for the specified account.
    pub fn history(&self, key: &PublicKey) -> (events: Vec<Event>)
        requires
            self.wf(),
        ensures
            events@ == self@.history(*key),
    {
        match self.accounts.index_of(key) {
            Some(i) => copy_events(&self.accounts.value_at(i).history),
            None => Vec::new(),
        }
    }

    /// Returns a past balance of a wallet.
    pub fn past_balance(&self, key: &PublicKey, index: u64) -> (balance: Option<Commitment>)
        requires
            self.wf(),
        ensures
            balance is Some <==> self@.past_balance(*key, index) is Some,
            balance is Some ==> balance->0@ == self@.past_balance(*key, index)->0,
    {
        match self.accounts.index_of(key) {
            Some(i) => {
                let account = self.accounts.value_at(i);
                let first = account.wallet.last_send_index;
                if index < first {
                    return None;
                }
                let offset = index - first;
                if offset < account.past_balances.len() as u64 {
                    Some(account.past_balances[offset as usize])
                } else {
                    None
                }
            },
            None => None,
        }
    }

    /// Returns hashes for all unaccepted transfers that should be rolled back
    /// at the specified blockchain height.
    pub fn rollback_transfers(&self, height: u64) -> (transfers: Vec<Digest>)
        requires
            self.wf(),
        ensures
            transfers@ == self@.pending(height),
    {
        match self.rollback.index_of(&height) {
            Some(i) => copy_digests(self.rollback.value_at(i)),
            None => Vec::new(),
        }
    }

    /// Returns the hashes of the transfers that expired with the latest block,
    /// as noted down for a debugger.
    pub fn rolled_back_transfers(&self) -> (transfers: Vec<Digest>)
        ensures
            transfers@ == self@.rolled_back,
    {
        copy_digests(&self.rolled_back)
    }

    /// Loads the transfer with the specified hash. If no block holds a
    /// transaction with that hash, or if the transaction is not a transfer,
    /// there is none.
    pub fn maybe_transfer(&self, id: &Digest) -> (transfer: Option<Transfer>)
        requires
            self.wf(),
        ensures
            transfer is Some <==> self@.transfer(*id) is Some,
            transfer is Some ==> transfer->0@ == self@.transfer(*id)->0,
    {
        match self.transactions.index_of(id) {
            Some(i) => {
                match &self.transactions.value_at(i).transaction {
                    Transactions::Transfer(tx) => Some(tx.clone()),
                    _ => None,
                }
            },
            None => None,
        }
    }

    /// Loads the wallet creation with the specified hash. If no block holds a
    /// transaction with that hash, or if the transaction does not create a
    /// wallet, there is none.
    pub fn maybe_create_wallet(&self, id: &Digest) -> (creation: Option<CreateWallet>)
        requires
            self.wf(),
        ensures
            creation == (if self@.transactions.contains_key(*id) {
                match self@.transactions[*id].transaction {
                    TransactionView::CreateWallet(tx) => Some(tx),
                    _ => None,
                }
            } else {
                None
            }),
    {
        match self.transactions.index_of(id) {
            Some(i) => {
                match &self.transactions.value_at(i).transaction {
                    Transactions::CreateWallet(tx) => Some(*tx),
                    _ => None,
                }
            },
            None => None,
        }
    }

    /// The ledger that stored records stand for, if their keys are distinct.
    pub open spec fn restored(
        height: u64,
        accounts: Seq<Account>,
        transactions: Seq<Stored>,
        rollback: Seq<RollbackBucket>,
        rolled_back: Seq<Digest>,
    ) -> LedgerState {
        LedgerState {
            height,
            accounts: keyed(
                Seq::new(accounts.len(), |i: int| accounts[i].wallet.public_key),
                Seq::new(accounts.len(), |i: int| accounts[i]@),
            ),
            transactions: keyed(
                Seq::new(transactions.len(), |i: int| transactions[i].transaction@.hash()),
                Seq::new(transactions.len(), |i: int| transactions[i]@),
            ),
            rollback: keyed(
                Seq::new(rollback.len(), |i: int| rollback[i].height),
                Seq::new(rollback.len(), |i: int| rollback[i].transfers@),
            ),
            rolled_back,
        }
    }

    /// Whether the keys of stored records are distinct: no two accounts
    /// belong to the same wallet, no two transactions have the same hash, and
    /// no two buckets stand for the same height.
    pub open spec fn distinct(
        accounts: Seq<Account>,
        transactions: Seq<Stored>,
        rollback: Seq<RollbackBucket>,
    ) -> bool {
        &&& Seq::new(accounts.len(), |i: int| accounts[i].wallet.public_key).no_duplicates()
        &&& Seq::new(transactions.len(), |i: int| transactions[i].transaction@.hash()).no_duplicates()
        &&& Seq::new(rollback.len(), |i: int| rollback[i].height).no_duplicates()
    }

    /// Restores a schema from stored records: the height of the latest block,
    /// the accounts of the wallets, the transactions of the blocks, the
    /// rollback schedule, and the transfers noted down for a debugger. The
    /// records may be a part of the ledger, such as the accounts that a
    /// transaction touches. Records with a key that occurs twice, and records
    /// that do not make a consistent ledger, are refused.
    #[verifier::loop_isolation(false)]
    pub fn restore(
        height: u64,
        accounts: &Vec<Account>,
        transactions: &Vec<Stored>,
        rollback: &Vec<RollbackBucket>,
        rolled_back: &Vec<Digest>,
    ) -> (schema: Option<Schema>)
        ensures
            schema is Some <==> Self::distinct(accounts@, transactions@, rollback@)
                && Self::restored(
                height,
                accounts@,
                transactions@,
                rollback@,
                rolled_back@,
            ).consistent(),
            schema is Some ==> schema->0.wf() && schema->0@ == Self::restored(
                height,
                accounts@,
                transactions@,
                rollback@,
                rolled_back@,
            ),
    {
        let ghost account_keys = Seq::new(accounts@.len(), |i: int| accounts@[i].wallet.public_key);
        let ghost hashes = Seq::new(transactions@.len(), |i: int| transactions@[i].transaction@.hash());
        let ghost heights = Seq::new(rollback@.len(), |i: int| rollback@[i].height);
        let mut account_map: VecMap<PublicKey, Account> = VecMap::new();
        let mut transaction_map: VecMap<Digest, Stored> = VecMap::new();
        let mut rollback_map: VecMap<u64, Vec<Digest>> = VecMap::new();
        assert(account_keys.subrange(0, 0) =~= Seq::<PublicKey>::empty());
        assert(hashes.subrange(0, 0) =~= Seq::<Digest>::empty());
        assert(heights.subrange(0, 0) =~= Seq::<u64>::empty());
        let mut i: usize = 0;
        while i < accounts.len()
            invariant
                i <= accounts@.len(),
                account_map.sound(),
                account_map.spec_keys() == account_keys.subrange(0, i as int),
                account_map.spec_len() == i,
                forall|k: int| 0 <= k < i ==> (#[trigger] account_map.spec_value(k))@ == accounts@[k]@,
            decreases accounts@.len() - i,
        {
            proof {
                account_map.lemma_entries();
            }
            let key = accounts[i].wallet.public_key;
            if account_map.index_of(&key).is_some() {
                assert(!account_keys.no_duplicates()) by {
                    let k = account_keys.subrange(0, i as int).index_of(key);
                    assert(account_keys.subrange(0, i as int)[k] == key);
                    assert(account_keys[k] == account_keys[i as int]);
                }
                return None;
            }
            account_map.push_new(key, accounts[i].clone());
            assert(account_map.spec_keys() =~= account_keys.subrange(0, i + 1));
            i += 1;
        }
        let mut j: usize = 0;
        while j < transactions.len()
            invariant
                j <= transactions@.len(),
                transaction_map.sound(),
                transaction_map.spec_keys() == hashes.subrange(0, j as int),
                transaction_map.spec_len() == j,
                forall|k: int|
                    0 <= k < j ==> (#[trigger] transaction_map.spec_value(k))@ == transactions@[k]@,
            decreases transactions@.len() - j,
        {
            proof {
                transaction_map.lemma_entries();
            }
            let hash = transactions[j].transaction.hash();
            if transaction_map.index_of(&hash).is_some() {
                assert(!hashes.no_duplicates()) by {
                    let k = hashes.subrange(0, j as int).index_of(hash);
                    assert(hashes.subrange(0, j as int)[k] == hash);
                    assert(hashes[k] == hashes[j as int]);
                }
                return None;
            }
            let stored = Stored {
                transaction: transactions[j].transaction.duplicate(),
                height: transactions[j].height,
            };
            transaction_map.push_new(hash, stored);
            assert(transaction_map.spec_keys() =~= hashes.subrange(0, j + 1));
            j += 1;
        }
        let mut h: usize = 0;
        while h < rollback.len()
            invariant
                h <= rollback@.len(),
                rollback_map.sound(),
                rollback_map.spec_keys() == heights.subrange(0, h as int),
                rollback_map.spec_len() == h,
                forall|k: int|
                    0 <= k < h ==> (#[trigger] rollback_map.spec_value(k))@ == rollback@[k].transfers@,
            decreases rollback@.len() - h,
        {
            proof {
                rollback_map.lemma_entries();
            }
            let at = rollback[h].height;
            if rollback_map.index_of(&at).is_some() {
                assert(!heights.no_duplicates()) by {
                    let k = heights.subrange(0, h as int).index_of(at);
                    assert(heights.subrange(0, h as int)[k] == at);
                    assert(heights[k] == heights[h as int]);
                }
                return None;
            }
            rollback_map.push_new(at, copy_digests(&rollback[h].transfers));
            assert(rollback_map.spec_keys() =~= heights.subrange(0, h + 1));
            h += 1;
        }
        let schema = Schema {
            height,
            accounts: account_map,
            transactions: transaction_map,
            rollback: rollback_map,
            rolled_back: copy_digests(rolled_back),
        };
        proof {
            schema.accounts.lemma_entries();
            schema.transactions.lemma_entries();
            schema.rollback.lemma_entries();
            schema.accounts.lemma_keyed();
            schema.transactions.lemma_keyed();
            schema.rollback.lemma_keyed();
            assert(account_keys.subrange(0, accounts@.len() as int) =~= account_keys);
            assert(hashes.subrange(0, transactions@.len() as int) =~= hashes);
            assert(heights.subrange(0, rollback@.len() as int) =~= heights);
            assert(schema.accounts.spec_views() =~= Seq::new(
                accounts@.len(),
                |i: int| accounts@[i]@,
            ));
            assert(schema.transactions.spec_views() =~= Seq::new(
                transactions@.len(),
                |i: int| transactions@[i]@,
            ));
            assert(schema.rollback.spec_views() =~= Seq::new(
                rollback@.len(),
                |i: int| rollback@[i].transfers@,
            ));
            assert(schema@ == Self::restored(
                height,
                accounts@,
                transactions@,
                rollback@,
                rolled_back@,
            ));
        }
        if !schema.check_invariants() {
            return None;
        }
        Some(schema)
    }

    /// All that the ledger holds for the wallet with the given key, for the
    /// host to store.
    pub fn account(&self, key: &PublicKey) -> (account: Option<Account>)
        requires
            self.wf(),
        ensures
            account is Some <==> self@.accounts.contains_key(*key),
            account is Some ==> account->0@ == self@.accounts[*key],
    {
        match self.accounts.index_of(key) {
            Some(i) => Some(self.accounts.value_at(i).clone()),
            None => None,
        }
    }

    /// Registers a wallet, unless there is one for the key.
    pub fn create_wallet(&mut self, key: &PublicKey, tx_hash: &Digest, history_root: &Digest) -> (result:
        Result<(), Error>)
        requires
            old(self).wf(),
            old(self)@.holds_creation(*tx_hash),
        ensures
            final(self).wf(),
            result == old(self)@.create_wallet_result(*key),
            final(self)@ == old(self)@.create_wallet(*key, *tx_hash, *history_root),
    {
        if self.accounts.index_of(key).is_some() {
            return Err(Error::WalletExists);
        }
        let wallet = Wallet::initialize(key, history_root);
        let mut history: Vec<Event> = Vec::new();
        history.push(Event::create_wallet(tx_hash));
        let mut past_balances: Vec<Commitment> = Vec::new();
        past_balances.push(wallet.balance);
        let unaccepted_root = Digest::zero();
        let account = Account {
            wallet,
            history,
            history_root: *history_root,
            unaccepted: Vec::new(),
            unaccepted_root,
            past_balances,
        };
        proof {
            let expected = AccountState::created(*key, *tx_hash, *history_root);
            assert(account@.history =~= expected.history);
            assert(account@.unaccepted =~= expected.unaccepted);
            assert(account@.past_balances =~= expected.past_balances);
            assert(account@ == expected);
            self@.lemma_create_wallet_consistent(*key, *tx_hash, *history_root);
        }
        self.accounts.push_new(*key, account);
        Ok(())
    }

    /// Debits the sender of a transfer, who must have a wallet: the transfer
    /// becomes the last event of her history and her last outgoing transfer,
    /// the amount leaves her balance, and of her past balances only the new
    /// one is kept.
    pub fn update_sender(&mut self, transfer: &Transfer, history_root: &Digest)
        requires
            old(self).wf(),
            old(self)@.accounts.contains_key(transfer.from),
            old(self)@.holds_transfer(transfer.hash),
        ensures
            final(self).wf(),
            final(self)@ == old(self)@.send(transfer@, *history_root),
    {
        if let Some(i) = self.accounts.index_of(&transfer.from) {
            self.update_sender_at(i, transfer, history_root);
        }
    }

    /// Sets a transfer to wait for its receiver, who must have a wallet, and
    /// schedules its rollback.
    pub fn add_unaccepted_payment(&mut self, transfer: &Transfer, unaccepted_root: &Digest)
        requires
            old(self).wf(),
            old(self)@.accounts.contains_key(transfer.to),
            old(self)@.height + 2 + transfer.rollback_delay <= u64::MAX,
            old(self)@.holds_transfer(transfer.hash),
        ensures
            final(self).wf(),
            final(self)@ == old(self)@.add_unaccepted(transfer@, *unaccepted_root),
    {
        if let Some(i) = self.accounts.index_of(&transfer.to) {
            self.add_unaccepted_payment_at(i, transfer, unaccepted_root);
        }
    }

    /// Debits the sender of a transfer, whose account is at the given
    /// position.
    fn update_sender_at(&mut self, i: usize, transfer: &Transfer, history_root: &Digest)
        requires
            old(self).wf(),
            i < old(self).accounts.spec_len(),
            old(self).accounts.spec_key(i as int) == transfer.from,
            old(self)@.holds_transfer(transfer.hash),
        ensures
            final(self).wf(),
            final(self).accounts.spec_keys() == old(self).accounts.spec_keys(),
            final(self)@ == old(self)@.send(transfer@, *history_root),
    {
        let ghost before = *self;
        proof {
            before.accounts.lemma_entries();
        }
        let account = self.accounts.value_mut(i);
        proof {
            assert(account@ == before@.accounts[transfer.from]);
            assert(account@.consistent(transfer.from, before@.transactions));
        }
        account.history.push(Event::transfer(&transfer.hash));
        let events = account.history.len();
        assert(account.wallet.history_len + 1 == events);
        account.history_root = *history_root;
        account.wallet = account.wallet.subtract_balance(&transfer.amount, history_root);
        let mut past_balances: Vec<Commitment> = Vec::new();
        past_balances.push(account.wallet.balance);
        account.past_balances = past_balances;
        proof {
            let changed = self.accounts.spec_value(i as int)@;
            let expected = before@.accounts[transfer.from].debit(
                transfer@.amount,
                transfer.hash,
                *history_root,
            );
            assert(changed.past_balances =~= expected.past_balances);
            assert(changed == expected);
            VecMap::lemma_changed_in_place(before.accounts, self.accounts, i as int);
            LedgerState::lemma_debit_consistent(
                before@.accounts[transfer.from],
                transfer.from,
                before@.transactions,
                transfer@.amount,
                transfer.hash,
                *history_root,
            );
            before@.lemma_one_account_changed(self@, transfer.from);
        }
    }

    /// Sets a transfer to wait for its receiver, whose account is at the given
    /// position, and schedules its rollback.
    fn add_unaccepted_payment_at(&mut self, i: usize, transfer: &Transfer, unaccepted_root: &Digest)
        requires
            old(self).wf(),
            i < old(self).accounts.spec_len(),
            old(self).accounts.spec_key(i as int) == transfer.to,
            old(self)@.height + 2 + transfer.rollback_delay <= u64::MAX,
            old(self)@.holds_transfer(transfer.hash),
        ensures
            final(self).wf(),
            final(self)@ == old(self)@.add_unaccepted(transfer@, *unaccepted_root),
    {
        let ghost before = *self;
        proof {
            before.accounts.lemma_entries();
            before.rollback.lemma_entries();
        }
        let account = self.accounts.value_mut(i);
        insert_digest(&mut account.unaccepted, &transfer.hash);
        account.unaccepted_root = *unaccepted_root;
        account.wallet = account.wallet.set_unaccepted_transfers_hash(unaccepted_root);
        proof {
            VecMap::lemma_changed_in_place(before.accounts, self.accounts, i as int);
            assert(self.accounts.spec_value(i as int)@ == before@.accounts[transfer.to].receive(
                transfer.hash,
                *unaccepted_root,
            ));
            LedgerState::lemma_receive_consistent(
                before@.accounts[transfer.to],
                transfer.to,
                before@.transactions,
                transfer.hash,
                *unaccepted_root,
            );
        }
        let ghost received = *self;
        let expiry = self.height + 2 + transfer.rollback_delay as u64;
        match self.rollback.index_of(&expiry) {
            Some(j) => {
                let bucket = self.rollback.value_mut(j);
                insert_digest(bucket, &transfer.hash);
                proof {
                    VecMap::lemma_changed_in_place(received.rollback, self.rollback, j as int);
                }
            },
            None => {
                let mut bucket: Vec<Digest> = Vec::new();
                bucket.push(transfer.hash);
                proof {
                    assert(bucket@ =~= with(Seq::empty(), transfer.hash));
                }
                self.rollback.push_new(expiry, bucket);
            },
        }
        proof {
            let expected = before@.add_unaccepted(transfer@, *unaccepted_root);
            assert(self@.rollback == expected.rollback);
            assert(self@ == expected);
            before@.lemma_one_account_changed(received@, transfer.to);
            assert forall|key: PublicKey| #[trigger]
                self@.accounts.contains_key(key) implies self@.accounts[key].consistent(
                key,
                self@.transactions,
            ) by {
                assert(received@.accounts.contains_key(key));
            }
        }
    }

    /// Executes a transfer, given the verdict on its proof for the balance.
    pub fn transfer(&mut self, transfer: &Transfer, roots: &Roots, balance_proof_valid: bool) -> (result:
        Result<(), Error>)
        requires
            old(self).wf(),
            old(self)@.height + 2 + transfer.rollback_delay <= u64::MAX,
            old(self)@.holds_transfer(transfer.hash),
        ensures
            final(self).wf(),
            result == old(self)@.transfer_result(transfer@, balance_proof_valid),
            final(self)@ == old(self)@.apply_transfer(transfer@, *roots, balance_proof_valid),
    {
        let sender_index = match self.accounts.index_of(&transfer.from) {
            Some(i) => i,
            None => {
                return Err(Error::UnregisteredSender);
            },
        };
        let receiver_index = match self.accounts.index_of(&transfer.to) {
            Some(i) => i,
            None => {
                return Err(Error::UnregisteredReceiver);
            },
        };
        proof {
            self.accounts.lemma_entries();
        }
        let sender = self.accounts.value_at(sender_index);
        if transfer.history_len <= sender.wallet.last_send_index {
            return Err(Error::OutdatedHistory);
        }
        let offset = transfer.history_len - 1 - sender.wallet.last_send_index;
        if offset >= sender.past_balances.len() as u64 {
            return Err(Error::InvalidHistoryRef);
        }
        if !balance_proof_valid {
            return Err(Error::IncorrectProof);
        }
        self.update_sender_at(sender_index, transfer, &roots.history);
        proof {
            self.accounts.lemma_entries();
        }
        self.add_unaccepted_payment_at(receiver_index, transfer, &roots.unaccepted);
        Ok(())
    }

    /// The balance that the proof of a transfer is to be checked against, if
    /// the ledger still keeps it.
    pub fn referenced_balance(&self, transfer: &Transfer) -> (balance: Option<Commitment>)
        requires
            self.wf(),
        ensures
            balance is Some <==> self@.referenced_balance(transfer@) is Some,
            balance is Some ==> balance->0@ == self@.referenced_balance(transfer@)->0,
    {
        if transfer.history_len == 0 {
            None
        } else {
            self.past_balance(&transfer.from, transfer.history_len - 1)
        }
    }

    /// Credits the account at a position with an amount.
    fn credit(&mut self, i: usize, amount: &Commitment, event: Event, history_root: &Digest)
        requires
            old(self).wf(),
            i < old(self).accounts.spec_len(),
            event.tag == TAG_TRANSFER ==> AccountState::incoming(
                old(self)@.transactions,
                event,
                old(self).accounts.spec_key(i as int),
            ),
            AccountState::resolves(old(self)@.transactions, event),
        ensures
            final(self).wf(),
            final(self).accounts.spec_keys() == old(self).accounts.spec_keys(),
            final(self)@ == (LedgerState {
                accounts: old(self)@.accounts.insert(
                    old(self).accounts.spec_key(i as int),
                    old(self)@.accounts[old(self).accounts.spec_key(i as int)].credit(
                        amount@,
                        event,
                        *history_root,
                    ),
                ),
                ..old(self)@
            }),
    {
        let ghost before = *self;
        let ghost key = before.accounts.spec_key(i as int);
        proof {
            before.accounts.lemma_entries();
        }
        let account = self.accounts.value_mut(i);
        proof {
            assert(account@ == before@.accounts[key]);
            assert(account@.consistent(key, before@.transactions));
        }
        account.history.push(event);
        let events = account.history.len();
        assert(account.wallet.history_len + 1 == events);
        account.history_root = *history_root;
        account.wallet = account.wallet.add_balance(amount, history_root);
        account.past_balances.push(account.wallet.balance);
        proof {
            let changed = self.accounts.spec_value(i as int)@;
            let expected = before@.accounts[key].credit(amount@, event, *history_root);
            assert(changed.past_balances =~= expected.past_balances);
            assert(changed == expected);
            VecMap::lemma_changed_in_place(before.accounts, self.accounts, i as int);
            LedgerState::lemma_credit_consistent(
                before@.accounts[key],
                key,
                before@.transactions,
                amount@,
                event,
                *history_root,
            );
            before@.lemma_one_account_changed(self@, key);
        }
    }

    /// Takes a transfer from those that wait for the account at a position.
    fn settle(&mut self, i: usize, id: &Digest, unaccepted_root: &Digest)
        requires
            old(self).wf(),
            i < old(self).accounts.spec_len(),
        ensures
            final(self).wf(),
            final(self).accounts.spec_keys() == old(self).accounts.spec_keys(),
            final(self)@ == (LedgerState {
                accounts: old(self)@.accounts.insert(
                    old(self).accounts.spec_key(i as int),
                    old(self)@.accounts[old(self).accounts.spec_key(i as int)].settle(
                        *id,
                        *unaccepted_root,
                    ),
                ),
                ..old(self)@
            }),
    {
        let ghost before = *self;
        let ghost key = before.accounts.spec_key(i as int);
        proof {
            before.accounts.lemma_entries();
        }
        let account = self.accounts.value_mut(i);
        remove_digest(&mut account.unaccepted, id);
        account.unaccepted_root = *unaccepted_root;
        account.wallet = account.wallet.set_unaccepted_transfers_hash(unaccepted_root);
        proof {
            VecMap::lemma_changed_in_place(before.accounts, self.accounts, i as int);
            assert(self.accounts.spec_value(i as int)@ == before@.accounts[key].settle(
                *id,
                *unaccepted_root,
            ));
            LedgerState::lemma_settle_consistent(
                before@.accounts[key],
                key,
                before@.transactions,
                *id,
                *unaccepted_root,
            );
            before@.lemma_one_account_changed(self@, key);
        }
    }

    /// Takes a transfer off the rollback schedule of a height.
    fn unschedule(&mut self, height: u64, id: &Digest)
        requires
            old(self).wf(),
        ensures
            final(self).wf(),
            final(self).accounts == old(self).accounts,
            final(self)@ == old(self)@.unschedule(height, *id),
    {
        let ghost before = *self;
        proof {
            before.rollback.lemma_entries();
            before@.lemma_unschedule_consistent(height, *id);
        }
        match self.rollback.index_of(&height) {
            Some(j) => {
                let bucket = self.rollback.value_mut(j);
                remove_digest(bucket, id);
                proof {
                    VecMap::lemma_changed_in_place(before.rollback, self.rollback, j as int);
                }
            },
            None => {},
        }
    }

    /// Executes the acceptance of a transfer.
    pub fn accept_payment(&mut self, accept: &Accept, roots: &Roots) -> (result: Result<(), Error>)
        requires
            old(self).wf(),
        ensures
            final(self).wf(),
            result == old(self)@.accept_result(*accept),
            final(self)@ == old(self)@.apply_accept(*accept, *roots),
    {
        let id = accept.transfer_id;
        let transfer_index = match self.transactions.index_of(&id) {
            Some(i) => i,
            None => {
                return Err(Error::UnknownTransfer);
            },
        };
        let stored = self.transactions.value_at(transfer_index);
        let (to, amount, delay, stored_height) = match &stored.transaction {
            Transactions::Transfer(tx) => (tx.to, tx.amount, tx.rollback_delay, stored.height),
            _ => {
                return Err(Error::UnknownTransfer);
            },
        };
        if !(to == accept.receiver) {
            return Err(Error::UnauthorizedAccept);
        }
        let receiver_index = match self.accounts.index_of(&accept.receiver) {
            Some(i) => i,
            None => {
                return Err(Error::UnknownTransfer);
            },
        };
        proof {
            self.accounts.lemma_entries();
        }
        if !contains_digest(&self.accounts.value_at(receiver_index).unaccepted, &id) {
            return Err(Error::UnknownTransfer);
        }
        let ghost before = *self;
        self.credit(receiver_index, &amount, Event::transfer(&id), &roots.history);
        proof {
            self.accounts.lemma_entries();
        }
        self.settle(receiver_index, &id, &roots.unaccepted);
        let rollback_height = match stored_height.checked_add(delay as u64 + 1) {
            Some(height) => height,
            None => u64::MAX,
        };
        self.unschedule(rollback_height, &id);
        proof {
            let expected = before@.apply_accept(*accept, *roots);
            assert(self@.accounts =~= expected.accounts);
            assert(self@ == expected);
        }
        Ok(())
    }

    /// Rolls one transfer back that expires with the block that is being put
    /// together: the sender is refunded, and the transfer neither waits for
    /// its receiver nor for its rollback any more. A hash under which the
    /// ledger holds no transfer of a registered sender is left where it is.
    pub fn rollback_single(&mut self, id: &Digest, roots: &Roots)
        requires
            old(self).wf(),
            old(self)@.height < u64::MAX,
        ensures
            final(self).wf(),
            final(self)@ == old(self)@.expire(*id, *roots),
    {
        let transfer_index = match self.transactions.index_of(id) {
            Some(i) => i,
            None => {
                return ;
            },
        };
        let stored = self.transactions.value_at(transfer_index);
        let (from, to, amount) = match &stored.transaction {
            Transactions::Transfer(tx) => (tx.from, tx.to, tx.amount),
            _ => {
                return ;
            },
        };
        let sender_index = match self.accounts.index_of(&from) {
            Some(i) => i,
            None => {
                return ;
            },
        };
        proof {
            self.accounts.lemma_entries();
        }
        let ghost before = *self;
        self.credit(sender_index, &amount, Event::rollback(id), &roots.history);
        let due = self.height + 1;
        self.unschedule(due, id);
        match self.accounts.index_of(&to) {
            Some(i) => {
                proof {
                    self.accounts.lemma_entries();
                }
                self.settle(i, id, &roots.unaccepted);
            },
            None => {},
        }
        proof {
            let expected = before@.expire(*id, *roots);
            assert(self@.accounts =~= expected.accounts);
            assert(self@ == expected);
        }
    }

    /// Rolls back unaccepted transfers that expire with the block that is being
    /// put together, that is at the height after the current one.
    /// `roots` holds, for each of them in the order of `rollback_transfers`,
    /// the root of the sender's history after the refund and the root of the
    /// receiver's unaccepted transfers after the transfer has left them; where
    /// `roots` is shorter than the list of transfers, the rest stays.
    pub fn do_rollback(&mut self, roots: &Vec<Roots>)
        requires
            old(self).wf(),
            old(self)@.height < u64::MAX,
        ensures
            final(self).wf(),
            final(self)@ == old(self)@.do_rollback(roots@),
    {
        let ids = self.rollback_transfers(self.height + 1);
        let count = if ids.len() < roots.len() {
            ids.len()
        } else {
            roots.len()
        };
        let ghost before = *self;
        let mut i: usize = 0;
        proof {
            assert(ids@.subrange(0, 0) =~= Seq::<Digest>::empty());
        }
        while i < count
            invariant
                i <= count,
                count <= ids@.len(),
                count <= roots@.len(),
                self.wf(),
                self@.height < u64::MAX,
                self@ == before@.expire_all(ids@.subrange(0, i as int), roots@.subrange(0, i as int)),
            decreases count - i,
        {
            proof {
                assert(ids@.subrange(0, i + 1).drop_last() =~= ids@.subrange(0, i as int));
                assert(roots@.subrange(0, i + 1).drop_last() =~= roots@.subrange(0, i as int));
            }
            self.rollback_single(&ids[i], &roots[i]);
            i += 1;
        }
    }

    /// Tells whether an event stands for a transfer to the given key, going
    /// by the transactions of the ledger.
    fn is_incoming(&self, event: &Event, key: &PublicKey) -> (incoming: bool)
        requires
            self.sound(),
        ensures
            incoming == AccountState::incoming(self@.transactions, *event, *key),
    {
        match self.transactions.index_of(&event.transaction_hash) {
            Some(i) => {
                match &self.transactions.value_at(i).transaction {
                    Transactions::Transfer(tx) => tx.to == *key,
                    _ => false,
                }
            },
            None => false,
        }
    }

    /// Tells whether a block holds a transfer under the given hash.
    pub fn holds_transfer(&self, id: &Digest) -> (held: bool)
        requires
            self.sound(),
        ensures
            held == self@.holds_transfer(*id),
    {
        match self.transactions.index_of(id) {
            Some(i) => {
                match &self.transactions.value_at(i).transaction {
                    Transactions::Transfer(_) => true,
                    _ => false,
                }
            },
            None => false,
        }
    }

    /// Tells whether a block holds the creation of a wallet under the given
    /// hash.
    pub fn holds_creation(&self, id: &Digest) -> (held: bool)
        requires
            self.sound(),
        ensures
            held == self@.holds_creation(*id),
    {
        match self.transactions.index_of(id) {
            Some(i) => {
                match &self.transactions.value_at(i).transaction {
                    Transactions::CreateWallet(_) => true,
                    _ => false,
                }
            },
            None => false,
        }
    }

    /// Tells whether the ledger holds the transaction of an event.
    fn resolves(&self, event: &Event) -> (resolved: bool)
        requires
            self.sound(),
        ensures
            resolved == AccountState::resolves(self@.transactions, *event),
    {
        if event.tag == TAG_CREATE_WALLET {
            self.holds_creation(&event.transaction_hash)
        } else if event.tag == TAG_TRANSFER || event.tag == TAG_ROLLBACK {
            self.holds_transfer(&event.transaction_hash)
        } else {
            false
        }
    }

    /// Tells whether the account of a wallet is consistent.
    #[verifier::loop_isolation(false)]
    fn account_consistent(&self, key: &PublicKey, account: &Account) -> (consistent: bool)
        requires
            self.sound(),
        ensures
            consistent == account@.consistent(*key, self@.transactions),
    {
        let wallet = &account.wallet;
        // The summary agrees with the tables.
        if !(wallet.public_key == *key) || !(wallet.history_hash == account.history_root) || !(
        wallet.unaccepted_transfers_hash == account.unaccepted_root) {
            return false;
        }
        if wallet.history_len != account.history.len() as u64 {
            return false;
        }
        // The past balances cover the history from the last outgoing transfer
        // on, and end with the current balance.
        if wallet.last_send_index >= wallet.history_len {
            return false;
        }
        if account.past_balances.len() as u64 != wallet.history_len - wallet.last_send_index {
            return false;
        }
        let last = account.past_balances.len() - 1;
        assert(account@.past_balances.last() == account.past_balances@[last as int]@);
        if !(account.past_balances[last] == wallet.balance) {
            assert(account.past_balances@[last as int]@ != wallet.balance@) by {
                if account.past_balances@[last as int]@ == wallet.balance@ {
                    Commitment::lemma_ext(account.past_balances@[last as int], wallet.balance);
                }
            }
            return false;
        }
        // The ledger holds the transaction of every event and of every
        // transfer that waits.
        let mut e: usize = 0;
        while e < account.history.len()
            invariant
                e <= account.history@.len(),
                forall|k: int|
                    0 <= k < e ==> AccountState::resolves(
                        self@.transactions,
                        #[trigger] account.history@[k],
                    ),
            decreases account.history@.len() - e,
        {
            if !self.resolves(&account.history[e]) {
                assert(!AccountState::resolves(self@.transactions, account@.history[e as int]));
                return false;
            }
            e += 1;
        }
        let mut u: usize = 0;
        while u < account.unaccepted.len()
            invariant
                u <= account.unaccepted@.len(),
                forall|k: int|
                    0 <= k < u ==> AccountState::is_transfer(
                        self@.transactions,
                        #[trigger] account.unaccepted@[k],
                    ),
            decreases account.unaccepted@.len() - u,
        {
            if !self.holds_transfer(&account.unaccepted[u]) {
                assert(!AccountState::is_transfer(
                    self@.transactions,
                    account@.unaccepted[u as int],
                ));
                return false;
            }
            u += 1;
        }
        // No transfer after the last outgoing one is outgoing.
        let mut i: usize = (wallet.last_send_index + 1) as usize;
        while i < account.history.len()
            invariant
                wallet.last_send_index < i <= account.history@.len(),
                forall|k: int|
                    wallet.last_send_index < k < i && (#[trigger] account.history@[k]).tag
                        == TAG_TRANSFER ==> AccountState::incoming(
                        self@.transactions,
                        account.history@[k],
                        *key,
                    ),
            decreases account.history@.len() - i,
        {
            if account.history[i].tag == TAG_TRANSFER && !self.is_incoming(&account.history[i], key) {
                assert(account.history@[i as int].tag == TAG_TRANSFER);
                return false;
            }
            i += 1;
        }
        true
    }

    /// Checks what should hold of every wallet of the ledger: its summary
    /// agrees with its history and with its unaccepted transfers; a past
    /// balance is kept for every index of the history from the last outgoing
    /// transfer on, the last of them being the current balance; and no
    /// transfer in the history after the last outgoing one is outgoing.
    #[verifier::loop_isolation(false)]
    pub fn check_invariants(&self) -> (holds: bool)
        requires
            self.sound(),
        ensures
            holds == self@.consistent(),
    {
        proof {
            self.accounts.lemma_entries();
        }
        let mut i: usize = 0;
        while i < self.accounts.len()
            invariant
                i <= self.accounts.spec_len(),
                forall|k: int|
                    0 <= k < i ==> self@.accounts[#[trigger] self.accounts.spec_key(k)].consistent(
                        self.accounts.spec_key(k),
                        self@.transactions,
                    ),
            decreases self.accounts.spec_len() - i,
        {
            let key = self.accounts.key_at(i);
            let account = self.accounts.value_at(i);
            if !self.account_consistent(&key, account) {
                assert(self@.accounts.contains_key(key));
                return false;
            }
            i += 1;
        }
        assert forall|key: PublicKey| #[trigger]
            self@.accounts.contains_key(key) implies self@.accounts[key].consistent(
            key,
            self@.transactions,
        ) by {
            let k = self.accounts.spec_keys().index_of(key);
            assert(self.accounts.spec_keys()[k] == key);
            assert(self.accounts.spec_key(k) == key);
        }
        proof {
            self.transactions.lemma_entries();
        }
        let mut j: usize = 0;
        while j < self.transactions.len()
            invariant
                j <= self.transactions.spec_len(),
                forall|k: int|
                    0 <= k < j ==> self@.transactions[#[trigger] self.transactions.spec_key(
                        k,
                    )].transaction.hash() == self.transactions.spec_key(k),
            decreases self.transactions.spec_len() - j,
        {
            let id = self.transactions.key_at(j);
            if !(self.transactions.value_at(j).transaction.hash() == id) {
                assert(self@.transactions.contains_key(id));
                return false;
            }
            j += 1;
        }
        assert forall|id: Digest| #[trigger]
            self@.transactions.contains_key(id) implies self@.transactions[id].transaction.hash()
            == id by {
            let k = self.transactions.spec_keys().index_of(id);
            assert(self.transactions.spec_keys()[k] == id);
            assert(self.transactions.spec_key(k) == id);
        }
        true
    }

    /// Notes down the transfers that expire with the block that is being put
    /// together, for a
    /// debugger to be told of them once the block is committed.
    pub fn copy_rolled_back_transfers(&mut self)
        requires
            old(self).wf(),
            old(self)@.height < u64::MAX,
        ensures
            final(self).wf(),
            final(self)@ == old(self)@.note_expiring(),
    {
        proof {
            self@.lemma_note_expiring_consistent();
        }
        let transfers = self.rollback_transfers(self.height + 1);
        self.rolled_back = transfers;
    }
}

} // verus!