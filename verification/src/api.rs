//! What the service tells a client about a wallet, and how a thin client
//! checks it.
//!
//! A wallet proof bundles a block header with the votes for it, the path from
//! the state hash of the block to the table of wallets, the path from that
//! table to one wallet, and the new events and unaccepted transfers of the
//! wallet with their own paths. The Merkle paths are made and checked by the
//! storage engine of the host. The service sees of each what the engine made
//! of it: an error, or the root that the path leads to and the entries that
//! it proves.

use crate::collections::Key;
use crate::crypto::keys::{Digest, PublicKey};
use crate::ledger::{AccountState, LedgerState};
use crate::storage::{
    Event, EventTag, Schema, Wallet, TAG_CREATE_WALLET, TAG_ROLLBACK, TAG_TRANSFER,
};
use crate::transactions::{CreateWallet, TransactionView, Transactions, Transfer, TransferView};
use crate::utils::{block_verdict, Block, BlockProof, BlockVerifyError, TrustAnchor};
use vstd::prelude::*;

verus! {

/// Query for the `wallet` endpoint.
#[derive(Debug, Clone, Copy)]
pub struct WalletQuery {
    /// Public key of the account to check.
    pub key: PublicKey,
    /// The starting index for the user's list of events.
    pub start_history_at: u64,
}

/// Event changing balance of a wallet.
#[derive(Debug, PartialEq)]
pub enum FullEvent {
    /// Event corresponding to wallet creation. There is only one such event in
    /// wallet history: the very first one.
    CreateWallet(CreateWallet),
    /// Transfer to or from the wallet. Outgoing transfers are recorded in the
    /// sender's history immediately after the commitment; incoming transfers
    /// need to be accepted first.
    Transfer(Transfer),
    /// Rolled-back transfer returning the funds to the sender.
    Rollback(Transfer),
}

/// What an event holds, for use in contracts.
pub enum FullEventView {
    /// Wallet creation.
    CreateWallet(CreateWallet),
    /// Transfer to or from the wallet.
    Transfer(TransferView),
    /// Rolled-back transfer.
    Rollback(TransferView),
}

impl FullEventView {
    /// The byte that stands for the kind of the event in its stored form.
    pub open spec fn tag(self) -> u8 {
        match self {
            FullEventView::CreateWallet(_) => TAG_CREATE_WALLET,
            FullEventView::Transfer(_) => TAG_TRANSFER,
            FullEventView::Rollback(_) => TAG_ROLLBACK,
        }
    }

    /// Hash of the transaction of the event.
    pub open spec fn hash(self) -> Digest {
        match self {
            FullEventView::CreateWallet(tx) => tx.hash,
            FullEventView::Transfer(tx) => tx.hash,
            FullEventView::Rollback(tx) => tx.hash,
        }
    }

    /// Whether the event corresponds to a given storage-form event: both are
    /// of the same kind and name the same transaction.
    pub open spec fn corresponds_to(self, event: Event) -> bool {
        self.tag() == event.tag && self.hash() == event.transaction_hash
    }
}

impl View for FullEvent {
    type V = FullEventView;

    open spec fn view(&self) -> FullEventView {
        match self {
            FullEvent::CreateWallet(tx) => FullEventView::CreateWallet(*tx),
            FullEvent::Transfer(tx) => FullEventView::Transfer(tx@),
            FullEvent::Rollback(tx) => FullEventView::Rollback(tx@),
        }
    }
}

impl Clone for FullEvent {
    fn clone(&self) -> (copy: FullEvent)
        ensures
            copy@ == self@,
    {
        match self {
            FullEvent::CreateWallet(tx) => FullEvent::CreateWallet(*tx),
            FullEvent::Transfer(tx) => FullEvent::Transfer(tx.clone()),
            FullEvent::Rollback(tx) => FullEvent::Rollback(tx.clone()),
        }
    }
}

/// The wallet creation with the given hash, if a block holds one.
pub open spec fn stored_creation(state: LedgerState, id: Digest) -> Option<CreateWallet> {
    if state.transactions.contains_key(id) {
        match state.transactions[id].transaction {
            TransactionView::CreateWallet(tx) => Some(tx),
            _ => None,
        }
    } else {
        None
    }
}

/// The full form of a stored event: the event with its transaction, as far as
/// the ledger holds a transaction of the right kind under the hash of the
/// event.
pub open spec fn full_event(state: LedgerState, event: Event) -> Option<FullEventView> {
    let id = event.transaction_hash;
    if event.tag == TAG_CREATE_WALLET {
        match stored_creation(state, id) {
            Some(tx) => Some(FullEventView::CreateWallet(tx)),
            None => None,
        }
    } else if event.tag == TAG_TRANSFER {
        match state.transfer(id) {
            Some(tx) => Some(FullEventView::Transfer(tx)),
            None => None,
        }
    } else if event.tag == TAG_ROLLBACK {
        match state.transfer(id) {
            Some(tx) => Some(FullEventView::Rollback(tx)),
            None => None,
        }
    } else {
        None
    }
}

/// The full forms of a list of stored events, in their order. An event that
/// the ledger cannot resolve is left out.
pub open spec fn full_events(state: LedgerState, events: Seq<Event>) -> Seq<FullEventView>
    decreases events.len(),
{
    if events.len() == 0 {
        Seq::empty()
    } else {
        let head = full_events(state, events.drop_last());
        match full_event(state, events.last()) {
            Some(event) => head.push(event),
            None => head,
        }
    }
}

/// The transfers with the given hashes, in their order. A hash that the ledger
/// cannot resolve is left out.
pub open spec fn resolved_transfers(state: LedgerState, ids: Seq<Digest>) -> Seq<TransferView>
    decreases ids.len(),
{
    if ids.len() == 0 {
        Seq::empty()
    } else {
        let head = resolved_transfers(state, ids.drop_last());
        match state.transfer(ids.last()) {
            Some(tx) => head.push(tx),
            None => head,
        }
    }
}

/// What a list of events holds, for use in contracts.
pub open spec fn event_views(events: Seq<FullEvent>) -> Seq<FullEventView> {
    Seq::new(events.len(), |i: int| events[i]@)
}

/// What a list of transfers holds, for use in contracts.
pub open spec fn transfer_views(transfers: Seq<Transfer>) -> Seq<TransferView> {
    Seq::new(transfers.len(), |i: int| transfers[i]@)
}

impl FullEvent {
    /// Converts a stored event into its full form by loading the transaction
    /// from the ledger.
    pub fn from_event(event: &Event, schema: &Schema) -> (full: Option<FullEvent>)
        requires
            schema.wf(),
        ensures
            full is Some <==> full_event(schema@, *event) is Some,
            full is Some ==> full->0@ == full_event(schema@, *event)->0,
    {
        let id = &event.transaction_hash;
        if event.tag == TAG_CREATE_WALLET {
            match schema.maybe_create_wallet(id) {
                Some(tx) => Some(FullEvent::CreateWallet(tx)),
                None => None,
            }
        } else if event.tag == TAG_TRANSFER {
            match schema.maybe_transfer(id) {
                Some(tx) => Some(FullEvent::Transfer(tx)),
                None => None,
            }
        } else if event.tag == TAG_ROLLBACK {
            match schema.maybe_transfer(id) {
                Some(tx) => Some(FullEvent::Rollback(tx)),
                None => None,
            }
        } else {
            None
        }
    }

    /// Kind of the event.
    pub fn tag(&self) -> (tag: EventTag)
        ensures
            tag.spec_code() == self@.tag(),
    {
        match self {
            FullEvent::CreateWallet(..) => EventTag::CreateWallet,
            FullEvent::Transfer(..) => EventTag::Transfer,
            FullEvent::Rollback(..) => EventTag::Rollback,
        }
    }

    /// Hash of the transaction of the event.
    pub fn hash(&self) -> (hash: Digest)
        ensures
            hash == self@.hash(),
    {
        match self {
            FullEvent::CreateWallet(tx) => tx.hash,
            FullEvent::Transfer(tx) => tx.hash,
            FullEvent::Rollback(tx) => tx.hash,
        }
    }

    /// Does this event correspond to a given storage-form event?
    pub fn corresponds_to(&self, event: &Event) -> (corresponds: bool)
        ensures
            corresponds == self@.corresponds_to(*event),
    {
        if self.tag().code() != event.tag {
            return false;
        }
        self.hash() == event.transaction_hash
    }
}

/// Description of a part of a wallet proof.
#[derive(Debug, Clone, Copy, Hash, PartialEq, Eq, Structural)]
pub enum ProofDescription {
    /// Path from the state hash mentioned in the block header to the wallets
    /// table.
    WalletsTable,
    /// Path from the wallets table to a specific wallet.
    Wallet,
    /// Paths for wallet history.
    History,
    /// Paths for unaccepted transfers.
    UnacceptedTransfers,
}

impl ProofDescription {
    /// Names the part in words.
    pub fn description(self) -> (text: &'static str)
        ensures
            text@ == (match self {
                ProofDescription::WalletsTable => "wallets table"@,
                ProofDescription::Wallet => "wallet"@,
                ProofDescription::History => "history"@,
                ProofDescription::UnacceptedTransfers => "unaccepted transfers"@,
            }),
    {
        match self {
            ProofDescription::WalletsTable => "wallets table",
            ProofDescription::Wallet => "wallet",
            ProofDescription::History => "history",
            ProofDescription::UnacceptedTransfers => "unaccepted transfers",
        }
    }
}

/// What the storage engine objects to in the paths for a map.
#[derive(Debug, Clone, Copy, Hash, PartialEq, Eq, Structural)]
pub enum MapProofError {
    /// Non-terminal node for a map consisting of a single node.
    NonTerminalNode,
    /// One path in the proof is a prefix of another path.
    EmbeddedPaths,
    /// One path is mentioned several times in the proof.
    DuplicatePath,
    /// Entries in the proof are not ordered by increasing path.
    InvalidOrdering,
}

/// What the storage engine objects to in the paths for a list.
#[derive(Debug, Clone, Copy, Hash, PartialEq, Eq, Structural)]
pub enum ListProofError {
    /// The proof is too short and does not correspond to the height of the
    /// tree.
    UnexpectedLeaf,
    /// The proof is too long and does not correspond to the height of the
    /// tree.
    UnexpectedBranch,
    /// The hash of the proof is not equal to the trusted root hash.
    UnmatchedRootHash,
}

/// Error during wallet proof verification.
#[derive(Debug, Clone, Copy, PartialEq, Eq)]
pub enum VerifyError {
    /// Error verifying block header.
    Block(BlockVerifyError),
    /// Error verifying one of the map proofs included into the wallet proof.
    MapProof {
        /// Cause of the verification failure.
        error: MapProofError,
        /// Description of the proof where an error has occurred.
        proof_description: ProofDescription,
    },
    /// Error verifying one of the list proofs included into the wallet proof.
    ListProof {
        /// Cause of the verification failure.
        error: ListProofError,
        /// Description of the proof where an error has occurred.
        proof_description: ProofDescription,
    },
    /// A proof is disconnected from its parent: the root hash of the index
    /// restored from the proof does not match one obtained from other proof
    /// data.
    ProofDisconnect(ProofDescription),
    /// A proof does not prove presence or absence of a key, which it is
    /// expected to prove.
    MissingKey(ProofDescription),
    /// A proof proves existence of keys that do not match the plain data
    /// included into the proof.
    KeyMismatch(ProofDescription),
    /// The proof shows existence of the requested wallet, but the events and
    /// unaccepted transfers are missing from the proof.
    NoContents,
}

impl VerifyError {
    /// The error that a failed block verification stands for.
    pub fn from_block_error(error: BlockVerifyError) -> (wrapped: VerifyError)
        ensures
            wrapped == VerifyError::Block(error),
    {
        VerifyError::Block(error)
    }
}

/// An entry that a map proof proves: a key with its value, or a key that the
/// map does not hold.
#[derive(Debug, Clone, PartialEq)]
pub struct MapProofEntry<K, V> {
    /// The key.
    pub key: K,
    /// The value under the key, if there is one.
    pub value: Option<V>,
}

/// A map proof that the storage engine found sound: the root of the map that
/// it leads to, and the entries that it proves.
#[derive(Debug, Clone, PartialEq)]
pub struct CheckedMapProof<K, V> {
    /// Root of the map.
    pub root: Digest,
    /// Proven entries.
    pub entries: Vec<MapProofEntry<K, V>>,
}

/// What the storage engine made of a map proof.
#[derive(Debug, Clone, PartialEq)]
pub enum MapProof<K, V> {
    /// The proof is malformed.
    Invalid(MapProofError),
    /// The proof is sound.
    Checked(CheckedMapProof<K, V>),
}

/// The value that the first entry with the given key holds, if there is such
/// an entry.
pub open spec fn find_entry<K, V>(entries: Seq<MapProofEntry<K, V>>, key: K) -> Option<Option<V>>
    decreases entries.len(),
{
    if entries.len() == 0 {
        None
    } else if entries[0].key == key {
        Some(entries[0].value)
    } else {
        find_entry(entries.subrange(1, entries.len() as int), key)
    }
}

/// What a map proof comes to that is to show one key under an expected root.
/// A malformed proof fails as such; a proof for another root is disconnected;
/// a proof that does not speak of the key misses it; else the proof shows the
/// value under the key, or that there is none.
pub open spec fn single_key_verdict<K, V>(
    map_proof: MapProof<K, V>,
    expected_hash: Digest,
    key: K,
    proof_description: ProofDescription,
) -> Result<Option<V>, VerifyError> {
    match map_proof {
        MapProof::Invalid(error) => Err(VerifyError::MapProof { error, proof_description }),
        MapProof::Checked(checked) => {
            if checked.root != expected_hash {
                Err(VerifyError::ProofDisconnect(proof_description))
            } else {
                match find_entry(checked.entries@, key) {
                    None => Err(VerifyError::MissingKey(proof_description)),
                    Some(value) => Ok(value),
                }
            }
        },
    }
}

/// Checks if a map proof contains a specified key.
#[verifier::loop_isolation(false)]
pub fn check_map_proof_with_single_key<K: Key, V: Copy>(
    map_proof: &MapProof<K, V>,
    expected_hash: &Digest,
    key: &K,
    proof_description: ProofDescription,
) -> (result: Result<Option<V>, VerifyError>)
    ensures
        result == single_key_verdict(*map_proof, *expected_hash, *key, proof_description),
{
    let checked = match map_proof {
        MapProof::Invalid(error) => {
            return Err(VerifyError::MapProof { error: *error, proof_description });
        },
        MapProof::Checked(checked) => checked,
    };
    if !(checked.root == *expected_hash) {
        return Err(VerifyError::ProofDisconnect(proof_description));
    }
    let entries = &checked.entries;
    let mut i: usize = 0;
    assert(entries@.subrange(0, entries@.len() as int) =~= entries@);
    while i < entries.len()
        invariant
            i <= entries@.len(),
            find_entry(entries@, *key) == find_entry(
                entries@.subrange(i as int, entries@.len() as int),
                *key,
            ),
        decreases entries@.len() - i,
    {
        let ghost rest = entries@.subrange(i as int, entries@.len() as int);
        assert(rest[0] == entries@[i as int]);
        assert(rest.subrange(1, rest.len() as int) =~= entries@.subrange(
            i + 1,
            entries@.len() as int,
        ));
        if entries[i].key.same(key) {
            return Ok(entries[i].value);
        }
        i += 1;
    }
    Err(VerifyError::MissingKey(proof_description))
}

/// An event that a list proof proves, with its index in the list.
#[derive(Debug, Clone, Copy, PartialEq, Eq)]
pub struct ProvenEvent {
    /// Index of the event in the history.
    pub index: u64,
    /// The event in its stored form.
    pub event: Event,
}

/// What the storage engine made of a proof for a range of the history, held
/// against the root and the length of the history that the wallet states.
#[derive(Debug, Clone, PartialEq)]
pub enum ListProof {
    /// The proof is malformed, or leads to another root.
    Invalid(ListProofError),
    /// The proof is sound; these are the events that it proves, in the order
    /// of their indices.
    Valid(Vec<ProvenEvent>),
}

/// Part of a wallet proof related to auxiliary tables: wallet history and
/// unaccepted transfers.
#[derive(Debug)]
pub struct WalletContentsProof {
    /// New events of the wallet history, in full.
    pub history: Vec<FullEvent>,
    /// Unaccepted incoming transfers, in full.
    pub unaccepted_transfers: Vec<Transfer>,
    /// Proof for the new events, unless there are none.
    pub history_proof: Option<ListProof>,
    /// Proof for the unaccepted transfers.
    pub unaccepted_transfers_proof: MapProof<Digest, ()>,
}

/// Whether the entries show the given key to be present.
pub open spec fn shows_present(entries: Seq<MapProofEntry<Digest, ()>>, id: Digest) -> bool {
    exists|j: int| 0 <= j < entries.len() && (#[trigger] entries[j]).key == id && entries[j].value is Some
}

/// Whether every hash of the list is a key that the entries show to be
/// present.
pub open spec fn all_proven(entries: Seq<MapProofEntry<Digest, ()>>, ids: Seq<Digest>) -> bool {
    forall|i: int| 0 <= i < ids.len() ==> shows_present(entries, #[trigger] ids[i])
}

/// The events of a history from the given index on.
pub open spec fn history_from(events: Seq<Event>, start: u64) -> Seq<Event> {
    if start <= events.len() {
        events.skip(start as int)
    } else {
        Seq::empty()
    }
}

/// Whether every key that the entries show to be present is a hash of the
/// list.
pub open spec fn all_listed(entries: Seq<MapProofEntry<Digest, ()>>, ids: Seq<Digest>) -> bool {
    forall|j: int|
        0 <= j < entries.len() && (#[trigger] entries[j]).value is Some ==> ids.contains(
            entries[j].key,
        )
}

/// The hashes of a list of transfers.
pub open spec fn transfer_hashes(transfers: Seq<Transfer>) -> Seq<Digest> {
    Seq::new(transfers.len(), |i: int| transfers[i].hash)
}

/// Whether the proven events are the given ones, one by one, and start at the
/// given index of the history.
pub open spec fn history_matches(proven: Seq<ProvenEvent>, history: Seq<FullEvent>, start: u64) -> bool {
    &&& proven.len() == history.len()
    &&& proven.len() > 0 ==> proven[0].index == start
    &&& forall|i: int| 0 <= i < history.len() ==> (#[trigger] history[i])@.corresponds_to(proven[i].event)
}

impl WalletContentsProof {
    /// The events that the proof for the history proves: none without a
    /// proof.
    pub open spec fn proven_events(&self) -> Result<Seq<ProvenEvent>, VerifyError> {
        match self.history_proof {
            None => Ok(Seq::empty()),
            Some(ListProof::Invalid(error)) => Err(
                VerifyError::ListProof { error, proof_description: ProofDescription::History },
            ),
            Some(ListProof::Valid(events)) => Ok(events@),
        }
    }

    /// What the check of the contents comes to. The checks are made in this
    /// order, and the first that fails decides: the proof for the history is
    /// sound; it proves the listed events and no others, from the index that
    /// the query names; the proof for the unaccepted transfers is sound and
    /// leads to the root that the wallet states; it proves the listed
    /// transfers and no others.
    pub open spec fn verdict(&self, wallet: Wallet, query: WalletQuery) -> Result<(), VerifyError> {
        match self.proven_events() {
            Err(error) => Err(error),
            Ok(proven) => {
                if !history_matches(proven, self.history@, query.start_history_at) {
                    Err(VerifyError::KeyMismatch(ProofDescription::History))
                } else {
                    match self.unaccepted_transfers_proof {
                        MapProof::Invalid(error) => Err(
                            VerifyError::MapProof {
                                error,
                                proof_description: ProofDescription::UnacceptedTransfers,
                            },
                        ),
                        MapProof::Checked(checked) => {
                            let ids = transfer_hashes(self.unaccepted_transfers@);
                            if checked.root != wallet.unaccepted_transfers_hash {
                                Err(
                                    VerifyError::ProofDisconnect(
                                        ProofDescription::UnacceptedTransfers,
                                    ),
                                )
                            } else if !(all_proven(checked.entries@, ids) && all_listed(
                                checked.entries@,
                                ids,
                            )) {
                                Err(VerifyError::KeyMismatch(ProofDescription::UnacceptedTransfers))
                            } else {
                                Ok(())
                            }
                        },
                    }
                }
            },
        }
    }

    /// Gathers the contents of a wallet from the ledger: every event of its
    /// history from the index that the query names, in full, and every
    /// transfer that waits for it. The two proofs are those that the storage engine made for
    /// them; the one for the history is kept only if there are events to
    /// prove.
    pub fn new(
        schema: &Schema,
        query: &WalletQuery,
        history_proof: ListProof,
        unaccepted_transfers_proof: MapProof<Digest, ()>,
    ) -> (proof: WalletContentsProof)
        requires
            schema.wf(),
        ensures
            event_views(proof.history@) == full_events(
                schema@,
                history_from(schema@.history(query.key), query.start_history_at),
            ),
            transfer_views(proof.unaccepted_transfers@) == resolved_transfers(
                schema@,
                schema@.unaccepted(query.key),
            ),
            proof.history_proof == (if proof.history@.len() == 0 {
                None
            } else {
                Some(history_proof)
            }),
            proof.unaccepted_transfers_proof == unaccepted_transfers_proof,
            gathered(schema@, *query, proof),
    {
        let events = schema.history(&query.key);
        let mut history: Vec<FullEvent> = Vec::new();
        let start: usize = if query.start_history_at >= events.len() as u64 {
            events.len()
        } else {
            query.start_history_at as usize
        };
        let ghost wanted = events@.skip(start as int);
        proof {
            assert(wanted =~= history_from(schema@.history(query.key), query.start_history_at));
            assert(wanted.subrange(0, 0) =~= Seq::<Event>::empty());
            assert(event_views(history@) =~= Seq::<FullEventView>::empty());
        }
        let mut i: usize = start;
        while i < events.len()
            invariant
                start <= i <= events@.len(),
                schema.wf(),
                wanted == events@.skip(start as int),
                event_views(history@) == full_events(schema@, wanted.subrange(0, i - start)),
            decreases events@.len() - i,
        {
            let ghost before = history@;
            proof {
                assert(wanted.subrange(0, i + 1 - start).drop_last() =~= wanted.subrange(
                    0,
                    i - start,
                ));
                assert(wanted.subrange(0, i + 1 - start).last() == events@[i as int]);
            }
            match FullEvent::from_event(&events[i], schema) {
                Some(event) => {
                    history.push(event);
                    proof {
                        assert(event_views(history@) =~= event_views(before).push(event@));
                    }
                },
                None => {},
            }
            i += 1;
        }
        proof {
            assert(wanted.subrange(0, events@.len() - start) =~= wanted);
        }
        let ids = schema.unaccepted_transfers(&query.key);
        let mut unaccepted_transfers: Vec<Transfer> = Vec::new();
        proof {
            assert(ids@.subrange(0, 0) =~= Seq::<Digest>::empty());
            assert(transfer_views(unaccepted_transfers@) =~= Seq::<TransferView>::empty());
        }
        let mut j: usize = 0;
        while j < ids.len()
            invariant
                j <= ids@.len(),
                schema.wf(),
                transfer_views(unaccepted_transfers@) == resolved_transfers(
                    schema@,
                    ids@.subrange(0, j as int),
                ),
            decreases ids@.len() - j,
        {
            let ghost before = unaccepted_transfers@;
            proof {
                assert(ids@.subrange(0, j + 1).drop_last() =~= ids@.subrange(0, j as int));
            }
            match schema.maybe_transfer(&ids[j]) {
                Some(transfer) => {
                    unaccepted_transfers.push(transfer);
                    proof {
                        assert(transfer_views(unaccepted_transfers@) =~= transfer_views(
                            before,
                        ).push(transfer@));
                    }
                },
                None => {},
            }
            j += 1;
        }
        proof {
            assert(ids@.subrange(0, ids@.len() as int) =~= ids@);
        }
        let history_proof = if history.len() == 0 {
            None
        } else {
            Some(history_proof)
        };
        let contents = WalletContentsProof {
            history,
            unaccepted_transfers,
            history_proof,
            unaccepted_transfers_proof,
        };
        proof {
            lemma_gathered(schema@, *query, contents);
        }
        contents
    }

    /// Checks the proof against the wallet that it belongs to, and returns the
    /// new events in wallet history and the unaccepted incoming transfers.
    #[verifier::loop_isolation(false)]
    pub fn check(&self, wallet: &Wallet, query: &WalletQuery) -> (result: Result<
        (Vec<FullEvent>, Vec<Transfer>),
        VerifyError,
    >)
        ensures
            result is Ok <==> self.verdict(*wallet, *query) is Ok,
            result is Err ==> Err::<(), VerifyError>(result->Err_0) == self.verdict(*wallet, *query),
            result is Ok ==> event_views(result->Ok_0.0@) == event_views(self.history@)
                && transfer_views(result->Ok_0.1@) == transfer_views(self.unaccepted_transfers@),
    {
        // Verify wallet history.
        let empty: Vec<ProvenEvent> = Vec::new();
        let proven: &Vec<ProvenEvent> = match &self.history_proof {
            None => &empty,
            Some(ListProof::Invalid(error)) => {
                return Err(
                    VerifyError::ListProof {
                        error: *error,
                        proof_description: ProofDescription::History,
                    },
                );
            },
            Some(ListProof::Valid(events)) => events,
        };
        assert(self.proven_events() == Ok::<Seq<ProvenEvent>, VerifyError>(proven@));
        if proven.len() != self.history.len() {
            return Err(VerifyError::KeyMismatch(ProofDescription::History));
        }
        if proven.len() > 0 && proven[0].index != query.start_history_at {
            return Err(VerifyError::KeyMismatch(ProofDescription::History));
        }
        let mut i: usize = 0;
        while i < self.history.len()
            invariant
                i <= self.history@.len(),
                forall|k: int| 0 <= k < i ==> (#[trigger] self.history@[k])@.corresponds_to(proven@[k].event),
            decreases self.history@.len() - i,
        {
            if !self.history[i].corresponds_to(&proven[i].event) {
                assert(!(self.history@[i as int])@.corresponds_to(proven@[i as int].event));
                return Err(VerifyError::KeyMismatch(ProofDescription::History));
            }
            i += 1;
        }
        assert(history_matches(proven@, self.history@, query.start_history_at));

        // Verify unaccepted transfers.
        let checked = match &self.unaccepted_transfers_proof {
            MapProof::Invalid(error) => {
                return Err(
                    VerifyError::MapProof {
                        error: *error,
                        proof_description: ProofDescription::UnacceptedTransfers,
                    },
                );
            },
            MapProof::Checked(checked) => checked,
        };
        if !(checked.root == wallet.unaccepted_transfers_hash) {
            return Err(VerifyError::ProofDisconnect(ProofDescription::UnacceptedTransfers));
        }
        let entries = &checked.entries;
        let ghost ids = transfer_hashes(self.unaccepted_transfers@);
        let mut t: usize = 0;
        while t < self.unaccepted_transfers.len()
            invariant
                t <= self.unaccepted_transfers@.len(),
                forall|a: int| 0 <= a < t ==> shows_present(entries@, #[trigger] ids[a]),
            decreases self.unaccepted_transfers@.len() - t,
        {
            let id = self.unaccepted_transfers[t].hash;
            let mut found = false;
            let mut e: usize = 0;
            while e < entries.len() && !found
                invariant
                    e <= entries@.len(),
                    id == ids[t as int],
                    found ==> shows_present(entries@, id),
                    !found ==> forall|b: int|
                        0 <= b < e ==> !((#[trigger] entries@[b]).key == id && entries@[b].value is Some),
                decreases entries@.len() - e + (if found { 0int } else { 1int }),
            {
                if entries[e].key == id && entries[e].value.is_some() {
                    assert(entries@[e as int].key == id && entries@[e as int].value is Some);
                    found = true;
                } else {
                    e += 1;
                }
            }
            if !found {
                assert(!shows_present(entries@, ids[t as int]));
                return Err(VerifyError::KeyMismatch(ProofDescription::UnacceptedTransfers));
            }
            t += 1;
        }
        assert(all_proven(entries@, ids));
        let mut e: usize = 0;
        while e < entries.len()
            invariant
                e <= entries@.len(),
                forall|b: int|
                    0 <= b < e && (#[trigger] entries@[b]).value is Some ==> ids.contains(entries@[b].key),
            decreases entries@.len() - e,
        {
            if entries[e].value.is_some() {
                let mut found = false;
                let mut t: usize = 0;
                while t < self.unaccepted_transfers.len() && !found
                    invariant
                        t <= self.unaccepted_transfers@.len(),
                        found ==> ids.contains(entries@[e as int].key),
                        !found ==> forall|a: int| 0 <= a < t ==> ids[a] != entries@[e as int].key,
                    decreases self.unaccepted_transfers@.len() - t + (if found { 0int } else { 1int }),
                {
                    if self.unaccepted_transfers[t].hash == entries[e].key {
                        assert(ids[t as int] == entries@[e as int].key);
                        found = true;
                    } else {
                        t += 1;
                    }
                }
                if !found {
                    assert(!ids.contains(entries@[e as int].key));
                    return Err(VerifyError::KeyMismatch(ProofDescription::UnacceptedTransfers));
                }
            }
            e += 1;
        }
        assert(all_listed(entries@, ids));
        Ok((clone_events(&self.history), clone_transfers(&self.unaccepted_transfers)))
    }
}

/// Copies a list of events.
pub fn clone_events(events: &Vec<FullEvent>) -> (copy: Vec<FullEvent>)
    ensures
        event_views(copy@) == event_views(events@),
{
    let mut copy: Vec<FullEvent> = Vec::new();
    let mut i: usize = 0;
    while i < events.len()
        invariant
            i <= events@.len(),
            copy@.len() == i,
            forall|k: int| 0 <= k < i ==> (#[trigger] copy@[k])@ == events@[k]@,
        decreases events@.len() - i,
    {
        copy.push(events[i].clone());
        i += 1;
    }
    assert(event_views(copy@) =~= event_views(events@));
    copy
}

/// Copies a list of transfers.
pub fn clone_transfers(transfers: &Vec<Transfer>) -> (copy: Vec<Transfer>)
    ensures
        transfer_views(copy@) == transfer_views(transfers@),
{
    let mut copy: Vec<Transfer> = Vec::new();
    let mut i: usize = 0;
    while i < transfers.len()
        invariant
            i <= transfers@.len(),
            copy@.len() == i,
            forall|k: int| 0 <= k < i ==> (#[trigger] copy@[k])@ == transfers@[k]@,
        decreases transfers@.len() - i,
    {
        copy.push(transfers[i].clone());
        i += 1;
    }
    assert(transfer_views(copy@) =~= transfer_views(transfers@));
    copy
}

/// Cryptographically authenticated proof of the state for a single wallet.
///
/// The proof contains several parts: the block header together with the
/// authorizing votes; the proof connecting the block header with the wallets
/// table in the storage, and then with a particular wallet; and the new events
/// in the wallet history and the unaccepted incoming transfers, if any.
///
/// The proof can also show that there is no wallet. The last part of the proof
/// is missing then.
#[derive(Debug)]
pub struct WalletProof {
    /// Block header with the votes for it.
    pub block_proof: BlockProof,
    /// Proof from the state hash of the block to the wallets table.
    pub wallet_table_proof: MapProof<Digest, Digest>,
    /// Proof from the wallets table to the wallet.
    pub wallet_proof: MapProof<PublicKey, Wallet>,
    /// History and unaccepted transfers of the wallet, if there is one.
    pub wallet_contents: Option<WalletContentsProof>,
}

/// Information about wallet state useful for a client, obtained after checking
/// a wallet proof.
#[derive(Debug)]
pub struct CheckedWalletProof {
    /// Block information.
    pub block: Block,
    /// General information about the wallet.
    pub wallet: Option<Wallet>,
    /// New events concerning the wallet. The event with index 0 corresponds
    /// to the event at the index of the history that the query names, and so
    /// on. Without a wallet there are none.
    pub history: Vec<FullEvent>,
    /// Unaccepted incoming transfers for the wallet. Without a wallet there
    /// are none.
    pub unaccepted_transfers: Vec<Transfer>,
}

impl WalletProof {
    /// What the check of the proof comes to: the wallet that it shows, or
    /// that it shows that there is none, or the first objection. The checks
    /// are made in this order: the block header is authorized by the
    /// validators; the state hash of the block leads to the wallets table,
    /// which must be there; the wallets table leads to the wallet, or shows
    /// that there is none; a wallet comes with its contents, which agree with
    /// it.
    pub open spec fn verdict(
        &self,
        validators: Seq<PublicKey>,
        query: WalletQuery,
        table_key: Digest,
        signatures_valid: Seq<bool>,
    ) -> Result<Option<Wallet>, VerifyError> {
        match block_verdict(validators, self.block_proof.precommits@, signatures_valid) {
            Err(error) => Err(VerifyError::Block(error)),
            Ok(_) => {
                match single_key_verdict(
                    self.wallet_table_proof,
                    self.block_proof.block.state_hash,
                    table_key,
                    ProofDescription::WalletsTable,
                ) {
                    Err(error) => Err(error),
                    Ok(None) => Err(VerifyError::MissingKey(ProofDescription::WalletsTable)),
                    Ok(Some(wallets_hash)) => {
                        match single_key_verdict(
                            self.wallet_proof,
                            wallets_hash,
                            query.key,
                            ProofDescription::Wallet,
                        ) {
                            Err(error) => Err(error),
                            Ok(None) => Ok(None),
                            Ok(Some(wallet)) => {
                                match self.wallet_contents {
                                    None => Err(VerifyError::NoContents),
                                    Some(contents) => {
                                        match contents.verdict(wallet, query) {
                                            Err(error) => Err(error),
                                            Ok(_) => Ok(Some(wallet)),
                                        }
                                    },
                                }
                            },
                        }
                    },
                }
            },
        }
    }

    /// Puts a proof together for the wallet that the query names. The block
    /// proof and the Merkle proofs are those that the host made for the
    /// current state; the contents join the proof if and only if the ledger
    /// holds the wallet.
    pub fn new(
        schema: &Schema,
        query: &WalletQuery,
        block_proof: BlockProof,
        wallet_table_proof: MapProof<Digest, Digest>,
        wallet_proof: MapProof<PublicKey, Wallet>,
        history_proof: ListProof,
        unaccepted_transfers_proof: MapProof<Digest, ()>,
    ) -> (proof: WalletProof)
        requires
            schema.wf(),
        ensures
            proof.block_proof == block_proof,
            proof.wallet_table_proof == wallet_table_proof,
            proof.wallet_proof == wallet_proof,
            proof.wallet_contents is Some <==> schema@.wallet(query.key) is Some,
            proof.wallet_contents is Some ==> {
                let contents = proof.wallet_contents->0;
                &&& event_views(contents.history@) == full_events(
                    schema@,
                    history_from(schema@.history(query.key), query.start_history_at),
                )
                &&& transfer_views(contents.unaccepted_transfers@) == resolved_transfers(
                    schema@,
                    schema@.unaccepted(query.key),
                )
                &&& contents.history_proof == (if contents.history@.len() == 0 {
                    None
                } else {
                    Some(history_proof)
                })
                &&& contents.unaccepted_transfers_proof == unaccepted_transfers_proof
                &&& gathered(schema@, *query, contents)
            },
    {
        let wallet_contents = if schema.wallet(&query.key).is_some() {
            Some(WalletContentsProof::new(schema, query, history_proof, unaccepted_transfers_proof))
        } else {
            None
        };
        WalletProof { block_proof, wallet_table_proof, wallet_proof, wallet_contents }
    }

    /// Checks the proof, returning information contained in the proof that
    /// might be interesting to client applications. `table_key` is the key of
    /// the wallets table among the tables of the blockchain state, and
    /// `signatures_valid` the host's verdict on the signature of each vote.
    pub fn check(
        &self,
        trust_anchor: &TrustAnchor,
        query: &WalletQuery,
        table_key: &Digest,
        signatures_valid: &[bool],
    ) -> (result: Result<CheckedWalletProof, VerifyError>)
        ensures
            result is Ok <==> self.verdict(trust_anchor@, *query, *table_key, signatures_valid@) is Ok,
            result is Err ==> Err::<Option<Wallet>, VerifyError>(result->Err_0) == self.verdict(
                trust_anchor@,
                *query,
                *table_key,
                signatures_valid@,
            ),
            result is Ok ==> {
                let checked = result->Ok_0;
                &&& checked.block == self.block_proof.block
                &&& Ok::<Option<Wallet>, VerifyError>(checked.wallet) == self.verdict(
                    trust_anchor@,
                    *query,
                    *table_key,
                    signatures_valid@,
                )
                &&& checked.wallet is None ==> checked.history@.len() == 0
                    && checked.unaccepted_transfers@.len() == 0
                &&& checked.wallet is Some ==> self.wallet_contents is Some && event_views(
                    checked.history@,
                ) == event_views(self.wallet_contents->0.history@) && transfer_views(
                    checked.unaccepted_transfers@,
                ) == transfer_views(self.wallet_contents->0.unaccepted_transfers@)
            },
    {
        // First, verify the block proof.
        match trust_anchor.verify_block_proof(&self.block_proof, signatures_valid) {
            Err(error) => {
                return Err(VerifyError::from_block_error(error));
            },
            Ok(_) => {},
        }
        // Verify proof for wallets table.
        let wallets_hash = match check_map_proof_with_single_key(
            &self.wallet_table_proof,
            &self.block_proof.block.state_hash,
            table_key,
            ProofDescription::WalletsTable,
        ) {
            Err(error) => {
                return Err(error);
            },
            // The key corresponding to the wallets table cannot be missing.
            Ok(None) => {
                return Err(VerifyError::MissingKey(ProofDescription::WalletsTable));
            },
            Ok(Some(hash)) => hash,
        };
        // Verify proof for the wallet.
        let wallet = match check_map_proof_with_single_key(
            &self.wallet_proof,
            &wallets_hash,
            &query.key,
            ProofDescription::Wallet,
        ) {
            Err(error) => {
                return Err(error);
            },
            Ok(wallet) => wallet,
        };
        match wallet {
            Some(wallet) => {
                match &self.wallet_contents {
                    Some(wallet_contents) => {
                        match wallet_contents.check(&wallet, query) {
                            Ok((history, unaccepted_transfers)) => Ok(
                                CheckedWalletProof {
                                    block: self.block_proof.block,
                                    wallet: Some(wallet),
                                    history,
                                    unaccepted_transfers,
                                },
                            ),
                            Err(error) => Err(error),
                        }
                    },
                    None => Err(VerifyError::NoContents),
                }
            },
            None => Ok(
                CheckedWalletProof {
                    block: self.block_proof.block,
                    wallet: None,
                    history: Vec::new(),
                    unaccepted_transfers: Vec::new(),
                },
            ),
        }
    }
}

/// Whether the ledger resolves every event of a list.
pub open spec fn all_events_resolve(state: LedgerState, events: Seq<Event>) -> bool {
    forall|i: int| 0 <= i < events.len() ==> full_event(state, #[trigger] events[i]) is Some
}

/// Whether the ledger resolves every hash of a list to a transfer.
pub open spec fn all_transfers_resolve(state: LedgerState, ids: Seq<Digest>) -> bool {
    forall|i: int| 0 <= i < ids.len() ==> state.transfer(#[trigger] ids[i]) is Some
}

/// Where the ledger resolves every event of a list, the full forms are those
/// of the events, one by one, and each corresponds to its event.
pub proof fn lemma_full_events_resolved(state: LedgerState, events: Seq<Event>)
    requires
        state.hashes_match(),
        all_events_resolve(state, events),
    ensures
        full_events(state, events).len() == events.len(),
        forall|i: int|
            0 <= i < events.len() ==> (#[trigger] full_events(state, events)[i]) == full_event(
                state,
                events[i],
            )->0 && full_events(state, events)[i].corresponds_to(events[i]),
    decreases events.len(),
{
    if events.len() > 0 {
        let head = events.drop_last();
        assert forall|i: int| 0 <= i < head.len() implies full_event(state, #[trigger] head[i]) is Some by {
            assert(head[i] == events[i]);
        }
        lemma_full_events_resolved(state, head);
        let last = events.last();
        assert(events[events.len() - 1] == last);
        assert(full_event(state, last) is Some);
        assert(state.transactions.contains_key(last.transaction_hash));
        assert forall|i: int| 0 <= i < events.len() implies (#[trigger] full_events(state, events)[i])
            == full_event(state, events[i])->0 && full_events(state, events)[i].corresponds_to(
            events[i],
        ) by {
            if i < head.len() {
                assert(head[i] == events[i]);
                assert(full_events(state, events)[i] == full_events(state, head)[i]);
            }
        }
    }
}

/// Where the ledger resolves every hash of a list to a transfer, the
/// transfers are those of the hashes, one by one, and each has its hash.
pub proof fn lemma_transfers_resolved(state: LedgerState, ids: Seq<Digest>)
    requires
        state.hashes_match(),
        all_transfers_resolve(state, ids),
    ensures
        resolved_transfers(state, ids).len() == ids.len(),
        forall|i: int|
            0 <= i < ids.len() ==> (#[trigger] resolved_transfers(state, ids)[i]) == state.transfer(
                ids[i],
            )->0 && resolved_transfers(state, ids)[i].hash == ids[i],
    decreases ids.len(),
{
    if ids.len() > 0 {
        let head = ids.drop_last();
        assert forall|i: int| 0 <= i < head.len() implies state.transfer(#[trigger] head[i]) is Some by {
            assert(head[i] == ids[i]);
        }
        lemma_transfers_resolved(state, head);
        let last = ids.last();
        assert(ids[ids.len() - 1] == last);
        assert(state.transfer(last) is Some);
        assert(state.transactions.contains_key(last));
        assert forall|i: int| 0 <= i < ids.len() implies (#[trigger] resolved_transfers(state, ids)[i])
            == state.transfer(ids[i])->0 && resolved_transfers(state, ids)[i].hash == ids[i] by {
            if i < head.len() {
                assert(head[i] == ids[i]);
                assert(resolved_transfers(state, ids)[i] == resolved_transfers(state, head)[i]);
            }
        }
    }
}

/// A consistent ledger resolves every event of every history, and every
/// transfer that waits for a wallet.
pub proof fn lemma_consistent_resolves(state: LedgerState, key: PublicKey, start: u64)
    requires
        state.consistent(),
    ensures
        all_events_resolve(state, state.history(key)),
        all_events_resolve(state, history_from(state.history(key), start)),
        all_transfers_resolve(state, state.unaccepted(key)),
{
    let events = state.history(key);
    let ids = state.unaccepted(key);
    if state.accounts.contains_key(key) {
        let account = state.accounts[key];
        assert(account.consistent(key, state.transactions));
        assert forall|i: int| 0 <= i < events.len() implies full_event(state, #[trigger] events[i]) is Some by {
            assert(AccountState::resolves(state.transactions, account.history[i]));
        }
        assert forall|i: int| 0 <= i < ids.len() implies state.transfer(#[trigger] ids[i]) is Some by {
            assert(AccountState::is_transfer(state.transactions, account.unaccepted[i]));
        }
    }
    let wanted = history_from(events, start);
    assert forall|i: int| 0 <= i < wanted.len() implies full_event(state, #[trigger] wanted[i]) is Some by {
        assert(wanted[i] == events[start + i]);
    }
}

/// Whether the contents of a wallet proof hold every event of the history
/// from the index that the query names, in full, and every transfer that
/// waits for the wallet.
pub open spec fn gathered(state: LedgerState, query: WalletQuery, contents: WalletContentsProof) -> bool {
    let events = history_from(state.history(query.key), query.start_history_at);
    let ids = state.unaccepted(query.key);
    &&& contents.history@.len() == events.len()
    &&& forall|i: int|
        0 <= i < events.len() ==> Some((#[trigger] contents.history@[i])@) == full_event(
            state,
            events[i],
        )
    &&& contents.unaccepted_transfers@.len() == ids.len()
    &&& forall|i: int|
        0 <= i < ids.len() ==> Some((#[trigger] contents.unaccepted_transfers@[i])@)
            == state.transfer(ids[i]) && contents.unaccepted_transfers@[i].hash == ids[i]
}

/// Contents whose lists are the full forms of the events and the resolved
/// transfers of a consistent ledger hold all of them.
pub proof fn lemma_gathered(state: LedgerState, query: WalletQuery, contents: WalletContentsProof)
    requires
        state.consistent(),
        event_views(contents.history@) == full_events(
            state,
            history_from(state.history(query.key), query.start_history_at),
        ),
        transfer_views(contents.unaccepted_transfers@) == resolved_transfers(
            state,
            state.unaccepted(query.key),
        ),
    ensures
        gathered(state, query, contents),
{
    let events = history_from(state.history(query.key), query.start_history_at);
    let ids = state.unaccepted(query.key);
    lemma_consistent_resolves(state, query.key, query.start_history_at);
    lemma_full_events_resolved(state, events);
    lemma_transfers_resolved(state, ids);
    assert(contents.history@.len() == event_views(contents.history@).len());
    assert(contents.unaccepted_transfers@.len() == transfer_views(
        contents.unaccepted_transfers@,
    ).len());
    assert forall|i: int| 0 <= i < events.len() implies Some((#[trigger] contents.history@[i])@)
        == full_event(state, events[i]) by {
        assert(event_views(contents.history@)[i] == contents.history@[i]@);
        assert(full_events(state, events)[i] == full_event(state, events[i])->0);
    }
    assert forall|i: int| 0 <= i < ids.len() implies Some(
        (#[trigger] contents.unaccepted_transfers@[i])@,
    ) == state.transfer(ids[i]) && contents.unaccepted_transfers@[i].hash == ids[i] by {
        assert(transfer_views(contents.unaccepted_transfers@)[i]
            == contents.unaccepted_transfers@[i]@);
        assert(resolved_transfers(state, ids)[i] == state.transfer(ids[i])->0);
    }
}

/// Whether a proof for the history is what a faithful storage engine makes
/// for the given events, which start at the given index of the history: no
/// proof for no events, else a sound proof of these events at their indices.
pub open spec fn faithful_history_proof(history_proof: Option<ListProof>, events: Seq<Event>, start: u64) -> bool {
    if events.len() == 0 {
        history_proof is None
    } else {
        &&& history_proof matches Some(ListProof::Valid(proven))
        &&& proven@.len() == events.len()
        &&& forall|i: int|
            0 <= i < events.len() ==> (#[trigger] proven@[i]).event == events[i] && proven@[i].index
                == start + i
    }
}

/// Whether a proof for the unaccepted transfers is what a faithful storage
/// engine makes for the given hashes under the given root: a sound proof for
/// that root, which shows these hashes and no others to be present.
pub open spec fn faithful_unaccepted_proof(
    unaccepted_proof: MapProof<Digest, ()>,
    root: Digest,
    ids: Seq<Digest>,
) -> bool {
    &&& unaccepted_proof matches MapProof::Checked(checked)
    &&& checked.root == root
    &&& all_proven(checked.entries@, ids)
    &&& all_listed(checked.entries@, ids)
}

/// Whether the contents of a wallet proof are what a node gathers from the
/// ledger for the query, with faithful proofs of the storage engine for the
/// wallet that the proof shows.
pub open spec fn faithful_contents(
    state: LedgerState,
    query: WalletQuery,
    wallet: Wallet,
    contents: WalletContentsProof,
) -> bool {
    let events = history_from(state.history(query.key), query.start_history_at);
    let ids = state.unaccepted(query.key);
    &&& event_views(contents.history@) == full_events(state, events)
    &&& transfer_views(contents.unaccepted_transfers@) == resolved_transfers(state, ids)
    &&& faithful_history_proof(contents.history_proof, events, query.start_history_at)
    &&& faithful_unaccepted_proof(
        contents.unaccepted_transfers_proof,
        wallet.unaccepted_transfers_hash,
        ids,
    )
}

/// The contents that a node gathers from its ledger, with faithful proofs of
/// the storage engine, pass the check of a thin client.
pub proof fn lemma_contents_round_trip(
    state: LedgerState,
    query: WalletQuery,
    wallet: Wallet,
    contents: WalletContentsProof,
)
    requires
        state.consistent(),
        faithful_contents(state, query, wallet, contents),
    ensures
        contents.verdict(wallet, query) is Ok,
{
    let events = history_from(state.history(query.key), query.start_history_at);
    let ids = state.unaccepted(query.key);
    lemma_consistent_resolves(state, query.key, query.start_history_at);
    lemma_full_events_resolved(state, events);
    lemma_transfers_resolved(state, ids);
    let history = contents.history@;
    assert(history.len() == event_views(history).len());
    assert(history.len() == events.len());
    if events.len() == 0 {
        assert(contents.proven_events() == Ok::<Seq<ProvenEvent>, VerifyError>(Seq::empty()));
        assert(history_matches(Seq::empty(), history, query.start_history_at));
    } else {
        let proven = contents.history_proof->0->Valid_0@;
        assert(contents.proven_events() == Ok::<Seq<ProvenEvent>, VerifyError>(proven));
        assert forall|i: int| 0 <= i < history.len() implies (#[trigger] history[i])@.corresponds_to(
            proven[i].event,
        ) by {
            assert(event_views(history)[i] == history[i]@);
            assert(full_events(state, events)[i].corresponds_to(events[i]));
        }
        assert(proven[0].index == query.start_history_at + 0);
        assert(history_matches(proven, history, query.start_history_at));
    }
    let transfers = contents.unaccepted_transfers@;
    let hashes = transfer_hashes(transfers);
    assert(transfers.len() == transfer_views(transfers).len());
    assert(hashes =~= ids) by {
        assert forall|i: int| 0 <= i < ids.len() implies hashes[i] == ids[i] by {
            assert(transfer_views(transfers)[i] == transfers[i]@);
            assert(resolved_transfers(state, ids)[i].hash == ids[i]);
        }
    }
}

/// A wallet proof that a node puts together from its ledger passes the check
/// of a thin client and shows the wallet as the ledger has it, provided that
/// the block is authorized by the validators that the client trusts and that
/// the storage engine made faithful proofs. With the
/// contract of `check`, the client then gets what direct queries on the ledger
/// give.
pub proof fn lemma_wallet_proof_round_trip(
    state: LedgerState,
    query: WalletQuery,
    wallet_proof: WalletProof,
    validators: Seq<PublicKey>,
    table_key: Digest,
    signatures_valid: Seq<bool>,
    wallets_root: Digest,
    wallet: Option<Wallet>,
)
    requires
        state.consistent(),
        block_verdict(validators, wallet_proof.block_proof.precommits@, signatures_valid) is Ok,
        single_key_verdict(
            wallet_proof.wallet_table_proof,
            wallet_proof.block_proof.block.state_hash,
            table_key,
            ProofDescription::WalletsTable,
        ) == Ok::<Option<Digest>, VerifyError>(Some(wallets_root)),
        single_key_verdict(
            wallet_proof.wallet_proof,
            wallets_root,
            query.key,
            ProofDescription::Wallet,
        ) == Ok::<Option<Wallet>, VerifyError>(wallet),
        wallet is Some <==> state.wallet(query.key) is Some,
        wallet is Some ==> wallet->0@ == state.wallet(query.key)->0,
        wallet_proof.wallet_contents is Some <==> state.wallet(query.key) is Some,
        wallet_proof.wallet_contents is Some ==> faithful_contents(
            state,
            query,
            wallet->0,
            wallet_proof.wallet_contents->0,
        ),
    ensures
        wallet_proof.verdict(validators, query, table_key, signatures_valid) == Ok::<
            Option<Wallet>,
            VerifyError,
        >(wallet),
{
    if wallet is Some {
        lemma_contents_round_trip(state, query, wallet->0, wallet_proof.wallet_contents->0);
    }
}

/// The public interface of the service.
#[derive(Debug, Clone, Copy, PartialEq, Eq, Structural)]
pub enum Api {
    /// First version of the interface.
    V1,
}

impl Api {
    /// Returns information about a single wallet. The information is
    /// supported with cryptographic proofs, allowing client applications to
    /// minimize trust in their server peers.
    pub fn wallet(
        schema: &Schema,
        query: WalletQuery,
        block_proof: BlockProof,
        wallet_table_proof: MapProof<Digest, Digest>,
        wallet_proof: MapProof<PublicKey, Wallet>,
        history_proof: ListProof,
        unaccepted_transfers_proof: MapProof<Digest, ()>,
    ) -> (proof: WalletProof)
        requires
            schema.wf(),
        ensures
            proof.block_proof == block_proof,
            proof.wallet_table_proof == wallet_table_proof,
            proof.wallet_proof == wallet_proof,
            proof.wallet_contents is Some <==> schema@.wallet(query.key) is Some,
            proof.wallet_contents is Some ==> {
                let contents = proof.wallet_contents->0;
                &&& event_views(contents.history@) == full_events(
                    schema@,
                    history_from(schema@.history(query.key), query.start_history_at),
                )
                &&& transfer_views(contents.unaccepted_transfers@) == resolved_transfers(
                    schema@,
                    schema@.unaccepted(query.key),
                )
                &&& contents.history_proof == (if contents.history@.len() == 0 {
                    None
                } else {
                    Some(history_proof)
                })
                &&& contents.unaccepted_transfers_proof == unaccepted_transfers_proof
                &&& gathered(schema@, query, contents)
            },
    {
        WalletProof::new(
            schema,
            &query,
            block_proof,
            wallet_table_proof,
            wallet_proof,
            history_proof,
            unaccepted_transfers_proof,
        )
    }

    /// Accepts a transaction for processing, and answers with its hash.
    pub fn transaction(transaction: &Transactions) -> (hash: Digest)
        ensures
            hash == transaction@.hash(),
    {
        transaction.hash()
    }
}

} // verus!
