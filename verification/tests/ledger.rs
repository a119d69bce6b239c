//! Tests for the transaction logic of the service, for the wallet proofs that
//! it hands out, and for its debugger tap. The tests play the host: they make
//! up keys and hashes, compute toy roots for the Merkelized tables, and put
//! the transactions into blocks.

use std::collections::HashMap;

use private_currency::api::{
    CheckedMapProof, CheckedWalletProof, FullEvent, ListProof, ListProofError, MapProof,
    MapProofEntry, MapProofError, ProofDescription, ProvenEvent, VerifyError, WalletProof,
    WalletQuery,
};
use private_currency::crypto::{Commitment, Digest, Opening, PublicKey, SecretKey, SimpleRangeProof};
use private_currency::debug::AfterCommit;
use private_currency::ledger::Roots;
use private_currency::storage::{
    Account, Event, RollbackBucket, Schema, Stored, Wallet, WalletInfo,
};
use private_currency::transactions::{Accept, CreateWallet, Error, Transactions, Transfer};
use private_currency::utils::{Block, BlockProof, BlockVerifyError, Precommit, TrustAnchor};
use private_currency::{
    DebugEvent, DebuggerOptions, DebuggerProbe, EncryptedData, SecretState, INITIAL_BALANCE,
};

const ROLLBACK_DELAY: u32 = 10;

/// Mixes bytes into a digest. Nothing about it is cryptographic.
fn toy_digest(seed: u64, bytes: &[u8]) -> Digest {
    let mut state = [seed ^ 0x9e37_79b9_7f4a_7c15, 0x6a09_e667_f3bc_c908, 0xbb67_ae85_84ca_a73b, 0x3c6e_f372_fe94_f82b];
    for (i, byte) in bytes.iter().enumerate() {
        let lane = i % 4;
        state[lane] = (state[lane] ^ u64::from(*byte))
            .wrapping_mul(0x0000_0100_0000_01b3)
            .rotate_left(17);
        state[(lane + 1) % 4] ^= state[lane];
    }
    let mut out = [0_u8; 32];
    for (lane, word) in state.iter().enumerate() {
        out[lane * 8..lane * 8 + 8].copy_from_slice(&word.to_le_bytes());
    }
    Digest::new(out)
}

/// Root of a list of hashes, as the storage engine of the tests computes it.
/// The root of an empty table is zero.
fn root_of_hashes(hashes: &[Digest]) -> Digest {
    if hashes.is_empty() {
        return Digest::zero();
    }
    let mut sorted: Vec<[u8; 32]> = hashes.iter().map(|hash| *hash.as_bytes()).collect();
    sorted.sort();
    let bytes: Vec<u8> = sorted.iter().flat_map(|hash| hash.iter().cloned()).collect();
    toy_digest(1, &bytes)
}

/// Root of a history, as the storage engine of the tests computes it.
fn root_of_events(events: &[Event]) -> Digest {
    if events.is_empty() {
        return Digest::zero();
    }
    let mut bytes = vec![];
    for event in events {
        bytes.push(event.tag());
        bytes.extend_from_slice(event.transaction_hash().as_bytes());
    }
    toy_digest(2, &bytes)
}

/// Root of the wallets table, as the storage engine of the tests computes it.
fn root_of_wallets(wallets: &[Wallet]) -> Digest {
    let mut bytes = vec![];
    for wallet in wallets {
        bytes.extend_from_slice(wallet.public_key().as_bytes());
        bytes.extend_from_slice(&wallet.balance().to_bytes());
        bytes.extend_from_slice(&wallet.history_len().to_le_bytes());
        bytes.extend_from_slice(&wallet.last_send_index().to_le_bytes());
        bytes.extend_from_slice(wallet.history_hash().as_bytes());
        bytes.extend_from_slice(wallet.unaccepted_transfers_hash().as_bytes());
    }
    toy_digest(3, &bytes)
}

/// The key of the wallets table among the tables of the blockchain state.
fn table_key() -> Digest {
    toy_digest(4, &[0xd0, 0x07, 0, 0])
}

/// A wallet owner as the tests see her: the secret state, and a counter for
/// the hashes of her transactions.
struct Owner {
    secrets: SecretState,
    /// What the host knows of the opening of the balance, from the openings
    /// that it unsealed.
    balance: Opening,
    sent: u64,
}

impl Owner {
    fn new(id: u8) -> Self {
        let verifying_key = PublicKey::new(*toy_digest(5, &[id]).as_bytes());
        let signing_key = SecretKey::new([id; 64]);
        Owner {
            secrets: SecretState::from_keypair(verifying_key, signing_key),
            balance: Opening::with_no_blinding(INITIAL_BALANCE),
            sent: 0,
        }
    }

    /// Creates a transfer whose proof for the amount is borrowed from another
    /// transfer, for ledgers that do not look at it.
    fn create_transfer_with_spare_proof(
        &mut self,
        amount: u64,
        receiver: &PublicKey,
        rollback_delay: u32,
        spare: &SimpleRangeProof,
    ) -> Transfer {
        assert_eq!(self.secrets.check_transfer(amount, receiver, rollback_delay), None);
        assert!(self.secrets.corresponds_to(&WalletInfo {
            public_key: self.public_key(),
            balance: Commitment::from_opening(&self.balance),
        }));
        let opening = Opening::with_random_blinding(amount);
        let rest = self.balance.checked_sub(&opening).expect("balance");
        let draft = self
            .secrets
            .draft_transfer(
                receiver,
                rollback_delay,
                opening,
                Some(spare.clone()),
                SimpleRangeProof::prove(&rest),
            )
            .expect("creating transfer failed");
        let sealed = EncryptedData::new(&[7_u8; 24], &draft.opening.to_bytes());
        let hash = self.next_hash();
        draft.seal(sealed, &hash)
    }

    fn public_key(&self) -> PublicKey {
        *self.secrets.public_key()
    }

    fn next_hash(&mut self) -> Digest {
        self.sent += 1;
        let mut bytes = self.public_key().as_bytes().to_vec();
        bytes.extend_from_slice(&self.sent.to_le_bytes());
        toy_digest(6, &bytes)
    }

    fn create_wallet(&mut self) -> CreateWallet {
        let hash = self.next_hash();
        self.secrets.create_wallet(&hash)
    }

    /// Creates a transfer as the host would: the opening of the amount is
    /// sealed (here: copied) for the receiver, and the transfer gets a hash.
    fn create_transfer(&mut self, amount: u64, receiver: &PublicKey, rollback_delay: u32) -> Transfer {
        let draft = self
            .secrets
            .create_transfer(amount, receiver, rollback_delay)
            .expect("creating transfer failed");
        let sealed = EncryptedData::new(&[7_u8; 24], &draft.opening.to_bytes());
        let hash = self.next_hash();
        draft.seal(sealed, &hash)
    }

    /// Opens the sealed data of a transfer as the host would.
    fn open(transfer: &Transfer) -> Vec<u8> {
        transfer.encrypted_data().encrypted_data().to_vec()
    }

    fn verify_transfer(&mut self, transfer: &Transfer) -> Option<(u64, Accept)> {
        let plaintext = Self::open(transfer);
        let verified = self
            .secrets
            .verify_transfer(transfer, Some(plaintext.as_slice()))?;
        let hash = self.next_hash();
        let accept = Accept::new(&self.public_key(), &verified.transfer_id, &hash);
        Some((verified.value(), accept))
    }

    fn transfer(&mut self, transfer: &Transfer) {
        let plaintext = Self::open(transfer);
        assert!(self.secrets.try_transfer(transfer, &plaintext));
        let opening = Opening::from_slice(&plaintext).expect("opening");
        self.balance = if *transfer.from() == self.public_key() {
            self.balance.checked_sub(&opening).expect("balance")
        } else {
            self.balance.checked_add(&opening).expect("balance")
        };
    }

    fn rollback(&mut self, transfer: &Transfer) {
        let plaintext = Self::open(transfer);
        assert!(self.secrets.try_rollback(transfer, &plaintext));
        let opening = Opening::from_slice(&plaintext).expect("opening");
        self.balance = self.balance.checked_add(&opening).expect("balance");
    }
}

/// A blockchain with the service on it, as the tests see it.
struct TestKit {
    schema: Schema,
    probe: Option<DebuggerProbe>,
    debug_events: Vec<DebugEvent>,
    invariant_reports: Vec<bool>,
}

impl TestKit {
    fn new() -> Self {
        TestKit {
            schema: Schema::new(),
            probe: None,
            debug_events: vec![],
            invariant_reports: vec![],
        }
    }

    fn with_debugger(options: DebuggerOptions) -> Self {
        let mut testkit = Self::new();
        testkit.probe = Some(DebuggerProbe::new(options));
        testkit
    }

    fn height(&self) -> u64 {
        self.schema.height()
    }

    fn execute(&mut self, transaction: &Transactions) -> Result<(), Error> {
        match transaction {
            Transactions::CreateWallet(tx) => {
                let mut history = self.schema.history(tx.key());
                history.push(Event::create_wallet(&tx.hash()));
                let roots = Roots::new(root_of_events(&history), Digest::zero());
                tx.execute(&mut self.schema, &roots)
            }
            Transactions::Transfer(tx) => {
                let mut history = self.schema.history(tx.from());
                history.push(Event::transfer(&tx.hash()));
                let mut unaccepted = self.schema.unaccepted_transfers(tx.to());
                if !unaccepted.contains(&tx.hash()) {
                    unaccepted.push(tx.hash());
                }
                let roots = Roots::new(root_of_events(&history), root_of_hashes(&unaccepted));
                assert!(self.schema.height() < u64::MAX - 2 - u64::from(tx.rollback_delay()));
                tx.execute(&mut self.schema, &roots)
            }
            Transactions::Accept(tx) => {
                let mut history = self.schema.history(tx.receiver());
                history.push(Event::transfer(tx.transfer_id()));
                let mut unaccepted = self.schema.unaccepted_transfers(tx.receiver());
                unaccepted.retain(|id| id != tx.transfer_id());
                let roots = Roots::new(root_of_events(&history), root_of_hashes(&unaccepted));
                tx.execute(&mut self.schema, &roots)
            }
        }
    }

    /// Rolls back the transfers that expire with the block that is being put
    /// together, with the roots that the tables have after each of them.
    fn before_commit(&mut self) {
        if let Some(probe) = &self.probe {
            probe.on_before_commit(&mut self.schema);
        }
        let ids = self.schema.rollback_transfers(self.schema.height() + 1);
        let mut histories: HashMap<PublicKey, Vec<Event>> = HashMap::new();
        let mut unaccepted: HashMap<PublicKey, Vec<Digest>> = HashMap::new();
        let mut roots = vec![];
        for id in &ids {
            let transfer = self.schema.maybe_transfer(id).expect("Transfer");
            let schema = &self.schema;
            let history = histories
                .entry(*transfer.from())
                .or_insert_with(|| schema.history(transfer.from()));
            history.push(Event::rollback(id));
            let history_root = root_of_events(history);
            let waiting = unaccepted
                .entry(*transfer.to())
                .or_insert_with(|| schema.unaccepted_transfers(transfer.to()));
            waiting.retain(|other| other != id);
            roots.push(Roots::new(history_root, root_of_hashes(waiting)));
        }
        self.schema.do_rollback(&roots);
    }

    fn after_commit(&mut self) {
        let height = self.schema.height();
        if let Some(probe) = &mut self.probe {
            let AfterCommit { invariants_hold, events } = probe.on_after_commit(&self.schema, height);
            if let Some(holds) = invariants_hold {
                self.invariant_reports.push(holds);
            }
            self.debug_events.extend(events);
            probe.delivered(true);
        }
    }

    fn create_block_with_transactions(&mut self, transactions: Vec<Transactions>) -> Vec<Result<(), Error>> {
        let results = transactions.iter().map(|tx| self.execute(tx)).collect();
        self.before_commit();
        self.schema.commit_block();
        self.after_commit();
        assert!(self.schema.check_invariants());
        results
    }

    fn create_block_with_transaction(&mut self, transaction: Transactions) -> Vec<Result<(), Error>> {
        self.create_block_with_transactions(vec![transaction])
    }

    fn create_block(&mut self) {
        self.create_block_with_transactions(vec![]);
    }

    fn create_blocks_until(&mut self, height: u64) {
        while self.height() < height {
            self.create_block();
        }
    }

    /// The wallets of the given owners, in this order.
    fn wallets(&self, keys: &[PublicKey]) -> Vec<Wallet> {
        keys.iter().filter_map(|key| self.schema.wallet(key)).collect()
    }

    /// Makes the proof for a wallet as a node would, with the Merkle proofs
    /// of the storage engine of the tests.
    fn wallet_proof(&self, all_keys: &[PublicKey], query: &WalletQuery) -> WalletProof {
        let wallets_root = root_of_wallets(&self.wallets(all_keys));
        let state_hash = toy_digest(7, wallets_root.as_bytes());
        let block = Block::new(0, self.height(), 0, &Digest::zero(), &Digest::zero(), &state_hash);
        let block_hash = toy_digest(8, state_hash.as_bytes());
        let precommit = Precommit::new(0, self.height(), 1, &Digest::zero(), &block_hash);
        let block_proof = BlockProof { block, precommits: vec![precommit] };
        let wallet_table_proof = MapProof::Checked(CheckedMapProof {
            root: state_hash,
            entries: vec![MapProofEntry { key: table_key(), value: Some(wallets_root) }],
        });
        let wallet = self.schema.wallet(&query.key);
        let wallet_proof = MapProof::Checked(CheckedMapProof {
            root: wallets_root,
            entries: vec![MapProofEntry { key: query.key, value: wallet }],
        });
        let history = self.schema.history(&query.key);
        let proven = history
            .iter()
            .enumerate()
            .skip(query.start_history_at as usize)
            .map(|(index, event)| ProvenEvent { index: index as u64, event: *event })
            .collect();
        let unaccepted = self.schema.unaccepted_transfers(&query.key);
        let unaccepted_proof = MapProof::Checked(CheckedMapProof {
            root: root_of_hashes(&unaccepted),
            entries: unaccepted
                .iter()
                .map(|id| MapProofEntry { key: *id, value: Some(()) })
                .collect(),
        });
        WalletProof::new(
            &self.schema,
            query,
            block_proof,
            wallet_table_proof,
            wallet_proof,
            ListProof::Valid(proven),
            unaccepted_proof,
        )
    }
}

fn trust_anchor() -> TrustAnchor {
    TrustAnchor::new(vec![PublicKey::new([9; 32])])
}

fn wallet(testkit: &TestKit, all_keys: &[PublicKey], key: PublicKey, start_history_at: u64) -> CheckedWalletProof {
    let query = WalletQuery { key, start_history_at };
    let wallet_proof = testkit.wallet_proof(all_keys, &query);
    wallet_proof
        .check(&trust_anchor(), &query, &table_key(), &[true])
        .unwrap()
}

fn same_hashes(left: &[Digest], right: &[Digest]) -> bool {
    left.iter().all(|hash| right.contains(hash)) && right.iter().all(|hash| left.contains(hash))
}

#[test]
fn create_2wallets_and_transfer_between_them() {
    let mut testkit = TestKit::new();

    let mut alice_sec = Owner::new(1);
    let mut bob_sec = Owner::new(2);

    let create_wallet_for_alice = alice_sec.create_wallet();
    testkit.create_block_with_transactions(vec![
        Transactions::CreateWallet(create_wallet_for_alice),
        Transactions::CreateWallet(bob_sec.create_wallet()),
    ]);

    let alice = testkit
        .schema
        .wallet(&alice_sec.public_key())
        .expect("alice's wallet");
    assert!(alice
        .balance()
        .verify(&Opening::with_no_blinding(INITIAL_BALANCE)));
    assert!(testkit.schema.wallet(&bob_sec.public_key()).is_some());

    // Check that `CreateWallet` transactions are properly recorded in wallet history.
    assert_eq!(
        testkit.schema.history(alice.public_key()),
        vec![Event::create_wallet(&create_wallet_for_alice.hash())]
    );
    alice_sec.secrets.initialize();
    assert_eq!(alice_sec.secrets.to_public(), alice.info());

    let transfer_amount = INITIAL_BALANCE / 3;
    assert_eq!(transfer_amount, 333_333);
    let transfer = alice_sec.create_transfer(transfer_amount, &bob_sec.public_key(), 10);
    testkit.create_block_with_transaction(Transactions::Transfer(transfer.clone()));
    // The height of the block in which the transfer is committed.
    let commit_height = testkit.height();
    assert_eq!(commit_height, 2);

    // The Alice's balance should change immediately.
    let alice = testkit
        .schema
        .wallet(&alice_sec.public_key())
        .expect("Alice's wallet");
    assert!(!alice
        .balance()
        .verify(&Opening::with_no_blinding(INITIAL_BALANCE)));
    // Bob's balance, OTOH, should be intact.
    let bob = testkit
        .schema
        .wallet(&bob_sec.public_key())
        .expect("Bob's wallet");
    assert!(bob
        .balance()
        .verify(&Opening::with_no_blinding(INITIAL_BALANCE)));

    assert_eq!(
        testkit.schema.history(alice.public_key()),
        vec![
            Event::create_wallet(&create_wallet_for_alice.hash()),
            Event::transfer(&transfer.hash()),
        ]
    );
    alice_sec.transfer(&transfer);
    assert_eq!(alice_sec.secrets.to_public(), alice.info());
    assert_eq!(alice_sec.secrets.balance(), 666_667);

    // Check that Bob will be notified about the payment
    let hashes = testkit.schema.unaccepted_transfers(bob.public_key());
    assert_eq!(hashes, vec![transfer.hash()]);
    assert_eq!(
        testkit.schema.rollback_transfers(commit_height + 11),
        vec![transfer.hash()]
    );
    assert_eq!(testkit.schema.rollback_transfers(13), vec![transfer.hash()]);
    for height in 0..13 {
        assert!(testkit.schema.rollback_transfers(height).is_empty());
    }
    assert!(testkit.schema.rollback_transfers(14).is_empty());
}

#[test]
fn answering_payment() {
    let mut testkit = TestKit::new();

    let mut alice_sec = Owner::new(1);
    let mut bob_sec = Owner::new(2);
    alice_sec.secrets.initialize();
    bob_sec.secrets.initialize();
    let transfer_amount = INITIAL_BALANCE / 3;
    let transfer = alice_sec.create_transfer(transfer_amount, &bob_sec.public_key(), ROLLBACK_DELAY);

    let block = testkit.create_block_with_transactions(vec![
        Transactions::CreateWallet(alice_sec.create_wallet()),
        Transactions::CreateWallet(bob_sec.create_wallet()),
        Transactions::Transfer(transfer.clone()),
    ]);
    assert!(block.iter().all(|status| status.is_ok()));
    // Check that the transfer is in pending rollbacks at appropriate height.
    let rollback_height = testkit.height() + 1 + u64::from(ROLLBACK_DELAY);
    assert_eq!(
        testkit.schema.rollback_transfers(rollback_height),
        vec![transfer.hash()]
    );

    // Bob verifies the incoming transfer (successfully).
    let (value, accept) = bob_sec.verify_transfer(&transfer).expect("verify_transfer");
    assert_eq!(value, transfer_amount);
    // Bob sends `Accept` in response.
    let block = testkit.create_block_with_transaction(Transactions::Accept(accept));
    assert_eq!(block, vec![Ok(())]);

    let bob_history = testkit.schema.history(&bob_sec.public_key());
    assert_eq!(bob_history.len(), 2);
    assert_eq!(bob_history[1], Event::transfer(&transfer.hash()));
    assert!(testkit
        .schema
        .unaccepted_transfers(&bob_sec.public_key())
        .is_empty());
    // The transfer should no longer be in pending rollbacks.
    assert!(testkit.schema.rollback_transfers(rollback_height).is_empty());

    // Seeing the `Accept` transaction confirmed, Bob can safely modify his state.
    bob_sec.transfer(&transfer);
    assert_eq!(bob_sec.secrets.balance(), INITIAL_BALANCE + transfer_amount);
    assert_eq!(bob_sec.secrets.balance(), 1_333_333);
    let bob = testkit
        .schema
        .wallet(&bob_sec.public_key())
        .expect("Bob's wallet")
        .info();
    assert!(bob_sec.secrets.corresponds_to(&bob));
}

#[test]
fn automatic_rollback() {
    let mut testkit = TestKit::new();

    let mut alice_sec = Owner::new(1);
    let mut bob_sec = Owner::new(2);
    alice_sec.secrets.initialize();
    bob_sec.secrets.initialize();
    let transfer_amount = INITIAL_BALANCE / 3;
    let transfer = alice_sec.create_transfer(transfer_amount, &bob_sec.public_key(), ROLLBACK_DELAY);

    testkit.create_block_with_transactions(vec![
        Transactions::CreateWallet(alice_sec.create_wallet()),
        Transactions::CreateWallet(bob_sec.create_wallet()),
        Transactions::Transfer(transfer.clone()),
    ]);
    alice_sec.transfer(&transfer);
    let rollback_height = testkit.height() + 1 + u64::from(ROLLBACK_DELAY);
    assert_eq!(testkit.schema.rollback_transfers(rollback_height), vec![transfer.hash()]);
    // The block before the one of the rollback leaves the transfer waiting...
    testkit.create_blocks_until(rollback_height - 1);
    assert_eq!(testkit.schema.history(&alice_sec.public_key()).len(), 2);
    assert_eq!(testkit.schema.unaccepted_transfers(&bob_sec.public_key()), vec![transfer.hash()]);
    // ...and the block of that height rolls it back.
    testkit.create_blocks_until(rollback_height);
    assert_eq!(testkit.schema.history(&alice_sec.public_key()).len(), 3);
    testkit.create_blocks_until(rollback_height + 1);

    let bob_history = testkit.schema.history(&bob_sec.public_key());
    assert_eq!(bob_history.len(), 1);
    let alice_history = testkit.schema.history(&alice_sec.public_key());
    assert_eq!(alice_history.len(), 3);
    assert_eq!(alice_history[2], Event::rollback(&transfer.hash()));

    assert!(testkit.schema.rollback_transfers(rollback_height).is_empty());
    assert!(testkit
        .schema
        .unaccepted_transfers(&bob_sec.public_key())
        .is_empty());

    // Seeing the rollback, Alice updates its state.
    alice_sec.rollback(&transfer);
    assert_eq!(alice_sec.secrets.balance(), INITIAL_BALANCE);
    let alice = testkit
        .schema
        .wallet(&alice_sec.public_key())
        .expect("Alice's wallet")
        .info();
    assert!(alice_sec.secrets.corresponds_to(&alice));
}

#[test]
fn unauthorized_accept() {
    let mut testkit = TestKit::new();

    let mut alice_sec = Owner::new(1);
    let mut bob_sec = Owner::new(2);
    let pk = alice_sec.public_key();
    alice_sec.secrets.initialize();
    bob_sec.secrets.initialize();
    let transfer_amount = INITIAL_BALANCE / 3;
    let transfer = alice_sec.create_transfer(transfer_amount, &bob_sec.public_key(), 10);

    testkit.create_block_with_transactions(vec![
        Transactions::CreateWallet(alice_sec.create_wallet()),
        Transactions::CreateWallet(bob_sec.create_wallet()),
        Transactions::Transfer(transfer.clone()),
    ]);

    let accept = Accept::new(&pk, &transfer.hash(), &alice_sec.next_hash());
    let bob_before = testkit.schema.wallet(&bob_sec.public_key());
    let alice_before = testkit.schema.wallet(&pk);
    let block = testkit.create_block_with_transaction(Transactions::Accept(accept));
    assert_eq!(block[0].unwrap_err(), Error::UnauthorizedAccept);
    assert_eq!(block[0].unwrap_err().code(), 7);
    let bob_wallet = testkit
        .schema
        .wallet(&bob_sec.public_key())
        .expect("Bob's wallet");
    assert!(bob_wallet
        .balance()
        .verify(&Opening::with_no_blinding(INITIAL_BALANCE)));
    assert!(testkit
        .schema
        .unaccepted_transfers(&bob_sec.public_key())
        .contains(&transfer.hash()));
    assert_eq!(testkit.schema.wallet(&bob_sec.public_key()), bob_before);
    assert_eq!(testkit.schema.wallet(&pk), alice_before);
}

fn accept_several_transfers(accept_fn: fn(&mut TestKit, &Accept, &Accept)) {
    let mut testkit = TestKit::new();
    let mut alice_sec = Owner::new(1);
    let mut bob_sec = Owner::new(2);
    let mut carol_sec = Owner::new(3);

    testkit.create_block_with_transactions(vec![
        Transactions::CreateWallet(alice_sec.create_wallet()),
        Transactions::CreateWallet(bob_sec.create_wallet()),
        Transactions::CreateWallet(carol_sec.create_wallet()),
    ]);
    alice_sec.secrets.initialize();
    bob_sec.secrets.initialize();
    carol_sec.secrets.initialize();

    let transfer_from_alice = alice_sec.create_transfer(1_000, &carol_sec.public_key(), 10);
    let transfer_from_bob = bob_sec.create_transfer(2_000, &carol_sec.public_key(), 15);

    let block = testkit.create_block_with_transactions(vec![
        Transactions::Transfer(transfer_from_alice.clone()),
        Transactions::Transfer(transfer_from_bob.clone()),
    ]);
    assert!(block.iter().all(|status| status.is_ok()));

    assert!(same_hashes(
        &testkit.schema.unaccepted_transfers(&carol_sec.public_key()),
        &[transfer_from_alice.hash(), transfer_from_bob.hash()]
    ));

    let accept_alice = carol_sec
        .verify_transfer(&transfer_from_alice)
        .expect("accept_alice")
        .1;
    let accept_bob = carol_sec
        .verify_transfer(&transfer_from_bob)
        .expect("accept_bob")
        .1;

    accept_fn(&mut testkit, &accept_alice, &accept_bob);

    assert!(testkit
        .schema
        .unaccepted_transfers(&carol_sec.public_key())
        .is_empty());
    let history = testkit.schema.history(&carol_sec.public_key());
    assert_eq!(history.len(), 3);

    let expected_events = vec![
        Event::transfer(&transfer_from_alice.hash()),
        Event::transfer(&transfer_from_bob.hash()),
    ];
    assert!(expected_events.iter().all(|event| history[1..].contains(event)));
    assert!(history[1..].iter().all(|event| expected_events.contains(event)));

    carol_sec.transfer(&transfer_from_alice);
    carol_sec.transfer(&transfer_from_bob);
    let carol_wallet = testkit
        .schema
        .wallet(&carol_sec.public_key())
        .expect("Carol's wallet")
        .info();
    assert_eq!(carol_sec.secrets.balance(), INITIAL_BALANCE + 3_000);
    assert!(carol_sec.secrets.corresponds_to(&carol_wallet));
}

fn accept_in_single_block(testkit: &mut TestKit, accept_alice: &Accept, accept_bob: &Accept) {
    let block = testkit.create_block_with_transactions(vec![
        Transactions::Accept(*accept_alice),
        Transactions::Accept(*accept_bob),
    ]);
    assert!(block.iter().all(|status| status.is_ok()));
}

fn accept_in_single_block_unordered(testkit: &mut TestKit, accept_alice: &Accept, accept_bob: &Accept) {
    let block = testkit.create_block_with_transactions(vec![
        Transactions::Accept(*accept_bob),
        Transactions::Accept(*accept_alice),
    ]);
    assert!(block.iter().all(|status| status.is_ok()));
}

fn accept_in_multiple_blocks(testkit: &mut TestKit, accept_alice: &Accept, accept_bob: &Accept) {
    let block = testkit.create_block_with_transaction(Transactions::Accept(*accept_alice));
    assert!(block.iter().all(|status| status.is_ok()));
    testkit.create_block();
    let block = testkit.create_block_with_transaction(Transactions::Accept(*accept_bob));
    assert!(block.iter().all(|status| status.is_ok()));
}

fn accept_in_multiple_blocks_unordered(testkit: &mut TestKit, accept_alice: &Accept, accept_bob: &Accept) {
    let block = testkit.create_block_with_transaction(Transactions::Accept(*accept_bob));
    assert!(block.iter().all(|status| status.is_ok()));
    testkit.create_block();
    testkit.create_block();
    let block = testkit.create_block_with_transaction(Transactions::Accept(*accept_alice));
    assert!(block.iter().all(|status| status.is_ok()));
}

#[test]
fn accept_several_transfers_in_single_block() {
    accept_several_transfers(accept_in_single_block);
}

#[test]
fn accept_several_transfers_in_single_block_unordered() {
    accept_several_transfers(accept_in_single_block_unordered);
}

#[test]
fn accept_several_transfers_in_multiple_blocks() {
    accept_several_transfers(accept_in_multiple_blocks);
}

#[test]
fn accept_several_transfers_in_multiple_blocks_unordered() {
    accept_several_transfers(accept_in_multiple_blocks_unordered);
}

#[test]
fn expired_transfers_are_removed_from_indexes() {
    let mut testkit = TestKit::new();
    let mut alice_sec = Owner::new(1);
    let mut bob_sec = Owner::new(2);
    let bob_pk = bob_sec.public_key();

    testkit.create_block_with_transactions(vec![
        Transactions::CreateWallet(alice_sec.create_wallet()),
        Transactions::CreateWallet(bob_sec.create_wallet()),
    ]);
    alice_sec.secrets.initialize();
    bob_sec.secrets.initialize();

    let transfer = alice_sec.create_transfer(1_000, &bob_pk, 5);
    testkit.create_block_with_transaction(Transactions::Transfer(transfer.clone()));
    assert_eq!(testkit.schema.rollback_transfers(8).len(), 1);
    assert!(testkit.schema.rollback_transfers(7).is_empty());
    let bob_wallet = testkit.schema.wallet(&bob_pk).expect("Bob's wallet");
    assert_ne!(*bob_wallet.unaccepted_transfers_hash(), Digest::zero());

    // Wait until the transfer is rolled back.
    testkit.create_blocks_until(10);

    assert_eq!(testkit.schema.history(&bob_pk).len(), 1);
    assert!(testkit.schema.unaccepted_transfers(&bob_pk).is_empty());
    assert!(testkit.schema.rollback_transfers(6).is_empty());
    assert!(testkit.schema.rollback_transfers(7).is_empty());
    assert!(testkit.schema.rollback_transfers(8).is_empty());
    // As there are not unaccepted transfers now, the corresponding field in the Bob's wallet
    // should be zeroed.
    let bob_wallet = testkit.schema.wallet(&bob_pk).expect("Bob's wallet");
    assert_eq!(*bob_wallet.unaccepted_transfers_hash(), Digest::zero());
}

#[test]
fn concurrent_sends_from_same_wallet_fail() {
    let mut testkit = TestKit::new();
    let mut alice_sec = Owner::new(1);
    let mut bob_sec = Owner::new(2);
    let bob_pk = bob_sec.public_key();

    testkit.create_block_with_transactions(vec![
        Transactions::CreateWallet(alice_sec.create_wallet()),
        Transactions::CreateWallet(bob_sec.create_wallet()),
    ]);
    alice_sec.secrets.initialize();
    bob_sec.secrets.initialize();

    let transfer = alice_sec.create_transfer(100, &bob_pk, 10);
    let other_transfer = alice_sec.create_transfer(200, &bob_pk, 10);
    assert_eq!(transfer.history_len(), other_transfer.history_len());

    let block = testkit.create_block_with_transactions(vec![
        Transactions::Transfer(transfer.clone()),
        Transactions::Transfer(other_transfer.clone()),
    ]);
    assert!(block[0].is_ok());
    assert_eq!(block[1].unwrap_err(), Error::OutdatedHistory);
    assert_eq!(block[1].unwrap_err().code(), 4);

    alice_sec.transfer(&transfer);
    // The first entry in the past balance cache should be deleted.
    assert!(testkit
        .schema
        .past_balance(&alice_sec.public_key(), 0)
        .is_none());
    assert_eq!(
        testkit
            .schema
            .past_balance(&alice_sec.public_key(), 1)
            .unwrap(),
        alice_sec.secrets.to_public().balance,
    );
    // The effects of the first transfer remain.
    assert_eq!(testkit.schema.unaccepted_transfers(&bob_pk), vec![transfer.hash()]);
    assert_eq!(testkit.schema.history(&alice_sec.public_key()).len(), 2);
}

#[test]
fn send_based_on_outdated_wallet_state_works() {
    let mut testkit = TestKit::new();
    let mut alice_sec = Owner::new(1);
    let mut bob_sec = Owner::new(2);
    let alice_pk = alice_sec.public_key();
    let bob_pk = bob_sec.public_key();

    testkit.create_block_with_transactions(vec![
        Transactions::CreateWallet(alice_sec.create_wallet()),
        Transactions::CreateWallet(bob_sec.create_wallet()),
    ]);
    alice_sec.secrets.initialize();
    bob_sec.secrets.initialize();

    let alice_transfer1 = alice_sec.create_transfer(100, &bob_pk, 10);
    testkit.create_block_with_transaction(Transactions::Transfer(alice_transfer1.clone()));
    alice_sec.transfer(&alice_transfer1);
    // The ledger does not look at the proofs for the amounts, which take their time to make.
    let spare = alice_transfer1.amount_proof().clone();
    let alice_transfer2 = alice_sec.create_transfer_with_spare_proof(100, &bob_pk, 10, &spare);
    testkit.create_block_with_transaction(Transactions::Transfer(alice_transfer2.clone()));
    alice_sec.transfer(&alice_transfer2);

    let alice_wallet = testkit.schema.wallet(&alice_pk).expect("Alice's wallet");
    assert_eq!(alice_wallet.info(), alice_sec.secrets.to_public());

    // Suppose Bob doesn't know about any of incoming transfers.
    let bob_transfer1 = bob_sec.create_transfer_with_spare_proof(150, &alice_pk, 10, &spare);
    let block = testkit.create_block_with_transaction(Transactions::Transfer(bob_transfer1.clone()));
    assert!(block[0].is_ok());

    // ...Now, Bob partially synchronizes his state, receiving an event about `alice_transfer1`.
    let accept = bob_sec
        .verify_transfer(&alice_transfer1)
        .expect("verify_transfer")
        .1;
    testkit.create_block_with_transaction(Transactions::Accept(accept));

    // Bob fully synchronizes the state.
    bob_sec.transfer(&bob_transfer1);
    bob_sec.transfer(&alice_transfer1);
    let bob_wallet = testkit.schema.wallet(&bob_pk).expect("Bob's wallet");
    assert_eq!(bob_wallet.info(), bob_sec.secrets.to_public());
}

#[test]
fn send_based_on_outdated_wallet_state_after_refund_works() {
    let mut testkit = TestKit::new();
    let mut alice_sec = Owner::new(1);
    let mut bob_sec = Owner::new(2);
    let alice_pk = alice_sec.public_key();
    let bob_pk = bob_sec.public_key();

    testkit.create_block_with_transactions(vec![
        Transactions::CreateWallet(alice_sec.create_wallet()),
        Transactions::CreateWallet(bob_sec.create_wallet()),
    ]);
    alice_sec.secrets.initialize();
    bob_sec.secrets.initialize();

    let alice_transfer1 = alice_sec.create_transfer(100, &bob_pk, 5);
    testkit.create_block_with_transaction(Transactions::Transfer(alice_transfer1.clone()));
    alice_sec.transfer(&alice_transfer1);

    // Suppose Bob is offline, so he cannot accept the transfer.
    testkit.create_blocks_until(10);
    // Now, Alice has the transfer refunded, but she doesn't know about it.

    let alice_transfer2 = alice_sec.create_transfer(200, &bob_pk, 5);
    let block = testkit.create_block_with_transaction(Transactions::Transfer(alice_transfer2.clone()));
    assert!(block[0].is_ok());
    alice_sec.rollback(&alice_transfer1);
    alice_sec.transfer(&alice_transfer2);

    let accept = bob_sec
        .verify_transfer(&alice_transfer2)
        .expect("verify_transfer")
        .1;
    testkit.create_block_with_transaction(Transactions::Accept(accept));
    bob_sec.transfer(&alice_transfer2);

    let alice_wallet = testkit.schema.wallet(&alice_pk).expect("Alice's wallet");
    assert_eq!(alice_wallet.info(), alice_sec.secrets.to_public());
    assert_eq!(alice_sec.secrets.balance(), INITIAL_BALANCE - 200);
    let bob_wallet = testkit.schema.wallet(&bob_pk).expect("Bob's wallet");
    assert_eq!(bob_wallet.info(), bob_sec.secrets.to_public());
    assert_eq!(bob_sec.secrets.balance(), INITIAL_BALANCE + 200);
    // What the owners hold in secret adds up to what the wallets were given.
    assert_eq!(
        alice_sec.secrets.balance() + bob_sec.secrets.balance(),
        2 * INITIAL_BALANCE
    );
}

#[test]
fn debugger() {
    let mut testkit = TestKit::with_debugger(DebuggerOptions::default());

    let mut alice_sec = Owner::new(1);
    let mut bob_sec = Owner::new(2);
    let alice_pk = alice_sec.public_key();
    let bob_pk = bob_sec.public_key();

    testkit.create_block_with_transactions(vec![
        Transactions::CreateWallet(alice_sec.create_wallet()),
        Transactions::CreateWallet(bob_sec.create_wallet()),
    ]);
    alice_sec.secrets.initialize();
    bob_sec.secrets.initialize();

    let alice_transfer = alice_sec.create_transfer(100, &bob_pk, 5);
    let bob_transfer = bob_sec.create_transfer(200, &alice_pk, 7);
    testkit.create_block_with_transactions(vec![
        Transactions::Transfer(alice_transfer.clone()),
        Transactions::Transfer(bob_transfer.clone()),
    ]);
    testkit.create_blocks_until(10); // let both transfers expire

    assert_eq!(
        testkit.debug_events,
        vec![
            DebugEvent::RolledBack {
                transfer: alice_transfer,
                height: 8
            },
            DebugEvent::RolledBack {
                transfer: bob_transfer,
                height: 10
            },
        ]
    );
    assert!(testkit.invariant_reports.is_empty());
}

#[test]
fn debugger_checks_invariants_and_falls_silent() {
    let options = DebuggerOptions { check_invariants: true };
    let mut testkit = TestKit::with_debugger(options);
    let mut alice_sec = Owner::new(1);
    let mut bob_sec = Owner::new(2);
    let bob_pk = bob_sec.public_key();
    testkit.create_block_with_transactions(vec![
        Transactions::CreateWallet(alice_sec.create_wallet()),
        Transactions::CreateWallet(bob_sec.create_wallet()),
    ]);
    alice_sec.secrets.initialize();
    let transfer = alice_sec.create_transfer(100, &bob_pk, 5);
    testkit.create_block_with_transaction(Transactions::Transfer(transfer.clone()));
    assert_eq!(testkit.invariant_reports, vec![true, true]);

    // The debugger hangs up.
    let mut probe = testkit.probe.take().expect("probe");
    assert!(!probe.is_shutdown());
    probe.delivered(true);
    assert!(!probe.is_shutdown());
    probe.delivered(false);
    assert!(probe.is_shutdown());
    probe.delivered(true);
    assert!(probe.is_shutdown());
    testkit.probe = Some(probe);

    testkit.create_blocks_until(10);
    assert!(testkit.debug_events.is_empty());
    assert_eq!(testkit.invariant_reports, vec![true, true]);
    assert!(testkit.schema.rolled_back_transfers().is_empty());
    // The service itself is not affected.
    assert_eq!(testkit.schema.history(&alice_sec.public_key()).len(), 3);
}

#[test]
fn wallet_api() {
    let mut testkit = TestKit::new();

    let mut alice_sec = Owner::new(1);
    let alice_pk = alice_sec.public_key();
    let mut bob_sec = Owner::new(2);
    let mut carol_sec = Owner::new(3);
    let keys = [alice_pk, bob_sec.public_key(), carol_sec.public_key()];

    testkit.create_block_with_transactions(vec![
        Transactions::CreateWallet(alice_sec.create_wallet()),
        Transactions::CreateWallet(bob_sec.create_wallet()),
        Transactions::CreateWallet(carol_sec.create_wallet()),
    ]);
    alice_sec.secrets.initialize();
    bob_sec.secrets.initialize();
    carol_sec.secrets.initialize();

    let response = wallet(&testkit, &keys, alice_pk, 0);
    assert_eq!(
        response.wallet.as_ref().expect("Alice's wallet").info(),
        alice_sec.secrets.to_public()
    );
    assert_eq!(response.history.len(), 1);
    assert!(response.unaccepted_transfers.is_empty());
    assert_eq!(response.block.height(), 1);

    // Send a couple of transfers from Bob and Carol.
    let transfer_from_bob = bob_sec.create_transfer(1_000, &alice_pk, 10);
    let transfer_from_carol = carol_sec.create_transfer(1_500, &alice_pk, 10);
    testkit.create_block_with_transactions(vec![
        Transactions::Transfer(transfer_from_bob.clone()),
        Transactions::Transfer(transfer_from_carol.clone()),
    ]);

    let response = wallet(&testkit, &keys, alice_pk, 1);
    assert_eq!(
        response.wallet.as_ref().expect("Alice's wallet").info(),
        alice_sec.secrets.to_public()
    );
    assert!(response.history.is_empty());
    let hashes: Vec<Digest> = response
        .unaccepted_transfers
        .iter()
        .map(|transfer| transfer.hash())
        .collect();
    assert!(same_hashes(
        &hashes,
        &[transfer_from_bob.hash(), transfer_from_carol.hash()]
    ));

    // Accept one of transfers.
    let accept = alice_sec
        .verify_transfer(&transfer_from_bob)
        .expect("verified transfer")
        .1;
    testkit.create_block_with_transaction(Transactions::Accept(accept));

    let response = wallet(&testkit, &keys, alice_pk, 1);
    assert_eq!(response.history.len(), 1);
    assert_eq!(
        response.history[0],
        FullEvent::Transfer(transfer_from_bob.clone())
    );
    assert_eq!(response.unaccepted_transfers.len(), 1);
    assert_eq!(response.unaccepted_transfers, vec![transfer_from_carol]);
    alice_sec.transfer(&transfer_from_bob);
    assert_eq!(
        response.wallet.as_ref().expect("Alice's wallet").info(),
        alice_sec.secrets.to_public()
    );
}

#[test]
fn thin_client_proof_after_accept() {
    let mut testkit = TestKit::new();
    let mut alice_sec = Owner::new(1);
    let mut bob_sec = Owner::new(2);
    let bob_pk = bob_sec.public_key();
    let keys = [alice_sec.public_key(), bob_pk];
    alice_sec.secrets.initialize();
    bob_sec.secrets.initialize();
    let transfer = alice_sec.create_transfer(333_333, &bob_pk, 10);
    testkit.create_block_with_transactions(vec![
        Transactions::CreateWallet(alice_sec.create_wallet()),
        Transactions::CreateWallet(bob_sec.create_wallet()),
        Transactions::Transfer(transfer.clone()),
    ]);
    let accept = bob_sec.verify_transfer(&transfer).expect("verify_transfer").1;
    testkit.create_block_with_transaction(Transactions::Accept(accept));

    let response = wallet(&testkit, &keys, bob_pk, 1);
    assert_eq!(response.history, vec![FullEvent::Transfer(transfer)]);
    assert!(response.unaccepted_transfers.is_empty());
    assert_eq!(testkit.schema.history(&bob_pk).len(), 2);
    assert_eq!(response.wallet, testkit.schema.wallet(&bob_pk));
    let received = match &response.history[0] {
        FullEvent::Transfer(transfer) => transfer.clone(),
        other => panic!("unexpected event: {:?}", other),
    };
    bob_sec.transfer(&received);
    assert_eq!(bob_sec.secrets.balance(), 1_333_333);
    assert!(bob_sec
        .secrets
        .corresponds_to(&response.wallet.expect("Bob's wallet").info()));
}

#[test]
fn proof_of_absence() {
    let mut testkit = TestKit::new();
    let mut alice_sec = Owner::new(1);
    let stranger = Owner::new(4).public_key();
    testkit.create_block_with_transaction(Transactions::CreateWallet(alice_sec.create_wallet()));
    let keys = [alice_sec.public_key()];

    let query = WalletQuery { key: stranger, start_history_at: 0 };
    let proof = testkit.wallet_proof(&keys, &query);
    assert!(proof.wallet_contents.is_none());
    let response = proof
        .check(&trust_anchor(), &query, &table_key(), &[true])
        .expect("check");
    assert!(response.wallet.is_none());
    assert!(response.history.is_empty());
    assert!(response.unaccepted_transfers.is_empty());
}

#[test]
fn tampered_wallet_proofs_are_rejected() {
    let mut testkit = TestKit::new();
    let mut alice_sec = Owner::new(1);
    let mut bob_sec = Owner::new(2);
    let alice_pk = alice_sec.public_key();
    let keys = [alice_pk, bob_sec.public_key()];
    alice_sec.secrets.initialize();
    bob_sec.secrets.initialize();
    let transfer = bob_sec.create_transfer(10, &alice_pk, 10);
    testkit.create_block_with_transactions(vec![
        Transactions::CreateWallet(alice_sec.create_wallet()),
        Transactions::CreateWallet(bob_sec.create_wallet()),
        Transactions::Transfer(transfer.clone()),
    ]);
    let query = WalletQuery { key: alice_pk, start_history_at: 0 };
    let anchor = trust_anchor();
    let check = |proof: &WalletProof, signatures: &[bool]| {
        proof
            .check(&anchor, &query, &table_key(), signatures)
            .map(|checked| checked.history.len())
    };
    let honest = || testkit.wallet_proof(&keys, &query);
    assert_eq!(check(&honest(), &[true]), Ok(1));

    // Block proof.
    assert_eq!(
        check(&honest(), &[false]),
        Err(VerifyError::Block(BlockVerifyError::InvalidSignature))
    );
    assert_eq!(
        check(&honest(), &[]),
        Err(VerifyError::Block(BlockVerifyError::InvalidSignature))
    );
    let mut proof = honest();
    proof.block_proof.precommits.clear();
    assert_eq!(
        check(&proof, &[]),
        Err(VerifyError::Block(BlockVerifyError::NoQuorum))
    );
    let mut proof = honest();
    proof.block_proof.precommits[0].validator = 1;
    assert_eq!(
        check(&proof, &[true]),
        Err(VerifyError::Block(BlockVerifyError::InvalidValidatorId))
    );
    let mut proof = honest();
    let precommit = proof.block_proof.precommits[0];
    proof.block_proof.precommits.push(precommit);
    assert_eq!(
        check(&proof, &[true, true]),
        Err(VerifyError::Block(BlockVerifyError::DuplicateValidators))
    );

    // Wallets table.
    let mut proof = honest();
    proof.wallet_table_proof = MapProof::Invalid(MapProofError::DuplicatePath);
    assert_eq!(
        check(&proof, &[true]),
        Err(VerifyError::MapProof {
            error: MapProofError::DuplicatePath,
            proof_description: ProofDescription::WalletsTable,
        })
    );
    let mut proof = honest();
    proof.block_proof.block.state_hash = Digest::zero();
    assert_eq!(
        check(&proof, &[true]),
        Err(VerifyError::ProofDisconnect(ProofDescription::WalletsTable))
    );
    let mut proof = honest();
    if let MapProof::Checked(checked) = &mut proof.wallet_table_proof {
        checked.entries[0].key = Digest::zero();
    }
    assert_eq!(
        check(&proof, &[true]),
        Err(VerifyError::MissingKey(ProofDescription::WalletsTable))
    );
    let mut proof = honest();
    if let MapProof::Checked(checked) = &mut proof.wallet_table_proof {
        checked.entries[0].value = None;
    }
    assert_eq!(
        check(&proof, &[true]),
        Err(VerifyError::MissingKey(ProofDescription::WalletsTable))
    );

    // Wallet.
    let mut proof = honest();
    if let MapProof::Checked(checked) = &mut proof.wallet_proof {
        checked.root = Digest::zero();
    }
    assert_eq!(
        check(&proof, &[true]),
        Err(VerifyError::ProofDisconnect(ProofDescription::Wallet))
    );
    let mut proof = honest();
    if let MapProof::Checked(checked) = &mut proof.wallet_proof {
        checked.entries.clear();
    }
    assert_eq!(
        check(&proof, &[true]),
        Err(VerifyError::MissingKey(ProofDescription::Wallet))
    );
    let mut proof = honest();
    proof.wallet_contents = None;
    assert_eq!(check(&proof, &[true]), Err(VerifyError::NoContents));

    // History.
    let mut proof = honest();
    proof.wallet_contents.as_mut().unwrap().history_proof =
        Some(ListProof::Invalid(ListProofError::UnmatchedRootHash));
    assert_eq!(
        check(&proof, &[true]),
        Err(VerifyError::ListProof {
            error: ListProofError::UnmatchedRootHash,
            proof_description: ProofDescription::History,
        })
    );
    let mut proof = honest();
    proof.wallet_contents.as_mut().unwrap().history.clear();
    assert_eq!(
        check(&proof, &[true]),
        Err(VerifyError::KeyMismatch(ProofDescription::History))
    );
    let mut proof = honest();
    proof.wallet_contents.as_mut().unwrap().history_proof = None;
    assert_eq!(
        check(&proof, &[true]),
        Err(VerifyError::KeyMismatch(ProofDescription::History))
    );
    let mut proof = honest();
    if let Some(ListProof::Valid(proven)) = &mut proof.wallet_contents.as_mut().unwrap().history_proof {
        proven[0].index = 1;
    }
    assert_eq!(
        check(&proof, &[true]),
        Err(VerifyError::KeyMismatch(ProofDescription::History))
    );
    let mut proof = honest();
    if let Some(ListProof::Valid(proven)) = &mut proof.wallet_contents.as_mut().unwrap().history_proof {
        proven[0].event = Event::rollback(proven[0].event.transaction_hash());
    }
    assert_eq!(
        check(&proof, &[true]),
        Err(VerifyError::KeyMismatch(ProofDescription::History))
    );

    // Unaccepted transfers.
    let mut proof = honest();
    proof.wallet_contents.as_mut().unwrap().unaccepted_transfers_proof =
        MapProof::Invalid(MapProofError::InvalidOrdering);
    assert_eq!(
        check(&proof, &[true]),
        Err(VerifyError::MapProof {
            error: MapProofError::InvalidOrdering,
            proof_description: ProofDescription::UnacceptedTransfers,
        })
    );
    let mut proof = honest();
    if let MapProof::Checked(checked) = &mut proof.wallet_contents.as_mut().unwrap().unaccepted_transfers_proof {
        checked.root = Digest::zero();
    }
    assert_eq!(
        check(&proof, &[true]),
        Err(VerifyError::ProofDisconnect(ProofDescription::UnacceptedTransfers))
    );
    let mut proof = honest();
    proof.wallet_contents.as_mut().unwrap().unaccepted_transfers.clear();
    assert_eq!(
        check(&proof, &[true]),
        Err(VerifyError::KeyMismatch(ProofDescription::UnacceptedTransfers))
    );
    let mut proof = honest();
    if let MapProof::Checked(checked) = &mut proof.wallet_contents.as_mut().unwrap().unaccepted_transfers_proof {
        checked.entries[0].value = None;
    }
    assert_eq!(
        check(&proof, &[true]),
        Err(VerifyError::KeyMismatch(ProofDescription::UnacceptedTransfers))
    );
}

#[test]
fn wallet_cannot_be_created_twice() {
    let mut testkit = TestKit::new();
    let mut alice_sec = Owner::new(1);
    let first = alice_sec.create_wallet();
    let second = alice_sec.create_wallet();
    let block = testkit.create_block_with_transactions(vec![
        Transactions::CreateWallet(first),
        Transactions::CreateWallet(second),
    ]);
    assert_eq!(block, vec![Ok(()), Err(Error::WalletExists)]);
    assert_eq!(Error::WalletExists.code(), 0);
    let wallet = testkit.schema.wallet(&alice_sec.public_key()).expect("wallet");
    assert_eq!(wallet.history_len(), 1);
    assert_eq!(wallet.last_send_index(), 0);
    assert_eq!(*wallet.unaccepted_transfers_hash(), Digest::zero());
    assert_eq!(
        testkit.schema.history(&alice_sec.public_key()),
        vec![Event::create_wallet(&first.hash())]
    );
    assert_eq!(
        testkit.schema.past_balance(&alice_sec.public_key(), 0),
        Some(Commitment::with_no_blinding(1_000_000))
    );
    assert_eq!(testkit.schema.past_balance(&alice_sec.public_key(), 1), None);
}

#[test]
fn transfers_between_unregistered_wallets_fail() {
    let mut testkit = TestKit::new();
    let mut alice_sec = Owner::new(1);
    let mut bob_sec = Owner::new(2);
    alice_sec.secrets.initialize();
    let transfer = alice_sec.create_transfer(100, &bob_sec.public_key(), 10);
    let block = testkit.create_block_with_transaction(Transactions::Transfer(transfer.clone()));
    assert_eq!(block, vec![Err(Error::UnregisteredSender)]);
    assert_eq!(Error::UnregisteredSender.code(), 1);

    let block = testkit.create_block_with_transactions(vec![
        Transactions::CreateWallet(alice_sec.create_wallet()),
        Transactions::Transfer(transfer.clone()),
    ]);
    assert_eq!(block, vec![Ok(()), Err(Error::UnregisteredReceiver)]);
    assert_eq!(Error::UnregisteredReceiver.code(), 2);
    assert_eq!(testkit.schema.history(&alice_sec.public_key()).len(), 1);

    let block = testkit.create_block_with_transactions(vec![
        Transactions::CreateWallet(bob_sec.create_wallet()),
        Transactions::Transfer(transfer),
    ]);
    assert_eq!(block, vec![Ok(()), Ok(())]);
}

fn forged_transfer(sender: &mut Owner, receiver: &PublicKey, history_len: u64, amount: u64, claimed_rest: u64) -> Transfer {
    let (committed_amount, opening) = Commitment::new(amount);
    let excess = opening
        .checked_sub(&Opening::with_no_blinding(1))
        .expect("amount");
    let amount_proof = SimpleRangeProof::prove(&excess).expect("prove amount");
    let rest = Opening::with_no_blinding(claimed_rest);
    let sufficient_balance_proof = SimpleRangeProof::prove(&rest).expect("prove balance");
    let sealed = EncryptedData::new(&[7_u8; 24], &opening.to_bytes());
    Transfer::new(
        &sender.public_key(),
        receiver,
        10,
        history_len,
        committed_amount,
        amount_proof,
        sufficient_balance_proof,
        sealed,
        &sender.next_hash(),
    )
}

/// The same transfer with another claim about the history of the sender, and
/// another hash.
fn with_history_len(sender: &mut Owner, transfer: &Transfer, history_len: u64) -> Transfer {
    Transfer::new(
        transfer.from(),
        transfer.to(),
        transfer.rollback_delay(),
        history_len,
        transfer.amount(),
        transfer.amount_proof().clone(),
        transfer.sufficient_balance_proof().clone(),
        transfer.encrypted_data().clone(),
        &sender.next_hash(),
    )
}

#[test]
fn transfer_with_forged_balance_proof_fails() {
    let mut testkit = TestKit::new();
    let mut alice_sec = Owner::new(1);
    let mut bob_sec = Owner::new(2);
    let bob_pk = bob_sec.public_key();
    testkit.create_block_with_transactions(vec![
        Transactions::CreateWallet(alice_sec.create_wallet()),
        Transactions::CreateWallet(bob_sec.create_wallet()),
    ]);
    // Alice claims to keep 5 tokens after sending 2_000_000, which she does not have.
    let transfer = forged_transfer(&mut alice_sec, &bob_pk, 1, 2_000_000, 5);
    assert!(transfer.verify(true));
    let before = testkit.schema.wallet(&alice_sec.public_key());
    let block = testkit.create_block_with_transaction(Transactions::Transfer(transfer.clone()));
    assert_eq!(block, vec![Err(Error::IncorrectProof)]);
    assert_eq!(Error::IncorrectProof.code(), 3);
    assert_eq!(testkit.schema.wallet(&alice_sec.public_key()), before);
    assert!(testkit.schema.unaccepted_transfers(&bob_pk).is_empty());
    // The verdict alone decides.
    assert_eq!(
        transfer.execute_with(&mut testkit.schema, &Roots::new(Digest::zero(), Digest::zero()), false),
        Err(Error::IncorrectProof)
    );
}

#[test]
fn transfer_must_refer_to_a_kept_balance() {
    let mut testkit = TestKit::new();
    let mut alice_sec = Owner::new(1);
    let mut bob_sec = Owner::new(2);
    let bob_pk = bob_sec.public_key();
    testkit.create_block_with_transactions(vec![
        Transactions::CreateWallet(alice_sec.create_wallet()),
        Transactions::CreateWallet(bob_sec.create_wallet()),
    ]);
    alice_sec.secrets.initialize();

    // The history of Alice has one event; she cannot refer to a second one.
    let honest = forged_transfer(&mut alice_sec, &bob_pk, 1, 100, 999_900);
    let transfer = with_history_len(&mut alice_sec, &honest, 2);
    let block = testkit.create_block_with_transaction(Transactions::Transfer(transfer));
    assert_eq!(block, vec![Err(Error::InvalidHistoryRef)]);
    assert_eq!(Error::InvalidHistoryRef.code(), 5);

    // Neither to none at all.
    let transfer = with_history_len(&mut alice_sec, &honest, 0);
    assert!(!transfer.verify_with(true, true));
    let block = testkit.create_block_with_transaction(Transactions::Transfer(transfer));
    assert_eq!(block, vec![Err(Error::OutdatedHistory)]);
    assert!(testkit.schema.unaccepted_transfers(&bob_pk).is_empty());
}

#[test]
fn transfer_must_know_the_last_outgoing_transfer() {
    let mut testkit = TestKit::new();
    let mut alice_sec = Owner::new(1);
    let mut bob_sec = Owner::new(2);
    let bob_pk = bob_sec.public_key();
    testkit.create_block_with_transactions(vec![
        Transactions::CreateWallet(alice_sec.create_wallet()),
        Transactions::CreateWallet(bob_sec.create_wallet()),
    ]);
    alice_sec.secrets.initialize();

    // After a first transfer, `last_send_index` is 1.
    let first = alice_sec.create_transfer(100, &bob_pk, 10);
    let block = testkit.create_block_with_transaction(Transactions::Transfer(first.clone()));
    assert_eq!(block, vec![Ok(())]);
    let wallet = testkit.schema.wallet(&alice_sec.public_key()).expect("wallet");
    assert_eq!(wallet.last_send_index(), 1);
    assert_eq!(wallet.history_len(), 2);
    // A transfer with `history_len == last_send_index` is outdated...
    let outdated = with_history_len(&mut alice_sec, &first, 1);
    let block = testkit.create_block_with_transaction(Transactions::Transfer(outdated));
    assert_eq!(block, vec![Err(Error::OutdatedHistory)]);
    // ...and one with `history_len == last_send_index + 1` is fine.
    alice_sec.transfer(&first);
    let second = alice_sec.create_transfer(100, &bob_pk, 10);
    assert_eq!(second.history_len(), 2);
    let block = testkit.create_block_with_transaction(Transactions::Transfer(second));
    assert_eq!(block, vec![Ok(())]);
    let wallet = testkit.schema.wallet(&alice_sec.public_key()).expect("wallet");
    assert_eq!(wallet.last_send_index(), 2);
    assert_eq!(wallet.history_len(), 3);
}

#[test]
fn accept_of_unknown_transfer_fails() {
    let mut testkit = TestKit::new();
    let mut alice_sec = Owner::new(1);
    let mut bob_sec = Owner::new(2);
    let bob_pk = bob_sec.public_key();
    alice_sec.secrets.initialize();
    bob_sec.secrets.initialize();
    let transfer = alice_sec.create_transfer(100, &bob_pk, 10);
    let create_wallet = alice_sec.create_wallet();
    testkit.create_block_with_transactions(vec![
        Transactions::CreateWallet(create_wallet),
        Transactions::CreateWallet(bob_sec.create_wallet()),
    ]);

    // No block holds the transfer.
    let accept = Accept::new(&bob_pk, &transfer.hash(), &bob_sec.next_hash());
    let block = testkit.create_block_with_transaction(Transactions::Accept(accept));
    assert_eq!(block, vec![Err(Error::UnknownTransfer)]);
    assert_eq!(Error::UnknownTransfer.code(), 6);

    // The hash belongs to a transaction of another kind.
    let accept = Accept::new(&bob_pk, &create_wallet.hash(), &bob_sec.next_hash());
    let block = testkit.create_block_with_transaction(Transactions::Accept(accept));
    assert_eq!(block, vec![Err(Error::UnknownTransfer)]);

    // The transfer is accepted twice.
    testkit.create_block_with_transaction(Transactions::Transfer(transfer.clone()));
    let first = bob_sec.verify_transfer(&transfer).expect("verify_transfer").1;
    let second = bob_sec.verify_transfer(&transfer).expect("verify_transfer").1;
    let block = testkit.create_block_with_transactions(vec![
        Transactions::Accept(first),
        Transactions::Accept(second),
    ]);
    assert_eq!(block, vec![Ok(()), Err(Error::UnknownTransfer)]);
    assert_eq!(testkit.schema.history(&bob_pk).len(), 2);

    // The transfer has been rolled back.
    alice_sec.transfer(&transfer);
    let late = alice_sec.create_transfer(100, &bob_pk, 5);
    testkit.create_block_with_transaction(Transactions::Transfer(late.clone()));
    testkit.create_blocks_until(testkit.height() + 7);
    let accept = bob_sec.verify_transfer(&late).expect("verify_transfer").1;
    let block = testkit.create_block_with_transaction(Transactions::Accept(accept));
    assert_eq!(block, vec![Err(Error::UnknownTransfer)]);
}

#[test]
fn rollback_without_roots_leaves_transfers_waiting() {
    let mut testkit = TestKit::new();
    let mut alice_sec = Owner::new(1);
    let mut bob_sec = Owner::new(2);
    let bob_pk = bob_sec.public_key();
    testkit.create_block_with_transactions(vec![
        Transactions::CreateWallet(alice_sec.create_wallet()),
        Transactions::CreateWallet(bob_sec.create_wallet()),
    ]);
    alice_sec.secrets.initialize();
    let transfer = alice_sec.create_transfer(100, &bob_pk, 5);
    assert_eq!(testkit.execute(&Transactions::Transfer(transfer.clone())), Ok(()));
    let expiry = testkit.height() + 7;
    while testkit.height() + 1 < expiry {
        testkit.schema.commit_block();
    }
    testkit.schema.do_rollback(&vec![]);
    assert_eq!(testkit.schema.rollback_transfers(expiry), vec![transfer.hash()]);
    assert_eq!(testkit.schema.history(&alice_sec.public_key()).len(), 2);
    testkit.before_commit();
    assert!(testkit.schema.rollback_transfers(expiry).is_empty());
    assert_eq!(testkit.schema.history(&alice_sec.public_key()).len(), 3);
    assert!(testkit.schema.check_invariants());
}

#[test]
fn schema_is_restored_from_stored_records() {
    let mut testkit = TestKit::new();
    let mut alice_sec = Owner::new(1);
    let mut bob_sec = Owner::new(2);
    let alice_pk = alice_sec.public_key();
    let bob_pk = bob_sec.public_key();
    let create_alice = alice_sec.create_wallet();
    let create_bob = bob_sec.create_wallet();
    alice_sec.secrets.initialize();
    let transfer = alice_sec.create_transfer(100, &bob_pk, 5);
    testkit.create_block_with_transactions(vec![
        Transactions::CreateWallet(create_alice),
        Transactions::CreateWallet(create_bob),
        Transactions::Transfer(transfer.clone()),
    ]);

    // The host stores the records...
    let accounts: Vec<Account> = vec![
        testkit.schema.account(&alice_pk).expect("Alice's account"),
        testkit.schema.account(&bob_pk).expect("Bob's account"),
    ];
    assert!(testkit.schema.account(&Owner::new(3).public_key()).is_none());
    assert_eq!(accounts[0].history.len(), 2);
    assert_eq!(accounts[0].past_balances.len(), 1);
    assert_eq!(accounts[1].unaccepted, vec![transfer.hash()]);
    let stored = |transaction: Transactions| Stored { transaction, height: 1 };
    let transactions = vec![
        stored(Transactions::CreateWallet(create_alice)),
        stored(Transactions::CreateWallet(create_bob)),
        stored(Transactions::Transfer(transfer.clone())),
    ];
    let bucket = || RollbackBucket { height: 7, transfers: vec![transfer.hash()] };

    // ...and restores the schema from them.
    let mut restored =
        Schema::restore(testkit.height(), &accounts, &transactions, &vec![bucket()], &vec![])
            .expect("schema");
    assert_eq!(restored.height(), 1);
    assert_eq!(restored.wallet(&alice_pk), testkit.schema.wallet(&alice_pk));
    assert_eq!(restored.history(&bob_pk), testkit.schema.history(&bob_pk));
    assert_eq!(restored.unaccepted_transfers(&bob_pk), vec![transfer.hash()]);
    assert_eq!(restored.rollback_transfers(7), vec![transfer.hash()]);
    assert_eq!(testkit.schema.rollback_transfers(7), vec![transfer.hash()]);
    assert_eq!(restored.maybe_transfer(&transfer.hash()), Some(transfer.clone()));
    assert_eq!(restored.maybe_create_wallet(&create_bob.hash()), Some(create_bob));
    assert_eq!(restored.maybe_create_wallet(&transfer.hash()), None);
    assert_eq!(restored.account(&bob_pk).as_ref(), Some(&accounts[1]));
    let accept = bob_sec.verify_transfer(&transfer).expect("verify_transfer").1;
    let roots = Roots::new(Digest::new([1; 32]), Digest::zero());
    assert_eq!(accept.execute(&mut restored, &roots), Ok(()));
    assert!(restored.rollback_transfers(7).is_empty());
    assert!(restored.check_invariants());

    // A part of the ledger will do.
    let noted = vec![transfer.hash()];
    let part = Schema::restore(1, &vec![accounts[0].clone()], &transactions, &vec![], &noted)
        .expect("schema");
    // The ledger must hold the transactions of the events of a history.
    assert!(Schema::restore(1, &vec![accounts[0].clone()], &vec![], &vec![], &noted).is_none());
    // So must it hold the transfers that wait for a wallet.
    let creations = vec![
        stored(Transactions::CreateWallet(create_alice)),
        stored(Transactions::CreateWallet(create_bob)),
    ];
    assert!(Schema::restore(1, &vec![accounts[1].clone()], &creations, &vec![], &vec![]).is_none());
    assert!(part.wallet(&bob_pk).is_none());
    assert_eq!(part.rolled_back_transfers(), noted);

    // Records that contradict each other are refused.
    let twice = vec![accounts[0].clone(), accounts[0].clone()];
    assert!(Schema::restore(1, &twice, &transactions, &vec![], &vec![]).is_none());
    assert!(
        Schema::restore(1, &accounts, &transactions, &vec![bucket(), bucket()], &vec![]).is_none()
    );
    let mut forged = accounts[0].clone();
    forged.wallet = forged.wallet.set_unaccepted_transfers_hash(&Digest::new([1; 32]));
    assert!(Schema::restore(1, &vec![forged], &transactions, &vec![], &vec![]).is_none());
    let mut forged = accounts[0].clone();
    forged.past_balances.clear();
    assert!(Schema::restore(1, &vec![forged], &transactions, &vec![], &vec![]).is_none());
    let mut forged = accounts[0].clone();
    forged.history.pop();
    assert!(Schema::restore(1, &vec![forged], &transactions, &vec![], &vec![]).is_none());
    let mut forged = accounts[1].clone();
    forged.history.push(Event::transfer(&transfer.hash()));
    forged.past_balances.push(forged.wallet.balance());
    forged.wallet = Wallet::new(
        forged.wallet.public_key(),
        forged.wallet.balance(),
        2,
        0,
        forged.wallet.history_hash(),
        forged.wallet.unaccepted_transfers_hash(),
    );
    // A transfer after the last outgoing one must be an incoming one, which the ledger knows.
    assert!(Schema::restore(1, &vec![forged.clone()], &transactions, &vec![], &vec![]).is_some());
    assert!(Schema::restore(1, &vec![forged], &vec![], &vec![], &vec![]).is_none());
}

#[test]
fn rules_of_a_transfer_one_by_one() {
    let mut testkit = TestKit::new();
    let mut alice_sec = Owner::new(1);
    let mut bob_sec = Owner::new(2);
    let alice_pk = alice_sec.public_key();
    let bob_pk = bob_sec.public_key();
    testkit.create_block_with_transactions(vec![
        Transactions::CreateWallet(alice_sec.create_wallet()),
        Transactions::CreateWallet(bob_sec.create_wallet()),
    ]);
    alice_sec.secrets.initialize();
    let transfer = alice_sec.create_transfer(100, &bob_pk, 5);
    let id = transfer.hash();
    let initial = testkit.schema.wallet(&alice_pk).expect("Alice's wallet").balance();

    // The ledger takes the transfer in, then the sender is debited...
    assert!(!testkit.schema.holds_transfer(&id));
    testkit.schema.record(&Transactions::Transfer(transfer.clone()));
    assert!(testkit.schema.holds_transfer(&id));
    assert!(!testkit.schema.holds_creation(&id));
    let history_root = Digest::new([3; 32]);
    testkit.schema.update_sender(&transfer, &history_root);
    let alice = testkit.schema.wallet(&alice_pk).expect("Alice's wallet");
    assert_eq!(alice.history_len(), 2);
    assert_eq!(alice.last_send_index(), 1);
    assert_eq!(*alice.history_hash(), history_root);
    assert_eq!(alice.balance(), initial.sub(&transfer.amount()));
    assert_eq!(testkit.schema.history(&alice_pk)[1], Event::transfer(&id));
    assert_eq!(testkit.schema.past_balance(&alice_pk, 0), None);
    assert_eq!(testkit.schema.past_balance(&alice_pk, 1), Some(alice.balance()));
    assert!(testkit.schema.unaccepted_transfers(&bob_pk).is_empty());
    assert!(testkit.schema.rollback_transfers(8).is_empty());

    // ...and the transfer waits for the receiver, and for its rollback.
    let unaccepted_root = Digest::new([4; 32]);
    testkit.schema.add_unaccepted_payment(&transfer, &unaccepted_root);
    let bob = testkit.schema.wallet(&bob_pk).expect("Bob's wallet");
    assert_eq!(*bob.unaccepted_transfers_hash(), unaccepted_root);
    assert_eq!(bob.history_len(), 1);
    assert_eq!(bob.balance(), initial);
    assert_eq!(testkit.schema.unaccepted_transfers(&bob_pk), vec![id]);
    assert_eq!(testkit.schema.rollback_transfers(8), vec![id]);
    assert!(testkit.schema.check_invariants());

    // With the last block before its expiry, the transfer can be rolled back.
    testkit.create_blocks_until(7);
    assert_eq!(testkit.schema.rollback_transfers(8), vec![id]);
    let roots = Roots::new(Digest::new([5; 32]), Digest::zero());
    testkit.schema.rollback_single(&id, &roots);
    let alice = testkit.schema.wallet(&alice_pk).expect("Alice's wallet");
    assert_eq!(alice.balance(), initial);
    assert_eq!(alice.history_len(), 3);
    assert_eq!(alice.last_send_index(), 1);
    assert_eq!(*alice.history_hash(), Digest::new([5; 32]));
    assert_eq!(testkit.schema.history(&alice_pk)[2], Event::rollback(&id));
    assert_eq!(testkit.schema.past_balance(&alice_pk, 2), Some(initial));
    let bob = testkit.schema.wallet(&bob_pk).expect("Bob's wallet");
    assert_eq!(*bob.unaccepted_transfers_hash(), Digest::zero());
    assert!(testkit.schema.unaccepted_transfers(&bob_pk).is_empty());
    assert!(testkit.schema.rollback_transfers(8).is_empty());
    assert!(testkit.schema.rolled_back_transfers().is_empty());
    assert!(testkit.schema.check_invariants());

    // A hash that the ledger does not know is left alone.
    let before = testkit.schema.account(&alice_pk);
    testkit.schema.rollback_single(&Digest::new([9; 32]), &roots);
    assert_eq!(testkit.schema.account(&alice_pk), before);
    assert!(testkit.schema.rolled_back_transfers().is_empty());
}
