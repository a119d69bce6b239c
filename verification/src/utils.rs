//! Block headers as a thin client sees them, and the check of a header
//! against the validators that the client trusts.

use crate::crypto::keys::{Digest, PublicKey};
use vstd::prelude::*;

verus! {

/// Header of a block.
#[derive(Debug, Clone, Copy, PartialEq, Eq)]
pub struct Block {
    /// Identifier of the leader node which has proposed the block.
    pub proposer_id: u16,
    /// Height of the block.
    pub height: u64,
    /// Number of transactions in the block.
    pub tx_count: u32,
    /// Hash link to the previous block in the blockchain.
    pub prev_hash: Digest,
    /// Root hash of the Merkle tree of transactions in the block.
    pub tx_hash: Digest,
    /// Hash of the blockchain state after applying transactions in the block.
    pub state_hash: Digest,
}

impl Block {
    /// Puts a header together from its fields.
    pub fn new(
        proposer_id: u16,
        height: u64,
        tx_count: u32,
        prev_hash: &Digest,
        tx_hash: &Digest,
        state_hash: &Digest,
    ) -> (block: Block)
        ensures
            block == (Block {
                proposer_id,
                height,
                tx_count,
                prev_hash: *prev_hash,
                tx_hash: *tx_hash,
                state_hash: *state_hash,
            }),
    {
        Block {
            proposer_id,
            height,
            tx_count,
            prev_hash: *prev_hash,
            tx_hash: *tx_hash,
            state_hash: *state_hash,
        }
    }

    /// Height of the block.
    pub fn height(&self) -> (height: u64)
        ensures
            height == self.height,
    {
        self.height
    }

    /// Hash of the blockchain state after applying transactions in the block.
    pub fn state_hash(&self) -> (hash: &Digest)
        ensures
            *hash == self.state_hash,
    {
        &self.state_hash
    }
}

/// Vote of a validator for a block. Its signature is checked by the host.
#[derive(Debug, Clone, Copy, PartialEq, Eq)]
pub struct Precommit {
    /// Identifier of the validator that signed the vote.
    pub validator: u16,
    /// The height to which the vote is related.
    pub height: u64,
    /// The round to which the vote is related.
    pub round: u32,
    /// Hash of the corresponding proposal.
    pub propose_hash: Digest,
    /// Hash of the new block.
    pub block_hash: Digest,
}

impl Precommit {
    /// Puts a vote together from its fields.
    pub fn new(validator: u16, height: u64, round: u32, propose_hash: &Digest, block_hash: &Digest) -> (precommit:
        Precommit)
        ensures
            precommit == (Precommit {
                validator,
                height,
                round,
                propose_hash: *propose_hash,
                block_hash: *block_hash,
            }),
    {
        Precommit { validator, height, round, propose_hash: *propose_hash, block_hash: *block_hash }
    }

    /// Identifier of the validator that signed the vote.
    pub fn validator(&self) -> (validator: u16)
        ensures
            validator == self.validator,
    {
        self.validator
    }
}

/// Block header together with the votes that authorize it.
#[derive(Debug, PartialEq, Eq)]
pub struct BlockProof {
    /// Block header.
    pub block: Block,
    /// Votes for the block.
    pub precommits: Vec<Precommit>,
}

impl Clone for BlockProof {
    fn clone(&self) -> (copy: BlockProof)
        ensures
            copy.block == self.block,
            copy.precommits@ == self.precommits@,
    {
        let mut precommits: Vec<Precommit> = Vec::new();
        let mut i: usize = 0;
        while i < self.precommits.len()
            invariant
                i <= self.precommits@.len(),
                precommits@ == self.precommits@.subrange(0, i as int),
            decreases self.precommits@.len() - i,
        {
            precommits.push(self.precommits[i]);
            assert(precommits@ =~= self.precommits@.subrange(0, i + 1));
            i += 1;
        }
        assert(precommits@ =~= self.precommits@);
        BlockProof { block: self.block, precommits }
    }
}

/// Error occurring during block header verification.
#[derive(Debug, Clone, Copy, PartialEq, Eq, Hash, Structural)]
pub enum BlockVerifyError {
    /// Invalid validator ID encountered in a block proof.
    InvalidValidatorId,
    /// Duplicate votes authored by the same validator.
    DuplicateValidators,
    /// No sufficient validator quorum.
    NoQuorum,
    /// Invalid validator signature.
    InvalidSignature,
}

impl BlockVerifyError {
    /// The error in words, in contracts.
    pub open spec fn spec_description(self) -> Seq<char> {
        match self {
            BlockVerifyError::InvalidValidatorId => "invalid validator id encountered"@,
            BlockVerifyError::DuplicateValidators => {
                "duplicate `Precommit`s authored by the same validator"@
            },
            BlockVerifyError::NoQuorum => "no sufficient validator quorum"@,
            BlockVerifyError::InvalidSignature => "invalid validator signature"@,
        }
    }

    /// Describes the error in words.
    pub fn description(self) -> (text: &'static str)
        ensures
            text@ == self.spec_description(),
    {
        match self {
            BlockVerifyError::InvalidValidatorId => "invalid validator id encountered",
            BlockVerifyError::DuplicateValidators => {
                "duplicate `Precommit`s authored by the same validator"
            },
            BlockVerifyError::NoQuorum => "no sufficient validator quorum",
            BlockVerifyError::InvalidSignature => "invalid validator signature",
        }
    }
}

/// Trust anchor for block verification: the consensus keys of all validators,
/// which the client knows beforehand. The identifier of a validator is its
/// position in the list.
#[derive(Debug)]
pub struct TrustAnchor {
    validators: Vec<PublicKey>,
}

impl View for TrustAnchor {
    type V = Seq<PublicKey>;

    closed spec fn view(&self) -> Seq<PublicKey> {
        self.validators@
    }
}

/// Number of votes that authorize a block among `validators` validators: more
/// than two thirds of them.
pub open spec fn quorum(validators: nat) -> nat {
    2 * validators / 3 + 1
}

/// Whether every vote names a validator of the list.
pub open spec fn all_known(validators: Seq<PublicKey>, precommits: Seq<Precommit>) -> bool {
    forall|i: int| 0 <= i < precommits.len() ==> (#[trigger] precommits[i]).validator < validators.len()
}

/// The keys of the validators that the votes name, vote by vote.
pub open spec fn signers(validators: Seq<PublicKey>, precommits: Seq<Precommit>) -> Seq<PublicKey> {
    Seq::new(precommits.len(), |i: int| validators[precommits[i].validator as int])
}

/// Whether the host found the signature of every vote to be that of the
/// validator that the vote names. A vote without a verdict counts as forged.
pub open spec fn all_signed(precommits: Seq<Precommit>, signatures_valid: Seq<bool>) -> bool {
    &&& precommits.len() <= signatures_valid.len()
    &&& forall|i: int| 0 <= i < precommits.len() ==> #[trigger] signatures_valid[i]
}

/// What the verification of a block proof comes to. The checks are made in
/// this order, and the first that fails decides: every vote names a validator;
/// no two votes come from the same validator; the votes make a quorum; every
/// vote is signed by its validator.
pub open spec fn block_verdict(
    validators: Seq<PublicKey>,
    precommits: Seq<Precommit>,
    signatures_valid: Seq<bool>,
) -> Result<(), BlockVerifyError> {
    if !all_known(validators, precommits) {
        Err(BlockVerifyError::InvalidValidatorId)
    } else if !signers(validators, precommits).no_duplicates() {
        Err(BlockVerifyError::DuplicateValidators)
    } else if precommits.len() < quorum(validators.len()) {
        Err(BlockVerifyError::NoQuorum)
    } else if !all_signed(precommits, signatures_valid) {
        Err(BlockVerifyError::InvalidSignature)
    } else {
        Ok(())
    }
}

impl TrustAnchor {
    /// Creates a trust anchor based on provided consensus keys of all
    /// validators in the blockchain network.
    pub fn new(consensus_keys: Vec<PublicKey>) -> (anchor: TrustAnchor)
        ensures
            anchor@ == consensus_keys@,
    {
        TrustAnchor { validators: consensus_keys }
    }

    /// The consensus key of the validator with the given identifier, for the
    /// host to check a signature with.
    pub fn validator_key(&self, id: u16) -> (key: Option<PublicKey>)
        ensures
            key is Some <==> id < self@.len(),
            key is Some ==> key->0 == self@[id as int],
    {
        if (id as usize) < self.validators.len() {
            Some(self.validators[id as usize])
        } else {
            None
        }
    }

    /// Verifies a block proof with respect to this trust anchor.
    /// `signatures_valid` tells for each vote of the proof, in their order,
    /// whether the host found it signed by the validator that it names.
    #[verifier::loop_isolation(false)]
    pub fn verify_block_proof(&self, block_proof: &BlockProof, signatures_valid: &[bool]) -> (result:
        Result<(), BlockVerifyError>)
        ensures
            result == block_verdict(self@, block_proof.precommits@, signatures_valid@),
    {
        let precommits = &block_proof.precommits;
        let mut validators: Vec<PublicKey> = Vec::new();
        let mut i: usize = 0;
        while i < precommits.len()
            invariant
                i <= precommits@.len(),
                validators@.len() == i,
                forall|j: int| 0 <= j < i ==> (#[trigger] precommits@[j]).validator < self@.len(),
                forall|j: int|
                    0 <= j < i ==> #[trigger] validators@[j] == self@[precommits@[j].validator as int],
            decreases precommits@.len() - i,
        {
            match self.validator_key(precommits[i].validator) {
                Some(key) => {
                    validators.push(key);
                },
                None => {
                    assert(!(precommits@[i as int].validator < self@.len()));
                    return Err(BlockVerifyError::InvalidValidatorId);
                },
            }
            i += 1;
        }
        assert(validators@ =~= signers(self@, precommits@));
        assert(all_known(self@, precommits@));
        if has_duplicates(&validators) {
            return Err(BlockVerifyError::DuplicateValidators);
        }
        // Two thirds of the validators, computed without leaving `usize`.
        let total = self.validators.len();
        let thirds = total / 3;
        let rest = total % 3;
        let two_thirds = if rest == 2 {
            2 * thirds + 1
        } else {
            2 * thirds
        };
        assert(two_thirds == 2 * total / 3) by (nonlinear_arith)
            requires
                thirds == total / 3,
                rest == total % 3,
                two_thirds == (if rest == 2 {
                    2 * thirds + 1
                } else {
                    2 * thirds
                }),
        ;
        if validators.len() <= two_thirds {
            return Err(BlockVerifyError::NoQuorum);
        }
        let mut k: usize = 0;
        while k < precommits.len()
            invariant
                k <= precommits@.len(),
                all_known(self@, precommits@),
                signers(self@, precommits@).no_duplicates(),
                precommits@.len() >= quorum(self@.len()),
                k <= signatures_valid@.len(),
                forall|j: int| 0 <= j < k ==> #[trigger] signatures_valid@[j],
            decreases precommits@.len() - k,
        {
            if k >= signatures_valid.len() || !signatures_valid[k] {
                assert(k < signatures_valid@.len() ==> !signatures_valid@[k as int]);
                return Err(BlockVerifyError::InvalidSignature);
            }
            k += 1;
        }
        Ok(())
    }
}

/// Tells whether a list of keys holds one of them twice.
pub fn has_duplicates(keys: &Vec<PublicKey>) -> (found: bool)
    ensures
        found == !keys@.no_duplicates(),
{
    let mut i: usize = 0;
    while i < keys.len()
        invariant
            i <= keys@.len(),
            forall|a: int, b: int| 0 <= a < i && a < b < keys@.len() ==> keys@[a] != keys@[b],
        decreases keys@.len() - i,
    {
        let mut j: usize = i + 1;
        while j < keys.len()
            invariant
                i < keys@.len(),
                i < j <= keys@.len(),
                forall|b: int| i < b < j ==> keys@[i as int] != keys@[b],
            decreases keys@.len() - j,
        {
            if keys[i] == keys[j] {
                return true;
            }
            j += 1;
        }
        i += 1;
    }
    assert forall|a: int, b: int| 0 <= a < keys@.len() && 0 <= b < keys@.len() && a != b implies keys@[a]
        != keys@[b] by {
        if a < b {
        } else {
            assert(keys@[b] != keys@[a]);
        }
    }
    false
}

} // verus!
