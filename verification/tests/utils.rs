//! Tests for the verification of block headers.

use private_currency::crypto::{Digest, PublicKey};
use private_currency::utils::{Block, BlockProof, BlockVerifyError, Precommit, TrustAnchor};
use private_currency::{config, SERVICE_ID, SERVICE_NAME};

fn anchor(validators: u8) -> TrustAnchor {
    TrustAnchor::new((0..validators).map(|id| PublicKey::new([id; 32])).collect())
}

fn block_proof(validators: &[u16]) -> BlockProof {
    let zero = Digest::zero();
    BlockProof {
        block: Block::new(0, 5, 0, &zero, &zero, &zero),
        precommits: validators
            .iter()
            .map(|id| Precommit::new(*id, 5, 1, &zero, &zero))
            .collect(),
    }
}

#[test]
fn quorum_is_more_than_two_thirds() {
    // Four validators need three votes.
    let anchor4 = anchor(4);
    assert_eq!(
        anchor4.verify_block_proof(&block_proof(&[0, 1]), &[true, true]),
        Err(BlockVerifyError::NoQuorum)
    );
    assert_eq!(
        anchor4.verify_block_proof(&block_proof(&[0, 1, 3]), &[true, true, true]),
        Ok(())
    );
    // Three validators need three votes, too.
    let anchor3 = anchor(3);
    assert_eq!(
        anchor3.verify_block_proof(&block_proof(&[0, 1]), &[true, true]),
        Err(BlockVerifyError::NoQuorum)
    );
    assert_eq!(
        anchor3.verify_block_proof(&block_proof(&[2, 0, 1]), &[true, true, true]),
        Ok(())
    );
    // Seven validators need five.
    let anchor7 = anchor(7);
    assert_eq!(
        anchor7.verify_block_proof(&block_proof(&[0, 1, 2, 3]), &[true; 4]),
        Err(BlockVerifyError::NoQuorum)
    );
    assert_eq!(
        anchor7.verify_block_proof(&block_proof(&[0, 1, 2, 3, 6]), &[true; 5]),
        Ok(())
    );
    // Nobody authorizes a block on behalf of no validators.
    assert_eq!(
        anchor(0).verify_block_proof(&block_proof(&[]), &[]),
        Err(BlockVerifyError::NoQuorum)
    );
}

#[test]
fn block_proof_errors_come_in_order() {
    let anchor4 = anchor(4);
    assert_eq!(
        anchor4.verify_block_proof(&block_proof(&[0, 0, 4]), &[false, false, false]),
        Err(BlockVerifyError::InvalidValidatorId)
    );
    assert_eq!(
        anchor4.verify_block_proof(&block_proof(&[0, 0]), &[false, false]),
        Err(BlockVerifyError::DuplicateValidators)
    );
    assert_eq!(
        anchor4.verify_block_proof(&block_proof(&[0, 1]), &[false, false]),
        Err(BlockVerifyError::NoQuorum)
    );
    assert_eq!(
        anchor4.verify_block_proof(&block_proof(&[0, 1, 2]), &[true, true, false]),
        Err(BlockVerifyError::InvalidSignature)
    );
    assert_eq!(
        anchor4.verify_block_proof(&block_proof(&[0, 1, 2]), &[true, true]),
        Err(BlockVerifyError::InvalidSignature)
    );
    assert_eq!(
        anchor4.verify_block_proof(&block_proof(&[0, 1, 2]), &[true, true, true, false]),
        Ok(())
    );
}

#[test]
fn validators_with_the_same_key_count_once() {
    let key = PublicKey::new([1; 32]);
    let anchor = TrustAnchor::new(vec![key, key, PublicKey::new([2; 32])]);
    assert_eq!(
        anchor.verify_block_proof(&block_proof(&[0, 1, 2]), &[true, true, true]),
        Err(BlockVerifyError::DuplicateValidators)
    );
    assert_eq!(anchor.validator_key(1), Some(key));
    assert_eq!(anchor.validator_key(3), None);
}

#[test]
fn service_constants() {
    assert_eq!(SERVICE_ID, 2_000);
    assert_eq!(SERVICE_NAME, "private_currency");
    let config = config();
    assert_eq!(config.initial_balance, 1_000_000);
    assert_eq!(config.rollback_delay_bounds, 5..1_000);
    assert_eq!(config.min_transfer_amount, 1);
    assert_eq!(config.clone(), config);
}
