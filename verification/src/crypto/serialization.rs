//! How commitments and range proofs lie in the fixed layout of a stored or
//! transmitted record, and as lists of hexadecimal elements.
//!
//! A commitment is a field of 32 bytes. A range proof is a segment of 21
//! elements of 32 bytes each.

use crate::crypto::proofs::{
    is_range_proof_encoding, is_ristretto_encoding, Commitment, SimpleRangeProof, ELEMENT_LEN,
    PROOF_ELEMENTS,
};
use vstd::prelude::*;

verus! {

/// What is wrong with a field or a segment of a record.
#[derive(Debug, Clone, Copy, PartialEq, Eq, Structural)]
pub enum FieldError {
    /// The field has not the size of a commitment.
    IncorrectFieldSize,
    /// The bytes are not the canonical encoding of a commitment.
    NonCanonicalCommitment,
    /// The segment has not the number of elements of a range proof.
    IncorrectElementCount,
    /// The end of the segment cannot be told in 32 bits.
    OffsetOverflow,
    /// The segment reaches beyond the end of the record.
    UndersizedBuffer,
    /// An element of the list has not 32 bytes.
    IncorrectElementSize,
    /// The bytes do not parse as a range proof.
    IncorrectProof,
}

/// Size of the field of a commitment.
pub fn commitment_field_size() -> (size: u32)
    ensures
        size == 32,
{
    32
}

/// Size of an element of the segment of a range proof.
pub fn proof_item_size() -> (size: u32)
    ensures
        size == 32,
{
    32
}

/// Number of elements in the segment of a range proof.
pub fn proof_item_count() -> (count: u32)
    ensures
        count == 21,
{
    21
}

/// What the check of the field of a commitment comes to.
pub open spec fn commitment_field_verdict(buffer: Seq<u8>, from: u32, to: u32) -> Result<(), FieldError> {
    if to - from != 32 {
        Err(FieldError::IncorrectFieldSize)
    } else if !is_ristretto_encoding(buffer.subrange(from as int, to as int)) {
        Err(FieldError::NonCanonicalCommitment)
    } else {
        Ok(())
    }
}

/// Checks that a field of a record holds a commitment. The field lies at
/// `from..to` of the record.
pub fn check_commitment_field(buffer: &[u8], from: u32, to: u32) -> (result: Result<(), FieldError>)
    requires
        from <= to <= buffer@.len(),
    ensures
        result == commitment_field_verdict(buffer@, from, to),
{
    if to - from != commitment_field_size() {
        return Err(FieldError::IncorrectFieldSize);
    }
    let field = slice_subrange(buffer, from as usize, to as usize);
    match Commitment::from_slice(field.as_slice()) {
        Some(_) => Ok(()),
        None => Err(FieldError::NonCanonicalCommitment),
    }
}

/// What the check of the segment of a range proof comes to. The checks are
/// made in this order, and the first that fails decides.
pub open spec fn proof_segment_verdict(buffer: Seq<u8>, from: u32, count: u32) -> Result<(), FieldError> {
    if count != 21 {
        Err(FieldError::IncorrectElementCount)
    } else if from + 672 > u32::MAX {
        Err(FieldError::OffsetOverflow)
    } else if from + 672 > buffer.len() {
        Err(FieldError::UndersizedBuffer)
    } else if !is_range_proof_encoding(buffer.subrange(from as int, from + 672)) {
        Err(FieldError::IncorrectProof)
    } else {
        Ok(())
    }
}

/// Checks that a segment of a record holds a range proof. The segment starts
/// at `from` of the record and has `count` elements.
pub fn check_proof_segment(buffer: &[u8], from: u32, count: u32) -> (result: Result<(), FieldError>)
    ensures
        result == proof_segment_verdict(buffer@, from, count),
{
    if count != proof_item_count() {
        return Err(FieldError::IncorrectElementCount);
    }
    let size = count * proof_item_size();
    let to = match from.checked_add(size) {
        Some(to) => to,
        None => {
            return Err(FieldError::OffsetOverflow);
        },
    };
    if to as usize > buffer.len() {
        return Err(FieldError::UndersizedBuffer);
    }
    let segment = slice_subrange(buffer, from as usize, to as usize);
    match SimpleRangeProof::from_slice(segment.as_slice()) {
        Some(_) => Ok(()),
        None => Err(FieldError::IncorrectProof),
    }
}

/// Copies a part of a slice of bytes into a vector.
pub fn slice_subrange(slice: &[u8], from: usize, to: usize) -> (bytes: Vec<u8>)
    requires
        from <= to <= slice@.len(),
    ensures
        bytes@ == slice@.subrange(from as int, to as int),
{
    let mut bytes: Vec<u8> = Vec::new();
    let mut i: usize = from;
    while i < to
        invariant
            from <= i <= to <= slice@.len(),
            bytes@ == slice@.subrange(from as int, i as int),
        decreases to - i,
    {
        bytes.push(slice[i]);
        assert(bytes@ =~= slice@.subrange(from as int, i + 1));
        i += 1;
    }
    bytes
}

/// The bytes of a list of elements, one after the other.
pub open spec fn concatenated(elements: Seq<Vec<u8>>) -> Seq<u8>
    decreases elements.len(),
{
    if elements.len() == 0 {
        Seq::empty()
    } else {
        concatenated(elements.drop_last()) + elements.last()@
    }
}

/// Whether every element of a list has 32 bytes.
pub open spec fn all_of_element_size(elements: Seq<Vec<u8>>) -> bool {
    forall|i: int| 0 <= i < elements.len() ==> (#[trigger] elements[i])@.len() == 32
}

/// What a list of elements decodes to. The checks are made in this order, and
/// the first that fails decides: there are 21 elements; each has 32 bytes;
/// together they parse as a range proof.
pub open spec fn elements_verdict(elements: Seq<Vec<u8>>) -> Result<Seq<u8>, FieldError> {
    if elements.len() != 21 {
        Err(FieldError::IncorrectElementCount)
    } else if !all_of_element_size(elements) {
        Err(FieldError::IncorrectElementSize)
    } else if !is_range_proof_encoding(concatenated(elements)) {
        Err(FieldError::IncorrectProof)
    } else {
        Ok(concatenated(elements))
    }
}

impl SimpleRangeProof {
    /// Decodes a range proof from a list of its elements.
    pub fn from_elements(elements: &Vec<Vec<u8>>) -> (result: Result<SimpleRangeProof, FieldError>)
        ensures
            result is Ok <==> elements_verdict(elements@) is Ok,
            result is Ok ==> result->Ok_0@ == elements_verdict(elements@)->Ok_0,
            result is Err ==> result->Err_0 == elements_verdict(elements@)->Err_0,
    {
        if elements.len() != PROOF_ELEMENTS {
            return Err(FieldError::IncorrectElementCount);
        }
        let mut bytes: Vec<u8> = Vec::new();
        let mut i: usize = 0;
        assert(elements@.subrange(0, 0) =~= Seq::<Vec<u8>>::empty());
        while i < elements.len()
            invariant
                i <= elements@.len(),
                elements@.len() == 21,
                all_of_element_size(elements@.subrange(0, i as int)),
                bytes@ == concatenated(elements@.subrange(0, i as int)),
            decreases elements@.len() - i,
        {
            if elements[i].len() != ELEMENT_LEN {
                assert(!all_of_element_size(elements@)) by {
                    assert(elements@[i as int]@.len() != 32);
                }
                return Err(FieldError::IncorrectElementSize);
            }
            let element = &elements[i];
            let ghost before = bytes@;
            let mut j: usize = 0;
            while j < element.len()
                invariant
                    j <= element@.len(),
                    bytes@ == before + element@.subrange(0, j as int),
                decreases element@.len() - j,
            {
                bytes.push(element[j]);
                assert(bytes@ =~= before + element@.subrange(0, j + 1));
                j += 1;
            }
            proof {
                assert(element@.subrange(0, element@.len() as int) =~= element@);
                let next = elements@.subrange(0, i + 1);
                assert(next.drop_last() =~= elements@.subrange(0, i as int));
                assert(next.last() == elements@[i as int]);
                assert forall|k: int| 0 <= k < next.len() implies (#[trigger] next[k])@.len()
                    == 32 by {
                    if k < i {
                        assert(elements@.subrange(0, i as int)[k] == next[k]);
                    }
                }
            }
            i += 1;
        }
        proof {
            assert(elements@.subrange(0, elements@.len() as int) =~= elements@);
        }
        match SimpleRangeProof::from_slice(bytes.as_slice()) {
            Some(range_proof) => Ok(range_proof),
            None => Err(FieldError::IncorrectProof),
        }
    }

    /// Encodes a range proof of the standard size as the list of its
    /// elements, from which it decodes again.
    pub fn to_elements(&self) -> (elements: Vec<Vec<u8>>)
        requires
            self@.len() == 672,
        ensures
            elements@.len() == 21,
            all_of_element_size(elements@),
            concatenated(elements@) == self@,
            elements_verdict(elements@) == Ok::<Seq<u8>, FieldError>(self@),
    {
        let bytes = self.to_bytes();
        let mut elements: Vec<Vec<u8>> = Vec::new();
        let mut i: usize = 0;
        assert(bytes@.subrange(0, 0) =~= Seq::<u8>::empty());
        while i < PROOF_ELEMENTS
            invariant
                i <= 21,
                bytes@.len() == 672,
                elements@.len() == i,
                all_of_element_size(elements@),
                concatenated(elements@) == bytes@.subrange(0, 32 * i),
            decreases 21 - i,
        {
            let element = slice_subrange(bytes.as_slice(), 32 * i, 32 * i + 32);
            let ghost before = elements@;
            elements.push(element);
            proof {
                assert(elements@.drop_last() =~= before);
                assert(elements@.last() == element);
                assert(bytes@.subrange(0, 32 * i) + bytes@.subrange(32 * i, 32 * i + 32)
                    =~= bytes@.subrange(0, 32 * (i + 1)));
                assert forall|k: int| 0 <= k < elements@.len() implies (#[trigger] elements@[k])@.len()
                    == 32 by {
                    if k < i {
                        assert(before[k] == elements@[k]);
                    }
                }
            }
            i += 1;
        }
        assert(bytes@.subrange(0, 672) =~= bytes@);
        elements
    }
}

} // verus!
