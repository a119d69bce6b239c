//! Pedersen commitments, their openings, and range proofs.
//!
//! A commitment to a value `x` with a blinding factor `r` is the group element
//! `Comm(x; r) = xG + rH` of the Ristretto group, for two fixed generators `G`
//! and `H`. Group elements and scalars are kept in their canonical 32-byte
//! encodings, so that two commitments are equal exactly when their bytes are.
//! Scalars are integers modulo the order of the group, and their arithmetic
//! is stated as such. The arithmetic of the group, the generators and the
//! range proofs themselves come from `curve25519-dalek` and `bulletproofs`;
//! what they compute is known here by name only.

use bulletproofs::{BulletproofGens, PedersenGens, RangeProof};
use byteorder::{ByteOrder, LittleEndian};
use curve25519_dalek::ristretto::CompressedRistretto;
use curve25519_dalek::scalar::Scalar;
use merlin::Transcript;
use rand::thread_rng;
use vstd::bytes::{
    lemma_auto_spec_u64_to_from_le_bytes, spec_u64_from_le_bytes, spec_u64_to_le_bytes,
};
use vstd::prelude::*;

verus! {

/// Size of an encoded group element or scalar.
pub const ELEMENT_LEN: usize = 32;

/// Size of an encoded opening: the committed value and the blinding factor.
pub const OPENING_LEN: usize = 40;

/// Number of variable bits in a value covered by a range proof.
pub const RANGE_BITS: usize = 64;

/// Number of group elements and scalars in a range proof over `RANGE_BITS`
/// bits: nine, and two for each halving of the bit vector.
pub const PROOF_ELEMENTS: usize = 21;

/// Size of an encoded range proof over `RANGE_BITS` bits.
pub const PROOF_LEN: usize = 672;

/// The order of the Ristretto group, `2^252 + 27742317777372353535851937790883648493`.
/// Scalars are the integers modulo this prime.
pub open spec fn group_order() -> nat {
    7237005577332262213973186563042994240857116359379907606001950938285454250989nat
}

/// The number that bytes encode, least significant byte first.
pub open spec fn le_value(bytes: Seq<u8>) -> nat
    decreases bytes.len(),
{
    if bytes.len() == 0 {
        0
    } else {
        bytes[0] as nat + 256 * le_value(bytes.subrange(1, bytes.len() as int))
    }
}

/// The encoding of a number in the given count of bytes, least significant
/// byte first. A number that does not fit loses its upper part.
pub open spec fn le_bytes(value: nat, len: nat) -> Seq<u8>
    decreases len,
{
    if len == 0 {
        Seq::empty()
    } else {
        seq![(value % 256) as u8] + le_bytes(value / 256, (len - 1) as nat)
    }
}

/// The number of values that the given count of bytes can encode.
pub open spec fn le_bound(len: nat) -> nat
    decreases len,
{
    if len == 0 {
        1
    } else {
        256 * le_bound((len - 1) as nat)
    }
}

/// Whether 32 bytes are the canonical encoding of a scalar, that is of an
/// integer below the order of the group: what `Scalar::from_canonical_bytes`
/// accepts.
pub open spec fn is_canonical_scalar(bytes: Seq<u8>) -> bool {
    bytes.len() == 32 && le_value(bytes) < group_order()
}

/// Whether 32 bytes are the canonical encoding of a group element: what
/// `CompressedRistretto::decompress` accepts.
pub uninterp spec fn is_ristretto_encoding(bytes: Seq<u8>) -> bool;

/// Encoding of the sum of two scalars: the sum of the two integers modulo
/// the order of the group, in 32 bytes.
pub open spec fn scalar_sum(a: Seq<u8>, b: Seq<u8>) -> Seq<u8> {
    le_bytes((le_value(a) + le_value(b)) % group_order(), 32)
}

/// The difference of two integers modulo the order of the group.
pub open spec fn difference_in_group(x: nat, y: nat) -> nat {
    ((x + group_order() - y % group_order()) % (group_order() as int)) as nat
}

/// Encoding of the difference of two scalars: the difference of the two
/// integers modulo the order of the group, in 32 bytes.
pub open spec fn scalar_difference(a: Seq<u8>, b: Seq<u8>) -> Seq<u8> {
    le_bytes(difference_in_group(le_value(a), le_value(b)), 32)
}

/// The encoding of a number has as many bytes as asked for.
pub proof fn lemma_le_bytes_len(value: nat, len: nat)
    ensures
        le_bytes(value, len).len() == len,
    decreases len,
{
    if len > 0 {
        lemma_le_bytes_len(value / 256, (len - 1) as nat);
    }
}

/// Encoding the number that bytes encode, in as many bytes, gives the bytes
/// back.
pub proof fn lemma_le_bytes_of_value(bytes: Seq<u8>)
    ensures
        le_bytes(le_value(bytes), bytes.len()) == bytes,
    decreases bytes.len(),
{
    if bytes.len() > 0 {
        let rest = bytes.subrange(1, bytes.len() as int);
        lemma_le_bytes_of_value(rest);
        let value = le_value(bytes);
        assert(value == bytes[0] as nat + 256 * le_value(rest));
        assert(value % 256 == bytes[0] as nat);
        assert(value / 256 == le_value(rest));
        assert(le_bytes(value, bytes.len()) =~= bytes);
    }
}

/// A number that fits into the given count of bytes is the one that its
/// encoding encodes.
pub proof fn lemma_le_value_of_bytes(value: nat, len: nat)
    requires
        value < le_bound(len),
    ensures
        le_value(le_bytes(value, len)) == value,
    decreases len,
{
    if len > 0 {
        let rest = le_bytes(value / 256, (len - 1) as nat);
        let bytes = le_bytes(value, len);
        lemma_le_bytes_len(value / 256, (len - 1) as nat);
        lemma_le_value_of_bytes(value / 256, (len - 1) as nat);
        assert(bytes.subrange(1, bytes.len() as int) =~= rest);
        assert(bytes[0] == (value % 256) as u8);
    }
}

/// The order of the group fits into 32 bytes.
pub proof fn lemma_group_order_fits()
    ensures
        group_order() < le_bound(32),
{
    reveal_with_fuel(le_bound, 33);
}

/// The encoding of the sum and of the difference of two scalars is canonical.
pub proof fn lemma_scalar_arithmetic_canonical(a: Seq<u8>, b: Seq<u8>)
    ensures
        is_canonical_scalar(scalar_sum(a, b)),
        is_canonical_scalar(scalar_difference(a, b)),
{
    lemma_group_order_fits();
    let sum = (le_value(a) + le_value(b)) % group_order();
    let difference = difference_in_group(le_value(a), le_value(b));
    lemma_le_bytes_len(sum, 32);
    lemma_le_bytes_len(difference, 32);
    lemma_le_value_of_bytes(sum, 32);
    lemma_le_value_of_bytes(difference, 32);
}

/// Adding a scalar to a difference gives back what the scalar was subtracted
/// from, and subtracting a scalar from a sum gives back what it was added to.
pub proof fn lemma_scalar_sum_of_difference(a: Seq<u8>, b: Seq<u8>)
    requires
        is_canonical_scalar(a),
        is_canonical_scalar(b),
    ensures
        scalar_sum(scalar_difference(a, b), b) == a,
        scalar_difference(scalar_sum(a, b), b) == a,
{
    lemma_group_order_fits();
    let order = group_order();
    let x = le_value(a);
    let y = le_value(b);
    let difference = difference_in_group(x, y);
    let sum = (x + y) % order;
    lemma_le_value_of_bytes(difference, 32);
    lemma_le_value_of_bytes(sum, 32);
    lemma_le_bytes_of_value(a);
    assert(y % order == y);
    assert((difference + y) % order == x) by {
        if x >= y {
            assert(difference == x - y);
        } else {
            assert(difference == x + order - y);
        }
    }
    assert(difference_in_group(sum, y) == x) by {
        if x + y >= order {
            assert(sum == x + y - order);
        } else {
            assert(sum == x + y);
        }
    }
}

/// Encoding of the sum of two group elements, of `curve25519-dalek`.
pub uninterp spec fn ristretto_sum(a: Seq<u8>, b: Seq<u8>) -> Seq<u8>;

/// Encoding of the difference of two group elements, of `curve25519-dalek`.
pub uninterp spec fn ristretto_difference(a: Seq<u8>, b: Seq<u8>) -> Seq<u8>;

/// Encoding of the Pedersen commitment to `value` with the given blinding
/// factor, over the default generators of `bulletproofs`.
pub uninterp spec fn pedersen_commitment(value: u64, blinding: Seq<u8>) -> Seq<u8>;

/// Whether a byte string parses as a range proof: what
/// `RangeProof::from_bytes` accepts.
pub uninterp spec fn is_range_proof_encoding(bytes: Seq<u8>) -> bool;

/// The 32 zero bytes.
pub open spec fn zero_bytes() -> Seq<u8> {
    Seq::new(32, |i: int| 0u8)
}

/// Calls `Scalar::from_canonical_bytes`, which by its documentation returns a
/// scalar exactly for the canonical encodings.
#[verifier::external_body]
fn scalar_is_canonical(bytes: &[u8; 32]) -> (canonical: bool)
    ensures
        canonical == is_canonical_scalar(bytes@),
{
    Option::<Scalar>::from(Scalar::from_canonical_bytes(*bytes)).is_some()
}

/// Encodes `Scalar::ZERO`, whose bytes are all zero by its definition; as
/// every scalar that the crate hands out, it is reduced, so its encoding is
/// canonical.
#[verifier::external_body]
fn scalar_zero() -> (out: [u8; 32])
    ensures
        out@ == zero_bytes(),
        is_canonical_scalar(out@),
{
    Scalar::ZERO.to_bytes()
}

/// Calls `Scalar::random` on the thread's generator. Nothing is known of the
/// scalar but that it is reduced, so that its encoding is canonical.
#[verifier::external_body]
fn scalar_random() -> (out: [u8; 32])
    ensures
        is_canonical_scalar(out@),
{
    Scalar::random(&mut thread_rng()).to_bytes()
}

/// Adds two scalars with `+` of `Scalar`, which adds modulo the order of the
/// group, and encodes the sum with `Scalar::to_bytes`, the little-endian
/// bytes of the reduced integer.
#[verifier::external_body]
fn scalar_add(a: &[u8; 32], b: &[u8; 32]) -> (out: [u8; 32])
    requires
        is_canonical_scalar(a@),
        is_canonical_scalar(b@),
    ensures
        out@ == scalar_sum(a@, b@),
{
    let a = Option::<Scalar>::from(Scalar::from_canonical_bytes(*a)).unwrap();
    let b = Option::<Scalar>::from(Scalar::from_canonical_bytes(*b)).unwrap();
    (a + b).to_bytes()
}

/// Subtracts two scalars with `-` of `Scalar`, which subtracts modulo the
/// order of the group, and encodes the difference with `Scalar::to_bytes`,
/// the little-endian bytes of the reduced integer.
#[verifier::external_body]
fn scalar_sub(a: &[u8; 32], b: &[u8; 32]) -> (out: [u8; 32])
    requires
        is_canonical_scalar(a@),
        is_canonical_scalar(b@),
    ensures
        out@ == scalar_difference(a@, b@),
{
    let a = Option::<Scalar>::from(Scalar::from_canonical_bytes(*a)).unwrap();
    let b = Option::<Scalar>::from(Scalar::from_canonical_bytes(*b)).unwrap();
    (a - b).to_bytes()
}

/// Calls `CompressedRistretto::decompress`, which by its documentation returns
/// a point exactly for the canonical encodings.
#[verifier::external_body]
fn ristretto_decodes(bytes: &[u8; 32]) -> (valid: bool)
    ensures
        valid == is_ristretto_encoding(bytes@),
{
    CompressedRistretto(*bytes).decompress().is_some()
}

/// Adds two group elements with `+` of `RistrettoPoint` and compresses the
/// sum; the encoding of a point is canonical.
#[verifier::external_body]
fn ristretto_add(a: &[u8; 32], b: &[u8; 32]) -> (out: [u8; 32])
    requires
        is_ristretto_encoding(a@),
        is_ristretto_encoding(b@),
    ensures
        out@ == ristretto_sum(a@, b@),
        is_ristretto_encoding(out@),
{
    let a = CompressedRistretto(*a).decompress().unwrap();
    let b = CompressedRistretto(*b).decompress().unwrap();
    (a + b).compress().to_bytes()
}

/// Subtracts two group elements with `-` of `RistrettoPoint` and compresses
/// the difference; the encoding of a point is canonical.
#[verifier::external_body]
fn ristretto_sub(a: &[u8; 32], b: &[u8; 32]) -> (out: [u8; 32])
    requires
        is_ristretto_encoding(a@),
        is_ristretto_encoding(b@),
    ensures
        out@ == ristretto_difference(a@, b@),
        is_ristretto_encoding(out@),
{
    let a = CompressedRistretto(*a).decompress().unwrap();
    let b = CompressedRistretto(*b).decompress().unwrap();
    (a - b).compress().to_bytes()
}

/// Calls `PedersenGens::commit` on the default generators and compresses the
/// point; the encoding of a point is canonical.
#[verifier::external_body]
fn pedersen_commit(value: u64, blinding: &[u8; 32]) -> (out: [u8; 32])
    requires
        is_canonical_scalar(blinding@),
    ensures
        out@ == pedersen_commitment(value, blinding@),
        is_ristretto_encoding(out@),
{
    let blinding = Option::<Scalar>::from(Scalar::from_canonical_bytes(*blinding)).unwrap();
    PedersenGens::default().commit(Scalar::from(value), blinding).compress().to_bytes()
}

/// Calls `RangeProof::prove_single` for a range of `bits` bits, one of the
/// four sizes that it supports, on a fresh transcript that starts with
/// `label`, and encodes the proof with `RangeProof::to_bytes`. The proof depends on the thread's random generator;
/// what holds of every outcome is that its encoding parses again, and that it
/// has nine elements and two for each of the `log2(bits)` rounds of the
/// argument.
#[verifier::external_body]
fn range_prove(label: &'static str, value: u64, blinding: &[u8; 32], bits: usize) -> (out: Option<
    Vec<u8>,
>)
    requires
        is_canonical_scalar(blinding@),
        bits == 8 || bits == 16 || bits == 32 || bits == 64,
    ensures
        out is Some ==> is_range_proof_encoding(out->0@),
        out is Some && bits == 64 ==> out->0@.len() == 672,
{
    let blinding = Option::<Scalar>::from(Scalar::from_canonical_bytes(*blinding)).unwrap();
    let mut transcript = Transcript::new(label.as_bytes());
    let bp_gens = BulletproofGens::new(bits, 1);
    let pc_gens = PedersenGens::default();
    match RangeProof::prove_single(&bp_gens, &pc_gens, &mut transcript, value, &blinding, bits) {
        Ok((proof, _)) => Some(proof.to_bytes()),
        Err(_) => None,
    }
}

/// Calls `RangeProof::from_bytes`.
#[verifier::external_body]
fn range_proof_parses(bytes: &[u8]) -> (valid: bool)
    ensures
        valid == is_range_proof_encoding(bytes@),
{
    RangeProof::from_bytes(bytes).is_ok()
}

/// Calls `RangeProof::verify_single` for a range of `bits` bits, one of the
/// four sizes that it supports, on a fresh transcript that starts with
/// `label`. The verifier draws a random weight to
/// check its equations in one batch, so nothing is stated of the answer.
#[verifier::external_body]
fn range_verify(label: &'static str, proof: &[u8], commitment: &[u8; 32], bits: usize) -> (valid:
    bool)
    requires
        is_range_proof_encoding(proof@),
        bits == 8 || bits == 16 || bits == 32 || bits == 64,
{
    let mut transcript = Transcript::new(label.as_bytes());
    let bp_gens = BulletproofGens::new(bits, 1);
    let pc_gens = PedersenGens::default();
    let commitment = CompressedRistretto(*commitment);
    RangeProof::from_bytes(proof).unwrap().verify_single(
        &bp_gens,
        &pc_gens,
        &mut transcript,
        &commitment,
        bits,
    ).is_ok()
}

/// Calls `LittleEndian::read_u64`, which reads the first eight bytes as an
/// integer, least significant byte first.
#[verifier::external_body]
fn read_u64_le(bytes: &[u8]) -> (value: u64)
    requires
        bytes@.len() >= 8,
    ensures
        value == spec_u64_from_le_bytes(bytes@.subrange(0, 8)),
{
    LittleEndian::read_u64(bytes)
}

/// Calls `LittleEndian::write_u64` on a buffer of eight bytes, which it fills
/// with the integer, least significant byte first.
#[verifier::external_body]
fn write_u64_le(value: u64) -> (out: [u8; 8])
    ensures
        out@ == spec_u64_to_le_bytes(value),
{
    let mut out = [0u8; 8];
    LittleEndian::write_u64(&mut out, value);
    out
}

/// Signals that a sum or a difference of committed values left the range of
/// `u64`.
#[derive(Clone, Copy, Debug, PartialEq, Eq, Structural)]
pub struct ArithmeticOverflow;

/// Opening for a Pedersen commitment: the committed value and the blinding
/// factor. Knowing the opening, it is easy to check that it corresponds to a
/// given commitment.
///
/// Openings can be added and subtracted like the commitments they open, value
/// by value modulo nothing: a sum or difference that leaves `u64` is refused.
#[derive(Clone, Copy, Debug)]
pub struct Opening {
    value: u64,
    blinding: [u8; 32],
}

/// What an opening holds, for use in contracts.
pub struct OpeningView {
    /// Committed value.
    pub value: u64,
    /// Canonical encoding of the blinding factor.
    pub blinding: Seq<u8>,
}

impl View for Opening {
    type V = OpeningView;

    closed spec fn view(&self) -> OpeningView {
        OpeningView { value: self.value, blinding: self.blinding@ }
    }
}

impl OpeningView {
    /// The encoding of an opening: the value in eight bytes, least significant
    /// first, then the blinding factor.
    pub open spec fn encoding(self) -> Seq<u8> {
        spec_u64_to_le_bytes(self.value) + self.blinding
    }

    /// The commitment that the opening opens.
    pub open spec fn commitment(self) -> Seq<u8> {
        pedersen_commitment(self.value, self.blinding)
    }

    /// What a byte string decodes to, if to anything.
    pub open spec fn decode(bytes: Seq<u8>) -> Option<OpeningView> {
        if bytes.len() == 40 && is_canonical_scalar(bytes.subrange(8, 40)) {
            Some(
                OpeningView {
                    value: spec_u64_from_le_bytes(bytes.subrange(0, 8)),
                    blinding: bytes.subrange(8, 40),
                },
            )
        } else {
            None
        }
    }
}

impl PartialEq for Opening {
    fn eq(&self, other: &Self) -> (same: bool) {
        let same = self.value == other.value && super::keys::bytes32_eq(
            &self.blinding,
            &other.blinding,
        );
        same
    }
}

impl vstd::std_specs::cmp::PartialEqSpecImpl for Opening {
    open spec fn obeys_eq_spec() -> bool {
        true
    }

    open spec fn eq_spec(&self, other: &Self) -> bool {
        *self == *other
    }
}

impl Opening {
    #[verifier::type_invariant]
    spec fn well_formed(self) -> bool {
        is_canonical_scalar(self.blinding@)
    }

    /// The committed value, in contracts.
    pub open spec fn spec_value(&self) -> u64 {
        self@.value
    }

    /// Creates an opening with no blinding factor. The commitment that it
    /// opens hides nothing.
    pub fn with_no_blinding(value: u64) -> (opening: Opening)
        ensures
            opening@.value == value,
            opening@.blinding == zero_bytes(),
    {
        Opening { value, blinding: scalar_zero() }
    }

    /// Creates an opening with a randomly chosen blinding factor.
    pub fn with_random_blinding(value: u64) -> (opening: Opening)
        ensures
            opening@.value == value,
    {
        Opening { value, blinding: scalar_random() }
    }

    /// The committed value.
    #[verifier::when_used_as_spec(spec_value)]
    pub fn value(&self) -> (value: u64)
        ensures
            value == self@.value,
    {
        self.value
    }

    /// Attempts to decode an opening from a slice, which succeeds for 40 bytes
    /// whose last 32 are a canonical scalar.
    pub fn from_slice(slice: &[u8]) -> (opening: Option<Opening>)
        ensures
            opening is Some <==> OpeningView::decode(slice@) is Some,
            opening is Some ==> Some(opening->0@) == OpeningView::decode(slice@),
    {
        if slice.len() != OPENING_LEN {
            return None;
        }
        let mut blinding = [0u8; 32];
        let mut i: usize = 0;
        while i < 32
            invariant
                i <= 32,
                slice@.len() == 40,
                forall|j: int| 0 <= j < i ==> blinding@[j] == slice@[8 + j],
            decreases 32 - i,
        {
            blinding[i] = slice[8 + i];
            i += 1;
        }
        assert(blinding@ =~= slice@.subrange(8, 40));
        if !scalar_is_canonical(&blinding) {
            return None;
        }
        Some(Opening { value: read_u64_le(slice), blinding })
    }

    /// Encodes this opening: the committed value in eight bytes, least
    /// significant first, and the blinding factor in 32. Decoding the bytes
    /// gives the opening back.
    pub fn to_bytes(&self) -> (bytes: Vec<u8>)
        ensures
            bytes@ == self@.encoding(),
            bytes@.len() == 40,
            OpeningView::decode(bytes@) == Some(self@),
    {
        let head = write_u64_le(self.value);
        proof {
            use_type_invariant(self);
            lemma_auto_spec_u64_to_from_le_bytes();
            lemma_opening_round_trip(self@);
        }
        let mut bytes: Vec<u8> = Vec::new();
        let mut i: usize = 0;
        while i < 8
            invariant
                i <= 8,
                head@.len() == 8,
                bytes@ == head@.subrange(0, i as int),
            decreases 8 - i,
        {
            bytes.push(head[i]);
            assert(bytes@ =~= head@.subrange(0, i + 1));
            i += 1;
        }
        assert(bytes@ =~= head@);
        let mut j: usize = 0;
        while j < 32
            invariant
                j <= 32,
                head@.len() == 8,
                bytes@ == head@ + self.blinding@.subrange(0, j as int),
            decreases 32 - j,
        {
            bytes.push(self.blinding[j]);
            assert(bytes@ =~= head@ + self.blinding@.subrange(0, j + 1));
            j += 1;
        }
        assert(bytes@ =~= head@ + self.blinding@);
        bytes
    }

    /// Adds two openings. The sum opens the sum of the two commitments.
    pub fn checked_add(&self, rhs: &Opening) -> (sum: Result<Opening, ArithmeticOverflow>)
        ensures
            sum is Ok <==> self@.value + rhs@.value <= u64::MAX,
            sum is Ok ==> sum->Ok_0@.value == self@.value + rhs@.value,
            sum is Ok ==> sum->Ok_0@.blinding == scalar_sum(self@.blinding, rhs@.blinding),
    {
        proof {
            use_type_invariant(self);
            use_type_invariant(rhs);
        }
        proof {
            lemma_scalar_arithmetic_canonical(self.blinding@, rhs.blinding@);
        }
        match self.value.checked_add(rhs.value) {
            Some(value) => Ok(Opening { value, blinding: scalar_add(&self.blinding, &rhs.blinding) }),
            None => Err(ArithmeticOverflow),
        }
    }

    /// Subtracts an opening from this one. The difference opens the
    /// difference of the two commitments.
    pub fn checked_sub(&self, rhs: &Opening) -> (difference: Result<Opening, ArithmeticOverflow>)
        ensures
            difference is Ok <==> self@.value >= rhs@.value,
            difference is Ok ==> difference->Ok_0@.value == self@.value - rhs@.value,
            difference is Ok ==> difference->Ok_0@.blinding == scalar_difference(
                self@.blinding,
                rhs@.blinding,
            ),
    {
        proof {
            use_type_invariant(self);
            use_type_invariant(rhs);
        }
        proof {
            lemma_scalar_arithmetic_canonical(self.blinding@, rhs.blinding@);
        }
        match self.value.checked_sub(rhs.value) {
            Some(value) => Ok(Opening { value, blinding: scalar_sub(&self.blinding, &rhs.blinding) }),
            None => Err(ArithmeticOverflow),
        }
    }
}

/// Decoding the encoding of an opening gives the opening back.
pub proof fn lemma_opening_round_trip(opening: OpeningView)
    requires
        opening.blinding.len() == 32,
        is_canonical_scalar(opening.blinding),
    ensures
        OpeningView::decode(opening.encoding()) == Some(opening),
{
    lemma_auto_spec_u64_to_from_le_bytes();
    let bytes = opening.encoding();
    assert(bytes.subrange(0, 8) =~= spec_u64_to_le_bytes(opening.value));
    assert(bytes.subrange(8, 40) =~= opening.blinding);
}

/// Pedersen commitment to an integer value.
///
/// The commitment hides the value and the blinding factor from those who do
/// not know them, and binds its author to them. Commitments can be added and
/// subtracted; the result commits to the sum or difference of the values.
#[derive(Clone, Copy, Debug, Eq)]
pub struct Commitment {
    bytes: [u8; 32],
}

impl View for Commitment {
    type V = Seq<u8>;

    closed spec fn view(&self) -> Seq<u8> {
        self.bytes@
    }
}

impl PartialEq for Commitment {
    fn eq(&self, other: &Self) -> (same: bool) {
        super::keys::bytes32_eq(&self.bytes, &other.bytes)
    }
}

impl vstd::std_specs::cmp::PartialEqSpecImpl for Commitment {
    open spec fn obeys_eq_spec() -> bool {
        true
    }

    open spec fn eq_spec(&self, other: &Self) -> bool {
        *self == *other
    }
}

impl Commitment {
    #[verifier::type_invariant]
    spec fn well_formed(self) -> bool {
        is_ristretto_encoding(self.bytes@)
    }

    /// Two commitments with the same bytes are the same commitment.
    pub proof fn lemma_ext(a: Commitment, b: Commitment)
        requires
            a@ == b@,
        ensures
            a == b,
    {
        assert(a.bytes =~= b.bytes);
    }

    /// Creates a commitment with a randomly chosen blinding factor, and
    /// returns it with the opening for it.
    pub fn new(value: u64) -> (pair: (Commitment, Opening))
        ensures
            pair.1@.value == value,
            pair.0@ == pair.1@.commitment(),
    {
        let opening = Opening::with_random_blinding(value);
        (Commitment::from_opening(&opening), opening)
    }

    /// Creates a commitment from the given opening.
    pub fn from_opening(opening: &Opening) -> (commitment: Commitment)
        ensures
            commitment@ == opening@.commitment(),
    {
        proof {
            use_type_invariant(opening);
        }
        Commitment { bytes: pedersen_commit(opening.value, &opening.blinding) }
    }

    /// Creates a commitment with no blinding factor. Such a commitment does
    /// not hide its value.
    pub fn with_no_blinding(value: u64) -> (commitment: Commitment)
        ensures
            commitment@ == pedersen_commitment(value, zero_bytes()),
    {
        Commitment::from_opening(&Opening::with_no_blinding(value))
    }

    /// Attempts to decode a commitment from a slice, which succeeds for the
    /// canonical encoding of a group element.
    pub fn from_slice(slice: &[u8]) -> (commitment: Option<Commitment>)
        ensures
            commitment is Some <==> slice@.len() == 32 && is_ristretto_encoding(slice@),
            commitment is Some ==> commitment->0@ == slice@,
    {
        if slice.len() != ELEMENT_LEN {
            return None;
        }
        let mut bytes = [0u8; 32];
        let mut i: usize = 0;
        while i < 32
            invariant
                i <= 32,
                slice@.len() == 32,
                forall|j: int| 0 <= j < i ==> bytes@[j] == slice@[j],
            decreases 32 - i,
        {
            bytes[i] = slice[i];
            i += 1;
        }
        assert(bytes@ =~= slice@);
        if ristretto_decodes(&bytes) {
            Some(Commitment { bytes })
        } else {
            None
        }
    }

    /// Encodes this commitment as a single compressed group element, which
    /// decodes to the commitment again.
    pub fn to_bytes(&self) -> (bytes: Vec<u8>)
        ensures
            bytes@ == self@,
            bytes@.len() == 32,
            is_ristretto_encoding(bytes@),
    {
        proof {
            use_type_invariant(self);
        }
        let mut bytes: Vec<u8> = Vec::new();
        let mut i: usize = 0;
        while i < 32
            invariant
                i <= 32,
                bytes@ == self.bytes@.subrange(0, i as int),
            decreases 32 - i,
        {
            bytes.push(self.bytes[i]);
            assert(bytes@ =~= self.bytes@.subrange(0, i + 1));
            i += 1;
        }
        assert(bytes@ =~= self.bytes@);
        bytes
    }

    /// Verifies if this commitment corresponds to the provided opening.
    pub fn verify(&self, opening: &Opening) -> (matches: bool)
        ensures
            matches == (self@ == opening@.commitment()),
    {
        let expected = Commitment::from_opening(opening);
        super::keys::bytes32_eq(&self.bytes, &expected.bytes)
    }

    /// Adds a commitment to this one.
    pub fn add(&self, rhs: &Commitment) -> (sum: Commitment)
        ensures
            sum@ == ristretto_sum(self@, rhs@),
    {
        proof {
            use_type_invariant(self);
            use_type_invariant(rhs);
        }
        Commitment { bytes: ristretto_add(&self.bytes, &rhs.bytes) }
    }

    /// Subtracts a commitment from this one.
    pub fn sub(&self, rhs: &Commitment) -> (difference: Commitment)
        ensures
            difference@ == ristretto_difference(self@, rhs@),
    {
        proof {
            use_type_invariant(self);
            use_type_invariant(rhs);
        }
        Commitment { bytes: ristretto_sub(&self.bytes, &rhs.bytes) }
    }
}

/// Domain separator of the range proofs of this service. Prover and verifier
/// must start their transcripts with the same one.
pub fn domain_separator() -> (label: &'static str)
    ensures
        label@ == "exonum.private_cryptocurrency"@,
{
    "exonum.private_cryptocurrency"
}

/// Range proof for a single committed value in the range `[0, 1 << 64)`.
///
/// The proof is non-interactive and short, and the verifier learns nothing
/// about the committed value besides the range.
#[derive(Debug, PartialEq, Eq)]
pub struct SimpleRangeProof {
    bytes: Vec<u8>,
}

impl View for SimpleRangeProof {
    type V = Seq<u8>;

    closed spec fn view(&self) -> Seq<u8> {
        self.bytes@
    }
}

impl Clone for SimpleRangeProof {
    fn clone(&self) -> (copy: SimpleRangeProof)
        ensures
            copy@ == self@,
    {
        proof {
            use_type_invariant(self);
        }
        SimpleRangeProof { bytes: self.bytes.clone() }
    }
}

impl SimpleRangeProof {
    #[verifier::type_invariant]
    spec fn well_formed(self) -> bool {
        is_range_proof_encoding(self.bytes@)
    }

    /// Creates a proof for the specified value, which is provided together
    /// with the blinding factor as an opening. The prover may fail; `None` is
    /// returned then.
    pub fn prove(opening: &Opening) -> (proof: Option<SimpleRangeProof>)
        ensures
            proof is Some ==> proof->0@.len() == PROOF_LEN,
    {
        proof {
            use_type_invariant(opening);
        }
        match range_prove(domain_separator(), opening.value, &opening.blinding, RANGE_BITS) {
            Some(bytes) => Some(SimpleRangeProof { bytes }),
            None => None,
        }
    }

    /// Attempts to decode a proof from a byte slice.
    pub fn from_slice(slice: &[u8]) -> (proof: Option<SimpleRangeProof>)
        ensures
            proof is Some <==> is_range_proof_encoding(slice@),
            proof is Some ==> proof->0@ == slice@,
    {
        if range_proof_parses(slice) {
            Some(SimpleRangeProof { bytes: slice_to_vec(slice) })
        } else {
            None
        }
    }

    /// Verifies this proof with respect to the given commitment. A proof of
    /// another size than that of a proof over `RANGE_BITS` bits is refused at
    /// once. On a proof of that size the proof system decides; its verifier
    /// draws random numbers, so its answer is not a function of the proof and
    /// the commitment in the eyes of the contract.
    pub fn verify(&self, commitment: &Commitment) -> (valid: bool)
        ensures
            valid ==> self@.len() == PROOF_LEN,
    {
        proof {
            use_type_invariant(self);
        }
        if self.bytes.len() != PROOF_LEN {
            return false;
        }
        range_verify(domain_separator(), self.bytes.as_slice(), &commitment.bytes, RANGE_BITS)
    }

    /// Encodes this proof; the bytes decode to the proof again.
    pub fn to_bytes(&self) -> (bytes: Vec<u8>)
        ensures
            bytes@ == self@,
            is_range_proof_encoding(bytes@),
    {
        proof {
            use_type_invariant(self);
        }
        slice_to_vec(self.bytes.as_slice())
    }

    /// Whether the proof has the size of a proof over `RANGE_BITS` bits.
    pub fn has_standard_size(&self) -> (standard: bool)
        ensures
            standard == (self@.len() == PROOF_LEN),
    {
        self.bytes.len() == PROOF_LEN
    }
}

/// Copies a slice of bytes into a vector.
pub fn slice_to_vec(slice: &[u8]) -> (bytes: Vec<u8>)
    ensures
        bytes@ == slice@,
{
    let mut bytes: Vec<u8> = Vec::new();
    let mut i: usize = 0;
    while i < slice.len()
        invariant
            i <= slice@.len(),
            bytes@ == slice@.subrange(0, i as int),
        decreases slice@.len() - i,
    {
        bytes.push(slice[i]);
        assert(bytes@ =~= slice@.subrange(0, i + 1));
        i += 1;
    }
    assert(bytes@ =~= slice@);
    bytes
}

} // verus!
