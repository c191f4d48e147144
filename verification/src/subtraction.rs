//! The subtraction argument: the prover claims that one committed column
//! is the element-wise difference of two others; by the commitment
//! homomorphism the verifier checks the claim on the commitments alone,
//! binding the claim to the transcript.
use vstd::prelude::*;
use crate::scalar::{Scalar, fmod, field_order};
use crate::commitment::{Commitment, spec_grow_log_max, group_element_bytes};
use crate::transcript::{Transcript, u64_le_seq};
use crate::builders::ProofError;

verus! {

/// A column of integers embedded in the scalar field, carrying the bit
/// width bound of its values.
pub struct SafeIntColumn {
    pub values: Vec<Scalar>,
    pub log_max: u8,
}

impl SafeIntColumn {
    pub open spec fn wf(&self) -> bool {
        forall|i: int| 0 <= i < self.values@.len() ==> (#[trigger] self.values@[i]).wf()
    }

    /// The number of rows.
    pub fn len(&self) -> (r: usize)
        ensures
            r == self.values@.len(),
    {
        self.values.len()
    }

    /// Raises the recorded bound; a bound below the current one is
    /// refused.
    pub fn with_log_max(self, log_max: u8) -> (r: Result<SafeIntColumn, ProofError>)
        ensures
            match r {
                Ok(c) => c.values == self.values && c.log_max == log_max && log_max
                    >= self.log_max,
                Err(_) => log_max < self.log_max,
            },
    {
        if log_max >= self.log_max {
            Ok(SafeIntColumn { values: self.values, log_max })
        } else {
            Err(ProofError::Overflow)
        }
    }
}

/// A column of one of the general value kinds the proofs accept.
pub enum GeneralColumn {
    SafeIntColumn(SafeIntColumn),
    BooleanColumn(Vec<bool>),
}

impl GeneralColumn {
    pub open spec fn wf(&self) -> bool {
        match self {
            GeneralColumn::SafeIntColumn(c) => c.wf(),
            GeneralColumn::BooleanColumn(_) => true,
        }
    }
}

/// A marker for the range reduction attached to a difference whose bound
/// outgrew the budget; the bound this argument accepts keeps the
/// reduction absent.
pub struct LogMaxReductionProof {
    pub reduced_commitment: Commitment,
}

/// The proof of one subtraction: the commitment to the difference column
/// and, where the bound outgrew the budget, its range reduction.
pub struct SubtractionProof {
    pub c_diff: Commitment,
    pub log_max_reduction_proof: Option<LogMaxReductionProof>,
}

/// What verification accepts: the proof's difference commitment is the
/// homomorphic difference of the input commitments, with the matching
/// length and no outstanding reduction. An honest prover always meets it,
/// so proving then verifying succeeds.
pub open spec fn subtraction_accepts(
    proof: SubtractionProof,
    c_a: Commitment,
    c_b: Commitment,
) -> bool {
    &&& proof.c_diff.commitment@ == fmod(c_a.commitment@ + field_order() - c_b.commitment@)
    &&& proof.c_diff.length == c_a.length
    &&& proof.log_max_reduction_proof is None
}

impl SubtractionProof {
    /// The largest difference bound this argument accepts without a range
    /// reduction.
    pub open spec fn spec_log_max_max() -> nat {
        128
    }

    /// Proves that the difference of the two committed columns is the
    /// claimed output: the difference commitment is computed
    /// homomorphically and bound to the transcript together with the
    /// column length.
    pub fn prove(
        transcript: &mut Transcript,
        left: GeneralColumn,
        right: GeneralColumn,
        output: GeneralColumn,
        input_commitment: (Commitment, Commitment),
    ) -> (r: SubtractionProof)
        requires
            left is SafeIntColumn,
            right is SafeIntColumn,
            output is SafeIntColumn,
            left->SafeIntColumn_0.values@.len() == right->SafeIntColumn_0.values@.len(),
            left->SafeIntColumn_0.values@.len() == output->SafeIntColumn_0.values@.len(),
            input_commitment.0.length == left->SafeIntColumn_0.values@.len(),
            input_commitment.1.length == right->SafeIntColumn_0.values@.len(),
            input_commitment.0.log_max is Some,
            input_commitment.1.log_max is Some,
            input_commitment.0.log_max->0 >= left->SafeIntColumn_0.log_max,
            input_commitment.1.log_max->0 >= right->SafeIntColumn_0.log_max,
            input_commitment.0.wf(),
            input_commitment.1.wf(),
            spec_grow_log_max(input_commitment.0.log_max, input_commitment.1.log_max) is Some,
            spec_grow_log_max(input_commitment.0.log_max, input_commitment.1.log_max)->0
                <= SubtractionProof::spec_log_max_max(),
        ensures
            subtraction_accepts(r, input_commitment.0, input_commitment.1),
            r.c_diff.commitment@ == fmod(input_commitment.0.commitment@ + field_order()
                - input_commitment.1.commitment@),
            r.c_diff.length == input_commitment.0.length,
            r.c_diff.log_max == spec_grow_log_max(
                input_commitment.0.log_max,
                input_commitment.1.log_max,
            ),
            r.log_max_reduction_proof is None,
            r.c_diff.wf(),
            final(transcript)@ == old(transcript)@.push(
                crate::transcript::TranscriptOp {
                    squeeze: false,
                    label: subtraction_label(),
                    bytes: u64_le_seq(input_commitment.0.length as u64) + group_element_bytes(
                        fmod(input_commitment.0.commitment@ + field_order()
                            - input_commitment.1.commitment@) as nat,
                    ),
                },
            ),
    {
        let (c_a, c_b) = input_commitment;
        let c_diff = c_a.sub_commitment(&c_b);
        append_subtraction_message(transcript, c_a.length, &c_diff);
        SubtractionProof { c_diff, log_max_reduction_proof: None }
    }

    /// Verifies the subtraction against the input commitments: recomputes
    /// the homomorphic difference, binds it to the transcript exactly as
    /// the prover did, and accepts exactly when the proof's difference
    /// commitment matches the recomputed one.
    pub fn verify(
        &self,
        transcript: &mut Transcript,
        input_commitment: (Commitment, Commitment),
    ) -> (r: Result<(), ProofError>)
        requires
            self.c_diff.wf(),
            input_commitment.0.wf(),
            input_commitment.1.wf(),
            input_commitment.0.length == input_commitment.1.length,
        ensures
            final(transcript)@ == old(transcript)@.push(
                crate::transcript::TranscriptOp {
                    squeeze: false,
                    label: subtraction_label(),
                    bytes: u64_le_seq(input_commitment.0.length as u64) + group_element_bytes(
                        fmod(input_commitment.0.commitment@ + field_order()
                            - input_commitment.1.commitment@) as nat,
                    ),
                },
            ),
            r is Ok <==> subtraction_accepts(*self, input_commitment.0, input_commitment.1),
    {
        let (c_a, c_b) = input_commitment;
        let c_diff_calculated = c_a.sub_commitment(&c_b);
        append_subtraction_message(transcript, c_a.length, &c_diff_calculated);
        let ok = self.c_diff.commitment.eq_element(&c_diff_calculated.commitment)
            && self.c_diff.length == c_diff_calculated.length
            && self.log_max_reduction_proof.is_none();
        if ok {
            Ok(())
        } else {
            Err(ProofError::VerificationError)
        }
    }

    /// The commitment of the output column the proof stands for.
    pub fn get_output_commitments(&self) -> (r: Commitment)
        ensures
            r == self.c_diff,
    {
        self.c_diff
    }
}

/// Appends the subtraction message: the column length in little-endian
/// followed by the difference commitment's bytes, under the subtraction
/// label.
fn append_subtraction_message(transcript: &mut Transcript, length: usize, c_diff: &Commitment)
    requires
        c_diff.wf(),
    ensures
        final(transcript)@ == old(transcript)@.push(
            crate::transcript::TranscriptOp {
                squeeze: false,
                label: subtraction_label(),
                bytes: u64_le_seq(length as u64) + group_element_bytes(c_diff.commitment@),
            },
        ),
{
    let mut payload = crate::transcript::u64_le_bytes(length as u64);
    let bytes = c_diff.commitment.to_bytes();
    let n = bytes.len();
    let mut i: usize = 0;
    while i < n
        invariant
            n == bytes@.len(),
            0 <= i <= n,
            payload@ =~= u64_le_seq(length as u64) + bytes@.take(i as int),
        decreases n - i,
    {
        payload.push(bytes[i]);
        proof {
            assert(bytes@.take(i + 1) =~= bytes@.take(i as int).push(bytes@[i as int]));
        }
        i += 1;
    }
    proof {
        assert(bytes@.take(n as int) =~= bytes@);
    }
    let label = subtraction_label_bytes();
    transcript.append_message(label, payload.as_slice());
}

/// The domain label of the subtraction message: the ASCII bytes of the
/// word subtraction.
pub open spec fn subtraction_label() -> Seq<u8> {
    seq![115u8, 117u8, 98u8, 116u8, 114u8, 97u8, 99u8, 116u8, 105u8, 111u8, 110u8]
}

/// Relies on the byte-string literal holding exactly the ASCII bytes of
/// the word subtraction.
#[verifier::external_body]
fn subtraction_label_bytes() -> (r: &'static [u8])
    ensures
        r@ == subtraction_label(),
{
    b"subtraction"
}

} // verus!
