//! The Fiat-Shamir transcript: an append-only log of labelled byte
//! messages from which challenges are derived by hashing. Identical
//! label and byte sequences on prover and verifier yield identical
//! challenges; the log is the whole state.
use vstd::prelude::*;
use vstd::arithmetic::div_mod::lemma_div_denominator;
use crate::scalar::{Scalar, le_bytes_to_nat, pow_nat};


verus! {

/// Opaque holder of the outside transcript state.
#[verifier::external_body]
pub struct TranscriptRepr {
    inner: merlin::Transcript,
}

/// One recorded transcript operation: whether it was a challenge squeeze
/// rather than an absorbed message, its label, and its bytes. The kind
/// matters: absorbing the bytes a squeeze returned leaves a different
/// sponge state than the squeeze itself did.
pub struct TranscriptOp {
    pub squeeze: bool,
    pub label: Seq<u8>,
    pub bytes: Seq<u8>,
}

/// What a challenge squeeze returns: a function of the operation log, the
/// challenge label, and the requested width alone.
pub uninterp spec fn challenge_bytes_of(
    log: Seq<TranscriptOp>,
    label: Seq<u8>,
    n: nat,
) -> Seq<u8>;

/// A Fiat-Shamir transcript. The ghost log records every operation:
/// absorbed messages and challenge squeezes, each with its label and
/// bytes.
pub struct Transcript {
    inner: TranscriptRepr,
    log: Ghost<Seq<TranscriptOp>>,
}

impl View for Transcript {
    type V = Seq<TranscriptOp>;

    closed spec fn view(&self) -> Seq<TranscriptOp> {
        self.log@
    }
}

impl Transcript {
    /// Relies on the outside transcript's domain-separated initialization.
    #[verifier::external_body]
    pub fn new(label: &'static [u8]) -> (r: Transcript)
        ensures
            r@ =~= seq![
                TranscriptOp { squeeze: false, label: label@, bytes: Seq::<u8>::empty() },
            ],
    {
        Transcript {
            inner: TranscriptRepr { inner: merlin::Transcript::new(label) },
            log: Ghost(arbitrary()),
        }
    }

    /// Relies on the outside transcript's absorption of a labelled
    /// message: the state becomes a function of the log so far.
    #[verifier::external_body]
    pub fn append_message(&mut self, label: &'static [u8], message: &[u8])
        ensures
            final(self)@ =~= old(self)@.push(
                TranscriptOp { squeeze: false, label: label@, bytes: message@ },
            ),
    {
        self.inner.inner.append_message(label, message);
    }

    /// Relies on the outside transcript's challenge squeeze: the bytes
    /// and the state after depend only on the log, the label and the
    /// width.
    #[verifier::external_body]
    pub fn challenge_bytes_vec(&mut self, label: &'static [u8], n: usize) -> (r: Vec<u8>)
        ensures
            r@ == challenge_bytes_of(old(self)@, label@, n as nat),
            r@.len() == n,
            final(self)@ =~= old(self)@.push(
                TranscriptOp { squeeze: true, label: label@, bytes: r@ },
            ),
    {
        let mut buf = vec![0u8; n];
        self.inner.inner.challenge_bytes(label, &mut buf);
        buf
    }

    /// Draws a challenge scalar: the reduction of a 64-byte squeeze.
    pub fn challenge_scalar(&mut self, label: &'static [u8]) -> (r: Scalar)
        ensures
            r@ == le_bytes_to_nat(challenge_bytes_of(old(self)@, label@, 64))
                % crate::scalar::field_order(),
            r.wf(),
            final(self)@ =~= old(self)@.push(
                TranscriptOp {
                    squeeze: true,
                    label: label@,
                    bytes: challenge_bytes_of(old(self)@, label@, 64),
                },
            ),
    {
        let buf = self.challenge_bytes_vec(label, 64);
        Scalar::from_le_bytes_mod_order(buf.as_slice())
    }

    /// Appends a u64 in its 8-byte little-endian form.
    pub fn append_u64(&mut self, label: &'static [u8], x: u64)
        ensures
            final(self)@ =~= old(self)@.push(
                TranscriptOp { squeeze: false, label: label@, bytes: u64_le_seq(x) },
            ),
    {
        let bytes = u64_le_bytes(x);
        self.append_message(label, bytes.as_slice());
    }
}

/// The 8-byte little-endian encoding of a u64: byte i holds the i-th
/// base-256 digit.
pub open spec fn u64_le_seq(x: u64) -> Seq<u8> {
    Seq::new(8, |i: int| ((x as nat / pow_nat(256, i as nat)) % 256) as u8)
}

/// The 8-byte little-endian encoding of a u64; it decodes back to the
/// value.
pub fn u64_le_bytes(x: u64) -> (r: Vec<u8>)
    ensures
        r@ == u64_le_seq(x),
        r@.len() == 8,
        le_bytes_to_nat(r@) == x,
{
    let mut out: Vec<u8> = Vec::new();
    let mut v: u64 = x;
    let mut i: usize = 0;
    proof {
        assert(pow_nat(256, 0) == 1);
        assert(x as nat / 1 == x as nat);
    }
    while i < 8
        invariant
            0 <= i <= 8,
            out@.len() == i,
            v as nat == x as nat / pow_nat(256, i as nat),
            le_bytes_to_nat(out@) + v as nat * pow_nat(256, i as nat) == x,
            forall|j: int| 0 <= j < i ==> out@[j] == u64_le_seq(x)[j],
        decreases 8 - i,
    {
        let b = (v % 256) as u8;
        proof {
            assert(u64_le_seq(x)[i as int] == ((x as nat / pow_nat(256, i as nat)) % 256) as u8);
        }
        let ghost old_out = out@;
        out.push(b);
        let ghost vi = v as nat;
        v = v / 256;
        proof {
            assert(out@.drop_last() =~= old_out);
            assert(le_bytes_to_nat(out@) == le_bytes_to_nat(old_out) + b * pow_nat(256, i as nat));
            assert(pow_nat(256, (i + 1) as nat) == 256 * pow_nat(256, i as nat));
            crate::polynomial::lemma_pow_nat_pos(256, i as nat);
            lemma_div_denominator(x as int, pow_nat(256, i as nat) as int, 256);
            assert(pow_nat(256, i as nat) as int * 256 == 256 * pow_nat(256, i as nat));
            assert(v as nat == x as nat / pow_nat(256, (i + 1) as nat));
            assert(vi == 256 * (vi / 256) + vi % 256) by (nonlinear_arith);
            assert(vi * pow_nat(256, i as nat) == (vi % 256) * pow_nat(256, i as nat) + (vi / 256)
                * pow_nat(256, (i + 1) as nat)) by (nonlinear_arith)
                requires
                    vi == 256 * (vi / 256) + vi % 256,
                    pow_nat(256, (i + 1) as nat) == 256 * pow_nat(256, i as nat),
            ;
        }
        i += 1;
    }
    proof {
        assert(out@ =~= u64_le_seq(x));
        assert(v as nat == x as nat / pow_nat(256, 8));
        assert(pow_nat(256, 8) == 18446744073709551616) by {
            assert(pow_nat(256, 1) == 256);
            assert(pow_nat(256, 2) == 65536);
            assert(pow_nat(256, 3) == 16777216);
            assert(pow_nat(256, 4) == 4294967296);
            assert(pow_nat(256, 5) == 1099511627776);
            assert(pow_nat(256, 6) == 281474976710656);
            assert(pow_nat(256, 7) == 72057594037927936);
        }
        assert(v as nat * pow_nat(256, 8) == 0) by {
            vstd::arithmetic::div_mod::lemma_basic_div_specific_divisor(pow_nat(256, 8) as int);
            assert(0 <= x as int && (x as int) < (pow_nat(256, 8) as int));
            assert((x as int) / (pow_nat(256, 8) as int) == 0);
            assert(v as nat == x as nat / pow_nat(256, 8));
            assert(x as nat / pow_nat(256, 8) == (x as int) / (pow_nat(256, 8) as int));
        }
    }
    out
}

} // verus!
