//! SHA-256 based proof-of-work tagging.
//!
//! A `Config` holds a shared salt. `prove_work` searches for a nonce whose
//! salted SHA-256 score clears a difficulty threshold and returns the
//! `(nonce, score)` pair as a [`PoW`]; `is_valid_proof` recomputes the score
//! and `is_sufficient_difficulty` compares it against a threshold.

use vstd::prelude::*;

pub mod difficulty;
pub mod network_byte_order;
pub mod scorer;

use core::marker::PhantomData;

verus! {

use crate::difficulty::get_difficulty;
use crate::difficulty::spec_threshold;
use crate::network_byte_order::ToNe;
use crate::network_byte_order::Ne;
use crate::network_byte_order::be_bytes;
use crate::network_byte_order::lemma_be_bytes_len;
use crate::network_byte_order::lemma_be_val_be_bytes;
use crate::network_byte_order::lemma_pow256_unfold_16;
use crate::network_byte_order::put;
use crate::network_byte_order::put_be;
use crate::scorer::score;
use crate::scorer::score_of;

/// The ways a proving or decoding call can fail.
#[derive(Clone, Copy, Debug, PartialEq, Eq, Structural)]
pub enum PowError {
    /// The codec cannot represent the supplied value. Cannot arise for the
    /// types this crate encodes; kept so callers can match the full taxonomy.
    Unencodable,
    /// Fewer bytes remained than a decoded field requires.
    TruncatedInput,
    /// An average-attempts difficulty of zero was requested.
    InvalidDifficulty,
    /// The nonce space was exhausted without finding a passing score.
    SearchExhausted,
}

/// Proof of work over a value of type `T`. The parameter only ties a proof
/// to its target's type at compile time; it has no runtime representation
/// and no trace in the wire encoding.
#[derive(Debug, PartialEq)]
pub struct PoW<T> {
    pub nonce: u64,
    pub result: u128,
    pub _spook: PhantomData<T>,
}

/// Configuration for generating proofs of work. Choose a long, unique salt:
/// it namespaces proofs, and resistance against precomputed-table reuse
/// across deployments depends on its uniqueness.
#[derive(Clone, Debug, PartialEq)]
pub struct Config {
    pub salt: String,
}

impl<T> PoW<T> {
    /// Whether this proof's recorded score clears `threshold`: a pure
    /// comparison, deliberately decoupled from recomputing the score.
    pub fn meets_difficulty(&self, threshold: u128) -> (r: bool)
        ensures
            r == (self.result >= threshold),
    {
        self.result >= threshold
    }
}

impl Config {
    /// The bytes of the salt as they enter the hash input.
    pub open spec fn salt_bytes(&self) -> Seq<u8> {
        vstd::utf8::encode_utf8(self.salt@)
    }

    /// The score of `nonce` under this salt for a target whose encoding is
    /// `target`.
    pub open spec fn score_over(&self, target: Seq<u8>, nonce: u64) -> nat {
        score_of(self.salt_bytes() + target, nonce)
    }

    /// Whether `pow`'s recorded score is the recomputed score of its nonce
    /// over `t` under this salt.
    pub open spec fn spec_is_valid<T: ToNe>(&self, pow: PoW<T>, t: T) -> bool {
        pow.result == self.score_over(t.enc(), pow.nonce)
    }

    /// Creates a proof of work over a value of type `T`.
    ///
    /// The difficulty is the average number of attempts the search is
    /// expected to take; zero is rejected with `InvalidDifficulty`. Make
    /// sure it is not too high: the search blocks until a passing nonce is
    /// found.
    pub fn prove_work<T: ToNe>(&self, t: &T, difficulty: u32) -> (r: Result<PoW<T>, PowError>)
        ensures
            difficulty == 0 <==> r == Err::<PoW<T>, PowError>(PowError::InvalidDifficulty),
            r matches Ok(p) ==> {
                &&& 1 <= p.nonce
                &&& p.result == self.score_over(t.enc(), p.nonce)
                &&& p.result >= spec_threshold(difficulty)
                &&& forall|m: u64|
                    1 <= m < p.nonce ==> self.score_over(t.enc(), m) < spec_threshold(difficulty)
            },
            r is Err ==> r == Err::<PoW<T>, PowError>(PowError::InvalidDifficulty) || r == Err::<
                PoW<T>,
                PowError,
            >(PowError::SearchExhausted),
            r == Err::<PoW<T>, PowError>(PowError::SearchExhausted) ==> forall|m: u64|
                1 <= m ==> self.score_over(t.enc(), m) < spec_threshold(difficulty),
    {
        let v = t.serialize_to_vec();
        self.prove_work_serialized(v.as_slice(), difficulty)
    }

    /// Creates a proof of work over an already serialized target, the
    /// difficulty given in average attempts.
    pub fn prove_work_serialized<T>(&self, prefix: &[u8], difficulty: u32) -> (r: Result<
        PoW<T>,
        PowError,
    >)
        ensures
            difficulty == 0 <==> r == Err::<PoW<T>, PowError>(PowError::InvalidDifficulty),
            r matches Ok(p) ==> {
                &&& 1 <= p.nonce
                &&& p.result == self.score_over(prefix@, p.nonce)
                &&& p.result >= spec_threshold(difficulty)
                &&& forall|m: u64|
                    1 <= m < p.nonce ==> self.score_over(prefix@, m) < spec_threshold(difficulty)
            },
            r is Err ==> r == Err::<PoW<T>, PowError>(PowError::InvalidDifficulty) || r == Err::<
                PoW<T>,
                PowError,
            >(PowError::SearchExhausted),
            r == Err::<PoW<T>, PowError>(PowError::SearchExhausted) ==> forall|m: u64|
                1 <= m ==> self.score_over(prefix@, m) < spec_threshold(difficulty),
    {
        match get_difficulty(difficulty) {
            Err(e) => Err(e),
            Ok(threshold) => self.prove_work_serialized_with_threshold(prefix, threshold),
        }
    }

    /// Creates a proof of work over a value of type `T`, the difficulty
    /// given directly as a 128-bit threshold the score must reach.
    pub fn prove_work_with_threshold<T: ToNe>(&self, t: &T, threshold: u128) -> (r: Result<
        PoW<T>,
        PowError,
    >)
        ensures
            r matches Ok(p) ==> {
                &&& 1 <= p.nonce
                &&& p.result == self.score_over(t.enc(), p.nonce)
                &&& p.result >= threshold
                &&& forall|m: u64| 1 <= m < p.nonce ==> self.score_over(t.enc(), m) < threshold
            },
            r is Err ==> r == Err::<PoW<T>, PowError>(PowError::SearchExhausted) && forall|m: u64|
                1 <= m ==> self.score_over(t.enc(), m) < threshold,
    {
        let v = t.serialize_to_vec();
        self.prove_work_serialized_with_threshold(v.as_slice(), threshold)
    }

    /// Creates a proof of work over an already serialized target: starting
    /// at nonce 1, scores successive nonces until one clears `threshold`,
    /// and fails with `SearchExhausted` if the 64-bit nonce space runs out.
    pub fn prove_work_serialized_with_threshold<T>(&self, prefix: &[u8], threshold: u128) -> (r:
        Result<PoW<T>, PowError>)
        ensures
            r matches Ok(p) ==> {
                &&& 1 <= p.nonce
                &&& p.result == self.score_over(prefix@, p.nonce)
                &&& p.result >= threshold
                &&& forall|m: u64| 1 <= m < p.nonce ==> self.score_over(prefix@, m) < threshold
            },
            r is Err ==> r == Err::<PoW<T>, PowError>(PowError::SearchExhausted) && forall|m: u64|
                1 <= m ==> self.score_over(prefix@, m) < threshold,
    {
        let mut full: Vec<u8> = Vec::new();
        put(self.salt.as_str().as_bytes(), &mut full);
        put(prefix, &mut full);
        proof {
            assert(full@ =~= self.salt_bytes() + prefix@);
        }
        let mut n: u64 = 0;
        loop
            invariant
                full@ == self.salt_bytes() + prefix@,
                forall|m: u64| 1 <= m <= n ==> self.score_over(prefix@, m) < threshold,
            decreases u64::MAX - n,
        {
            if n == u64::MAX {
                return Err(PowError::SearchExhausted);
            }
            n = n + 1;
            let result = score(full.as_slice(), n);
            if result >= threshold {
                return Ok(PoW { nonce: n, result, _spook: PhantomData });
            }
        }
    }

    /// Calculates the score of target `t` against `pow`'s nonce. Encoding
    /// never fails for the supported types, so the result is always `Ok`.
    pub fn calculate<T: ToNe>(&self, pow: &PoW<T>, t: &T) -> (r: Result<u128, PowError>)
        ensures
            r is Ok,
            r matches Ok(sc) ==> sc == self.score_over(t.enc(), pow.nonce),
    {
        let v = t.serialize_to_vec();
        Ok(self.calculate_serialized(pow, v.as_slice()))
    }

    /// Calculates the score of an already serialized target against `pow`'s
    /// nonce.
    pub fn calculate_serialized<T>(&self, pow: &PoW<T>, target: &[u8]) -> (r: u128)
        ensures
            r == self.score_over(target@, pow.nonce),
    {
        let mut full: Vec<u8> = Vec::new();
        put(self.salt.as_str().as_bytes(), &mut full);
        put(target, &mut full);
        proof {
            assert(full@ =~= self.salt_bytes() + target@);
        }
        score(full.as_slice(), pow.nonce)
    }

    /// Verifies that `pow` was generated from the target `t` provided:
    /// recomputes the score of `pow`'s nonce over `t` and compares it with
    /// the recorded one.
    pub fn is_valid_proof<T: ToNe>(&self, pow: &PoW<T>, t: &T) -> (r: bool)
        ensures
            r == self.spec_is_valid(*pow, *t),
    {
        match self.calculate(pow, t) {
            Ok(res) => pow.result == res,
            Err(_) => false,
        }
    }

    /// Checks whether `pow`'s recorded score clears the threshold that
    /// `target_diff` average attempts denote. The factor must be positive.
    pub fn is_sufficient_difficulty<T>(&self, pow: &PoW<T>, target_diff: u32) -> (r: bool)
        requires
            target_diff >= 1,
        ensures
            r == (pow.result >= spec_threshold(target_diff)),
    {
        match get_difficulty(target_diff) {
            Ok(d) => pow.result >= d,
            Err(_) => false,
        }
    }
}

impl<T> ToNe for PoW<T> {
    open spec fn enc(&self) -> Seq<u8> {
        be_bytes(self.nonce as nat, 8) + be_bytes(self.result as nat, 16)
    }

    fn put(&self, dest: &mut Vec<u8>) {
        put_be(self.nonce as u128, 8, dest);
        put_be(self.result, 16, dest);
        proof {
            assert(dest@ =~= old(dest)@ + self.enc());
        }
    }

    fn size(&self) -> (n: usize) {
        proof {
            lemma_be_bytes_len(self.nonce as nat, 8);
            lemma_be_bytes_len(self.result as nat, 16);
        }
        24
    }
}

impl<T> Ne for PoW<T> {
    open spec fn can_pick(src: Seq<u8>) -> bool {
        src.len() >= 24
    }

    open spec fn rest_of(src: Seq<u8>) -> Seq<u8> {
        src.skip(24)
    }

    fn pick(src: &[u8]) -> (r: Option<(Self, &[u8])>) {
        match u64::pick(src) {
            None => None,
            Some((nonce, mid)) => match u128::pick(mid) {
                None => None,
                Some((result, rest)) => {
                    proof {
                        assert(src@.skip(8).skip(16) =~= src@.skip(24));
                        assert(src@ =~= be_bytes(nonce as nat, 8) + be_bytes(result as nat, 16)
                            + rest@);
                    }
                    Some((PoW { nonce, result, _spook: PhantomData }, rest))
                },
            },
        }
    }
}

/// Round-trip validity: a proof whose score is the recomputed score of its
/// nonce and clears its threshold — what a successful `prove_work` returns —
/// is accepted by both verifier checks: `is_valid_proof` recomputes the same
/// score, and the score meets the difficulty it was searched for.
pub proof fn lemma_prove_work_round_trip<T: ToNe>(cfg: Config, t: T, difficulty: u32, p: PoW<T>)
    requires
        difficulty >= 1,
        p.result == cfg.score_over(t.enc(), p.nonce),
        p.result >= spec_threshold(difficulty),
    ensures
        cfg.spec_is_valid(p, t),
        p.result >= spec_threshold(difficulty),
{
}

/// Decoding the 24-byte encoding of a proof yields its nonce and score back
/// with nothing left over, and no other proof and remainder produce the same
/// bytes. A proof is itself encodable, so this holds at any nesting depth.
pub proof fn lemma_pow_round_trip<T>(p: PoW<T>)
    ensures
        <PoW<T> as Ne>::can_pick(p.enc()),
        <PoW<T> as Ne>::rest_of(p.enc()) == Seq::<u8>::empty(),
        forall|q: PoW<T>, rest: Seq<u8>|
            p.enc() == #[trigger] (q.enc() + rest) ==> q.nonce == p.nonce && q.result == p.result
                && rest == Seq::<u8>::empty(),
{
    lemma_be_bytes_len(p.nonce as nat, 8);
    lemma_be_bytes_len(p.result as nat, 16);
    assert(p.enc().skip(24) =~= Seq::<u8>::empty());
    assert forall|q: PoW<T>, rest: Seq<u8>| p.enc() == #[trigger] (q.enc() + rest) implies q.nonce
        == p.nonce && q.result == p.result && rest == Seq::<u8>::empty() by {
        lemma_be_bytes_len(q.nonce as nat, 8);
        lemma_be_bytes_len(q.result as nat, 16);
        assert(rest =~= Seq::<u8>::empty());
        assert(q.enc() =~= p.enc());
        assert(be_bytes(q.nonce as nat, 8) =~= q.enc().take(8));
        assert(be_bytes(p.nonce as nat, 8) =~= p.enc().take(8));
        assert(be_bytes(q.result as nat, 16) =~= q.enc().skip(8));
        assert(be_bytes(p.result as nat, 16) =~= p.enc().skip(8));
        lemma_pow256_unfold_16();
        lemma_be_val_be_bytes(p.nonce as nat, 8);
        lemma_be_val_be_bytes(q.nonce as nat, 8);
        lemma_be_val_be_bytes(p.result as nat, 16);
        lemma_be_val_be_bytes(q.result as nat, 16);
    }
}

/// Decoding the encoding of a (target, proof) message yields the pair back
/// exactly: the message parses, leaves no remainder, and no other pair and
/// remainder produce the same bytes.
pub proof fn lemma_message_round_trip<T>(target: u8, p: PoW<T>)
    ensures
        <(u8, PoW<T>) as Ne>::can_pick((target, p).enc()),
        <(u8, PoW<T>) as Ne>::rest_of((target, p).enc()) == Seq::<u8>::empty(),
        forall|t2: u8, q: PoW<T>, rest: Seq<u8>|
            (target, p).enc() == #[trigger] ((t2, q).enc() + rest) ==> t2 == target && q.nonce
                == p.nonce && q.result == p.result && rest == Seq::<u8>::empty(),
{
    let e = (target, p).enc();
    lemma_be_bytes_len(target as nat, 1);
    lemma_be_bytes_len(p.nonce as nat, 8);
    lemma_be_bytes_len(p.result as nat, 16);
    assert(e.skip(1) =~= p.enc());
    assert(e.skip(1).skip(24) =~= Seq::<u8>::empty());
    assert forall|t2: u8, q: PoW<T>, rest: Seq<u8>|
        (target, p).enc() == #[trigger] ((t2, q).enc() + rest) implies t2 == target && q.nonce
        == p.nonce && q.result == p.result && rest == Seq::<u8>::empty() by {
        lemma_be_bytes_len(t2 as nat, 1);
        lemma_be_bytes_len(q.nonce as nat, 8);
        lemma_be_bytes_len(q.result as nat, 16);
        assert(rest =~= Seq::<u8>::empty());
        assert((t2, q).enc() =~= e);
        assert(t2.enc() =~= e.take(1));
        assert(target.enc() =~= e.take(1));
        lemma_pow256_unfold_16();
        lemma_be_val_be_bytes(target as nat, 1);
        lemma_be_val_be_bytes(t2 as nat, 1);
        assert(q.enc() =~= e.skip(1));
        assert(p.enc() == q.enc() + Seq::<u8>::empty()) by {
            assert(p.enc() =~= q.enc() + Seq::<u8>::empty());
        }
        lemma_pow_round_trip(p);
    }
}

} // verus!
