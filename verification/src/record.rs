//! What the library decides about the records of a run: the seed
//! coordinates of a trial, the terminal row of a simulation and the
//! summary of one condition.

use vstd::prelude::*;
use vstd::string::StringSliceAdditionalSpecFns;
use crate::metrics::{Phase, phase_of};

verus! {

/// FNV-1a offset basis (64 bit).
pub const FNV_OFFSET: u64 = 0xcbf29ce484222325;

/// FNV-1a prime (64 bit).
pub const FNV_PRIME: u64 = 0x100000001b3;

/// 64-bit FNV-1a hash of a byte sequence.
pub open spec fn fnv1a(bytes: Seq<u8>) -> u64
    decreases bytes.len(),
{
    if bytes.len() == 0 {
        FNV_OFFSET
    } else {
        let h = fnv1a(bytes.drop_last()) ^ (bytes.last() as u64);
        ((h as nat * FNV_PRIME as nat) % 0x1_0000_0000_0000_0000) as u64
    }
}

/// Hashes the label of an averaging operator (its UTF-8 bytes) with FNV-1a,
/// for use as a seed coordinate.
pub fn mean_label_hash(label: &str) -> (h: u64)
    ensures
        h == fnv1a(label.spec_bytes()),
{
    let bytes = label.as_bytes();
    let mut h: u64 = FNV_OFFSET;
    let mut i: usize = 0;
    while i < bytes.len()
        invariant
            bytes@ == label.spec_bytes(),
            i <= bytes@.len(),
            h == fnv1a(bytes@.take(i as int)),
        decreases bytes@.len() - i,
    {
        let b = bytes[i];
        proof {
            assert(bytes@.take(i + 1).drop_last() =~= bytes@.take(i as int));
        }
        h = h ^ (b as u64);
        h = h.wrapping_mul(FNV_PRIME);
        i = i + 1;
    }
    proof {
        assert(bytes@.take(bytes@.len() as int) =~= bytes@);
    }
    h
}

/// The coordinates from which the seed of one trial is derived from the
/// base seed: the hash of the averaging operator's label, the bit pattern
/// of ε and the index of the trial.
pub open spec fn trial_seed_coordinates(label: Seq<u8>, eps_bits: u64, index: usize) -> Seq<u64> {
    seq![fnv1a(label), eps_bits, index as u64]
}

/// The coordinates under which a trial's seed is derived from the base seed
/// (`eps_bits` is the IEEE-754 bit pattern of ε).
pub fn trial_seed_labels(mean_label: &str, eps_bits: u64, index: usize) -> (r: Vec<u64>)
    ensures
        r@ == trial_seed_coordinates(mean_label.spec_bytes(), eps_bits, index),
        r@.len() == 3,
        r@[0] == fnv1a(mean_label.spec_bytes()),
        r@[1] == eps_bits,
        r@[2] == index as u64,
{
    let h = mean_label_hash(mean_label);
    let mut r: Vec<u64> = Vec::new();
    r.push(h);
    r.push(eps_bits);
    r.push(index as u64);
    proof {
        assert(r@ =~= trial_seed_coordinates(mean_label.spec_bytes(), eps_bits, index));
    }
    r
}

/// Equal settings give equal seed coordinates, and trials of one condition
/// that differ in their index, or conditions that differ in ε, get different
/// coordinates.
pub proof fn lemma_trial_seed_coordinates_identify_trial(
    label: Seq<u8>,
    eps_a: u64,
    index_a: usize,
    eps_b: u64,
    index_b: usize,
)
    ensures
        trial_seed_coordinates(label, eps_a, index_a) == trial_seed_coordinates(label, eps_b, index_b)
            <==> (eps_a == eps_b && index_a == index_b),
{
    let a = trial_seed_coordinates(label, eps_a, index_a);
    let b = trial_seed_coordinates(label, eps_b, index_b);
    if a == b {
        assert(a[1] == b[1]);
        assert(a[2] == b[2]);
    }
}

/// FNV-1a over every byte: the empty sequence hashes to the offset basis
/// `0xcbf29ce484222325`, and appending any byte `b` xors it into the hash of
/// the prefix and multiplies by the prime `0x100000001b3` modulo 2^64.
pub proof fn lemma_fnv1a_step(s: Seq<u8>, b: u8)
    ensures
        fnv1a(Seq::<u8>::empty()) == 0xcbf29ce484222325u64,
        fnv1a(s.push(b)) == (((fnv1a(s) ^ (b as u64)) as nat * 0x100000001b3nat)
            % 0x1_0000_0000_0000_0000nat) as u64,
{
    assert(s.push(b).drop_last() =~= s);
    assert(s.push(b).last() == b);
}

/// The seed coordinates of a trial are exactly three: the FNV-1a hash of the
/// whole label, the bit pattern of ε and the trial index.
pub proof fn lemma_trial_seed_coordinates_parts(label: Seq<u8>, eps_bits: u64, index: usize)
    ensures
        trial_seed_coordinates(label, eps_bits, index).len() == 3,
        trial_seed_coordinates(label, eps_bits, index)[0] == fnv1a(label),
        trial_seed_coordinates(label, eps_bits, index)[1] == eps_bits,
        trial_seed_coordinates(label, eps_bits, index)[2] == index as u64,
{
}

/// Counting is additive: the empty sequence has no `true` flag, appending
/// `true` adds one, appending `false` adds none, and the count of a
/// concatenation is the sum of the counts.
pub proof fn lemma_count_true_additive(s: Seq<bool>, t: Seq<bool>)
    ensures
        count_true(Seq::<bool>::empty()) == 0,
        count_true(s.push(true)) == count_true(s) + 1,
        count_true(s.push(false)) == count_true(s),
        count_true(s + t) == count_true(s) + count_true(t),
    decreases t.len(),
{
    assert(s.push(true).drop_last() =~= s);
    assert(s.push(false).drop_last() =~= s);
    if t.len() > 0 {
        lemma_count_true_additive(s, t.drop_last());
        assert((s + t).drop_last() =~= s + t.drop_last());
        assert((s + t).last() == t.last());
    } else {
        assert(s + t =~= s);
    }
}

/// Every flag counts: an all-`true` sequence counts its length, an
/// all-`false` one counts zero, and no count exceeds the length.
pub proof fn lemma_count_true_bounds(s: Seq<bool>)
    ensures
        (forall|i: int| 0 <= i < s.len() ==> s[i]) ==> count_true(s) == s.len(),
        (forall|i: int| 0 <= i < s.len() ==> !s[i]) ==> count_true(s) == 0,
        count_true(s) <= s.len(),
    decreases s.len(),
{
    if s.len() > 0 {
        lemma_count_true_bounds(s.drop_last());
        assert(forall|i: int| 0 <= i < s.drop_last().len() ==> s.drop_last()[i] == s[i]);
    }
}

/// The terminal row of one simulation.
#[derive(Debug, Clone, Copy, PartialEq, Eq, Structural)]
pub struct TerminalRow {
    /// The step at which the simulation ended.
    pub t: u64,
    /// Whether the simulation converged.
    pub converged: bool,
    /// Whether the row is censored (the simulation ran out of budget).
    pub censored: bool,
    /// The budget of steps.
    pub budget: u64,
    /// The phase of the final profile.
    pub phase: Phase,
    /// The number of occupied classes of the final profile.
    pub n_occupied_classes: usize,
}

impl TerminalRow {
    /// The outcome label of the row.
    pub fn outcome(&self) -> (r: &'static str)
        ensures
            r@ == (if self.converged { "converged"@ } else { "unconverged"@ }),
    {
        if self.converged {
            "converged"
        } else {
            "unconverged"
        }
    }
}

/// Builds the terminal row of a simulation that ended at `final_iteration`
/// with `n_occupied` occupied classes, under a budget of `max_iterations`.
pub fn terminal_row(
    converged: bool,
    final_iteration: usize,
    max_iterations: usize,
    n_occupied: usize,
) -> (r: TerminalRow)
    ensures
        r.t == final_iteration,
        r.converged == converged,
        r.censored == !converged,
        r.budget == max_iterations,
        r.phase == phase_of(n_occupied as nat),
        r.n_occupied_classes == n_occupied,
{
    TerminalRow {
        t: final_iteration as u64,
        converged,
        censored: !converged,
        budget: max_iterations as u64,
        phase: Phase::classify(n_occupied),
        n_occupied_classes: n_occupied,
    }
}

/// The number of `true` flags in `s`.
pub open spec fn count_true(s: Seq<bool>) -> nat
    decreases s.len(),
{
    if s.len() == 0 {
        0
    } else {
        count_true(s.drop_last()) + if s.last() { 1nat } else { 0nat }
    }
}

/// The number of converged trials of one condition.
pub fn converged_count(converged: &[bool]) -> (n: usize)
    ensures
        n as nat == count_true(converged@),
        n <= converged@.len(),
        (forall|i: int| 0 <= i < converged@.len() ==> converged@[i]) ==> n == converged@.len(),
{
    let mut n: usize = 0;
    let mut i: usize = 0;
    while i < converged.len()
        invariant
            i <= converged@.len(),
            n as nat == count_true(converged@.take(i as int)),
            n <= i,
        decreases converged@.len() - i,
    {
        proof {
            assert(converged@.take(i + 1).drop_last() =~= converged@.take(i as int));
        }
        if converged[i] {
            n = n + 1;
        }
        i = i + 1;
    }
    proof {
        assert(converged@.take(converged@.len() as int) =~= converged@);
        lemma_count_true_bounds(converged@);
    }
    n
}

} // verus!
