//! Evaluation metrics: the phase of a stabilised profile and the number of
//! occupied opinion classes.

use vstd::prelude::*;

verus! {

/// Phase of a stabilised profile, classified by its number of occupied
/// classes.
#[derive(Debug, Clone, Copy, PartialEq, Eq, Structural)]
pub enum Phase {
    /// Consensus: one occupied class.
    Consensus,
    /// Polarization: two occupied classes.
    Polarization,
    /// Plurality: three or more occupied classes.
    Plurality,
}

/// The phase of a profile with `n` occupied classes (an empty profile counts
/// as consensus).
pub open spec fn phase_of(n: nat) -> Phase {
    if n <= 1 {
        Phase::Consensus
    } else if n == 2 {
        Phase::Polarization
    } else {
        Phase::Plurality
    }
}

/// The integer code of a phase (consensus 1, polarization 2, plurality 3).
pub open spec fn phase_code(p: Phase) -> u8 {
    match p {
        Phase::Consensus => 1,
        Phase::Polarization => 2,
        Phase::Plurality => 3,
    }
}

/// The label of a phase.
pub open spec fn phase_label(p: Phase) -> Seq<char> {
    match p {
        Phase::Consensus => "consensus"@,
        Phase::Polarization => "polarization"@,
        Phase::Plurality => "plurality"@,
    }
}

impl Phase {
    /// Classifies a profile by its number of occupied classes.
    pub fn classify(n_occupied: usize) -> (p: Phase)
        ensures
            p == phase_of(n_occupied as nat),
    {
        match n_occupied {
            0 | 1 => Phase::Consensus,
            2 => Phase::Polarization,
            _ => Phase::Plurality,
        }
    }

    /// The integer code written to tables (consensus 1 / polarization 2 /
    /// plurality 3).
    pub fn code(&self) -> (c: u8)
        ensures
            c == phase_code(*self),
    {
        match self {
            Phase::Consensus => 1,
            Phase::Polarization => 2,
            Phase::Plurality => 3,
        }
    }

    /// The label written to event records.
    pub fn label(&self) -> (r: &'static str)
        ensures
            r@ == phase_label(*self),
    {
        match self {
            Phase::Consensus => "consensus",
            Phase::Polarization => "polarization",
            Phase::Plurality => "plurality",
        }
    }
}

/// The phase code of a profile equals its number of occupied classes, capped
/// to the range one to three.
pub proof fn lemma_phase_code_counts_classes(n: nat)
    ensures
        phase_code(phase_of(n)) == (if n <= 1 { 1 } else if n >= 3 { 3 } else { n }),
{
}

/// Codes and labels tell the phases apart.
pub proof fn lemma_phase_code_label_injective(p: Phase, q: Phase)
    ensures
        phase_code(p) == phase_code(q) <==> p == q,
        phase_label(p) == phase_label(q) <==> p == q,
{
    reveal_strlit("consensus");
    reveal_strlit("polarization");
    reveal_strlit("plurality");
    if p != q {
        assert(phase_label(p).len() != phase_label(q).len() || phase_label(p)[0] != phase_label(q)[0]);
    }
}

/// The positions of the samples of an ε sweep whose number of occupied
/// classes is exactly one, in ascending order; the consensus brink is the
/// smallest ε among them.
pub fn consensus_sample_indices(n_occupied: &[usize]) -> (r: Vec<usize>)
    ensures
        forall|k: int| 0 <= k < r@.len() ==> r@[k] < n_occupied@.len(),
        forall|a: int, b: int| 0 <= a < b < r@.len() ==> r@[a] < r@[b],
        forall|i: int| 0 <= i < n_occupied@.len()
            ==> (r@.contains(i as usize) <==> n_occupied@[i] == 1),
{
    let mut r: Vec<usize> = Vec::new();
    let mut i: usize = 0;
    while i < n_occupied.len()
        invariant
            i <= n_occupied@.len(),
            forall|k: int| 0 <= k < r@.len() ==> r@[k] < i,
            forall|a: int, b: int| 0 <= a < b < r@.len() ==> r@[a] < r@[b],
            forall|j: int| 0 <= j < i
                ==> (r@.contains(j as usize) <==> n_occupied@[j] == 1),
        decreases n_occupied@.len() - i,
    {
        let ghost before = r@;
        if n_occupied[i] == 1 {
            r.push(i);
        }
        proof {
            assert forall|j: int| 0 <= j < i + 1
                implies (r@.contains(j as usize) <==> n_occupied@[j] == 1) by {
                if r@.contains(j as usize) {
                    let k = choose|k: int| 0 <= k < r@.len() && r@[k] == j as usize;
                    if k < before.len() {
                        assert(before[k] == j as usize);
                        assert(before.contains(j as usize));
                    }
                }
                if n_occupied@[j] == 1 {
                    if j < i {
                        assert(before.contains(j as usize));
                        let k = choose|k: int| 0 <= k < before.len() && before[k] == j as usize;
                        assert(r@[k] == j as usize);
                    } else {
                        assert(r@[r@.len() - 1] == j as usize);
                    }
                }
            }
        }
        i = i + 1;
    }
    r
}

/// The ascending order of a sequence.
pub open spec fn sorted_ascending(s: Seq<i64>) -> bool {
    forall|i: int, j: int| 0 <= i <= j < s.len() ==> s[i] <= s[j]
}

/// Calls `slice::sort_unstable`, which std documents as sorting the slice in
/// ascending order (a permutation of its elements).
#[verifier::external_body]
fn sort_bins(v: &mut Vec<i64>)
    ensures
        final(v)@.to_multiset() == old(v)@.to_multiset(),
        sorted_ascending(final(v)@),
{
    v.sort_unstable();
}

/// The number of occupied classes of a profile whose opinions fall into
/// the bins `bins`: the number of distinct bins.
pub fn occupied_class_count(bins: Vec<i64>) -> (n: usize)
    ensures
        n as nat == bins@.to_set().len(),
        n <= bins@.len(),
        n == 0 <==> bins@.len() == 0,
{
    let mut v = bins;
    let ghost orig = v@;
    sort_bins(&mut v);
    proof {
        broadcast use vstd::seq_lib::group_to_multiset_ensures;
        assert(v@.to_set() =~= orig.to_set()) by {
            assert forall|x: i64| v@.contains(x) <==> orig.contains(x) by {
                assert(v@.to_multiset().count(x) == orig.to_multiset().count(x));
            }
        }
        assert(v@.to_multiset().len() == orig.to_multiset().len());
        assert(v@.len() == orig.len());
    }
    let len = v.len();
    let mut distinct: Vec<i64> = Vec::new();
    let mut i: usize = 0;
    while i < len
        invariant
            len == v@.len(),
            i <= len,
            sorted_ascending(v@),
            forall|a: int, b: int| 0 <= a < b < distinct@.len() ==> distinct@[a] < distinct@[b],
            forall|x: i64| distinct@.contains(x) <==> v@.take(i as int).contains(x),
            i > 0 ==> distinct@.len() > 0 && distinct@.last() == v@[i - 1],
            i == 0 ==> distinct@.len() == 0,
            distinct@.len() <= i,
        decreases len - i,
    {
        let x = v[i];
        let ghost before = distinct@;
        if i == 0 || x != v[i - 1] {
            proof {
                if i > 0 {
                    assert(v@[i - 1] <= x);
                }
            }
            distinct.push(x);
        }
        proof {
            let t = v@.take(i as int);
            assert(v@.take(i + 1) =~= t.push(x));
            assert forall|y: i64| distinct@.contains(y) <==> t.push(x).contains(y) by {
                if t.push(x).contains(y) {
                    let k = choose|k: int| 0 <= k < t.push(x).len() && t.push(x)[k] == y;
                    if k < t.len() {
                        assert(t.contains(y));
                        assert(before.contains(y));
                        let m = choose|m: int| 0 <= m < before.len() && before[m] == y;
                        assert(distinct@[m] == y);
                    } else {
                        assert(y == x);
                        assert(distinct@[distinct@.len() - 1] == y);
                    }
                }
                if distinct@.contains(y) {
                    let m = choose|m: int| 0 <= m < distinct@.len() && distinct@[m] == y;
                    if m < before.len() {
                        assert(before[m] == y);
                        assert(before.contains(y));
                        assert(t.contains(y));
                        let k = choose|k: int| 0 <= k < t.len() && t[k] == y;
                        assert(t.push(x)[k] == y);
                    } else {
                        assert(y == x);
                        assert(t.push(x)[t.len() as int] == y);
                    }
                }
            }
        }
        i = i + 1;
    }
    proof {
        assert(v@.take(len as int) =~= v@);
        assert(distinct@.to_set() =~= orig.to_set());
        assert(distinct@.no_duplicates());
        distinct@.unique_seq_to_set();
    }
    distinct.len()
}

} // verus!
