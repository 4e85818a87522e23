//! Parsing the settings of an ε sweep.

use vstd::prelude::*;
use vstd::string::StringSliceAdditionalSpecFns;
use crate::text::{trim_spec, trim_str, is_white_space, lemma_trim_result_has_no_white_space_ends};

verus! {

/// The pieces of `s` between the occurrences of `sep`, in order (an empty
/// `s` is one empty piece), as `str::split` yields them.
pub open spec fn split_spec(s: Seq<char>, sep: char) -> Seq<Seq<char>>
    decreases s.len(),
{
    if s.len() == 0 {
        seq![Seq::<char>::empty()]
    } else {
        let prev = split_spec(s.drop_last(), sep);
        if s.last() == sep {
            prev.push(Seq::<char>::empty())
        } else {
            prev.update(prev.len() - 1, prev.last().push(s.last()))
        }
    }
}

/// The pieces trimmed of white space, with the empty ones dropped.
pub open spec fn trimmed_nonempty(pieces: Seq<Seq<char>>) -> Seq<Seq<char>>
    decreases pieces.len(),
{
    if pieces.len() == 0 {
        Seq::empty()
    } else {
        let rest = trimmed_nonempty(pieces.drop_last());
        let t = trim_spec(pieces.last());
        if t.len() > 0 {
            rest.push(t)
        } else {
            rest
        }
    }
}

/// The averaging-operator specifications named by a comma-separated list.
pub open spec fn mean_list_spec(list: Seq<char>) -> Seq<Seq<char>> {
    trimmed_nonempty(split_spec(list, ','))
}

/// The pieces of `a` joined to `b` by a separator are the pieces of `a`
/// followed by the pieces of `b`.
pub proof fn lemma_split_concat(a: Seq<char>, b: Seq<char>, sep: char)
    ensures
        split_spec(a + seq![sep] + b, sep) == split_spec(a, sep) + split_spec(b, sep),
    decreases b.len(),
{
    let j = a + seq![sep] + b;
    if b.len() == 0 {
        assert(j.drop_last() =~= a);
        assert(j.last() == sep);
        assert(split_spec(b, sep) =~= seq![Seq::<char>::empty()]);
        assert(split_spec(a, sep).push(Seq::<char>::empty()) =~= split_spec(a, sep) + split_spec(b, sep));
    } else {
        let b0 = b.drop_last();
        lemma_split_concat(a, b0, sep);
        lemma_split_len(b0, sep);
        assert(j.drop_last() =~= a + seq![sep] + b0);
        assert(j.last() == b.last());
        let x = split_spec(a, sep);
        let y = split_spec(b0, sep);
        if b.last() == sep {
            assert((x + y).push(Seq::<char>::empty()) =~= x + y.push(Seq::<char>::empty()));
        } else {
            let xy = x + y;
            assert(xy.last() == y.last());
            assert(xy.update(xy.len() - 1, xy.last().push(b.last())) =~= x + y.update(
                y.len() - 1,
                y.last().push(b.last()),
            ));
        }
    }
}

/// A text without a separator is one piece.
pub proof fn lemma_split_single(p: Seq<char>, sep: char)
    requires
        !p.contains(sep),
    ensures
        split_spec(p, sep) == seq![p],
    decreases p.len(),
{
    if p.len() == 0 {
        assert(p =~= Seq::<char>::empty());
    } else {
        let p0 = p.drop_last();
        assert(!p0.contains(sep)) by {
            if p0.contains(sep) {
                let k = choose|k: int| 0 <= k < p0.len() && p0[k] == sep;
                assert(p[k] == sep);
            }
        }
        lemma_split_single(p0, sep);
        assert(p[p.len() - 1] == p.last());
        assert(p0.push(p.last()) =~= p);
        assert(seq![p0].update(0, p0.push(p.last())) =~= seq![p]);
    }
}

proof fn lemma_trimmed_nonempty_concat(p: Seq<Seq<char>>, q: Seq<Seq<char>>)
    ensures
        trimmed_nonempty(p + q) == trimmed_nonempty(p) + trimmed_nonempty(q),
    decreases q.len(),
{
    if q.len() == 0 {
        assert(p + q =~= p);
        assert(trimmed_nonempty(p) + trimmed_nonempty(q) =~= trimmed_nonempty(p));
    } else {
        let q0 = q.drop_last();
        lemma_trimmed_nonempty_concat(p, q0);
        assert((p + q).drop_last() =~= p + q0);
        assert((p + q).last() == q.last());
        let t = trim_spec(q.last());
        if t.len() > 0 {
            assert((trimmed_nonempty(p) + trimmed_nonempty(q0)).push(t) =~= trimmed_nonempty(p)
                + trimmed_nonempty(q0).push(t));
        }
    }
}

/// Joining two lists by a comma joins their entries: the entries of
/// `a,b` are the entries of `a` followed by those of `b`.
pub proof fn lemma_mean_list_concat(a: Seq<char>, b: Seq<char>)
    ensures
        mean_list_spec(a + seq![','] + b) == mean_list_spec(a) + mean_list_spec(b),
{
    lemma_split_concat(a, b, ',');
    lemma_trimmed_nonempty_concat(split_spec(a, ','), split_spec(b, ','));
}

/// A list without a comma has one entry, the text trimmed of white space,
/// unless that is empty, in which case it has none.
pub proof fn lemma_mean_list_single(p: Seq<char>)
    requires
        !p.contains(','),
    ensures
        mean_list_spec(p) == (if trim_spec(p).len() > 0 {
            seq![trim_spec(p)]
        } else {
            Seq::<Seq<char>>::empty()
        }),
{
    lemma_split_single(p, ',');
    let s = seq![p];
    assert(s.drop_last() =~= Seq::<Seq<char>>::empty());
    assert(s.last() == p);
    assert(trimmed_nonempty(s.drop_last()) == Seq::<Seq<char>>::empty());
    if trim_spec(p).len() > 0 {
        assert(Seq::<Seq<char>>::empty().push(trim_spec(p)) =~= seq![trim_spec(p)]);
        assert(trimmed_nonempty(s) == Seq::<Seq<char>>::empty().push(trim_spec(p)));
    } else {
        assert(trimmed_nonempty(s) == Seq::<Seq<char>>::empty());
    }
}

proof fn lemma_trimmed_nonempty_entries(pieces: Seq<Seq<char>>)
    ensures
        forall|k: int| 0 <= k < trimmed_nonempty(pieces).len() ==> {
            let e = #[trigger] trimmed_nonempty(pieces)[k];
            &&& e.len() > 0
            &&& !is_white_space(e[0])
            &&& !is_white_space(e.last())
        },
    decreases pieces.len(),
{
    if pieces.len() > 0 {
        lemma_trimmed_nonempty_entries(pieces.drop_last());
        lemma_trim_result_has_no_white_space_ends(pieces.last());
        let rest = trimmed_nonempty(pieces.drop_last());
        let t = trim_spec(pieces.last());
        let r = trimmed_nonempty(pieces);
        assert forall|k: int| 0 <= k < r.len() implies {
            let e = #[trigger] r[k];
            &&& e.len() > 0
            &&& !is_white_space(e[0])
            &&& !is_white_space(e.last())
        } by {
            if k < rest.len() {
                assert(r[k] == rest[k]);
            } else {
                assert(r[k] == t);
            }
        }
    }
}

/// Every entry of a parsed list is non-empty and neither starts nor ends
/// with white space.
pub proof fn lemma_mean_list_entries_trimmed(list: Seq<char>)
    ensures
        forall|k: int| 0 <= k < mean_list_spec(list).len() ==> {
            let e = #[trigger] mean_list_spec(list)[k];
            &&& e.len() > 0
            &&& !is_white_space(e[0])
            &&& !is_white_space(e.last())
        },
{
    lemma_trimmed_nonempty_entries(split_spec(list, ','));
}

proof fn lemma_split_len(s: Seq<char>, sep: char)
    ensures
        split_spec(s, sep).len() >= 1,
    decreases s.len(),
{
    if s.len() > 0 {
        lemma_split_len(s.drop_last(), sep);
    }
}

/// Splits a comma-separated list of averaging-operator specifications,
/// trims each entry and drops the empty ones.
pub fn parse_mean_list(list: &str) -> (r: Vec<String>)
    ensures
        r@.map_values(|x: String| x@) == mean_list_spec(list@),
        forall|k: int| 0 <= k < r@.len() ==> {
            let e = #[trigger] r@[k]@;
            &&& e.len() > 0
            &&& !is_white_space(e[0])
            &&& !is_white_space(e.last())
        },
{
    let n = list.unicode_len();
    let mut out: Vec<String> = Vec::new();
    let mut start: usize = 0;
    let mut i: usize = 0;
    let ghost mut done: Seq<Seq<char>> = Seq::empty();
    proof {
        assert(list@.take(0) =~= Seq::<char>::empty());
        assert(list@.subrange(0, 0) =~= Seq::<char>::empty());
        assert(done.push(list@.subrange(0, 0)) =~= seq![Seq::<char>::empty()]);
    }
    while i < n
        invariant
            n == list@.len(),
            start <= i <= n,
            split_spec(list@.take(i as int), ',') == done.push(list@.subrange(start as int, i as int)),
            out@.map_values(|x: String| x@) == trimmed_nonempty(done),
        decreases n - i,
    {
        let c = list.get_char(i);
        proof {
            let s = list@.take(i + 1);
            assert(s.drop_last() =~= list@.take(i as int));
            assert(s.last() == c);
            lemma_split_len(list@.take(i as int), ',');
        }
        if c == ',' {
            let piece = list.substring_char(start, i);
            let t = trim_str(piece);
            proof {
                let d2 = done.push(list@.subrange(start as int, i as int));
                assert(d2.drop_last() =~= done);
            }
            if t.unicode_len() > 0 {
                out.push(t.to_owned());
            }
            proof {
                let d2 = done.push(list@.subrange(start as int, i as int));
                assert(out@.map_values(|x: String| x@) =~= trimmed_nonempty(d2));
                done = d2;
                assert(list@.subrange(i + 1, i + 1) =~= Seq::<char>::empty());
                assert(split_spec(list@.take(i + 1), ',') =~= done.push(list@.subrange(i + 1, i + 1)));
            }
            start = i + 1;
        } else {
            proof {
                assert(list@.subrange(start as int, i + 1) =~= list@.subrange(start as int, i as int).push(c));
                assert(split_spec(list@.take(i + 1), ',') =~= done.push(list@.subrange(start as int, i + 1)));
            }
        }
        i = i + 1;
    }
    let piece = list.substring_char(start, n);
    let t = trim_str(piece);
    proof {
        assert(list@.take(n as int) =~= list@);
        let d2 = done.push(list@.subrange(start as int, n as int));
        assert(d2.drop_last() =~= done);
    }
    if t.unicode_len() > 0 {
        out.push(t.to_owned());
    }
    proof {
        let d2 = done.push(list@.subrange(start as int, n as int));
        assert(out@.map_values(|x: String| x@) =~= trimmed_nonempty(d2));
        lemma_mean_list_entries_trimmed(list@);
        assert forall|k: int| 0 <= k < out@.len() implies {
            let e = #[trigger] out@[k]@;
            &&& e.len() > 0
            &&& !is_white_space(e[0])
            &&& !is_white_space(e.last())
        } by {
            let m = out@.map_values(|x: String| x@);
            assert(m[k] == out@[k]@);
            assert(m == mean_list_spec(list@));
            let e = mean_list_spec(list@)[k];
            assert(e == out@[k]@);
        }
    }
    out
}

/// The number of digits after the first `.` of the text of a number (zero
/// where it has none), counted in bytes.
pub fn fraction_digits(repr: &str) -> (d: usize)
    ensures
        (forall|i: int| 0 <= i < repr.spec_bytes().len() ==> repr.spec_bytes()[i] != 0x2e) ==> d == 0,
        forall|i: int|
            0 <= i < repr.spec_bytes().len() && repr.spec_bytes()[i] == 0x2e
                && (forall|j: int| 0 <= j < i ==> repr.spec_bytes()[j] != 0x2e)
                ==> d == repr.spec_bytes().len() - i - 1,
{
    let bytes = repr.as_bytes();
    let mut i: usize = 0;
    while i < bytes.len()
        invariant
            bytes@ == repr.spec_bytes(),
            i <= bytes@.len(),
            forall|j: int| 0 <= j < i ==> bytes@[j] != 0x2e,
        decreases bytes@.len() - i,
    {
        if bytes[i] == 0x2e {
            return bytes.len() - i - 1;
        }
        i = i + 1;
    }
    0
}

} // verus!
