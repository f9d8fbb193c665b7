//! Occurrences of one character sequence inside another: finding them and
//! replacing them.

use vstd::prelude::*;

verus! {

/// `pat` stands in `s` at position `i`.
pub open spec fn occurs_at(pat: Seq<char>, s: Seq<char>, i: int) -> bool {
    &&& 0 <= i
    &&& i + pat.len() <= s.len()
    &&& s.subrange(i, i + pat.len()) == pat
}

/// `pat` stands somewhere in `s` as a contiguous run.
pub open spec fn occurs_in(pat: Seq<char>, s: Seq<char>) -> bool {
    exists|i: int| occurs_at(pat, s, i)
}

/// `s` with every occurrence of `pat` replaced by `rep`, the occurrences taken
/// from the left and never overlapping. An empty `pat` occurs before every
/// character and once more at the end.
pub open spec fn replaced(s: Seq<char>, pat: Seq<char>, rep: Seq<char>) -> Seq<char>
    decreases s.len(),
{
    if pat.len() == 0 {
        if s.len() == 0 {
            rep
        } else {
            rep + s.take(1) + replaced(s.skip(1), pat, rep)
        }
    } else if s.len() < pat.len() {
        s
    } else if s.take(pat.len() as int) == pat {
        rep + replaced(s.skip(pat.len() as int), pat, rep)
    } else {
        s.take(1) + replaced(s.skip(1), pat, rep)
    }
}

/// Whether `pat` stands in `s` at position `i`.
pub fn matches_at(pat: &[char], s: &[char], i: usize) -> (b: bool)
    ensures
        b == occurs_at(pat@, s@, i as int),
{
    if i > s.len() || pat.len() > s.len() - i {
        return false;
    }
    let mut k: usize = 0;
    while k < pat.len()
        invariant
            k <= pat.len(),
            i + pat.len() <= s.len(),
            forall|j: int| 0 <= j < k ==> s@[i + j] == pat@[j],
        decreases pat.len() - k,
    {
        if s[i + k] != pat[k] {
            proof {
                assert(s@.subrange(i as int, i + pat.len())[k as int] == s@[i + k]);
            }
            return false;
        }
        k += 1;
    }
    proof {
        assert(s@.subrange(i as int, i + pat.len()) =~= pat@);
    }
    true
}

/// Whether `pat` stands somewhere in `s`.
pub fn contains(s: &[char], pat: &[char]) -> (b: bool)
    ensures
        b == occurs_in(pat@, s@),
{
    if pat.len() > s.len() {
        return false;
    }
    let last: usize = s.len() - pat.len();
    let mut i: usize = 0;
    while i < last
        invariant
            last == s.len() - pat.len(),
            i <= last,
            forall|j: int| 0 <= j < i ==> !occurs_at(pat@, s@, j),
        decreases last - i,
    {
        if matches_at(pat, s, i) {
            return true;
        }
        i += 1;
    }
    matches_at(pat, s, last)
}

/// `s` with every occurrence of `pat` replaced by `rep`.
pub fn replace(s: &[char], pat: &[char], rep: &[char]) -> (out: Vec<char>)
    ensures
        out@ == replaced(s@, pat@, rep@),
{
    let mut out: Vec<char> = Vec::new();
    let mut i: usize = 0;
    proof {
        assert(s@.skip(0) =~= s@);
        assert(out@ + replaced(s@, pat@, rep@) =~= replaced(s@, pat@, rep@));
    }
    while i < s.len()
        invariant
            i <= s.len(),
            out@ + replaced(s@.skip(i as int), pat@, rep@) == replaced(s@, pat@, rep@),
        decreases s.len() - i,
    {
        let ghost rest = s@.skip(i as int);
        let ghost before = out@;
        if pat.len() == 0 {
            append(&mut out, rep);
            out.push(s[i]);
            i += 1;
            proof {
                assert(rest.take(1) =~= seq![s@[i - 1]]);
                assert(rest.skip(1) =~= s@.skip(i as int));
                assert(out@ + replaced(rest.skip(1), pat@, rep@) =~= before + (rep@ + rest.take(1)
                    + replaced(rest.skip(1), pat@, rep@)));
            }
        } else if matches_at(pat, s, i) {
            append(&mut out, rep);
            i += pat.len();
            proof {
                let n = pat@.len() as int;
                assert(rest.take(n) =~= s@.subrange(i - n, i as int));
                assert(rest.skip(n) =~= s@.skip(i as int));
                assert(out@ + replaced(rest.skip(n), pat@, rep@) =~= before + (rep@ + replaced(
                    rest.skip(n),
                    pat@,
                    rep@,
                )));
            }
        } else {
            out.push(s[i]);
            i += 1;
            proof {
                let n = pat@.len() as int;
                assert(rest.take(1) =~= seq![s@[i - 1]]);
                assert(rest.skip(1) =~= s@.skip(i as int));
                if rest.len() >= n {
                    assert(rest.take(n) =~= s@.subrange(i - 1, i - 1 + n));
                } else {
                    assert(replaced(rest.skip(1), pat@, rep@) == rest.skip(1));
                    assert(rest =~= rest.take(1) + rest.skip(1));
                }
                assert(out@ + replaced(rest.skip(1), pat@, rep@) =~= before + (rest.take(1)
                    + replaced(rest.skip(1), pat@, rep@)));
            }
        }
    }
    proof {
        assert(s@.skip(i as int) =~= Seq::<char>::empty());
    }
    if pat.len() == 0 {
        append(&mut out, rep);
    } else {
        proof {
            assert(out@ + Seq::<char>::empty() =~= out@);
        }
    }
    out
}

/// Puts the characters of `more` at the end of `out`.
pub fn append(out: &mut Vec<char>, more: &[char])
    ensures
        final(out)@ == old(out)@ + more@,
{
    let mut k: usize = 0;
    while k < more.len()
        invariant
            k <= more.len(),
            out@ == old(out)@ + more@.take(k as int),
        decreases more.len() - k,
    {
        out.push(more[k]);
        k += 1;
    }
}

/// An occurrence in what follows the first character is an occurrence in the
/// whole, one place further on.
proof fn lemma_occurrence_shifts(pat: Seq<char>, s: Seq<char>, i: int)
    requires
        s.len() > 0,
        0 <= i,
    ensures
        occurs_at(pat, s.skip(1), i) == occurs_at(pat, s, i + 1),
{
    if i + pat.len() <= s.len() - 1 {
        assert(s.skip(1).subrange(i, i + pat.len()) =~= s.subrange(i + 1, i + 1 + pat.len()));
    }
}

/// Replacing a sequence by itself changes nothing.
pub proof fn lemma_replaced_by_itself(s: Seq<char>, pat: Seq<char>)
    ensures
        replaced(s, pat, pat) == s,
    decreases s.len(),
{
    if pat.len() == 0 {
        if s.len() == 0 {
            assert(pat =~= s);
        } else {
            lemma_replaced_by_itself(s.skip(1), pat);
            assert(pat + s.take(1) + s.skip(1) =~= s);
        }
    } else if s.len() < pat.len() {
    } else if s.take(pat.len() as int) == pat {
        lemma_replaced_by_itself(s.skip(pat.len() as int), pat);
        assert(s.take(pat.len() as int) + s.skip(pat.len() as int) =~= s);
    } else {
        lemma_replaced_by_itself(s.skip(1), pat);
        assert(s.take(1) + s.skip(1) =~= s);
    }
}

/// Where a non-empty `pat` does not occur, replacing it changes nothing.
pub proof fn lemma_replaced_without_occurrence(s: Seq<char>, pat: Seq<char>, rep: Seq<char>)
    requires
        pat.len() > 0,
        !occurs_in(pat, s),
    ensures
        replaced(s, pat, rep) == s,
    decreases s.len(),
{
    if s.len() >= pat.len() {
        assert(s.take(pat.len() as int) =~= s.subrange(0, 0 + pat.len() as int));
        assert(!occurs_at(pat, s, 0));
        assert forall|i: int| !occurs_at(pat, s.skip(1), i) by {
            if 0 <= i {
                lemma_occurrence_shifts(pat, s, i);
                assert(!occurs_at(pat, s, i + 1));
            }
        }
        lemma_replaced_without_occurrence(s.skip(1), pat, rep);
        assert(s.take(1) + s.skip(1) =~= s);
    }
}

/// Where a non-empty `pat` occurs first at position `i`, what stands before
/// `i` is kept as it is, `rep` takes the place of the occurrence, and the
/// replacing goes on behind it.
pub proof fn lemma_replaced_at_first(s: Seq<char>, pat: Seq<char>, rep: Seq<char>, i: int)
    requires
        pat.len() > 0,
        occurs_at(pat, s, i),
        forall|j: int| 0 <= j < i ==> !occurs_at(pat, s, j),
    ensures
        replaced(s, pat, rep) == s.take(i) + rep + replaced(s.skip(i + pat.len()), pat, rep),
    decreases i,
{
    let n = pat.len() as int;
    assert(s.take(n) =~= s.subrange(0, 0 + n));
    if i == 0 {
        assert(s.take(0) + rep =~= rep);
    } else {
        assert(!occurs_at(pat, s, 0));
        let rest = s.skip(1);
        lemma_occurrence_shifts(pat, s, i - 1);
        assert forall|j: int| 0 <= j < i - 1 implies !occurs_at(pat, rest, j) by {
            lemma_occurrence_shifts(pat, s, j);
        }
        lemma_replaced_at_first(rest, pat, rep, i - 1);
        assert(rest.skip(i - 1 + n) =~= s.skip(i + n));
        assert(s.take(1) + (rest.take(i - 1) + rep + replaced(s.skip(i + n), pat, rep)) =~= s.take(
            i,
        ) + rep + replaced(s.skip(i + n), pat, rep));
    }
}

} // verus!
