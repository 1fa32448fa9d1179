//! Small operations on vectors.

use vstd::prelude::*;

verus! {

/// `s` with the items at `i` and `j` exchanged.
pub open spec fn exchanged<T>(s: Seq<T>, i: int, j: int) -> Seq<T> {
    s.update(i, s[j]).update(j, s[i])
}

/// Exchanges the items at `i` and `j`.
pub fn exchange<T>(v: &mut Vec<T>, i: usize, j: usize)
    requires
        i < old(v).len(),
        j < old(v).len(),
    ensures
        final(v)@ == exchanged(old(v)@, i as int, j as int),
{
    if i == j {
        assert(v@ =~= exchanged(old(v)@, i as int, j as int));
        return;
    }
    let low: usize = if i < j { i } else { j };
    let high: usize = if i < j { j } else { i };
    let upper = v.remove(high);
    let lower = v.remove(low);
    v.insert(low, upper);
    v.insert(high, lower);
    assert(v@ =~= exchanged(old(v)@, i as int, j as int));
}

/// Exchanging the same two items again restores the sequence.
pub proof fn exchange_undoes_itself<T>(s: Seq<T>, i: int, j: int)
    requires
        0 <= i < s.len(),
        0 <= j < s.len(),
    ensures
        exchanged(exchanged(s, i, j), i, j) == s,
        exchanged(exchanged(s, i, j), j, i) == s,
{
    assert(exchanged(exchanged(s, i, j), i, j) =~= s);
    assert(exchanged(exchanged(s, i, j), j, i) =~= s);
}

} // verus!
