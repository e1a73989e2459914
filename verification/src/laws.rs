//! Laws of the run-length grouping: shape of a grouping, lossless
//! reconstruction, count conservation, the bound on the number of runs, and
//! idempotence under re-grouping.

use vstd::prelude::*;

use crate::engine::runs_of;

verus! {

/// One item repeated `n` times.
pub open spec fn repeat_item(x: Seq<char>, n: int) -> Seq<Seq<char>> {
    Seq::new(
        if n >= 0 {
            n as nat
        } else {
            0
        },
        |j: int| x,
    )
}

/// Expand a run sequence back into the item sequence it encodes: each
/// representative repeated `count` times, concatenated in order.
pub open spec fn expand(rs: Seq<(int, Seq<char>)>) -> Seq<Seq<char>>
    decreases rs.len(),
{
    if rs.len() == 0 {
        Seq::empty()
    } else {
        expand(rs.drop_last()) + repeat_item(rs.last().1, rs.last().0)
    }
}

/// The representatives of a run sequence, counts dropped.
pub open spec fn reps(rs: Seq<(int, Seq<char>)>) -> Seq<Seq<char>> {
    rs.map_values(|p: (int, Seq<char>)| p.1)
}

/// The sum of the counts of a run sequence.
pub open spec fn count_sum(rs: Seq<(int, Seq<char>)>) -> int
    decreases rs.len(),
{
    if rs.len() == 0 {
        0
    } else {
        count_sum(rs.drop_last()) + rs.last().0
    }
}

/// No two adjacent items of the sequence are equal.
pub open spec fn no_adjacent_dups(s: Seq<Seq<char>>) -> bool {
    forall|i: int| 1 <= i < s.len() ==> s[i - 1] != #[trigger] s[i]
}

/// Shape of a grouping: every count is positive, a non-empty input yields a
/// non-empty grouping whose last representative is the last item, and
/// adjacent runs have distinct representatives.
pub proof fn lemma_runs_shape(s: Seq<Seq<char>>)
    ensures
        forall|i: int| 0 <= i < runs_of(s).len() ==> (#[trigger] runs_of(s)[i]).0 >= 1,
        s.len() == 0 ==> runs_of(s).len() == 0,
        s.len() > 0 ==> runs_of(s).len() >= 1 && runs_of(s).last().1 == s.last(),
        forall|i: int|
            1 <= i < runs_of(s).len() ==> runs_of(s)[i - 1].1 != (#[trigger] runs_of(s)[i]).1,
    decreases s.len(),
{
    if s.len() == 0 {
    } else {
        lemma_runs_shape(s.drop_last());
        let prev = runs_of(s.drop_last());
        let x = s.last();
        if prev.len() > 0 && prev.last().1 == x {
            let k = prev.len() - 1;
            assert(runs_of(s) == prev.update(k, (prev.last().0 + 1, x)));
        } else {
            assert(runs_of(s) == prev.push((1int, x)));
        }
    }
}

/// Reconstruction law: expanding the grouping of a sequence yields that
/// sequence back, exactly.
pub proof fn lemma_reconstruction(s: Seq<Seq<char>>)
    ensures
        expand(runs_of(s)) == s,
    decreases s.len(),
{
    if s.len() == 0 {
        assert(expand(runs_of(s)) =~= s);
    } else {
        lemma_reconstruction(s.drop_last());
        lemma_runs_shape(s.drop_last());
        let prev = runs_of(s.drop_last());
        let x = s.last();
        if prev.len() > 0 && prev.last().1 == x {
            let k = prev.len() - 1;
            let c = prev.last().0;
            let u = prev.update(k, (c + 1, x));
            assert(runs_of(s) == u);
            assert(u.last() == (c + 1, x));
            assert(u.drop_last() =~= prev.drop_last());
            assert(expand(u) == expand(prev.drop_last()) + repeat_item(x, c + 1));
            assert(expand(prev) == expand(prev.drop_last()) + repeat_item(x, c));
            assert(repeat_item(x, c + 1) =~= repeat_item(x, c).push(x));
            assert(expand(u) =~= expand(prev).push(x));
            assert(expand(prev).push(x) =~= s);
        } else {
            let u = prev.push((1int, x));
            assert(runs_of(s) == u);
            assert(u.drop_last() =~= prev);
            assert(expand(u) == expand(prev) + repeat_item(x, 1));
            assert(repeat_item(x, 1) =~= seq![x]);
            assert(expand(u) =~= s);
        }
    }
}

/// Count conservation: the counts of the grouping sum to the length of the
/// input sequence.
pub proof fn lemma_count_conservation(s: Seq<Seq<char>>)
    ensures
        count_sum(runs_of(s)) == s.len(),
    decreases s.len(),
{
    if s.len() == 0 {
    } else {
        lemma_count_conservation(s.drop_last());
        let prev = runs_of(s.drop_last());
        let x = s.last();
        if prev.len() > 0 && prev.last().1 == x {
            let k = prev.len() - 1;
            let c = prev.last().0;
            let u = prev.update(k, (c + 1, x));
            assert(runs_of(s) == u);
            assert(u.last() == (c + 1, x));
            assert(u.drop_last() =~= prev.drop_last());
            assert(count_sum(u) == count_sum(prev.drop_last()) + c + 1);
            assert(count_sum(prev) == count_sum(prev.drop_last()) + c);
        } else {
            let u = prev.push((1int, x));
            assert(runs_of(s) == u);
            assert(u.drop_last() =~= prev);
            assert(count_sum(u) == count_sum(prev) + 1);
        }
    }
}

/// Run-count bound: a grouping has at most as many runs as the input has
/// items, with equality exactly when no two adjacent items are equal.
pub proof fn lemma_run_count_bound(s: Seq<Seq<char>>)
    ensures
        runs_of(s).len() <= s.len(),
        runs_of(s).len() == s.len() <==> no_adjacent_dups(s),
    decreases s.len(),
{
    if s.len() == 0 {
        assert(no_adjacent_dups(s));
    } else {
        let t = s.drop_last();
        lemma_run_count_bound(t);
        lemma_runs_shape(t);
        let prev = runs_of(t);
        let x = s.last();
        if prev.len() > 0 && prev.last().1 == x {
            assert(t.last() == s[s.len() - 2]);
            assert(s[s.len() - 2] == s[s.len() - 1]);
            assert(!no_adjacent_dups(s));
            assert(runs_of(s).len() == prev.len());
        } else {
            assert(runs_of(s).len() == prev.len() + 1);
            if t.len() == 0 {
                assert(runs_of(s).len() == 1);
                assert(no_adjacent_dups(s));
            } else {
                assert(prev.last().1 == t.last());
                assert(t.last() == s[s.len() - 2]);
                assert(s[s.len() - 2] != s[s.len() - 1]);
                assert(no_adjacent_dups(s) ==> no_adjacent_dups(t)) by {
                    if no_adjacent_dups(s) {
                        assert forall|i: int| 1 <= i < t.len() implies t[i - 1] != #[trigger] t[i] by {
                            assert(t[i - 1] == s[i - 1]);
                            assert(t[i] == s[i]);
                        }
                    }
                }
                assert(no_adjacent_dups(t) ==> no_adjacent_dups(s)) by {
                    if no_adjacent_dups(t) {
                        assert forall|i: int| 1 <= i < s.len() implies s[i - 1] != #[trigger] s[i] by {
                            if i < s.len() - 1 {
                                assert(t[i - 1] == s[i - 1]);
                                assert(t[i] == s[i]);
                            }
                        }
                    }
                }
            }
        }
    }
}

/// A sequence without adjacent duplicates groups into runs of length one,
/// one per item.
pub proof fn lemma_singleton_runs(t: Seq<Seq<char>>)
    requires
        no_adjacent_dups(t),
    ensures
        runs_of(t) == t.map_values(|x: Seq<char>| (1int, x)),
    decreases t.len(),
{
    if t.len() == 0 {
        assert(runs_of(t) =~= t.map_values(|x: Seq<char>| (1int, x)));
    } else {
        let u = t.drop_last();
        assert forall|i: int| 1 <= i < u.len() implies u[i - 1] != #[trigger] u[i] by {
            assert(u[i - 1] == t[i - 1]);
            assert(u[i] == t[i]);
        }
        lemma_singleton_runs(u);
        lemma_runs_shape(u);
        let prev = runs_of(u);
        if u.len() == 0 {
            assert(runs_of(t) == prev.push((1int, t.last())));
            assert(runs_of(t) =~= t.map_values(|x: Seq<char>| (1int, x)));
        } else {
            assert(prev.last().1 == u.last());
            assert(u.last() == t[t.len() - 2]);
            assert(t[t.len() - 2] != t.last());
            assert(runs_of(t) == prev.push((1int, t.last())));
            assert(runs_of(t) =~= t.map_values(|x: Seq<char>| (1int, x)));
        }
    }
}

/// Idempotence under re-grouping: grouping the representatives-only
/// projection of a grouping yields one run of length one per representative.
pub proof fn lemma_regroup_idempotent(s: Seq<Seq<char>>)
    ensures
        runs_of(reps(runs_of(s))) == reps(runs_of(s)).map_values(|x: Seq<char>| (1int, x)),
        forall|i: int|
            0 <= i < runs_of(reps(runs_of(s))).len() ==> (#[trigger] runs_of(reps(runs_of(s)))[i]).0
                == 1,
{
    lemma_runs_shape(s);
    let r = reps(runs_of(s));
    assert forall|i: int| 1 <= i < r.len() implies r[i - 1] != #[trigger] r[i] by {
        assert(r[i - 1] == runs_of(s)[i - 1].1);
        assert(r[i] == runs_of(s)[i].1);
    }
    lemma_singleton_runs(r);
    assert forall|i: int| 0 <= i < runs_of(r).len() implies (#[trigger] runs_of(r)[i]).0 == 1 by {
        assert(runs_of(r)[i] == r.map_values(|x: Seq<char>| (1int, x))[i]);
    }
}

} // verus!
