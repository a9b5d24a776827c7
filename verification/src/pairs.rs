use crate::problem::Problem;
use crate::sight::Sight;
use crate::types::P;
use vstd::prelude::*;

verus! {

/// Whether `pairs` lists every pair of an attendee and a musician with a
/// free line between them, once each: musician by musician, and for each
/// musician in the order in which a sweep over ascending directions meets
/// the attendees.
pub open spec fn lists_unblocked(sights: Seq<Sight>, pairs: Seq<(usize, usize)>) -> bool {
    &&& forall|i: int|
        0 <= i < pairs.len() ==> (#[trigger] pairs[i]).1 < sights.len() && sights[pairs[i].1 as int].sees(
            pairs[i].0 as int,
        )
    &&& forall|a: int, m: int|
        0 <= m < sights.len() && #[trigger] sights[m].sees(a) ==> pairs.contains((a as usize, m as usize))
    &&& forall|i: int, j: int|
        0 <= i < j < pairs.len() ==> (#[trigger] pairs[i]).1 < (#[trigger] pairs[j]).1 || (pairs[i].1
            == pairs[j].1 && sights[pairs[i].1 as int].event(pairs[i].0 as int).before(
            sights[pairs[i].1 as int].event(pairs[j].0 as int),
        ))
}

/// The pair of attendee `a` and musician `m`.
pub open spec fn pair_of(a: int, m: int) -> (usize, usize) {
    (a as usize, m as usize)
}

impl Problem {
    /// What the musicians are worth to the attendees over the listed pairs together.
    pub open spec fn pairs_total(&self, placements: Seq<P>, pairs: Seq<(usize, usize)>) -> int
        decreases pairs.len(),
    {
        if pairs.len() == 0 {
            0
        } else {
            self.pairs_total(placements, pairs.drop_last()) + self.heard(
                placements,
                pairs.last().0 as int,
                pairs.last().1 as int,
            )
        }
    }

    /// What musician `m` is worth to those of the first `n` attendees that
    /// are paired with it in `chosen`.
    pub open spec fn row_over(&self, placements: Seq<P>, chosen: Set<(usize, usize)>, m: int, n: int) -> int
        decreases n,
    {
        if n <= 0 {
            0
        } else {
            self.row_over(placements, chosen, m, n - 1) + if chosen.contains(pair_of(n - 1, m)) {
                self.heard(placements, n - 1, m)
            } else {
                0
            }
        }
    }

    /// What the first `n` musicians are worth to the attendees that they
    /// are paired with in `chosen`.
    pub open spec fn total_over(&self, placements: Seq<P>, chosen: Set<(usize, usize)>, n: int) -> int
        decreases n,
    {
        if n <= 0 {
            0
        } else {
            self.total_over(placements, chosen, n - 1) + self.row_over(
                placements,
                chosen,
                n - 1,
                self.attendees@.len() as int,
            )
        }
    }

    /// Sets that agree on a musician's pairs give the same sum for it.
    proof fn lemma_row_same(
        &self,
        placements: Seq<P>,
        chosen: Set<(usize, usize)>,
        other: Set<(usize, usize)>,
        m: int,
        n: int,
    )
        requires
            forall|a: int| 0 <= a < n ==> chosen.contains(#[trigger] pair_of(a, m)) == other.contains(pair_of(a, m)),
        ensures
            self.row_over(placements, chosen, m, n) == self.row_over(placements, other, m, n),
        decreases n,
    {
        if n > 0 {
            self.lemma_row_same(placements, chosen, other, m, n - 1);
        }
    }

    /// One pair more adds what its musician is worth to its attendee.
    proof fn lemma_row_insert(&self, placements: Seq<P>, chosen: Set<(usize, usize)>, a: int, m: int, n: int)
        requires
            0 <= a <= usize::MAX,
            0 <= m <= usize::MAX,
            0 <= n <= usize::MAX,
            !chosen.contains(pair_of(a, m)),
        ensures
            self.row_over(placements, chosen.insert(pair_of(a, m)), m, n) == self.row_over(
                placements,
                chosen,
                m,
                n,
            ) + if a < n {
                self.heard(placements, a, m)
            } else {
                0
            },
        decreases n,
    {
        if n > 0 {
            self.lemma_row_insert(placements, chosen, a, m, n - 1);
        }
    }

    /// One pair more adds what its musician is worth to its attendee.
    proof fn lemma_total_insert(&self, placements: Seq<P>, chosen: Set<(usize, usize)>, a: int, m: int, n: int)
        requires
            0 <= a < self.attendees@.len() <= usize::MAX,
            0 <= m <= usize::MAX,
            0 <= n <= usize::MAX,
            !chosen.contains(pair_of(a, m)),
        ensures
            self.total_over(placements, chosen.insert(pair_of(a, m)), n) == self.total_over(
                placements,
                chosen,
                n,
            ) + if m < n {
                self.heard(placements, a, m)
            } else {
                0
            },
        decreases n,
    {
        if n > 0 {
            let more = chosen.insert(pair_of(a, m));
            let na = self.attendees@.len() as int;
            self.lemma_total_insert(placements, chosen, a, m, n - 1);
            if m == n - 1 {
                self.lemma_row_insert(placements, chosen, a, m, na);
            } else {
                self.lemma_row_same(placements, more, chosen, n - 1, na);
            }
        }
    }

    /// Over no pairs the musicians are worth nothing.
    proof fn lemma_total_over_nothing(&self, placements: Seq<P>, n: int)
        ensures
            self.total_over(placements, Set::empty(), n) == 0,
        decreases n,
    {
        if n > 0 {
            self.lemma_total_over_nothing(placements, n - 1);
            self.lemma_row_over_nothing(placements, n - 1, self.attendees@.len() as int);
        }
    }

    /// Over no pairs a musician is worth nothing.
    proof fn lemma_row_over_nothing(&self, placements: Seq<P>, m: int, n: int)
        ensures
            self.row_over(placements, Set::empty(), m, n) == 0,
        decreases n,
    {
        if n > 0 {
            self.lemma_row_over_nothing(placements, m, n - 1);
        }
    }

    /// What a list of pairs without repetition is worth is what the
    /// musicians are worth over the set of those pairs.
    proof fn lemma_pairs_total(&self, placements: Seq<P>, pairs: Seq<(usize, usize)>)
        requires
            pairs.no_duplicates(),
            self.attendees@.len() <= usize::MAX,
            self.musicians@.len() <= usize::MAX,
            forall|i: int| 0 <= i < pairs.len() ==> (#[trigger] pairs[i]).0 < self.attendees@.len() && pairs[i].1
                < self.musicians@.len(),
        ensures
            self.pairs_total(placements, pairs) == self.total_over(
                placements,
                pairs.to_set(),
                self.musicians@.len() as int,
            ),
        decreases pairs.len(),
    {
        if pairs.len() == 0 {
            assert(pairs.to_set() =~= Set::empty());
            self.lemma_total_over_nothing(placements, self.musicians@.len() as int);
        } else {
            let rest = pairs.drop_last();
            let last = pairs.last();
            self.lemma_pairs_total(placements, rest);
            assert(!rest.to_set().contains(last)) by {
                if rest.contains(last) {
                    let i = choose|i: int| 0 <= i < rest.len() && rest[i] == last;
                    assert(pairs[i] == pairs[pairs.len() - 1]);
                }
            }
            assert(pairs.to_set() =~= rest.to_set().insert(last)) by {
                assert forall|p: (usize, usize)| pairs.to_set().contains(p) <==> rest.to_set().insert(
                    last,
                ).contains(p) by {
                    if pairs.contains(p) {
                        let i = choose|i: int| 0 <= i < pairs.len() && pairs[i] == p;
                        if i < rest.len() {
                            assert(rest[i] == p);
                        }
                    }
                    if rest.contains(p) {
                        let i = choose|i: int| 0 <= i < rest.len() && rest[i] == p;
                        assert(pairs[i] == p);
                    }
                    if p == last {
                        assert(pairs[pairs.len() - 1] == p);
                    }
                }
            }
            assert(pair_of(last.0 as int, last.1 as int) == last);
            self.lemma_total_insert(
                placements,
                rest.to_set(),
                last.0 as int,
                last.1 as int,
                self.musicians@.len() as int,
            );
        }
    }

    /// Over the pairs with a free line, a musician is worth what it is worth to the audience.
    proof fn lemma_row_is_musician_total(
        &self,
        placements: Seq<P>,
        sights: Seq<Sight>,
        chosen: Set<(usize, usize)>,
        m: int,
        n: int,
    )
        requires
            0 <= m < sights.len(),
            0 <= n <= usize::MAX,
            forall|a: int| 0 <= a < n ==> chosen.contains(#[trigger] pair_of(a, m)) == sights[m].sees(a),
        ensures
            self.row_over(placements, chosen, m, n) == self.musician_total(placements, sights, m, n),
        decreases n,
    {
        if n > 0 {
            self.lemma_row_is_musician_total(placements, sights, chosen, m, n - 1);
        }
    }

    /// Over the pairs with a free line, the musicians are worth the score.
    proof fn lemma_total_is_total_over(
        &self,
        placements: Seq<P>,
        sights: Seq<Sight>,
        chosen: Set<(usize, usize)>,
        n: int,
    )
        requires
            0 <= n <= sights.len(),
            self.attendees@.len() <= usize::MAX,
            forall|a: int, m: int|
                0 <= a < self.attendees@.len() && 0 <= m < n ==> chosen.contains(#[trigger] pair_of(a, m))
                    == sights[m].sees(a),
        ensures
            self.total_over(placements, chosen, n) == self.total(placements, sights, n),
        decreases n,
    {
        if n > 0 {
            self.lemma_total_is_total_over(placements, sights, chosen, n - 1);
            self.lemma_row_is_musician_total(placements, sights, chosen, n - 1, self.attendees@.len() as int);
        }
    }

    /// The score of a placement is the sum, over the pairs of an attendee
    /// and a musician with a free line between them, of what the musician
    /// is worth to the attendee.
    pub proof fn law_score_is_sum_over_pairs(
        &self,
        placements: Seq<P>,
        sights: Seq<Sight>,
        pairs: Seq<(usize, usize)>,
    )
        requires
            self.scorable(placements, sights),
            lists_unblocked(sights, pairs),
        ensures
            self.pairs_total(placements, pairs) == self.total_score(placements, sights),
    {
        assert(pairs.no_duplicates()) by {
            assert forall|i: int, j: int| 0 <= i < pairs.len() && 0 <= j < pairs.len() && i != j implies pairs[i]
                != pairs[j] by {
                if i < j {
                    assert(pairs[i].1 < pairs[j].1 || sights[pairs[i].1 as int].event(pairs[i].0 as int).before(
                        sights[pairs[i].1 as int].event(pairs[j].0 as int),
                    ));
                } else {
                    assert(pairs[j].1 < pairs[i].1 || sights[pairs[j].1 as int].event(pairs[j].0 as int).before(
                        sights[pairs[j].1 as int].event(pairs[i].0 as int),
                    ));
                }
            }
        }
        assert forall|i: int| 0 <= i < pairs.len() implies (#[trigger] pairs[i]).0 < self.attendees@.len()
            && pairs[i].1 < self.musicians@.len() by {
            assert(sights[pairs[i].1 as int].sees(pairs[i].0 as int));
        }
        self.lemma_pairs_total(placements, pairs);
        let chosen = pairs.to_set();
        assert forall|a: int, m: int|
            0 <= a < self.attendees@.len() && 0 <= m < sights.len() implies chosen.contains(
            #[trigger] pair_of(a, m),
        ) == sights[m].sees(a) by {
            if pairs.contains((a as usize, m as usize)) {
                let i = choose|i: int| 0 <= i < pairs.len() && pairs[i] == (a as usize, m as usize);
                assert(sights[pairs[i].1 as int].sees(pairs[i].0 as int));
            }
        }
        self.lemma_total_is_total_over(placements, sights, chosen, self.musicians@.len() as int);
    }
}

} // verus!
