use crate::sight::Sight;
use crate::sort::{ascending, lemma_sorted_numbered, sort_keyed, Keyed};
use vstd::prelude::*;
use vstd::seq_lib::*;

verus! {

/// The sum of the weights of the items of `s`.
pub open spec fn tally(s: Seq<Keyed>, w: spec_fn(Keyed) -> int) -> int {
    s.fold_left(0int, |acc: int, e: Keyed| acc + w(e))
}

/// One item more adds its weight.
proof fn lemma_tally_push(s: Seq<Keyed>, e: Keyed, w: spec_fn(Keyed) -> int)
    ensures
        tally(s.push(e), w) == tally(s, w) + w(e),
{
    assert(s.push(e).drop_last() =~= s);
}

/// Weights that agree on the items give the same sum.
proof fn lemma_tally_same(s: Seq<Keyed>, v: spec_fn(Keyed) -> int, w: spec_fn(Keyed) -> int)
    requires
        forall|i: int| 0 <= i < s.len() ==> v(#[trigger] s[i]) == w(s[i]),
    ensures
        tally(s, v) == tally(s, w),
    decreases s.len(),
{
    if s.len() > 0 {
        lemma_tally_same(s.drop_last(), v, w);
        assert(s.drop_last().push(s.last()) =~= s);
        lemma_tally_push(s.drop_last(), s.last(), v);
        lemma_tally_push(s.drop_last(), s.last(), w);
    }
}

/// Items without weight add up to nothing.
proof fn lemma_tally_zero(s: Seq<Keyed>, w: spec_fn(Keyed) -> int)
    requires
        forall|i: int| 0 <= i < s.len() ==> w(#[trigger] s[i]) == 0,
    ensures
        tally(s, w) == 0,
    decreases s.len(),
{
    if s.len() > 0 {
        lemma_tally_zero(s.drop_last(), w);
        assert(s.drop_last().push(s.last()) =~= s);
        lemma_tally_push(s.drop_last(), s.last(), w);
    }
}

/// The sum over a sequence is the sum over its two parts.
proof fn lemma_tally_split(s: Seq<Keyed>, k: int, w: spec_fn(Keyed) -> int)
    requires
        0 <= k <= s.len(),
    ensures
        tally(s, w) == tally(s.take(k), w) + tally(s.skip(k), w),
    decreases s.len(),
{
    if k == s.len() {
        assert(s.take(k) =~= s);
        assert(s.skip(k) =~= Seq::<Keyed>::empty());
    } else {
        let t = s.drop_last();
        lemma_tally_split(t, k, w);
        assert(t.take(k) =~= s.take(k));
        assert(t.skip(k).push(s.last()) =~= s.skip(k));
        assert(t.push(s.last()) =~= s);
        lemma_tally_push(t, s.last(), w);
        lemma_tally_push(t.skip(k), s.last(), w);
    }
}

/// The sum does not depend on the order of the items.
proof fn lemma_tally_permutation(s: Seq<Keyed>, t: Seq<Keyed>, w: spec_fn(Keyed) -> int)
    requires
        s.to_multiset() == t.to_multiset(),
    ensures
        tally(s, w) == tally(t, w),
{
    let f = |acc: int, e: Keyed| acc + w(e);
    assert(commutative_foldl(f));
    lemma_fold_left_permutation(s, t, f, 0int);
}

impl Sight {
    /// How many directions and arc ends a sweep of this sight passes.
    pub open spec fn event_count(&self) -> int {
        (self.attendees@.len() + 2 * self.shadows@.len()) as int
    }

    /// The `i`-th thing that a sweep passes, in the order in which they are
    /// numbered: first each attendee at its direction, then for each shadow
    /// its start and its end.
    pub open spec fn event(&self, i: int) -> Keyed {
        let na = self.attendees@.len() as int;
        if i < na {
            Keyed { key: self.attendees@[i] as i128, index: i as usize }
        } else if (i - na) % 2 == 0 {
            Keyed { key: self.shadows@[(i - na) / 2].start() as i128, index: i as usize }
        } else {
            Keyed { key: self.shadows@[(i - na) / 2].end() as i128, index: i as usize }
        }
    }

    /// All that a sweep passes, as numbered.
    pub open spec fn events(&self) -> Seq<Keyed> {
        Seq::new(self.event_count() as nat, |i: int| self.event(i))
    }

    /// What passing `e` adds to the count of open shadows.
    pub open spec fn step(&self, e: Keyed) -> int {
        let na = self.attendees@.len() as int;
        if e.index < na {
            0
        } else if (e.index - na) % 2 == 0 {
            1
        } else {
            -1
        }
    }

    /// `step`, as a weight on events.
    pub open spec fn steps(&self) -> spec_fn(Keyed) -> int {
        |e: Keyed| self.step(e)
    }

    /// The step of `e` where `e` is passed before `pivot`, else nothing.
    pub open spec fn steps_before(&self, pivot: Keyed) -> spec_fn(Keyed) -> int {
        |e: Keyed| if e.before(pivot) { self.step(e) } else { 0 }
    }

    /// How many of the first `n` shadows wrap across the seam.
    pub open spec fn wrap_count(&self, n: int) -> int
        decreases n,
    {
        if n <= 0 {
            0
        } else {
            self.wrap_count(n - 1) + if self.shadows@[n - 1].wraps() { 1int } else { 0 }
        }
    }

    /// How many of the first `n` shadows cover the direction `t`.
    pub open spec fn shade_count(&self, t: int, n: int) -> int
        decreases n,
    {
        if n <= 0 {
            0
        } else {
            self.shade_count(t, n - 1) + self.shadows@[n - 1].shade(t)
        }
    }

    /// No shadow is counted exactly where none covers the direction.
    proof fn lemma_shade_count(&self, t: int, n: int)
        requires
            0 <= n <= self.shadows@.len(),
        ensures
            self.shade_count(t, n) >= 0,
            self.shade_count(t, n) == 0 <==> forall|j: int|
                0 <= j < n ==>
                    !(#[trigger] self.shadows@[j]).covers(t),
        decreases n,
    {
        if n > 0 {
            self.lemma_shade_count(t, n - 1);
        }
    }

    /// What the start and the end of shadow `j` add, wrapping included, to
    /// the count that a sweep holds when it reaches attendee `a`: one if the
    /// shadow covers the attendee's direction, else nothing.
    proof fn lemma_pair_before(&self, a: int, j: int)
        requires
            self.wf(),
            0 <= a < self.attendees@.len(),
            0 <= j < self.shadows@.len(),
        ensures
            ({
                let na = self.attendees@.len() as int;
                let w = self.steps_before(self.event(a));
                (if self.shadows@[j].wraps() { 1int } else { 0 }) + w(self.event(na + 2 * j)) + w(
                    self.event(na + 2 * j + 1),
                ) == self.shadows@[j].shade(self.attendees@[a] as int)
            }),
    {
        let na = self.attendees@.len() as int;
        let t = self.attendees@[a] as int;
        let sh = self.shadows@[j];
        let s = self.event(na + 2 * j);
        let e = self.event(na + 2 * j + 1);
        let p = self.event(a);
        sh.lemma_swept_is_shade(t);
        crate::sight::lemma_normalized(sh.bearing - sh.half_width);
        crate::sight::lemma_normalized(sh.bearing + sh.half_width);
        assert(s.key == sh.start() && s.index == na + 2 * j);
        assert(e.key == sh.end() && e.index == na + 2 * j + 1);
        assert(p.key == t && p.index == a);
        assert(s.before(p) <==> sh.start() < t);
        assert(e.before(p) <==> sh.end() < t);
        assert(self.step(s) == 1);
        assert(self.step(e) == -1);
    }

    /// A sweep that stops at attendee `a` has passed, of the first `n`
    /// shadows, the starts and ends that tell which of them cover `a`.
    proof fn lemma_events_before(&self, a: int, n: int)
        requires
            self.wf(),
            0 <= a < self.attendees@.len(),
            0 <= n <= self.shadows@.len(),
        ensures
            self.wrap_count(n) + tally(
                self.events().take(self.attendees@.len() + 2 * n),
                self.steps_before(self.event(a)),
            ) == self.shade_count(self.attendees@[a] as int, n),
        decreases n,
    {
        let na = self.attendees@.len() as int;
        let w = self.steps_before(self.event(a));
        if n == 0 {
            lemma_tally_zero(self.events().take(na), w);
        } else {
            self.lemma_events_before(a, n - 1);
            self.lemma_pair_before(a, n - 1);
            let base = self.events().take(na + 2 * (n - 1));
            let s = self.event(na + 2 * (n - 1));
            let e = self.event(na + 2 * (n - 1) + 1);
            assert(self.events().take(na + 2 * n) =~= base.push(s).push(e));
            lemma_tally_push(base, s, w);
            lemma_tally_push(base.push(s), e, w);
        }
    }

    /// What holds of the events once sorted: each stands strictly before
    /// the next, each is the one that its index numbers, and none is missing.
    proof fn lemma_sorted_events(&self, sorted: Seq<Keyed>)
        requires
            self.wf(),
            ascending(sorted),
            sorted.to_multiset() == self.events().to_multiset(),
        ensures
            sorted.len() == self.event_count(),
            forall|i: int, j: int|
                0 <= i < j < sorted.len() ==>
                    (#[trigger] sorted[i]).before(#[trigger] sorted[j]),
            forall|i: int|
                0 <= i < sorted.len() ==>
                    0 <= (#[trigger] sorted[i]).index < self.event_count() && sorted[i] == self.event(sorted[i].index as int),
            forall|n: int|
                0 <= n < self.event_count() ==>
                    sorted.contains(#[trigger] self.event(n)),
    {
        let ev = self.events();
        lemma_sorted_numbered(ev, sorted);
        assert forall|i: int|
            0 <= i < sorted.len() implies
                0 <= (#[trigger] sorted[i]).index < self.event_count() && sorted[i] == self.event(sorted[i].index as int) by {
            assert(sorted[i] == ev[sorted[i].index as int]);
        }
        assert forall|n: int|
            0 <= n < self.event_count() implies
                sorted.contains(#[trigger] self.event(n)) by {
            assert(sorted.contains(ev[n]));
        }
    }

    /// When a sweep over the sorted events reaches an attendee, the shadows
    /// that it holds open are those that cover the attendee's direction.
    proof fn lemma_sweep_count(&self, sorted: Seq<Keyed>, k: int)
        requires
            self.wf(),
            ascending(sorted),
            sorted.to_multiset() == self.events().to_multiset(),
            0 <= k < sorted.len(),
            sorted[k].index < self.attendees@.len(),
        ensures
            self.wrap_count(self.shadows@.len() as int) + tally(sorted.take(k), self.steps())
                == self.shade_count(self.attendees@[sorted[k].index as int] as int, self.shadows@.len() as int),
    {
        self.lemma_sorted_events(sorted);
        let p = sorted[k];
        let a = p.index as int;
        let w = self.steps_before(p);
        assert(p == self.event(a));
        lemma_tally_split(sorted, k, w);
        lemma_tally_same(sorted.take(k), self.steps(), w);
        lemma_tally_zero(sorted.skip(k), w);
        lemma_tally_permutation(sorted, self.events(), w);
        self.lemma_events_before(a, self.shadows@.len() as int);
        assert(self.events().take(self.event_count()) =~= self.events());
    }

    /// The attendees with a free line to the musician, in the order in
    /// which a sweep over ascending directions meets them: by direction,
    /// and among attendees in one direction by index.
    pub fn sweep(&self) -> (seen: Vec<usize>)
        requires
            self.wf(),
        ensures
            forall|i: int| 0 <= i < seen@.len() ==> self.sees(#[trigger] seen@[i] as int),
            forall|a: int| self.sees(a) ==> seen@.contains(a as usize),
            forall|i: int, j: int|
                0 <= i < j < seen@.len() ==>
                    self.event(#[trigger] seen@[i] as int).before(self.event(#[trigger] seen@[j] as int)),
    {
        let na: usize = self.attendees.len();
        let ns: usize = self.shadows.len();
        let mut evs: Vec<Keyed> = Vec::new();
        let mut a: usize = 0;
        while a < na
            invariant
                na == self.attendees@.len(),
                a <= na,
                evs@.len() == a,
                forall|i: int| 0 <= i < a ==> #[trigger] evs@[i] == self.event(i),
            decreases na - a,
        {
            evs.push(Keyed { key: self.attendees[a] as i128, index: a });
            a += 1;
        }
        let mut wraps: i128 = 0;
        let mut j: usize = 0;
        while j < ns
            invariant
                self.wf(),
                na == self.attendees@.len(),
                ns == self.shadows@.len(),
                j <= ns,
                evs@.len() == na + 2 * j,
                forall|i: int| 0 <= i < evs@.len() ==> #[trigger] evs@[i] == self.event(i),
                wraps == self.wrap_count(j as int),
                0 <= wraps <= j,
            decreases ns - j,
        {
            let (start, end) = self.shadows[j].ends();
            if start > end {
                wraps = wraps + 1;
            }
            evs.push(Keyed { key: start as i128, index: na + 2 * j });
            evs.push(Keyed { key: end as i128, index: na + 2 * j + 1 });
            j += 1;
        }
        assert(evs@ =~= self.events());
        let sorted: Vec<Keyed> = sort_keyed(evs);
        let n: usize = sorted.len();
        proof {
            self.lemma_sorted_events(sorted@);
        }
        let mut overlap: i128 = wraps;
        let mut seen: Vec<usize> = Vec::new();
        let ghost mut at: Seq<int> = Seq::empty();
        let mut k: usize = 0;
        assert(sorted@.take(0) =~= Seq::<Keyed>::empty());
        while k < n
            invariant
                self.wf(),
                na == self.attendees@.len(),
                ns == self.shadows@.len(),
                n == sorted@.len(),
                n == self.event_count(),
                k <= n,
                ascending(sorted@),
                sorted@.to_multiset() == self.events().to_multiset(),
                forall|i: int, j: int|
                    0 <= i < j < sorted@.len() ==>
                        (#[trigger] sorted@[i]).before(#[trigger] sorted@[j]),
                forall|i: int|
                    0 <= i < sorted@.len() ==>
                        0 <= (#[trigger] sorted@[i]).index < self.event_count() && sorted@[i] == self.event(sorted@[i].index as int),
                wraps == self.wrap_count(ns as int),
                0 <= wraps <= ns,
                overlap == wraps + tally(sorted@.take(k as int), self.steps()),
                wraps - k <= overlap <= wraps + k,
                at.len() == seen@.len(),
                forall|i: int|
                    0 <= i < at.len() ==>
                        0 <= #[trigger] at[i] < k && sorted@[at[i]].index == seen@[i],
                forall|i: int| 0 <= i < seen@.len() ==> self.sees(#[trigger] seen@[i] as int),
                forall|i: int, j: int| 0 <= i < j < at.len() ==> at[i] < at[j],
                forall|q: int|
                    0 <= q < k && self.sees((#[trigger] sorted@[q]).index as int) ==>
                        seen@.contains(sorted@[q].index),
            decreases n - k,
        {
            let e: Keyed = sorted[k];
            proof {
                assert(sorted@.take(k + 1) =~= sorted@.take(k as int).push(e));
                lemma_tally_push(sorted@.take(k as int), e, self.steps());
            }
            if e.index < na {
                proof {
                    self.lemma_sweep_count(sorted@, k as int);
                    self.lemma_shade_count(self.attendees@[e.index as int] as int, ns as int);
                }
                if overlap == 0 {
                    let ghost old_seen = seen@;
                    seen.push(e.index);
                    proof {
                        at = at.push(k as int);
                        assert(self.sees(e.index as int));
                        assert forall|q: int|
                            0 <= q < k + 1 && self.sees((#[trigger] sorted@[q]).index as int) implies
                                seen@.contains(sorted@[q].index) by {
                            if q < k {
                                assert(old_seen.contains(sorted@[q].index));
                                let w = choose|w: int| 0 <= w < old_seen.len() && old_seen[w] == sorted@[q].index;
                                assert(seen@[w] == sorted@[q].index);
                            } else {
                                assert(seen@[seen@.len() - 1] == sorted@[q].index);
                            }
                        }
                    }
                }
            } else if (e.index - na) % 2 == 0 {
                overlap = overlap + 1;
            } else {
                overlap = overlap - 1;
            }
            k += 1;
        }
        proof {
            assert forall|a: int| self.sees(a) implies seen@.contains(a as usize) by {
                assert(sorted@.contains(self.event(a)));
                let q = choose|q: int| 0 <= q < sorted@.len() && sorted@[q] == self.event(a);
                assert(sorted@[q].index == a);
            }
            assert forall|i: int, j: int|
                0 <= i < j < seen@.len() implies
                    self.event(#[trigger] seen@[i] as int).before(self.event(#[trigger] seen@[j] as int)) by {
                assert(sorted@[at[i]].before(sorted@[at[j]]));
            }
        }
        seen
    }
}

} // verus!
