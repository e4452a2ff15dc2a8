//! Weighted features, by which a profile is scored against file paths.

use vstd::prelude::*;

use crate::pattern::{accepts, Pattern};
use crate::text::slice_views;

verus! {

/// What a feature of `pattern` and `weight` scores on one item.
pub open spec fn item_score(pattern: Seq<char>, weight: usize, item: Seq<char>) -> int {
    if accepts(pattern, item) {
        weight as int
    } else {
        0
    }
}

/// The number of `items` that `pattern` matches.
pub open spec fn match_count(pattern: Seq<char>, items: Seq<Seq<char>>) -> int
    decreases items.len(),
{
    if items.len() == 0 {
        0
    } else {
        match_count(pattern, items.drop_last()) + (if accepts(pattern, items.last()) {
            1int
        } else {
            0int
        })
    }
}

/// No more items are matched than there are.
pub proof fn lemma_match_count(pattern: Seq<char>, items: Seq<Seq<char>>)
    ensures
        0 <= match_count(pattern, items) <= items.len(),
    decreases items.len(),
{
    if items.len() > 0 {
        lemma_match_count(pattern, items.drop_last());
    }
}

/// A pattern and the weight of each of its matches.
#[derive(Debug)]
pub struct Feature {
    pattern: Pattern,
    weight: usize,
}

impl Feature {
    /// The feature's pattern.
    pub closed spec fn pattern(self) -> Seq<char> {
        self.pattern.source()
    }

    /// The feature's weight.
    pub closed spec fn weight(self) -> usize {
        self.weight
    }

    /// The sum of the feature's scores on `items`.
    pub open spec fn total(self, items: Seq<Seq<char>>) -> int {
        self.weight() * match_count(self.pattern(), items)
    }

    /// A feature of `pattern` and `weight`.
    pub fn new(pattern: Pattern, weight: usize) -> (feature: Feature)
        ensures
            feature.pattern() == pattern.source(),
            feature.weight() == weight,
    {
        Feature { pattern, weight }
    }

    /// The weight of a feature that names none.
    pub fn default_weight() -> (weight: usize)
        ensures
            weight == 1,
    {
        1
    }

    /// The text of the feature's pattern.
    pub fn pattern_str(&self) -> (source: &str)
        ensures
            source@ == self.pattern(),
    {
        self.pattern.as_str()
    }

    /// The feature's weight.
    pub fn weight_value(&self) -> (weight: usize)
        ensures
            weight == self.weight(),
    {
        self.weight
    }

    /// The weight where the pattern matches `item`, else 0.
    pub fn score(&self, item: &str) -> (score: usize)
        ensures
            score == item_score(self.pattern(), self.weight(), item@),
    {
        if self.pattern.is_match(item) {
            return self.weight;
        }
        0
    }

    /// The number of `items` that the pattern matches.
    pub fn count(&self, items: &[&str]) -> (count: usize)
        ensures
            count == match_count(self.pattern(), slice_views(items@)),
            count <= items.len(),
    {
        let ghost views = slice_views(items@);
        let mut count: usize = 0;
        let mut i: usize = 0;
        assert(views.take(0) =~= Seq::<Seq<char>>::empty());
        while i < items.len()
            invariant
                i <= items.len(),
                views == slice_views(items@),
                count <= i,
                count == match_count(self.pattern(), views.take(i as int)),
            decreases items.len() - i,
        {
            proof {
                assert(views.take(i + 1).drop_last() =~= views.take(i as int));
                assert(views.take(i + 1).last() == items@[i as int]@);
            }
            if self.pattern.is_match(items[i]) {
                count = count + 1;
            }
            i += 1;
        }
        assert(views.take(items.len() as int) =~= views);
        count
    }

    /// The weight times the number of `items` that the pattern matches.
    pub fn score_all(&self, items: &[&str]) -> (score: usize)
        requires
            self.weight() * items.len() <= usize::MAX,
        ensures
            score == self.total(slice_views(items@)),
    {
        let ghost views = slice_views(items@);
        let mut sum: usize = 0;
        let mut i: usize = 0;
        assert(views.take(0) =~= Seq::<Seq<char>>::empty());
        while i < items.len()
            invariant
                i <= items.len(),
                views == slice_views(items@),
                self.weight() * items.len() <= usize::MAX,
                sum == self.weight() * match_count(self.pattern(), views.take(i as int)),
            decreases items.len() - i,
        {
            let ghost seen = views.take(i as int);
            let ghost next = views.take(i + 1);
            proof {
                assert(next.drop_last() =~= seen);
                assert(next.last() == items@[i as int]@);
                lemma_match_count(self.pattern(), next);
                let w = self.weight() as int;
                let c = match_count(self.pattern(), seen);
                let c1 = match_count(self.pattern(), next);
                let n = items.len() as int;
                assert(w * c1 <= w * n) by (nonlinear_arith)
                    requires
                        0 <= w,
                        0 <= c1 <= n,
                ;
                assert(w * (c + 1) == w * c + w) by (nonlinear_arith);
            }
            let step = self.score(items[i]);
            sum = sum + step;
            i += 1;
        }
        assert(views.take(items.len() as int) =~= views);
        sum
    }
}

} // verus!
