//! Profiles: how to find and start the program of an unpacked archive.

use vstd::prelude::*;

use crate::command::Command;
use crate::feature::{lemma_match_count, match_count, Feature};
use crate::mappings::{Mappings, Table};
use crate::path::{parent, parent_of};
use crate::pattern::{any_accepts, any_match, sources, Pattern};
use crate::text::slice_views;

verus! {

/// The sum of the weights of `features`.
pub open spec fn weights(features: Seq<Feature>) -> int
    decreases features.len(),
{
    if features.len() == 0 {
        0
    } else {
        weights(features.drop_last()) + features.last().weight()
    }
}

/// The sum, over `features`, of the weight times the number of `items` that
/// the feature's pattern matches.
pub open spec fn features_score(features: Seq<Feature>, items: Seq<Seq<char>>) -> int
    decreases features.len(),
{
    if features.len() == 0 {
        0
    } else {
        features_score(features.drop_last(), items) + features.last().total(items)
    }
}

/// A score is at most the sum of the weights times the number of items.
pub proof fn lemma_features_score(features: Seq<Feature>, items: Seq<Seq<char>>)
    ensures
        0 <= weights(features),
        0 <= features_score(features, items) <= weights(features) * items.len(),
    decreases features.len(),
{
    if features.len() > 0 {
        lemma_features_score(features.drop_last(), items);
        let f = features.last();
        lemma_match_count(f.pattern(), items);
        let w = f.weight() as int;
        let c = match_count(f.pattern(), items);
        let n = items.len() as int;
        let before = weights(features.drop_last());
        assert(0 <= w * c <= w * n) by (nonlinear_arith)
            requires
                0 <= w,
                0 <= c <= n,
        ;
        assert((before + w) * n == before * n + w * n) by (nonlinear_arith);
    } else {
        assert(0 * items.len() == 0);
    }
}

/// The weights of the first features add up to no more than those of all.
pub proof fn lemma_weights_take(features: Seq<Feature>, count: int)
    requires
        0 <= count <= features.len(),
    ensures
        0 <= weights(features.take(count)) <= weights(features),
    decreases features.len() - count,
{
    lemma_features_score(features.take(count), Seq::empty());
    if count < features.len() {
        lemma_weights_take(features, count + 1);
        assert(features.take(count + 1).drop_last() =~= features.take(count));
    } else {
        assert(features.take(count) =~= features);
    }
}

/// A score of any size: `high` times 2 to the power of 128, and `low`.
#[derive(Debug)]
pub struct Score {
    high: usize,
    low: u128,
}

impl Score {
    /// The score as a number.
    pub closed spec fn value(self) -> int {
        self.high * 0x1_0000_0000_0000_0000_0000_0000_0000_0000 + self.low
    }

    /// The score 0.
    pub fn zero() -> (score: Score)
        ensures
            score.value() == 0,
    {
        Score { high: 0, low: 0 }
    }

    /// Whether this score is at least `other`.
    pub fn at_least(&self, other: &Score) -> (r: bool)
        ensures
            r == (self.value() >= other.value()),
    {
        self.high > other.high || (self.high == other.high && self.low >= other.low)
    }

    /// The score as a number of the machine, where it is one.
    pub fn get(&self) -> (number: Option<usize>)
        ensures
            match number {
                Some(n) => n == self.value(),
                None => self.value() > usize::MAX,
            },
    {
        if self.high == 0 && self.low <= usize::MAX as u128 {
            Some(self.low as usize)
        } else {
            None
        }
    }
}

/// The directory of an executable: what is left of its path without the
/// last component, or `.` where nothing is.
pub open spec fn executable_dir(executable: Seq<char>) -> Seq<char> {
    match parent(executable) {
        Some(dir) => dir,
        None => "."@,
    }
}

/// The mappings that an executable is started with.
pub open spec fn run_table(executable: Seq<char>, target: Seq<char>) -> Table {
    Table::empty().with("executable"@, executable).with(
        "executable_dir"@,
        executable_dir(executable),
    ).with("target"@, target)
}

/// Those of `items` that one of `patterns` matches, in their order.
pub open spec fn matching(patterns: Seq<Seq<char>>, items: Seq<Seq<char>>) -> Seq<Seq<char>>
    decreases items.len(),
{
    if items.len() == 0 {
        Seq::empty()
    } else if any_accepts(patterns, items.last()) {
        matching(patterns, items.drop_last()).push(items.last())
    } else {
        matching(patterns, items.drop_last())
    }
}

/// A command, the patterns of the files that it can start, and the features
/// that speak for it.
#[derive(Debug)]
pub struct Profile {
    pub command: Command,
    pub executables: Vec<Pattern>,
    pub features: Vec<Feature>,
}

impl Profile {
    /// The command is well-formed.
    pub open spec fn wf(self) -> bool {
        self.command.wf()
    }

    /// The profile's score on `items`.
    pub open spec fn score(self, items: Seq<Seq<char>>) -> int {
        features_score(self.features@, items)
    }

    /// Whether the scores on `count` items fit the machine's integers,
    /// whatever the items are.
    pub open spec fn can_score(self, count: int) -> bool {
        weights(self.features@) * count <= usize::MAX
    }

    /// The sum of the weights, or nothing where it does not fit.
    pub fn total_weight(&self) -> (total: Option<usize>)
        ensures
            match total {
                Some(t) => t == weights(self.features@),
                None => weights(self.features@) > usize::MAX,
            },
    {
        let mut sum: usize = 0;
        let mut i: usize = 0;
        assert(self.features@.take(0) =~= Seq::<Feature>::empty());
        while i < self.features.len()
            invariant
                i <= self.features.len(),
                sum == weights(self.features@.take(i as int)),
            decreases self.features.len() - i,
        {
            let weight = self.features[i].weight_value();
            proof {
                assert(self.features@.take(i + 1).drop_last() =~= self.features@.take(i as int));
                lemma_weights_take(self.features@, i + 1);
            }
            if weight > usize::MAX - sum {
                return None;
            }
            sum = sum + weight;
            i += 1;
        }
        assert(self.features@.take(self.features.len() as int) =~= self.features@);
        Some(sum)
    }

    /// Whether `can_score` holds of `count`.
    pub fn fits(&self, count: usize) -> (ok: bool)
        ensures
            ok == self.can_score(count as int),
    {
        proof {
            lemma_features_score(self.features@, Seq::empty());
        }
        match self.total_weight() {
            Some(total) => {
                if count == 0 || total == 0 {
                    assert(total * count == 0) by (nonlinear_arith)
                        requires
                            count == 0 || total == 0,
                    ;
                    true
                } else {
                    let ok = total <= usize::MAX / count;
                    proof {
                        let t = total as int;
                        let c = count as int;
                        let m = usize::MAX as int;
                        assert((t <= m / c) == (t * c <= m)) by (nonlinear_arith)
                            requires
                                0 < c,
                                0 <= t,
                                0 <= m,
                        ;
                    }
                    ok
                }
            },
            None => {
                if count == 0 {
                    assert(weights(self.features@) * 0 == 0) by (nonlinear_arith);
                    true
                } else {
                    proof {
                        let t = weights(self.features@);
                        let c = count as int;
                        assert(t * c >= t) by (nonlinear_arith)
                            requires
                                1 <= c,
                                0 <= t,
                        ;
                    }
                    false
                }
            },
        }
    }

    /// The sum of the scores of the profile's features on `items`, whatever
    /// its size.
    pub fn total_score(&self, items: &[&str]) -> (total: Score)
        ensures
            total.value() == self.score(slice_views(items@)),
    {
        let ghost views = slice_views(items@);
        let mut high: usize = 0;
        let mut low: u128 = 0;
        let mut i: usize = 0;
        assert(self.features@.take(0) =~= Seq::<Feature>::empty());
        while i < self.features.len()
            invariant
                i <= self.features.len(),
                views == slice_views(items@),
                high <= i,
                high * 0x1_0000_0000_0000_0000_0000_0000_0000_0000 + low == features_score(
                    self.features@.take(i as int),
                    views,
                ),
            decreases self.features.len() - i,
        {
            let weight = self.features[i].weight_value();
            let count = self.features[i].count(items);
            proof {
                let next = self.features@.take(i + 1);
                assert(next.drop_last() =~= self.features@.take(i as int));
                assert(next.last() == self.features@[i as int]);
                let w = weight as int;
                let c = count as int;
                assert(0 <= w * c <= 0xffff_ffff_ffff_ffff * 0xffff_ffff_ffff_ffff)
                    by (nonlinear_arith)
                    requires
                        0 <= w <= 0xffff_ffff_ffff_ffff,
                        0 <= c <= 0xffff_ffff_ffff_ffff,
                ;
            }
            let step: u128 = (weight as u128) * (count as u128);
            if step > u128::MAX - low {
                low = low - (u128::MAX - step) - 1;
                high = high + 1;
            } else {
                low = low + step;
            }
            i += 1;
        }
        assert(self.features@.take(self.features.len() as int) =~= self.features@);
        Score { high, low }
    }

    /// The sum of the scores of the profile's features on `items`.
    pub fn feature_score(&self, items: &[&str]) -> (score: usize)
        requires
            self.can_score(items.len() as int),
        ensures
            score == self.score(slice_views(items@)),
    {
        let ghost views = slice_views(items@);
        let mut sum: usize = 0;
        let mut i: usize = 0;
        assert(self.features@.take(0) =~= Seq::<Feature>::empty());
        while i < self.features.len()
            invariant
                i <= self.features.len(),
                views == slice_views(items@),
                views.len() == items.len(),
                self.can_score(items.len() as int),
                sum == features_score(self.features@.take(i as int), views),
            decreases self.features.len() - i,
        {
            proof {
                let next = self.features@.take(i + 1);
                assert(next.drop_last() =~= self.features@.take(i as int));
                assert(next.last() == self.features@[i as int]);
                lemma_features_score(next, views);
                lemma_features_score(self.features@.take(i as int), views);
                lemma_weights_take(self.features@, i + 1);
                lemma_match_count(self.features@[i as int].pattern(), views);
                let n = items.len() as int;
                let all = weights(self.features@);
                let some = weights(next);
                let w = self.features@[i as int].weight() as int;
                assert(some * n <= all * n) by (nonlinear_arith)
                    requires
                        0 <= some <= all,
                        0 <= n,
                ;
                assert(w * n <= some * n) by (nonlinear_arith)
                    requires
                        0 <= w <= some,
                        0 <= n,
                ;
            }
            let step = self.features[i].score_all(items);
            sum = sum + step;
            i += 1;
        }
        assert(self.features@.take(self.features.len() as int) =~= self.features@);
        sum
    }

    /// Whether one of the profile's patterns for executables matches `path`.
    pub fn starts(&self, path: &str) -> (hit: bool)
        ensures
            hit == any_accepts(sources(self.executables@), path@),
    {
        any_match(&self.executables, path)
    }

    /// Those of `files` that one of the profile's patterns for executables
    /// matches, in their order.
    pub fn executables<'a>(&self, files: &'a [&'a str]) -> (found: Vec<&'a str>)
        ensures
            slice_views(found@) == matching(sources(self.executables@), slice_views(files@)),
    {
        let ghost all = slice_views(files@);
        let mut found: Vec<&'a str> = Vec::new();
        let mut i: usize = 0;
        assert(all.take(0) =~= Seq::<Seq<char>>::empty());
        assert(slice_views(found@) =~= Seq::<Seq<char>>::empty());
        while i < files.len()
            invariant
                i <= files.len(),
                all == slice_views(files@),
                slice_views(found@) == matching(sources(self.executables@), all.take(i as int)),
            decreases files.len() - i,
        {
            let ghost before = slice_views(found@);
            proof {
                assert(all.take(i + 1).drop_last() =~= all.take(i as int));
                assert(all.take(i + 1).last() == files@[i as int]@);
            }
            let file = files[i];
            if self.starts(file) {
                found.push(file);
                assert(slice_views(found@) =~= before.push(file@));
            }
            i += 1;
        }
        assert(all.take(files.len() as int) =~= all);
        found
    }

    /// The command that starts `executable` in `target`: the profile's
    /// command with `{executable}`, `{executable_dir}` and `{target}`
    /// substituted.
    pub fn command_for(&self, executable: &str, target: &str) -> (command: Command)
        requires
            self.wf(),
        ensures
            command.wf(),
            self.command.resolved(run_table(executable@, target@), command),
    {
        let mut mappings = Mappings::new();
        mappings.insert("executable", executable);
        let dir = match parent_of(executable) {
            Some(dir) => dir,
            None => ".".to_owned(),
        };
        mappings.insert("executable_dir", dir.as_str());
        mappings.insert("target", target);
        let mut command = self.command.duplicate();
        command.apply_mappings(&mappings);
        command
    }
}

} // verus!
