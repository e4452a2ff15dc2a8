//! Filters: patterns that an item must match, and patterns that it must
//! not.

use vstd::prelude::*;

use crate::pattern::{any_accepts, any_match, sources, Pattern};
use crate::text::slice_views;

verus! {

/// Whether an item passes: none of `excludes` matches it and one of
/// `includes` does.
pub open spec fn passes(includes: Seq<Seq<char>>, excludes: Seq<Seq<char>>, item: Seq<char>) -> bool {
    !any_accepts(excludes, item) && any_accepts(includes, item)
}

/// The items that pass, in their order.
pub open spec fn passing(includes: Seq<Seq<char>>, excludes: Seq<Seq<char>>, items: Seq<Seq<char>>)
    -> Seq<Seq<char>>
    decreases items.len(),
{
    if items.len() == 0 {
        Seq::empty()
    } else if passes(includes, excludes, items.last()) {
        passing(includes, excludes, items.drop_last()).push(items.last())
    } else {
        passing(includes, excludes, items.drop_last())
    }
}

/// Patterns to include and patterns to exclude.
#[derive(Debug)]
pub struct Filters {
    pub includes: Vec<Pattern>,
    pub excludes: Vec<Pattern>,
}

impl Filters {
    /// The items that no pattern of `excludes` matches and some pattern of
    /// `includes` does, in their order.
    pub fn filter<'a>(&self, items: &'a [&'a str]) -> (kept: Vec<&'a str>)
        ensures
            slice_views(kept@) == passing(
                sources(self.includes@),
                sources(self.excludes@),
                slice_views(items@),
            ),
    {
        let ghost all = slice_views(items@);
        let mut kept: Vec<&'a str> = Vec::new();
        let mut i: usize = 0;
        assert(all.take(0) =~= Seq::<Seq<char>>::empty());
        assert(slice_views(kept@) =~= Seq::<Seq<char>>::empty());
        while i < items.len()
            invariant
                i <= items.len(),
                all == slice_views(items@),
                slice_views(kept@) == passing(
                    sources(self.includes@),
                    sources(self.excludes@),
                    all.take(i as int),
                ),
            decreases items.len() - i,
        {
            let ghost before = slice_views(kept@);
            proof {
                assert(all.take(i + 1).drop_last() =~= all.take(i as int));
                assert(all.take(i + 1).last() == items@[i as int]@);
            }
            let item = items[i];
            if !any_match(&self.excludes, item) && any_match(&self.includes, item) {
                kept.push(item);
                assert(slice_views(kept@) =~= before.push(item@));
            }
            i += 1;
        }
        assert(all.take(items.len() as int) =~= all);
        kept
    }
}

} // verus!
