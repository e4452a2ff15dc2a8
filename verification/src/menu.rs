//! A paged list of items of which some are selected: the state behind a
//! menu, and what each key does to it.

use std::collections::HashSet;
use vstd::prelude::*;

verus! {

/// The number of items on a page.
pub const PAGE_SIZE: usize = 20;

/// The keys that select, in the order of their numbers.
pub open spec fn option_keys() -> Seq<u8> {
    seq![
        49u8, 50u8, 51u8, 52u8, 53u8, 54u8, 55u8, 56u8, 57u8, 48u8,
        113u8, 119u8, 101u8, 114u8, 116u8, 121u8, 117u8, 105u8, 111u8, 112u8,
        97u8, 115u8, 100u8, 102u8, 103u8, 104u8, 106u8, 107u8, 108u8, 59u8,
        122u8, 120u8, 99u8, 118u8, 98u8, 110u8, 109u8, 44u8, 46u8, 47u8,
    ]
}

/// The number of the key `key`, if it selects.
pub open spec fn option_of(key: u8) -> Option<int> {
    if option_keys().contains(key) {
        Some(option_keys().index_of(key))
    } else {
        None
    }
}

/// The number of the key `key`, if it selects.
pub fn option_number(key: u8) -> (number: Option<usize>)
    ensures
        match number {
            Some(n) => n < 40 && option_keys()[n as int] == key && option_of(key) == Some(n as int),
            None => option_of(key) is None,
        },
{
    let keys: [u8; 40] = [
        49u8, 50u8, 51u8, 52u8, 53u8, 54u8, 55u8, 56u8, 57u8, 48u8,
        113u8, 119u8, 101u8, 114u8, 116u8, 121u8, 117u8, 105u8, 111u8, 112u8,
        97u8, 115u8, 100u8, 102u8, 103u8, 104u8, 106u8, 107u8, 108u8, 59u8,
        122u8, 120u8, 99u8, 118u8, 98u8, 110u8, 109u8, 44u8, 46u8, 47u8,
    ];
    assert(keys@ =~= option_keys());
    let mut i: usize = 0;
    while i < 40
        invariant
            i <= 40,
            keys@ == option_keys(),
            forall|j: int| 0 <= j < i ==> option_keys()[j] != key,
        decreases 40 - i,
    {
        if keys[i] == key {
            proof {
                assert(option_keys().contains(key));
                let found = option_keys().index_of(key);
                assert(option_keys()[found] == key);
                assert(found == i) by {
                    assert(option_keys().no_duplicates()) by {
                        reveal_keys_differ();
                    }
                }
            }
            return Some(i);
        }
        i += 1;
    }
    None
}

/// What a key does to the page and to the selection.
pub open spec fn after_key(
    page: int,
    pages: int,
    selected: Set<usize>,
    key: u8,
) -> (int, Set<usize>) {
    if key == 60u8 {
        (if page > 0 {
            page - 1
        } else {
            page
        }, selected)
    } else if key == 62u8 {
        (if page < pages {
            page + 1
        } else {
            page
        }, selected)
    } else if key == 10u8 || key == 13u8 {
        (page, selected)
    } else {
        match option_of(key) {
            Some(number) => (page, if selected.contains(number as usize) {
                selected.remove(number as usize)
            } else {
                selected.insert(number as usize)
            }),
            None => (page, selected),
        }
    }
}

/// No key stands twice among the keys that select.
proof fn reveal_keys_differ()
    ensures
        option_keys().no_duplicates(),
{
    let keys = option_keys();
    assert(keys.len() == 40);
    assert forall|i: int, j: int| 0 <= i < keys.len() && 0 <= j < keys.len() && i != j implies keys[i]
        != keys[j] by {
        assert(keys[0] == 49 && keys[1] == 50 && keys[2] == 51 && keys[3] == 52 && keys[4] == 53
            && keys[5] == 54 && keys[6] == 55 && keys[7] == 56 && keys[8] == 57 && keys[9] == 48);
        assert(keys[10] == 113 && keys[11] == 119 && keys[12] == 101 && keys[13] == 114
            && keys[14] == 116 && keys[15] == 121 && keys[16] == 117 && keys[17] == 105
            && keys[18] == 111 && keys[19] == 112);
        assert(keys[20] == 97 && keys[21] == 115 && keys[22] == 100 && keys[23] == 102 && keys[24]
            == 103 && keys[25] == 104 && keys[26] == 106 && keys[27] == 107 && keys[28] == 108
            && keys[29] == 59);
        assert(keys[30] == 122 && keys[31] == 120 && keys[32] == 99 && keys[33] == 118 && keys[34]
            == 98 && keys[35] == 110 && keys[36] == 109 && keys[37] == 44 && keys[38] == 46
            && keys[39] == 47);
    }
}

/// The items of a menu, the page that is shown, and the numbers that are
/// selected.
#[derive(Debug)]
pub struct Menu {
    items: Vec<String>,
    page: usize,
    pages: usize,
    page_size: usize,
    selected: HashSet<usize>,
}

impl Menu {
    /// The items.
    pub closed spec fn items(self) -> Seq<String> {
        self.items@
    }

    /// The page that is shown, counted from 0.
    pub closed spec fn page(self) -> int {
        self.page as int
    }

    /// The number of the last page.
    pub closed spec fn pages(self) -> int {
        self.pages as int
    }

    /// The number of items on a page.
    pub closed spec fn page_size(self) -> int {
        self.page_size as int
    }

    /// The numbers that are selected.
    pub closed spec fn selected(self) -> Set<usize> {
        self.selected@
    }

    /// The page that is shown is one of the pages, and the pages are as
    /// many as the items need.
    pub closed spec fn wf(self) -> bool {
        &&& self.page_size == PAGE_SIZE
        &&& self.pages as int == self.items@.len() as int / 20
        &&& self.page <= self.pages
    }

    /// In a well-formed menu a page holds `PAGE_SIZE` items, the last page
    /// is the number of items divided by that, and the page that is shown
    /// is none after it.
    pub proof fn lemma_wf(self)
        requires
            self.wf(),
        ensures
            self.page_size() == PAGE_SIZE,
            self.pages() == self.items().len() as int / (PAGE_SIZE as int),
            0 <= self.page() <= self.pages(),
    {
    }

    /// The menu of `paths`, its first page shown and nothing selected.
    pub fn from(paths: &[String]) -> (menu: Menu)
        ensures
            menu.wf(),
            menu.page_size() == PAGE_SIZE,
            menu.items() == paths@,
            menu.page() == 0,
            menu.pages() == paths.len() / PAGE_SIZE,
            menu.selected() == Set::<usize>::empty(),
    {
        let mut items: Vec<String> = Vec::new();
        let mut i: usize = 0;
        while i < paths.len()
            invariant
                i <= paths.len(),
                items@ == paths@.take(i as int),
            decreases paths.len() - i,
        {
            items.push(paths[i].clone());
            assert(items@ =~= paths@.take(i + 1));
            i += 1;
        }
        assert(paths@.take(paths.len() as int) =~= paths@);
        Menu {
            items,
            page: 0,
            pages: paths.len() / PAGE_SIZE,
            page_size: PAGE_SIZE,
            selected: HashSet::new(),
        }
    }

    /// The items.
    pub fn item_list(&self) -> (items: &Vec<String>)
        ensures
            items@ == self.items(),
    {
        &self.items
    }

    /// The page that is shown, counted from 0.
    pub fn current_page(&self) -> (page: usize)
        ensures
            page == self.page(),
    {
        self.page
    }

    /// The number of items on a page.
    pub fn items_per_page(&self) -> (size: usize)
        ensures
            size == self.page_size(),
    {
        self.page_size
    }

    /// The number of the last page.
    pub fn last_page(&self) -> (page: usize)
        ensures
            page == self.pages(),
    {
        self.pages
    }

    /// The indices of the items on the page that is shown: from the first
    /// up to, but without, the second.
    pub fn get_page_range(&self) -> (range: (usize, usize))
        requires
            self.wf(),
        ensures
            range.0 == self.page() * PAGE_SIZE,
            range.1 == (if self.page() * PAGE_SIZE + PAGE_SIZE > self.items().len() {
                self.items().len() as int
            } else {
                self.page() * PAGE_SIZE + PAGE_SIZE
            }),
            range.0 <= range.1 <= self.items().len(),
    {
        let n = self.items.len();
        let page = self.page;
        assert(page * 20 <= n) by (nonlinear_arith)
            requires
                page <= n / 20,
        ;
        let start = page * PAGE_SIZE;
        let end = if n - start < PAGE_SIZE {
            n
        } else {
            start + PAGE_SIZE
        };
        (start, end)
    }

    /// Takes a key. `<` shows the page before, `>` the page after, where
    /// there is one; a key that selects turns the selection of its number
    /// around; every other key changes nothing. The answer is whether the
    /// menu goes on: it ends with line feed or carriage return.
    pub fn handle_input(&mut self, key: u8) -> (more: bool)
        requires
            old(self).wf(),
        ensures
            final(self).wf(),
            final(self).items() == old(self).items(),
            final(self).page_size() == old(self).page_size(),
            final(self).pages() == old(self).pages(),
            more == (key != 10u8 && key != 13u8),
            (final(self).page(), final(self).selected()) == after_key(
                old(self).page(),
                old(self).pages(),
                old(self).selected(),
                key,
            ),
    {
        broadcast use vstd::std_specs::hash::group_hash_axioms;

        if key == 60u8 {
            if self.page > 0 {
                self.page -= 1;
            }
        } else if key == 62u8 {
            if self.page < self.pages {
                self.page += 1;
            }
        } else if key == 10u8 || key == 13u8 {
            return false;
        } else {
            match option_number(key) {
                Some(number) => {
                    if self.selected.contains(&number) {
                        self.selected.remove(&number);
                    } else {
                        self.selected.insert(number);
                    }
                },
                None => {},
            }
        }
        true
    }

    /// The numbers that are selected.
    pub fn get_selected(&self) -> (selected: &HashSet<usize>)
        ensures
            selected@ == self.selected(),
    {
        &self.selected
    }
}

} // verus!
