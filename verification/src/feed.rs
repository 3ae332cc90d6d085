//! The state of synchronisation to a feed: which pages are awaited, which
//! have come, and how page numbers that count from the end are resolved.

use crate::location::{FeedID, Location};
use crate::store::{Post, ThreadMeta};
use std::collections::HashMap;
use vstd::prelude::*;
use vstd::std_specs::hash::*;
use vstd::std_specs::iter::IteratorSpec;

verus! {

broadcast use vstd::std_specs::hash::group_hash_axioms;

/// The pages of a feed that is being received, by number: the posts of a
/// page that has come, nothing yet for one that is only asked for. A
/// negative number only marks a page as asked for.
pub type PageTable = Map<i32, Option<Vec<Post>>>;

/// Whether every page with a number that is not negative has its posts.
pub open spec fn complete(pages: PageTable) -> bool {
    forall|page: i32| #[trigger] pages.contains_key(page) && page >= 0 ==> pages[page] is Some
}

/// The pages of a feed that has been received in full: every page of the
/// table with a number that is not negative, each marked as fetched.
pub open spec fn fetched(pages: PageTable) -> Map<u32, bool> {
    Map::new(|page: u32| page <= i32::MAX && pages.contains_key(page as i32), |page: u32| true)
}

/// Whether each number is smaller than those behind it.
pub open spec fn rising(numbers: Seq<i32>) -> bool {
    forall|i: int, j: int| 0 <= i < j < numbers.len() ==> numbers[i] < numbers[j]
}

/// The page that a requested page stands for in a thread of `page_count`
/// pages. A page that is not negative stands for itself. A negative one
/// counts from behind the last page, `-1` being the last: it stands for
/// `page_count + page`, also where that is still negative, which no thread
/// has, and where it exceeds the range of page numbers it stands for the
/// largest of them.
pub open spec fn resolve_page(page: i32, page_count: u32) -> i32 {
    if page >= 0 {
        page
    } else if page + page_count > i32::MAX {
        i32::MAX
    } else {
        (page + page_count) as i32
    }
}

/// The number under which a page that has come is also recorded, counted
/// from behind the last page: `page - page_count`, and the smallest number
/// there is where that is below the range.
pub open spec fn mirror_page(page: i32, page_count: u32) -> i32 {
    if page - page_count < i32::MIN {
        i32::MIN
    } else {
        (page - page_count) as i32
    }
}

/// Returns the page that a requested page stands for.
pub fn resolve(page: i32, page_count: u32) -> (resolved: i32)
    ensures
        resolved == resolve_page(page, page_count),
{
    if page >= 0 {
        page
    } else {
        let sum: i64 = page as i64 + page_count as i64;
        if sum > 2147483647 {
            2147483647
        } else {
            sum as i32
        }
    }
}

/// Returns the number, counted from the end, under which a page that has
/// come is also recorded.
pub fn mirror(page: i32, page_count: u32) -> (mirrored: i32)
    ensures
        mirrored == mirror_page(page, page_count),
{
    let difference: i64 = page as i64 - page_count as i64;
    if difference < -2147483648 {
        -2147483648
    } else {
        difference as i32
    }
}

/// Puts `number` in its place among rising numbers.
fn insert_rising(numbers: &mut Vec<i32>, number: i32)
    requires
        rising(old(numbers)@),
        !old(numbers)@.contains(number),
    ensures
        rising(final(numbers)@),
        final(numbers)@.to_set() == old(numbers)@.to_set().insert(number),
{
    let mut i: usize = 0;
    while i < numbers.len() && numbers[i] < number
        invariant
            i <= numbers.len(),
            numbers@ == old(numbers)@,
            forall|k: int| 0 <= k < i ==> numbers@[k] < number,
        decreases numbers.len() - i,
    {
        i = i + 1;
    }
    let ghost before = numbers@;
    numbers.insert(i, number);
    proof {
        let after = numbers@;
        assert forall|a: int, b: int| 0 <= a < b < after.len() implies after[a] < after[b] by {
            if b < i {
                assert(before[a] < before[b]);
            } else if b == i {
            } else if a < i {
                assert(before[a] < before[b - 1]);
            } else if a == i {
                assert(before.contains(before[i as int]));
                if (i as int) < b - 1 {
                    assert(before[i as int] < before[b - 1]);
                }
            } else {
                assert(before[a - 1] < before[b - 1]);
            }
        }
        assert forall|other: i32|
            after.to_set().contains(other) <==> before.to_set().insert(number).contains(other) by {
            if after.to_set().contains(other) {
                let k = choose|k: int| 0 <= k < after.len() && after[k] == other;
                if k < i {
                    assert(before[k] == other);
                } else if k > i {
                    assert(before[k - 1] == other);
                }
            }
            if before.to_set().contains(other) {
                let k = choose|k: int| 0 <= k < before.len() && before[k] == other;
                if k < i {
                    assert(after[k] == other);
                } else {
                    assert(after[k + 1] == other);
                }
            }
            if other == number {
                assert(after[i as int] == other);
            }
        }
        assert(after.to_set() =~= before.to_set().insert(number));
    }
}

/// The numbers of the pages of the table, rising.
pub fn page_numbers(pages: &HashMap<i32, Option<Vec<Post>>>) -> (numbers: Vec<i32>)
    ensures
        rising(numbers@),
        numbers@.to_set() == pages@.dom(),
{
    let mut numbers: Vec<i32> = Vec::new();
    let ghost all = pages.keys().remaining();
    assert(numbers@.to_set() =~= all.unref().take(0).to_set());
    for number in iter: pages.keys()
        invariant
            iter.seq() == all,
            all.no_duplicates(),
            rising(numbers@),
            numbers@.to_set() == all.unref().take(iter.index()).to_set(),
    {
        let ghost done = iter.index();
        proof {
            let now = all.unref().take(done);
            let next = all.unref().take(done + 1);
            if numbers@.contains(*number) {
                assert(now.to_set().contains(*number));
                let k = choose|k: int| 0 <= k < now.len() && now[k] == *number;
                assert(*all[k] == *all[done]);
                assert(all[k] == all[done]);
            }
            assert forall|other: i32|
                next.to_set().contains(other) <==> now.to_set().insert(*number).contains(other) by {
                if now.to_set().contains(other) {
                    let k = choose|k: int| 0 <= k < now.len() && now[k] == other;
                    assert(next[k] == other);
                }
                if other == *number {
                    assert(next[done] == other);
                }
                if next.to_set().contains(other) {
                    let k = choose|k: int| 0 <= k < next.len() && next[k] == other;
                    if k < done {
                        assert(now[k] == other);
                    }
                }
            }
            assert(next.to_set() =~= now.to_set().insert(*number));
        }
        insert_rising(&mut numbers, *number);
    }
    proof {
        assert(all.unref().take(all.len() as int) =~= all.unref());
    }
    numbers
}

/// Whether every page with a number that is not negative has its posts.
pub fn is_complete(pages: &HashMap<i32, Option<Vec<Post>>>) -> (done: bool)
    ensures
        done == complete(pages@),
{
    let numbers = page_numbers(pages);
    let mut i: usize = 0;
    while i < numbers.len()
        invariant
            i <= numbers.len(),
            numbers@.to_set() == pages@.dom(),
            forall|j: int|
                0 <= j < i && (#[trigger] numbers@[j]) >= 0 ==> pages@[numbers@[j]] is Some,
        decreases numbers.len() - i,
    {
        let number = numbers[i];
        assert(numbers@.to_set().contains(number));
        if number >= 0 {
            match pages.get(&number) {
                Some(Some(_)) => {},
                _ => {
                    return false;
                },
            }
        }
        i = i + 1;
    }
    proof {
        assert forall|page: i32| #[trigger] pages@.contains_key(page) && page >= 0 implies pages@[page]
            is Some by {
            assert(numbers@.to_set().contains(page));
            let j = choose|j: int| 0 <= j < numbers@.len() && numbers@[j] == page;
            assert(numbers@[j] >= 0);
        }
    }
    true
}

/// The pages of a feed that has been received in full, each marked as
/// fetched.
pub fn fetched_pages(pages: &HashMap<i32, Option<Vec<Post>>>) -> (map: HashMap<u32, bool>)
    ensures
        map@ == fetched(pages@),
{
    let numbers = page_numbers(pages);
    let mut map: HashMap<u32, bool> = HashMap::new();
    let mut i: usize = 0;
    while i < numbers.len()
        invariant
            i <= numbers.len(),
            forall|page: u32| #[trigger]
                map@.contains_key(page) <==> page <= i32::MAX && numbers@.take(i as int).contains(
                    page as i32,
                ),
            forall|page: u32| #[trigger] map@.contains_key(page) ==> map@[page],
        decreases numbers.len() - i,
    {
        let number = numbers[i];
        proof {
            let now = numbers@.take(i as int);
            let next = numbers@.take(i + 1);
            assert forall|other: i32| next.contains(other) <==> now.contains(other) || other
                == number by {
                if now.contains(other) {
                    let k = choose|k: int| 0 <= k < now.len() && now[k] == other;
                    assert(next[k] == other);
                }
                if other == number {
                    assert(next[i as int] == other);
                }
                if next.contains(other) {
                    let k = choose|k: int| 0 <= k < next.len() && next[k] == other;
                    if k < i {
                        assert(now[k] == other);
                    }
                }
            }
        }
        if number >= 0 {
            map.insert(number as u32, true);
        }
        i = i + 1;
    }
    proof {
        assert(numbers@.take(numbers@.len() as int) =~= numbers@);
        assert forall|page: u32| map@.contains_key(page) <==> fetched(pages@).contains_key(page) by {
            if page <= i32::MAX {
                assert(numbers@.contains(page as i32) <==> numbers@.to_set().contains(page as i32));
            }
        }
        assert(map@ =~= fetched(pages@));
    }
    map
}

/// Feed synchronisation state.
#[derive(Debug)]
pub enum FeedSyncState {
    /// No feed requested yet
    NotRequested,
    /// Feed requested but not all requested data received
    Receiving {
        /// Location being synced to
        loc: Location,
        /// Thread metadata received from the server
        thread: Option<ThreadMeta>,
        /// Thread pages that are asked for or have come
        pages: HashMap<i32, Option<Vec<Post>>>,
        /// Flags passed with the request
        flags: u8,
    },
    /// Fully synced to the server's feed
    Synced {
        /// Feed ID
        feed: FeedID,
        /// Thread pages that came with the feed, marked `true`, or were
        /// asked for since, marked `false`
        pages: HashMap<u32, bool>,
    },
}

/// Feed synchronisation state, as plain values.
pub enum SyncView {
    NotRequested,
    Receiving { loc: Location, thread: Option<ThreadMeta>, pages: PageTable, flags: u8 },
    Synced { feed: FeedID, pages: Map<u32, bool> },
}

impl View for FeedSyncState {
    type V = SyncView;

    open spec fn view(&self) -> SyncView {
        match *self {
            FeedSyncState::NotRequested => SyncView::NotRequested,
            FeedSyncState::Receiving { loc, thread, pages, flags } => SyncView::Receiving {
                loc,
                thread,
                pages: pages@,
                flags,
            },
            FeedSyncState::Synced { feed, pages } => SyncView::Synced { feed, pages: pages@ },
        }
    }
}

impl SyncView {
    /// Whether this is the state of a feed with the code `code`, being
    /// received or synced.
    pub open spec fn follows(self, code: u64) -> bool {
        match self {
            SyncView::NotRequested => false,
            SyncView::Receiving { loc, .. } => loc.feed.code() == code,
            SyncView::Synced { feed, .. } => feed.code() == code,
        }
    }
}

} // verus!
