//! What the main section shows for the location the store is at: the
//! threads of the index, newest bump first, or the pages of one thread
//! around the page navigated to.

use crate::location::FeedID;
use crate::store::{State, StateView};
use crate::thread::{PostSet, Props};
use vstd::prelude::*;

verus! {

/// What the main section shows.
#[derive(Clone, Eq, PartialEq, Debug)]
pub enum Listing {
    /// The catalog
    Catalog,
    /// The threads with these IDs, in this order, each by its last posts
    Index(Vec<u64>),
    /// One thread, by pages
    Thread(Props),
    /// Nothing yet: the page to show is still counted from the end
    Nothing,
}

/// Whether the thread `a` stands before the thread `b` in the index: it was
/// bumped later, or at the same time and has the smaller ID.
pub open spec fn newer(store: StateView, a: u64, b: u64) -> bool {
    store.threads[a].bumped_on > store.threads[b].bumped_on || (store.threads[a].bumped_on
        == store.threads[b].bumped_on && a < b)
}

/// Whether each thread stands before those behind it.
pub open spec fn newest_first(store: StateView, ids: Seq<u64>) -> bool {
    forall|i: int, j: int| 0 <= i < j < ids.len() ==> newer(store, ids[i], ids[j])
}

/// The pages of a thread that are shown around `page`: the page before it
/// where there is one, the page itself, and the page behind it where the
/// thread has one.
pub open spec fn pages_around(page: u32, page_count: u32) -> Seq<u32> {
    let before = if page > 0 {
        seq![(page - 1) as u32]
    } else {
        Seq::<u32>::empty()
    };
    let behind = if page + 1 < page_count {
        seq![(page + 1) as u32]
    } else {
        Seq::<u32>::empty()
    };
    before + seq![page] + behind
}

/// Returns the pages of a thread that are shown around `page`.
pub fn neighbours(page: u32, page_count: u32) -> (pages: Vec<u32>)
    ensures
        pages@ == pages_around(page, page_count),
{
    let mut pages: Vec<u32> = Vec::new();
    if page > 0 {
        pages.push(page - 1);
    }
    pages.push(page);
    if page < page_count && page + 1 < page_count {
        pages.push(page + 1);
    }
    assert(pages@ =~= pages_around(page, page_count));
    pages
}

/// Returns whether the registered thread `a` stands before the registered
/// thread `b` in the index.
fn stands_before(state: &State, a: u64, b: u64) -> (before: bool)
    requires
        state@.threads.contains_key(a),
        state@.threads.contains_key(b),
    ensures
        before == newer(state@, a, b),
{
    match (state.thread(a), state.thread(b)) {
        (Some(first), Some(second)) => first.bumped_on > second.bumped_on || (first.bumped_on
            == second.bumped_on && a < b),
        _ => false,
    }
}

/// The IDs of the registered threads in the order of the index: by the time
/// of their last bump, latest first, and by ID among threads bumped at the
/// same time.
pub fn threads_by_bump(state: &State) -> (ids: Vec<u64>)
    ensures
        ids@.no_duplicates(),
        ids@.to_set() == state@.threads.dom(),
        newest_first(state@, ids@),
{
    let all = state.thread_ids();
    let mut ids: Vec<u64> = Vec::new();
    let mut n: usize = 0;
    assert(ids@.to_set() =~= all@.take(0).to_set());
    while n < all.len()
        invariant
            n <= all.len(),
            all@.no_duplicates(),
            all@.to_set() == state@.threads.dom(),
            ids@.to_set() == all@.take(n as int).to_set(),
            newest_first(state@, ids@),
        decreases all.len() - n,
    {
        let id = all[n];
        proof {
            assert(all@.to_set().contains(id));
            assert forall|k: int| 0 <= k < ids@.len() implies state@.threads.contains_key(
                #[trigger] ids@[k],
            ) && ids@[k] != id by {
                assert(ids@.to_set().contains(ids@[k]));
                let m = choose|m: int|
                    0 <= m < all@.take(n as int).len() && all@.take(n as int)[m] == ids@[k];
                assert(all@[m] == ids@[k]);
                assert(all@.to_set().contains(ids@[k]));
            }
        }
        let mut i: usize = 0;
        while i < ids.len() && stands_before(state, ids[i], id)
            invariant
                i <= ids.len(),
                state@.threads.contains_key(id),
                forall|k: int| 0 <= k < ids@.len() ==> state@.threads.contains_key(#[trigger] ids@[k]),
                forall|k: int| 0 <= k < i ==> newer(state@, ids@[k], id),
            decreases ids.len() - i,
        {
            i = i + 1;
        }
        let ghost before = ids@;
        ids.insert(i, id);
        proof {
            let after = ids@;
            assert forall|a: int, b: int| 0 <= a < b < after.len() implies newer(
                state@,
                after[a],
                after[b],
            ) by {
                if b < i {
                    assert(newer(state@, before[a], before[b]));
                } else if b == i {
                } else if a < i {
                    assert(newer(state@, before[a], before[b - 1]));
                } else if a == i {
                    assert(!newer(state@, before[i as int], id));
                    assert(before[i as int] != id);
                    if (i as int) < b - 1 {
                        assert(newer(state@, before[i as int], before[b - 1]));
                    }
                } else {
                    assert(newer(state@, before[a - 1], before[b - 1]));
                }
            }
            let now = all@.take(n as int);
            let next = all@.take(n + 1);
            assert forall|other: u64|
                after.to_set().contains(other) <==> next.to_set().contains(other) by {
                if after.to_set().contains(other) {
                    let k = choose|k: int| 0 <= k < after.len() && after[k] == other;
                    if k < i {
                        assert(before[k] == other);
                        assert(before.to_set().contains(other));
                    } else if k > i {
                        assert(before[k - 1] == other);
                        assert(before.to_set().contains(other));
                    } else {
                        assert(next[n as int] == other);
                    }
                    if before.to_set().contains(other) {
                        let m = choose|m: int| 0 <= m < now.len() && now[m] == other;
                        assert(next[m] == other);
                    }
                }
                if next.to_set().contains(other) {
                    let m = choose|m: int| 0 <= m < next.len() && next[m] == other;
                    if m < n {
                        assert(now[m] == other);
                        assert(now.to_set().contains(other));
                        let k = choose|k: int| 0 <= k < before.len() && before[k] == other;
                        if k < i {
                            assert(after[k] == other);
                        } else {
                            assert(after[k + 1] == other);
                        }
                    } else {
                        assert(after[i as int] == other);
                    }
                }
            }
            assert(after.to_set() =~= next.to_set());
        }
        n = n + 1;
    }
    proof {
        assert(all@.take(all@.len() as int) =~= all@);
        assert forall|a: int, b: int|
            0 <= a < ids@.len() && 0 <= b < ids@.len() && a != b implies ids@[a] != ids@[b] by {
            if a < b {
                assert(newer(state@, ids@[a], ids@[b]));
            } else {
                assert(newer(state@, ids@[b], ids@[a]));
            }
        }
    }
    ids
}

/// Returns what the main section shows for the location the store is at.
///
/// For the catalog, the catalog. For the index, every registered thread,
/// newest bump first. For a page of a thread, that page and its neighbours;
/// nothing while the page is still counted from the end.
pub fn listing(state: &State) -> (shown: Listing)
    ensures
        match state@.location.feed {
            FeedID::Catalog => shown == Listing::Catalog,
            FeedID::Index => {
                &&& shown is Index
                &&& shown->Index_0@.no_duplicates()
                &&& shown->Index_0@.to_set() == state@.threads.dom()
                &&& newest_first(state@, shown->Index_0@)
            },
            FeedID::Thread { id, page } => if page < 0 {
                shown == Listing::Nothing
            } else {
                &&& shown is Thread
                &&& shown->Thread_0.id == id
                &&& shown->Thread_0.pages is Pages
                &&& shown->Thread_0.pages->Pages_0@ == pages_around(
                    page as u32,
                    state@.page_count(id),
                )
            },
        },
{
    match state.location().feed {
        FeedID::Catalog => Listing::Catalog,
        FeedID::Index => Listing::Index(threads_by_bump(state)),
        FeedID::Thread { id, page } => {
            if page < 0 {
                Listing::Nothing
            } else {
                let pages = neighbours(page as u32, state.page_count(id));
                Listing::Thread(Props { id, pages: PostSet::Pages(pages) })
            }
        },
    }
}

} // verus!
