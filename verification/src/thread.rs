//! Which posts a thread shows: the opening post and the five most recent
//! replies, or everything on chosen pages together with whatever is pinned.

use crate::change::Change;
use crate::store::{page_key, State, StateView};
use vstd::prelude::*;
use vstd::std_specs::hash::*;
use vstd::std_specs::iter::IteratorSpec;

verus! {

broadcast use vstd::std_specs::hash::group_hash_axioms;

/// Central thread container.
#[derive(Default, Debug, Clone, Copy, PartialEq, Eq, Structural)]
pub struct Inner {}

/// Posts to display in a thread.
#[derive(Clone, Eq, PartialEq, Debug)]
pub enum PostSet {
    /// Display OP + last 5 posts
    Last5Posts,
    /// Display OP + selected pages
    Pages(Vec<u32>),
}

impl Default for PostSet {
    fn default() -> (set: Self)
        ensures
            set == PostSet::Last5Posts,
    {
        PostSet::Last5Posts
    }
}

/// What a thread container is asked to show.
#[derive(Clone, Eq, PartialEq, Debug)]
pub struct Props {
    /// Thread ID, which is the ID of its opening post too
    pub id: u64,
    pub pages: PostSet,
}

/// Whether each ID is smaller than those behind it.
pub open spec fn ascending(ids: Seq<u64>) -> bool {
    forall|i: int, j: int| 0 <= i < j < ids.len() ==> ids[i] < ids[j]
}

/// The IDs of `all` that are greater than `id`.
pub open spec fn above(all: Set<u64>, id: u64) -> Set<u64> {
    Set::new(|other: u64| all.contains(other) && other > id)
}

/// The `n` greatest IDs of `all`: those with fewer than `n` greater ones.
pub open spec fn greatest(all: Set<u64>, n: nat) -> Set<u64> {
    Set::new(|id: u64| all.contains(id) && above(all, id).len() < n)
}

/// The IDs of the posts registered on a page of a thread.
pub open spec fn page_ids(store: StateView, thread: u64, page: u32) -> Set<u64> {
    let key = page_key(thread, page);
    if store.posts_by_thread_page.contains_key(key) {
        store.posts_by_thread_page[key]
    } else {
        Set::empty()
    }
}

/// The IDs of the posts registered on a page of a thread, without the
/// opening post if `exclude_op` is set.
pub open spec fn page_replies(store: StateView, thread: u64, page: u32, exclude_op: bool) -> Set<
    u64,
> {
    if exclude_op {
        page_ids(store, thread, page).remove(thread)
    } else {
        page_ids(store, thread, page)
    }
}

/// The number of pages that a thread is taken to have where its most recent
/// replies are looked for: one for a thread that is not registered.
pub open spec fn pages_known(store: StateView, thread: u64) -> u32 {
    if store.threads.contains_key(thread) {
        store.threads[thread].page_count
    } else {
        1
    }
}

/// The replies among which the most recent are looked for: those of the
/// last page and, if these are fewer than five, those of the page before.
pub open spec fn recent_replies(store: StateView, thread: u64) -> Set<u64> {
    let count = pages_known(store, thread);
    if count == 0 {
        Set::empty()
    } else {
        let last = page_replies(store, thread, (count - 1) as u32, true);
        if last.len() < 5 && count > 1 {
            last.union(page_replies(store, thread, (count - 2) as u32, true))
        } else {
            last
        }
    }
}

/// The IDs of the posts registered on any of `pages` of a thread.
pub open spec fn on_pages(store: StateView, thread: u64, pages: Seq<u32>) -> Set<u64> {
    Set::new(
        |id: u64|
            exists|i: int|
                0 <= i < pages.len() && page_ids(store, thread, #[trigger] pages[i]).contains(id),
    )
}

/// The IDs of the pinned posts, the thread's opening post left out.
pub open spec fn pinned_replies(store: StateView, thread: u64) -> Set<u64> {
    store.pinned_posts.dom().remove(thread)
}

/// Ascending IDs are all different.
pub proof fn lemma_ascending_distinct(ids: Seq<u64>)
    requires
        ascending(ids),
    ensures
        ids.no_duplicates(),
        ids.len() == ids.to_set().len(),
{
    assert forall|i: int, j: int| 0 <= i < ids.len() && 0 <= j < ids.len() && i != j implies ids[i]
        != ids[j] by {
        if i < j {
            assert(ids[i] < ids[j]);
        } else {
            assert(ids[j] < ids[i]);
        }
    }
    ids.unique_seq_to_set();
}

/// Of ascending IDs, the `n` greatest are the last `n`, or all where there
/// are no more than `n`.
pub proof fn lemma_greatest_are_last(ids: Seq<u64>, n: nat)
    requires
        ascending(ids),
    ensures
        greatest(ids.to_set(), n) == ids.skip(
            if ids.len() > n {
                ids.len() - n
            } else {
                0
            },
        ).to_set(),
{
    let all = ids.to_set();
    let from = if ids.len() > n {
        ids.len() - n
    } else {
        0
    };
    let tail = ids.skip(from);
    assert forall|k: int| 0 <= k < ids.len() implies above(all, #[trigger] ids[k]).len() == ids.len()
        - 1 - k by {
        let rest = ids.skip(k + 1);
        assert forall|i: int, j: int| 0 <= i < j < rest.len() implies rest[i] < rest[j] by {
            assert(ids[k + 1 + i] < ids[k + 1 + j]);
        }
        lemma_ascending_distinct(rest);
        assert forall|other: u64| above(all, ids[k]).contains(other) <==> rest.to_set().contains(
            other,
        ) by {
            if above(all, ids[k]).contains(other) {
                let m = choose|m: int| 0 <= m < ids.len() && ids[m] == other;
                if m <= k {
                    if m < k {
                        assert(ids[m] < ids[k]);
                    }
                } else {
                    assert(rest[m - k - 1] == other);
                }
            }
            if rest.to_set().contains(other) {
                let m = choose|m: int| 0 <= m < rest.len() && rest[m] == other;
                assert(ids[k + 1 + m] == other);
                assert(ids[k] < ids[k + 1 + m]);
            }
        }
        assert(above(all, ids[k]) =~= rest.to_set());
    }
    assert forall|id: u64| greatest(all, n).contains(id) <==> tail.to_set().contains(id) by {
        if greatest(all, n).contains(id) {
            let k = choose|k: int| 0 <= k < ids.len() && ids[k] == id;
            assert(above(all, ids[k]).len() == ids.len() - 1 - k);
            assert(tail[k - from] == id);
        }
        if tail.to_set().contains(id) {
            let m = choose|m: int| 0 <= m < tail.len() && tail[m] == id;
            assert(ids[from + m] == id);
            assert(above(all, ids[from + m]).len() == ids.len() - 1 - (from + m));
        }
    }
    assert(greatest(all, n) =~= tail.to_set());
}

/// Puts `id` in its place among ascending IDs, unless it is there already.
pub fn insert_ascending(ids: &mut Vec<u64>, id: u64)
    requires
        ascending(old(ids)@),
    ensures
        ascending(final(ids)@),
        final(ids)@.to_set() == old(ids)@.to_set().insert(id),
{
    let mut i: usize = 0;
    while i < ids.len() && ids[i] < id
        invariant
            i <= ids.len(),
            ids@ == old(ids)@,
            forall|k: int| 0 <= k < i ==> ids@[k] < id,
        decreases ids.len() - i,
    {
        i = i + 1;
    }
    let ghost before = ids@;
    if i < ids.len() && ids[i] == id {
        assert(before.to_set() =~= before.to_set().insert(id));
        return;
    }
    ids.insert(i, id);
    proof {
        let after = ids@;
        assert forall|a: int, b: int| 0 <= a < b < after.len() implies after[a] < after[b] by {
            if b < i {
                assert(before[a] < before[b]);
            } else if b == i {
            } else if a < i {
                assert(before[a] < before[b - 1]);
            } else if a == i {
                assert(before[i as int] <= before[b - 1]) by {
                    if (i as int) < b - 1 {
                        assert(before[i as int] < before[b - 1]);
                    }
                }
            } else {
                assert(before[a - 1] < before[b - 1]);
            }
        }
        assert forall|other: u64|
            after.to_set().contains(other) <==> before.to_set().insert(id).contains(other) by {
            if after.to_set().contains(other) {
                let k = choose|k: int| 0 <= k < after.len() && after[k] == other;
                if k < i {
                    assert(before[k] == other);
                } else if k > i {
                    assert(before[k - 1] == other);
                }
            }
            if before.to_set().contains(other) {
                let k = choose|k: int| 0 <= k < before.len() && before[k] == other;
                if k < i {
                    assert(after[k] == other);
                } else {
                    assert(after[k + 1] == other);
                }
            }
            if other == id {
                assert(after[i as int] == other);
            }
        }
        assert(after.to_set() =~= before.to_set().insert(id));
    }
}

/// Whether `id` is among the first `n` of `all` and is to be read.
spec fn taken(all: Seq<&u64>, n: int, id: u64, exclude_op: bool, op: u64) -> bool {
    !(exclude_op && id == op) && exists|k: int| 0 <= k < n && *(#[trigger] all[k]) == id
}

/// Whether `id` stands in `ids` at or behind the place `from`.
spec fn placed(ids: Seq<u64>, from: int, id: u64) -> bool {
    exists|a: int| from <= a < ids.len() && #[trigger] ids[a] == id
}

impl Inner {
    /// The topics that a thread container listens to.
    pub fn subscribe_to(props: &Props) -> (topics: Vec<Change>)
        ensures
            topics@ == seq![Change::Thread(props.id)],
    {
        let mut topics: Vec<Change> = Vec::new();
        topics.push(Change::Thread(props.id));
        assert(topics@ =~= seq![Change::Thread(props.id)]);
        topics
    }

    /// Reads the post IDs of a page into `dst`, behind what it holds: each ID
    /// of the page once, the opening post left out if `exclude_op` is set.
    pub fn read_page_posts(
        &self,
        state: &State,
        props: &Props,
        dst: &mut Vec<u64>,
        page: u32,
        exclude_op: bool,
    )
        ensures
            old(dst)@.is_prefix_of(final(dst)@),
            final(dst)@.skip(old(dst)@.len() as int).no_duplicates(),
            final(dst)@.skip(old(dst)@.len() as int).to_set() == page_replies(
                state@,
                props.id,
                page,
                exclude_op,
            ),
    {
        let ghost before = dst@;
        let ghost wanted = page_replies(state@, props.id, page, exclude_op);
        match state.page_posts(props.id, page) {
            Some(posts) => {
                let ghost all = posts.iter().remaining();
                for id in iter: posts.iter()
                    invariant
                        iter.seq() == all,
                        before.is_prefix_of(dst@),
                        forall|a: int|
                            before.len() <= a < dst@.len() ==> taken(
                                all,
                                iter.index(),
                                #[trigger] dst@[a],
                                exclude_op,
                                props.id,
                            ),
                        forall|a: int, b: int|
                            before.len() <= a < b < dst@.len() ==> dst@[a] != dst@[b],
                        forall|k: int|
                            0 <= k < iter.index() && !(exclude_op && *(#[trigger] all[k])
                                == props.id) ==> placed(dst@, before.len() as int, *all[k]),
                {
                    let ghost prev = dst@;
                    let ghost done = iter.index();
                    assert(*all[done] == *id);
                    if !(exclude_op && *id == props.id) {
                        proof {
                            assert forall|a: int| before.len() <= a < prev.len() implies prev[a]
                                != *id by {
                                assert(taken(all, done, prev[a], exclude_op, props.id));
                                let k = choose|k: int|
                                    0 <= k < done && *(#[trigger] all[k]) == prev[a];
                                if prev[a] == *id {
                                    assert(all[k] == all[done]);
                                }
                            }
                        }
                        dst.push(*id);
                    }
                    proof {
                        assert forall|a: int| before.len() <= a < dst@.len() implies taken(
                            all,
                            done + 1,
                            #[trigger] dst@[a],
                            exclude_op,
                            props.id,
                        ) by {
                            if a < prev.len() {
                                assert(taken(all, done, prev[a], exclude_op, props.id));
                                let k = choose|k: int|
                                    0 <= k < done && *(#[trigger] all[k]) == prev[a];
                                assert(0 <= k < done + 1 && *all[k] == dst@[a]);
                            } else {
                                assert(*all[done] == dst@[a]);
                            }
                        }
                        assert forall|k: int|
                            0 <= k < done + 1 && !(exclude_op && *(#[trigger] all[k])
                                == props.id) implies placed(
                            dst@,
                            before.len() as int,
                            *all[k],
                        ) by {
                            if k < done {
                                assert(placed(prev, before.len() as int, *all[k]));
                                let a = choose|a: int|
                                    before.len() <= a < prev.len() && #[trigger] prev[a]
                                        == *all[k];
                                assert(dst@[a] == *all[k]);
                            } else {
                                assert(dst@[prev.len() as int] == *all[k]);
                            }
                        }
                    }
                }
                proof {
                    let added = dst@.skip(before.len() as int);
                    assert(all.unref().to_set() == posts@);
                    assert forall|a: int, b: int|
                        0 <= a < added.len() && 0 <= b < added.len() && a != b implies added[a]
                        != added[b] by {
                        if a < b {
                            assert(dst@[before.len() + a] != dst@[before.len() + b]);
                        } else {
                            assert(dst@[before.len() + b] != dst@[before.len() + a]);
                        }
                    }
                    assert forall|id: u64| added.to_set().contains(id) <==> wanted.contains(id) by {
                        if added.to_set().contains(id) {
                            let a = choose|a: int| 0 <= a < added.len() && added[a] == id;
                            assert(dst@[before.len() + a] == id);
                            assert(taken(all, all.len() as int, id, exclude_op, props.id));
                            let k = choose|k: int|
                                0 <= k < all.len() && *(#[trigger] all[k]) == id;
                            assert(all.unref()[k] == id);
                            assert(all.unref().to_set().contains(id));
                        }
                        if wanted.contains(id) {
                            assert(all.unref().to_set().contains(id));
                            let k = choose|k: int|
                                0 <= k < all.unref().len() && all.unref()[k] == id;
                            assert(*all[k] == id);
                            assert(placed(dst@, before.len() as int, *all[k]));
                            let a = choose|a: int|
                                before.len() <= a < dst@.len() && #[trigger] dst@[a] == id;
                            assert(added[a - before.len()] == id);
                        }
                    }
                    assert(added.to_set() =~= wanted);
                }
            },
            None => {
                assert(dst@.skip(before.len() as int).to_set() =~= wanted);
            },
        }
    }

    /// The IDs of the posts to show, in the order in which they are shown.
    ///
    /// Of a thread shown by its last posts: the opening post, then the five
    /// greatest IDs among its recent replies, ascending. Of a thread shown
    /// by pages: the posts of those pages and the pinned posts of any page
    /// but the opening post, ascending, each once.
    pub fn shown_posts(&self, state: &State, props: &Props) -> (ids: Vec<u64>)
        ensures
            match props.pages {
                PostSet::Last5Posts => {
                    &&& ids@.len() > 0
                    &&& ids@[0] == props.id
                    &&& ascending(ids@.skip(1))
                    &&& ids@.skip(1).to_set() == greatest(recent_replies(state@, props.id), 5)
                },
                PostSet::Pages(pages) => {
                    &&& ascending(ids@)
                    &&& ids@.to_set() == on_pages(state@, props.id, pages@).union(
                        pinned_replies(state@, props.id),
                    )
                },
            },
    {
        match &props.pages {
            PostSet::Last5Posts => {
                let mut read: Vec<u64> = Vec::new();
                let page_count = match state.thread(props.id) {
                    Some(meta) => meta.page_count,
                    None => 1,
                };
                assert(read@.to_set() =~= Set::<u64>::empty());
                if page_count > 0 {
                    self.read_page_posts(state, props, &mut read, page_count - 1, true);
                    let ghost last = read@;
                    proof {
                        assert(last.skip(0) =~= last);
                        last.unique_seq_to_set();
                    }
                    if read.len() < 5 && page_count > 1 {
                        self.read_page_posts(state, props, &mut read, page_count - 2, true);
                        proof {
                            lemma_parts(read@, last.len() as int);
                            assert(read@.take(last.len() as int) =~= last);
                        }
                    }
                }
                assert(read@.to_set() =~= recent_replies(state@, props.id));
                let mut found = sorted_ids(&read);
                let from = if found.len() > 5 {
                    found.len() - 5
                } else {
                    0
                };
                let ghost all = found@;
                let mut ids = found.split_off(from);
                proof {
                    lemma_greatest_are_last(all, 5);
                    assert(ids@ =~= all.skip(from as int));
                    assert forall|a: int, b: int| 0 <= a < b < ids@.len() implies ids@[a]
                        < ids@[b] by {
                        assert(all[from + a] < all[from + b]);
                    }
                }
                let ghost tail = ids@;
                // Always display OP
                ids.insert(0, props.id);
                assert(ids@.skip(1) =~= tail);
                ids
            },
            PostSet::Pages(pages) => {
                let mut read: Vec<u64> = Vec::new();
                let mut i: usize = 0;
                assert(read@.to_set() =~= on_pages(state@, props.id, pages@.take(0)));
                while i < pages.len()
                    invariant
                        i <= pages.len(),
                        read@.to_set() == on_pages(state@, props.id, pages@.take(i as int)),
                    decreases pages.len() - i,
                {
                    let ghost prev = read@;
                    self.read_page_posts(state, props, &mut read, pages[i], false);
                    proof {
                        let now = pages@.take(i as int);
                        let next = pages@.take(i + 1);
                        lemma_parts(read@, prev.len() as int);
                        assert(read@.take(prev.len() as int) =~= prev);
                        assert forall|id: u64|
                            on_pages(state@, props.id, next).contains(id) <==> prev.to_set().union(
                                page_ids(state@, props.id, pages@[i as int]),
                            ).contains(id) by {
                            if on_pages(state@, props.id, next).contains(id) {
                                let k = choose|k: int|
                                    0 <= k < next.len() && page_ids(
                                        state@,
                                        props.id,
                                        #[trigger] next[k],
                                    ).contains(id);
                                if k < i {
                                    assert(page_ids(state@, props.id, now[k]).contains(id));
                                }
                            }
                            if prev.to_set().contains(id) {
                                let k = choose|k: int|
                                    0 <= k < now.len() && page_ids(
                                        state@,
                                        props.id,
                                        #[trigger] now[k],
                                    ).contains(id);
                                assert(page_ids(state@, props.id, next[k]).contains(id));
                            }
                            if page_ids(state@, props.id, pages@[i as int]).contains(id) {
                                assert(page_ids(state@, props.id, next[i as int]).contains(id));
                            }
                        }
                        assert(read@.to_set() =~= on_pages(state@, props.id, next));
                    }
                    i = i + 1;
                }
                assert(pages@.take(pages@.len() as int) =~= pages@);
                let mut ids = sorted_ids(&read);
                // Show pinned posts from any page
                let pinned = state.pinned_ids();
                let ghost paged = ids@.to_set();
                let mut j: usize = 0;
                while j < pinned.len()
                    invariant
                        j <= pinned.len(),
                        ascending(ids@),
                        forall|id: u64|
                            ids@.to_set().contains(id) <==> paged.contains(id) || (id != props.id
                                && pinned@.take(j as int).to_set().contains(id)),
                    decreases pinned.len() - j,
                {
                    if pinned[j] != props.id {
                        insert_ascending(&mut ids, pinned[j]);
                    }
                    proof {
                        lemma_take_grows(pinned@, j as int);
                    }
                    j = j + 1;
                }
                proof {
                    assert(pinned@.take(j as int) =~= pinned@);
                    let wanted = pinned_replies(state@, props.id);
                    assert forall|id: u64|
                        ids@.to_set().contains(id) <==> paged.union(wanted).contains(id) by {
                        assert(ids@.to_set().contains(id) <==> paged.contains(id) || (id
                            != props.id && pinned@.to_set().contains(id)));
                        assert(wanted.contains(id) <==> id != props.id
                            && state@.pinned_posts.dom().contains(id));
                    }
                    assert(ids@.to_set() =~= paged.union(pinned_replies(state@, props.id)));
                }
                ids
            },
        }
    }
}

/// What a run holds is what its first `n` hold and what the rest holds.
proof fn lemma_parts(ids: Seq<u64>, n: int)
    requires
        0 <= n <= ids.len(),
    ensures
        ids.to_set() == ids.take(n).to_set().union(ids.skip(n).to_set()),
{
    assert forall|id: u64|
        ids.to_set().contains(id) <==> ids.take(n).to_set().union(
            ids.skip(n).to_set(),
        ).contains(id) by {
        if ids.to_set().contains(id) {
            let k = choose|k: int| 0 <= k < ids.len() && ids[k] == id;
            if k < n {
                assert(ids.take(n)[k] == id);
            } else {
                assert(ids.skip(n)[k - n] == id);
            }
        }
        if ids.take(n).to_set().contains(id) {
            let k = choose|k: int| 0 <= k < ids.take(n).len() && ids.take(n)[k] == id;
            assert(ids[k] == id);
        }
        if ids.skip(n).to_set().contains(id) {
            let k = choose|k: int| 0 <= k < ids.skip(n).len() && ids.skip(n)[k] == id;
            assert(ids[n + k] == id);
        }
    }
    assert(ids.to_set() =~= ids.take(n).to_set().union(ids.skip(n).to_set()));
}

/// One more of a run holds what the ones before hold, and the next.
proof fn lemma_take_grows(ids: Seq<u64>, n: int)
    requires
        0 <= n < ids.len(),
    ensures
        ids.take(n + 1).to_set() == ids.take(n).to_set().insert(ids[n]),
{
    let now = ids.take(n);
    let next = ids.take(n + 1);
    assert forall|id: u64| next.to_set().contains(id) <==> now.to_set().insert(ids[n]).contains(
        id,
    ) by {
        if now.to_set().contains(id) {
            let k = choose|k: int| 0 <= k < now.len() && now[k] == id;
            assert(next[k] == id);
        }
        if id == ids[n] {
            assert(next[n] == id);
        }
        if next.to_set().contains(id) {
            let k = choose|k: int| 0 <= k < next.len() && next[k] == id;
            if k < n {
                assert(now[k] == id);
            }
        }
    }
    assert(next.to_set() =~= now.to_set().insert(ids[n]));
}

/// The IDs of `ids`, ascending, each once.
pub fn sorted_ids(ids: &Vec<u64>) -> (sorted: Vec<u64>)
    ensures
        ascending(sorted@),
        sorted@.to_set() == ids@.to_set(),
{
    let mut sorted: Vec<u64> = Vec::new();
    let mut i: usize = 0;
    assert(sorted@.to_set() =~= ids@.take(0).to_set());
    while i < ids.len()
        invariant
            i <= ids.len(),
            ascending(sorted@),
            sorted@.to_set() == ids@.take(i as int).to_set(),
        decreases ids.len() - i,
    {
        insert_ascending(&mut sorted, ids[i]);
        proof {
            lemma_take_grows(ids@, i as int);
            assert(sorted@.to_set() =~= ids@.take(i + 1).to_set());
        }
        i = i + 1;
    }
    assert(ids@.take(ids@.len() as int) =~= ids@);
    sorted
}

} // verus!
