//! The state coordinator: it owns the change bus, the feed synchronisation
//! state and the shared store, handles one request at a time, and hands back
//! what is to be done outside and who is to be woken.

use crate::bus::{
    listeners, listeners_of_any, subscribed, unsubscribed, without_handle, ChangeBus,
};
use crate::change::Change;
use crate::feed::{
    complete, fetched, fetched_pages, is_complete, mirror, mirror_page, page_numbers, resolve,
    resolve_page, rising, FeedSyncState, PageTable, SyncView,
};
use crate::location::{FeedID, Focus, Location};
use crate::store::{PostPinChange, Post, State, StateView, ThreadMeta, ThreadWithPosts};
use std::collections::HashMap;
use vstd::prelude::*;
use vstd::std_specs::hash::*;
use vstd::std_specs::iter::IteratorSpec;

verus! {

broadcast use vstd::std_specs::hash::group_hash_axioms;

/// Push new location to history
pub const PUSH_STATE: u8 = 1;

/// Set new location to global state and trigger updates
pub const SET_STATE: u8 = 2;

/// Scroll to the set location, if anything is focused
pub const SCROLL_TO_FOCUSED: u8 = 4;

/// Do not trigger updates on new location setting
pub const NO_TRIGGER: u8 = 8;

/// Whether `flags` holds the flag `flag`.
pub open spec fn has_flag(flags: u8, flag: u8) -> bool {
    flags & flag != 0
}

/// Returns whether `flags` holds the flag `flag`.
pub fn flag_set(flags: u8, flag: u8) -> (held: bool)
    ensures
        held == has_flag(flags, flag),
{
    flags & flag != 0
}

/// Why a navigation was given up.
#[derive(Debug, Clone, Copy, PartialEq, Eq, Structural)]
pub enum Fault {
    /// A page below `-1` was asked for, or a page that the thread lacks
    PageOutOfRange,
    /// The request to synchronise could not be encoded
    NotEncodable,
}

/// What the coordinator asks of its surroundings.
#[derive(Debug, Clone, Copy, PartialEq, Eq, Structural)]
pub enum Action {
    /// Send the server the request to synchronise to the feed with this
    /// code and, with it, the request for this page
    Synchronize { feed: u64, page: Option<i32> },
    /// Send the server the request for this page of the feed
    FetchPage(i32),
    /// Scroll to the focus now
    ScrollTo(Focus),
    /// Scroll to the focus on the next frame
    ScrollNextFrame(Focus),
    /// Push the address of the location to the history
    PushState(Location),
    /// Report the fault to the user
    Alert(Fault),
    /// Persist the key pair
    StoreKeyPair,
}

/// What an observer, or the connection, can ask of the coordinator.
#[derive(Debug, Clone, PartialEq, Eq)]
pub enum Request {
    /// Subscribe to changes of these topics
    NotifyChange(Vec<Change>),
    /// Change the topics the observer is subscribed to
    ChangeNotifications { remove: Vec<Change>, add: Vec<Change> },
    /// Fetch feed data
    FetchFeed(Location),
    /// Navigate the app to a different feed
    NavigateTo { loc: Location, flags: u8 },
    /// Set or delete the ID of the key pair in use
    SetKeyID(Option<u128>),
    /// Set post as created by this user
    SetMine(u64),
    /// Set ID of currently open post
    SetOpenPostID(Option<u64>),
    /// Insert a new post into the registry
    RegisterPost(Post),
    /// Register a page's posts in the application state
    RegisterPage(Vec<Post>),
    /// Register thread metadata
    RegisterThreadMeta(ThreadMeta),
    /// Register a single thread and its posts
    RegisterThread(ThreadWithPosts),
    /// Register threads passed from the thread index feed
    RegisterThreads(Vec<ThreadWithPosts>),
    /// Replace the body of an existing post by its patched body
    PatchPostBody { id: u64, body: Vec<u8> },
    /// Close an open post with its final body
    ClosePost { id: u64, body: Vec<u8> },
    /// Set tags used on threads
    SetUsedTags(Vec<String>),
    /// Set time correction between the server and client
    SetTimeCorrection(i32),
    /// Set configs received from the server
    SetConfigs(Vec<u8>),
    /// Pin or unpin a post and set its coordinates
    SetPostPinCoords { post: u64, change: PostPinChange },
}

/// What the page tells the coordinator.
#[derive(Debug, Clone, Copy, PartialEq, Eq, Structural)]
pub enum Message {
    /// The frame on which to scroll to the focus has come
    ScrollTo(Focus),
    /// The history was stepped through, to this location
    PoppedState(Location),
}

/// The table of pages with which the receiving of a feed starts: the page
/// asked for, awaited, where the feed is a thread.
pub open spec fn first_pages(feed: FeedID) -> PageTable {
    match feed {
        FeedID::Thread { page, .. } => Map::empty().insert(page, None),
        _ => Map::empty(),
    }
}

/// The page that a feed asks for, where it is a thread.
pub open spec fn asked_page(feed: FeedID) -> Option<i32> {
    match feed {
        FeedID::Thread { page, .. } => Some(page),
        _ => None,
    }
}

/// The location with the page of its thread resolved against `page_count`.
pub open spec fn normalized(loc: Location, page_count: u32) -> Location {
    match loc.feed {
        FeedID::Thread { id, page } => Location {
            feed: FeedID::Thread { id, page: resolve_page(page, page_count) },
            focus: loc.focus,
        },
        _ => loc,
    }
}

/// The state of one processing pass: what the coordinator holds, what it
/// has asked of its surroundings so far, and whom it is to wake at the end.
pub struct Turn {
    /// Which handle listens to which topic
    pub subscriptions: Set<(Change, u64)>,
    /// Feed synchronisation state
    pub sync: SyncView,
    /// The shared store
    pub store: StateView,
    /// What has been asked of the surroundings, in order
    pub actions: Seq<Action>,
    /// The handles to wake when the pass ends
    pub pending: Set<u64>,
}

impl Turn {
    /// The pass after `topic` has been marked as changed: every handle that
    /// listens to it is to be woken.
    pub open spec fn mark(self, topic: Change) -> Turn {
        Turn { pending: self.pending.union(listeners(self.subscriptions, topic)), ..self }
    }

    /// The pass after `action` has been asked for.
    pub open spec fn act(self, action: Action) -> Turn {
        Turn { actions: self.actions.push(action), ..self }
    }

    /// The pass with `store` in place of its store.
    pub open spec fn holding(self, store: StateView) -> Turn {
        Turn { store, ..self }
    }

    /// The pass with `sync` in place of its synchronisation state.
    pub open spec fn syncing(self, sync: SyncView) -> Turn {
        Turn { sync, ..self }
    }

    /// The pass after a post has been registered: the post is marked, then
    /// stored.
    pub open spec fn register_post(self, post: Post) -> Turn {
        self.mark(Change::Post(post.id)).holding(self.store.with_post(post))
    }

    /// The pass after each of `posts` has been registered, in order.
    pub open spec fn register_posts(self, posts: Seq<Post>) -> Turn
        decreases posts.len(),
    {
        if posts.len() == 0 {
            self
        } else {
            self.register_posts(posts.drop_last()).register_post(posts.last())
        }
    }

    /// The pass after a thread has been registered: the list of threads and
    /// the thread are marked, the thread's metadata is stored, and each of
    /// its posts is registered.
    pub open spec fn register_thread(self, thread: ThreadWithPosts) -> Turn {
        let marked = self.mark(Change::ThreadList).mark(Change::Thread(thread.thread.id));
        marked.holding(marked.store.with_thread(thread.thread)).register_posts(thread.posts@)
    }

    /// The pass after each of `threads` has been registered, in order.
    pub open spec fn register_thread_list(self, threads: Seq<ThreadWithPosts>) -> Turn
        decreases threads.len(),
    {
        if threads.len() == 0 {
            self
        } else {
            self.register_thread_list(threads.drop_last()).register_thread(threads.last())
        }
    }

    /// The pass after the posts of every page of the table with a number
    /// from zero up to, but not including, `n` have been registered, page by
    /// page in the order of their numbers. A page that is only asked for
    /// holds no posts and registers none.
    pub open spec fn register_pages_below(self, pages: PageTable, n: int) -> Turn
        decreases n,
    {
        if n <= 0 {
            self
        } else {
            let before = self.register_pages_below(pages, n - 1);
            let page = (n - 1) as i32;
            if pages.contains_key(page) && pages[page] is Some {
                before.register_posts(pages[page].unwrap()@)
            } else {
                before
            }
        }
    }

    /// The pass after the posts of every received page of the table have
    /// been registered, page by page in the order of their numbers.
    pub open spec fn register_pages(self, pages: PageTable) -> Turn {
        self.register_pages_below(pages, i32::MAX + 1)
    }

    /// The pass after the location has been committed without a look at the
    /// feed. With `SET_STATE` the store is navigated to `new` and, unless
    /// `NO_TRIGGER` is set, the location is marked. With `SCROLL_TO_FOCUSED`
    /// and a focus, a scroll to it is asked for on the next frame. With
    /// `PUSH_STATE` the address is pushed to the history.
    pub open spec fn commit_location(self, new: Location, flags: u8) -> Turn {
        let stored = if has_flag(flags, SET_STATE) {
            let moved = self.holding(self.store.at(new));
            if has_flag(flags, NO_TRIGGER) {
                moved
            } else {
                moved.mark(Change::Location)
            }
        } else {
            self
        };
        let scrolled = if has_flag(flags, SCROLL_TO_FOCUSED) && new.focus is Some {
            stored.act(Action::ScrollNextFrame(new.focus.unwrap()))
        } else {
            stored
        };
        if has_flag(flags, PUSH_STATE) {
            scrolled.act(Action::PushState(new))
        } else {
            scrolled
        }
    }

    /// Whether a request to synchronise to `new` leaves a fetch outstanding:
    /// it does while the feed is being received, it does not once the feed
    /// is synced, and for another feed it does where the request to the
    /// server can be encoded.
    pub open spec fn fetch_outstanding(self, new: Location, encodable: bool) -> bool {
        match self.sync {
            SyncView::Receiving { loc, .. } => loc.feed.code() == new.feed.code() || encodable,
            SyncView::Synced { feed, .. } => feed.code() != new.feed.code() && encodable,
            SyncView::NotRequested => encodable,
        }
    }

    /// The pass after a request to synchronise to `new`.
    ///
    /// While the same feed is being received, the location to sync to
    /// becomes `new`, and a page of a thread that the table lacks is asked
    /// of the server and awaited. Once the same feed is synced nothing
    /// changes. For any other feed what was known of the old one is dropped:
    /// the server is asked to synchronise, and the feed is received from
    /// the start with the page asked for awaited; where that request cannot
    /// be encoded, the fault is reported and nothing else changes.
    pub open spec fn request_sync(self, new: Location, flags: u8, encodable: bool) -> Turn {
        if self.sync.follows(new.feed.code()) {
            match self.sync {
                SyncView::Receiving { loc, thread, pages, flags: first_flags } => {
                    if new.feed is Thread && !pages.contains_key(new.feed->page) {
                        self.syncing(
                            SyncView::Receiving {
                                loc: new,
                                thread,
                                pages: pages.insert(new.feed->page, None),
                                flags: first_flags,
                            },
                        ).act(Action::FetchPage(new.feed->page))
                    } else {
                        self.syncing(
                            SyncView::Receiving { loc: new, thread, pages, flags: first_flags },
                        )
                    }
                },
                _ => self,
            }
        } else if encodable {
            self.syncing(
                SyncView::Receiving {
                    loc: new,
                    thread: None,
                    pages: first_pages(new.feed),
                    flags,
                },
            ).act(Action::Synchronize { feed: new.feed.code(), page: asked_page(new.feed) })
        } else {
            self.act(Action::Alert(Fault::NotEncodable))
        }
    }

    /// The pass after a request to synchronise to `new` and, where no fetch
    /// is outstanding and nothing failed, the commit of the location.
    pub open spec fn sync_and_commit(self, new: Location, flags: u8, encodable: bool) -> Turn {
        let synced = self.request_sync(new, flags, encodable);
        if self.fetch_outstanding(new, encodable) || !(self.sync.follows(new.feed.code())
            || encodable) {
            synced
        } else {
            synced.commit_location(new, flags)
        }
    }

    /// The pass after a navigation to `new`.
    ///
    /// To the location the store is at: with `SCROLL_TO_FOCUSED` and a focus
    /// a scroll to it is asked for now, and nothing else happens. To another
    /// page of the thread that is synced: a page below `-1`, or one that
    /// resolves to no page of the thread, is reported and nothing else
    /// happens; a page that was neither fetched nor asked for is asked of the
    /// server and recorded as awaited; then the location is committed. In
    /// every other case synchronisation is requested and, unless a fetch is
    /// then outstanding, the location is committed.
    pub open spec fn navigate(self, new: Location, flags: u8, encodable: bool) -> Turn {
        if self.store.location == new {
            if has_flag(flags, SCROLL_TO_FOCUSED) && new.focus is Some {
                self.act(Action::ScrollTo(new.focus.unwrap()))
            } else {
                self
            }
        } else if self.sync is Synced && new.feed is Thread && self.sync.follows(new.feed->id) {
            let resolved = resolve_page(new.feed->page, self.store.page_count(new.feed->id));
            let pages = self.sync->Synced_pages;
            if new.feed->page < -1 || resolved < 0 {
                self.act(Action::Alert(Fault::PageOutOfRange))
            } else if pages.contains_key(resolved as u32) {
                self.commit_location(new, flags)
            } else {
                self.syncing(
                    SyncView::Synced {
                        feed: self.sync->Synced_feed,
                        pages: pages.insert(resolved as u32, false),
                    },
                ).act(Action::FetchPage(resolved)).commit_location(new, flags)
            }
        } else {
            self.sync_and_commit(new, flags, encodable)
        }
    }

    /// The pass after metadata of a thread has come: it is kept while that
    /// thread's feed is being received and dropped otherwise.
    pub open spec fn register_thread_meta(self, meta: ThreadMeta) -> Turn {
        match self.sync {
            SyncView::Receiving { loc, thread, pages, flags } => if loc.feed.code() == meta.id {
                self.syncing(SyncView::Receiving { loc, thread: Some(meta), pages, flags })
            } else {
                self
            },
            _ => self,
        }
    }

    /// The pass after the feed of a thread has been received in full: the
    /// feed is synced with every received page marked as fetched, the list
    /// of threads and the thread are marked, the metadata and the posts of
    /// all pages are stored, and the location that was deferred is
    /// committed with its page resolved.
    pub open spec fn commit_thread(
        self,
        loc: Location,
        meta: ThreadMeta,
        pages: PageTable,
        flags: u8,
    ) -> Turn {
        let synced = self.syncing(SyncView::Synced { feed: loc.feed, pages: fetched(pages) });
        let marked = synced.mark(Change::ThreadList).mark(Change::Thread(loc.feed.code()));
        let stored = marked.holding(marked.store.with_thread(meta)).register_pages(pages);
        stored.commit_location(normalized(loc, meta.page_count), flags)
    }

    /// The pass after the posts of a page have come.
    ///
    /// They are taken as the page of the thread that the first of them
    /// names, and they are taken in only while that thread's feed is being
    /// received and its metadata has come: then the posts are recorded for
    /// their page, and the page is recorded as asked for under its number
    /// counted from the end as well; if every page then has its posts, the
    /// feed is committed. Anything else is dropped and changes nothing: no
    /// posts, a page number beyond those that can be asked for, a thread
    /// whose feed is not being received, a feed that is synced already, or
    /// metadata that has not come.
    pub open spec fn register_page(self, posts: Vec<Post>) -> Turn {
        if posts@.len() == 0 {
            self
        } else {
            let thread_id = posts@[0].thread;
            let page = posts@[0].page;
            match self.sync {
                SyncView::Receiving { loc, thread, pages, flags } => if thread is Some
                    && loc.feed.code() == thread_id && page <= i32::MAX {
                    let meta = thread.unwrap();
                    let filled = pages.insert(page as i32, Some(posts)).insert(
                        mirror_page(page as i32, meta.page_count),
                        None,
                    );
                    if complete(filled) {
                        self.commit_thread(loc, meta, filled, flags)
                    } else {
                        self.syncing(SyncView::Receiving { loc, thread, pages: filled, flags })
                    }
                } else {
                    self
                },
                SyncView::Synced { .. } => self,
                SyncView::NotRequested => self,
            }
        }
    }

    /// The pass after the threads of the index have come: while the index or
    /// the catalog is being received, the feed is synced, each thread is
    /// registered and the location that was deferred is committed;
    /// otherwise they are dropped.
    pub open spec fn register_threads(self, threads: Seq<ThreadWithPosts>) -> Turn {
        match self.sync {
            SyncView::Receiving { loc, flags, .. } => if loc.feed.code() == 0 {
                self.syncing(
                    SyncView::Synced { feed: loc.feed, pages: Map::empty() },
                ).register_thread_list(threads).commit_location(loc, flags)
            } else {
                self
            },
            _ => self,
        }
    }

    /// The pass after a post has been closed with its final body: a
    /// registered post is closed and marked, and if it was the post being
    /// edited, no post is edited any more, which is marked too.
    pub open spec fn close_post(self, id: u64, body: Vec<u8>) -> Turn {
        let closed = if self.store.posts.contains_key(id) {
            self.holding(self.store.with_closed(id, body)).mark(Change::Post(id))
        } else {
            self
        };
        if self.store.open_post_id == Some(id) {
            closed.holding(StateView { open_post_id: None, ..closed.store }).mark(
                Change::OpenPostID,
            )
        } else {
            closed
        }
    }

    /// The pass after the request `req` of the observer `id` has been
    /// handled.
    pub open spec fn handle(self, req: Request, id: u64, encodable: bool) -> Turn {
        match req {
            Request::NotifyChange(topics) => Turn {
                subscriptions: subscribed(self.subscriptions, id, topics@),
                ..self
            },
            Request::ChangeNotifications { remove, add } => Turn {
                subscriptions: subscribed(
                    unsubscribed(self.subscriptions, id, remove@),
                    id,
                    add@,
                ),
                ..self
            },
            Request::NavigateTo { loc, flags } => self.navigate(loc, flags, encodable),
            Request::FetchFeed(loc) => self.request_sync(loc, SCROLL_TO_FOCUSED, encodable),
            Request::SetKeyID(key) => self.holding(StateView { key_id: key, ..self.store }).act(
                Action::StoreKeyPair,
            ),
            Request::SetMine(post) => self.holding(
                StateView { mine: self.store.mine.insert(post), ..self.store },
            ),
            Request::SetOpenPostID(post) => self.holding(
                StateView { open_post_id: post, ..self.store },
            ).mark(Change::OpenPostID),
            Request::RegisterPost(post) => self.mark(Change::Thread(post.thread)).register_post(
                post,
            ),
            Request::RegisterPage(posts) => self.register_page(posts),
            Request::RegisterThreadMeta(meta) => self.register_thread_meta(meta),
            Request::RegisterThread(thread) => self.register_thread(thread),
            Request::RegisterThreads(threads) => self.register_threads(threads@),
            Request::PatchPostBody { id: post, body } => if self.store.posts.contains_key(post) {
                self.holding(self.store.with_body(post, body)).mark(Change::Post(post))
            } else {
                self
            },
            Request::ClosePost { id: post, body } => self.close_post(post, body),
            Request::SetUsedTags(tags) => self.holding(
                StateView { used_tags: tags@, ..self.store },
            ).mark(Change::UsedTags),
            Request::SetTimeCorrection(seconds) => self.holding(
                StateView { time_correction: seconds, ..self.store },
            ).mark(Change::TimeCorrection),
            Request::SetConfigs(configs) => self.holding(
                StateView { configs: configs@, ..self.store },
            ).mark(Change::Configs),
            Request::SetPostPinCoords { post, change } => self.holding(
                self.store.with_pin(post, change),
            ).mark(Change::Post(post)),
        }
    }

    /// The pass after news of the page has been handled: a scroll that has
    /// come due is asked for now; a step through the history navigates to
    /// its location, storing it and scrolling to its focus.
    pub open spec fn update(self, msg: Message, encodable: bool) -> Turn {
        match msg {
            Message::ScrollTo(focus) => self.act(Action::ScrollTo(focus)),
            Message::PoppedState(loc) => self.navigate(loc, 6, encodable),
        }
    }
}

/// The topics of the posts `posts`, one for each.
pub open spec fn post_topics(posts: Seq<Post>) -> Set<Change> {
    Set::new(
        |topic: Change|
            exists|i: int| 0 <= i < posts.len() && topic == Change::Post((#[trigger] posts[i]).id),
    )
}

/// The topics of the posts of the received pages of the table with a number
/// below `n`.
pub open spec fn page_topics_below(pages: PageTable, n: int) -> Set<Change> {
    Set::new(
        |topic: Change|
            exists|page: i32|
                0 <= page < n && #[trigger] pages.contains_key(page) && pages[page] is Some
                    && post_topics(pages[page].unwrap()@).contains(topic),
    )
}

/// The topics of the posts of every received page of the table.
pub open spec fn page_topics(pages: PageTable) -> Set<Change> {
    page_topics_below(pages, i32::MAX + 1)
}

/// The topics that the commit of a location marks: the location, where it
/// is stored and not kept quiet.
pub open spec fn location_topics(flags: u8) -> Set<Change> {
    if has_flag(flags, SET_STATE) && !has_flag(flags, NO_TRIGGER) {
        set![Change::Location]
    } else {
        Set::empty()
    }
}

/// Who listens to any of `topics` or to `topic` listens to any of `topics`
/// or listens to `topic`.
proof fn lemma_listeners_insert(subscriptions: Set<(Change, u64)>, topics: Set<Change>, topic: Change)
    ensures
        listeners_of_any(subscriptions, topics.insert(topic)) == listeners_of_any(
            subscriptions,
            topics,
        ).union(listeners(subscriptions, topic)),
{
    let whole = listeners_of_any(subscriptions, topics.insert(topic));
    let parts = listeners_of_any(subscriptions, topics).union(listeners(subscriptions, topic));
    assert forall|h: u64| whole.contains(h) <==> parts.contains(h) by {
        if whole.contains(h) {
            let t = choose|t: Change|
                topics.insert(topic).contains(t) && #[trigger] subscriptions.contains((t, h));
            if t != topic {
                assert(topics.contains(t) && subscriptions.contains((t, h)));
            }
        }
        if listeners_of_any(subscriptions, topics).contains(h) {
            let t = choose|t: Change|
                topics.contains(t) && #[trigger] subscriptions.contains((t, h));
            assert(topics.insert(topic).contains(t) && subscriptions.contains((t, h)));
        }
        if listeners(subscriptions, topic).contains(h) {
            assert(topics.insert(topic).contains(topic) && subscriptions.contains((topic, h)));
        }
    }
    assert(whole =~= parts);
}

/// Who listens to any of two sets of topics listens to any of the one or to
/// any of the other.
proof fn lemma_listeners_union(subscriptions: Set<(Change, u64)>, a: Set<Change>, b: Set<Change>)
    ensures
        listeners_of_any(subscriptions, a.union(b)) == listeners_of_any(subscriptions, a).union(
            listeners_of_any(subscriptions, b),
        ),
{
    let whole = listeners_of_any(subscriptions, a.union(b));
    let parts = listeners_of_any(subscriptions, a).union(listeners_of_any(subscriptions, b));
    assert forall|h: u64| whole.contains(h) <==> parts.contains(h) by {
        if whole.contains(h) {
            let t = choose|t: Change|
                a.union(b).contains(t) && #[trigger] subscriptions.contains((t, h));
            if a.contains(t) {
                assert(a.contains(t) && subscriptions.contains((t, h)));
            } else {
                assert(b.contains(t) && subscriptions.contains((t, h)));
            }
        }
        if listeners_of_any(subscriptions, a).contains(h) {
            let t = choose|t: Change| a.contains(t) && #[trigger] subscriptions.contains((t, h));
            assert(a.union(b).contains(t) && subscriptions.contains((t, h)));
        }
        if listeners_of_any(subscriptions, b).contains(h) {
            let t = choose|t: Change| b.contains(t) && #[trigger] subscriptions.contains((t, h));
            assert(a.union(b).contains(t) && subscriptions.contains((t, h)));
        }
    }
    assert(whole =~= parts);
}

/// Nobody listens to no topic.
proof fn lemma_listeners_of_none(subscriptions: Set<(Change, u64)>)
    ensures
        listeners_of_any(subscriptions, Set::empty()) == Set::<u64>::empty(),
{
    assert(listeners_of_any(subscriptions, Set::empty()) =~= Set::<u64>::empty());
}

/// Registering posts wakes whoever listens to one of them, and nobody else;
/// it asks nothing of the surroundings and leaves subscriptions, feed state
/// and everything in the store but posts and their pages as they are.
pub proof fn lemma_register_posts(turn: Turn, posts: Seq<Post>)
    ensures
        turn.register_posts(posts).subscriptions == turn.subscriptions,
        turn.register_posts(posts).sync == turn.sync,
        turn.register_posts(posts).actions == turn.actions,
        turn.register_posts(posts).store.location == turn.store.location,
        turn.register_posts(posts).store.threads == turn.store.threads,
        turn.register_posts(posts).pending == turn.pending.union(
            listeners_of_any(turn.subscriptions, post_topics(posts)),
        ),
        forall|i: int|
            0 <= i < posts.len() ==> turn.register_posts(posts).store.posts.contains_key(
                (#[trigger] posts[i]).id,
            ),
    decreases posts.len(),
{
    let after = turn.register_posts(posts);
    if posts.len() == 0 {
        assert(post_topics(posts) =~= Set::<Change>::empty());
        lemma_listeners_of_none(turn.subscriptions);
        assert(after.pending =~= turn.pending.union(
            listeners_of_any(turn.subscriptions, post_topics(posts)),
        ));
    } else {
        let front = posts.drop_last();
        let last = posts.last();
        lemma_register_posts(turn, front);
        let topic = Change::Post(last.id);
        assert forall|t: Change|
            post_topics(posts).contains(t) <==> post_topics(front).insert(topic).contains(t) by {
            if post_topics(posts).contains(t) {
                let i = choose|i: int|
                    0 <= i < posts.len() && t == Change::Post((#[trigger] posts[i]).id);
                if i < front.len() {
                    assert(front[i] == posts[i]);
                }
            }
            if post_topics(front).contains(t) {
                let i = choose|i: int|
                    0 <= i < front.len() && t == Change::Post((#[trigger] front[i]).id);
                assert(posts[i] == front[i]);
            }
            if t == topic {
                assert(posts[posts.len() - 1] == last);
            }
        }
        assert(post_topics(posts) =~= post_topics(front).insert(topic));
        lemma_listeners_insert(turn.subscriptions, post_topics(front), topic);
        assert(after.pending =~= turn.pending.union(
            listeners_of_any(turn.subscriptions, post_topics(posts)),
        ));
        assert forall|i: int| 0 <= i < posts.len() implies after.store.posts.contains_key(
            (#[trigger] posts[i]).id,
        ) by {
            if i < front.len() {
                assert(front[i] == posts[i]);
            }
        }
    }
}

/// Registering the received pages of a table below a number wakes whoever
/// listens to one of their posts, and nobody else; it asks nothing of the
/// surroundings and leaves subscriptions, feed state, location and threads
/// as they are.
pub proof fn lemma_register_pages_below(turn: Turn, pages: PageTable, n: int)
    requires
        n <= i32::MAX + 1,
    ensures
        turn.register_pages_below(pages, n).subscriptions == turn.subscriptions,
        turn.register_pages_below(pages, n).sync == turn.sync,
        turn.register_pages_below(pages, n).actions == turn.actions,
        turn.register_pages_below(pages, n).store.location == turn.store.location,
        turn.register_pages_below(pages, n).store.threads == turn.store.threads,
        turn.register_pages_below(pages, n).pending == turn.pending.union(
            listeners_of_any(turn.subscriptions, page_topics_below(pages, n)),
        ),
    decreases n,
{
    let after = turn.register_pages_below(pages, n);
    if n <= 0 {
        assert(page_topics_below(pages, n) =~= Set::<Change>::empty());
        lemma_listeners_of_none(turn.subscriptions);
        assert(after.pending =~= turn.pending.union(
            listeners_of_any(turn.subscriptions, page_topics_below(pages, n)),
        ));
    } else {
        lemma_register_pages_below(turn, pages, n - 1);
        let before = turn.register_pages_below(pages, n - 1);
        let last = (n - 1) as i32;
        let received = pages.contains_key(last) && pages[last] is Some;
        let added = if received {
            post_topics(pages[last].unwrap()@)
        } else {
            Set::<Change>::empty()
        };
        if received {
            lemma_register_posts(before, pages[last].unwrap()@);
        } else {
            lemma_listeners_of_none(turn.subscriptions);
        }
        assert forall|t: Change|
            page_topics_below(pages, n).contains(t) <==> page_topics_below(pages, n - 1).union(
                added,
            ).contains(t) by {
            if page_topics_below(pages, n).contains(t) {
                let page = choose|page: i32|
                    0 <= page < n && #[trigger] pages.contains_key(page) && pages[page] is Some
                        && post_topics(pages[page].unwrap()@).contains(t);
                if page < n - 1 {
                    assert(page_topics_below(pages, n - 1).contains(t));
                }
            }
            if page_topics_below(pages, n - 1).contains(t) {
                let page = choose|page: i32|
                    0 <= page < n - 1 && #[trigger] pages.contains_key(page) && pages[page]
                        is Some && post_topics(pages[page].unwrap()@).contains(t);
                assert(0 <= page < n && pages.contains_key(page));
            }
            if added.contains(t) {
                assert(0 <= last < n && pages.contains_key(last));
            }
        }
        assert(page_topics_below(pages, n) =~= page_topics_below(pages, n - 1).union(added));
        lemma_listeners_union(turn.subscriptions, page_topics_below(pages, n - 1), added);
        assert(after.pending =~= turn.pending.union(
            listeners_of_any(turn.subscriptions, page_topics_below(pages, n)),
        ));
    }
}

/// Registering the pages of a table up to a number changes nothing beyond
/// what registering them up to a smaller number does, where no page in
/// between has come.
pub proof fn lemma_register_pages_gap(turn: Turn, pages: PageTable, from: int, to: int)
    requires
        from <= to <= i32::MAX + 1,
        forall|page: i32|
            from <= page < to && 0 <= page ==> !(#[trigger] pages.contains_key(page)
                && pages[page] is Some),
    ensures
        turn.register_pages_below(pages, to) == turn.register_pages_below(pages, from),
    decreases to - from,
{
    if from < to {
        lemma_register_pages_gap(turn, pages, from, to - 1);
        if to > 0 {
            let page = (to - 1) as i32;
            assert(!(pages.contains_key(page) && pages[page] is Some));
        }
    }
}

/// Committing a location wakes whoever listens to the location, where it
/// is stored and not kept quiet, and nobody else; it leaves subscriptions,
/// feed state and threads as they are, and asks neither to synchronise nor
/// for a page.
pub proof fn lemma_commit_location(turn: Turn, new: Location, flags: u8)
    ensures
        turn.commit_location(new, flags).subscriptions == turn.subscriptions,
        turn.commit_location(new, flags).sync == turn.sync,
        turn.commit_location(new, flags).store.threads == turn.store.threads,
        turn.commit_location(new, flags).store.posts == turn.store.posts,
        turn.commit_location(new, flags).store.location == if has_flag(flags, SET_STATE) {
            new
        } else {
            turn.store.location
        },
        turn.commit_location(new, flags).pending == turn.pending.union(
            listeners_of_any(turn.subscriptions, location_topics(flags)),
        ),
        turn.actions.is_prefix_of(turn.commit_location(new, flags).actions),
        forall|i: int|
            turn.actions.len() <= i < turn.commit_location(new, flags).actions.len() ==> {
                let action = #[trigger] turn.commit_location(new, flags).actions[i];
                action is ScrollNextFrame || action is PushState
            },
{
    let after = turn.commit_location(new, flags);
    if has_flag(flags, SET_STATE) && !has_flag(flags, NO_TRIGGER) {
        lemma_listeners_of_none(turn.subscriptions);
        lemma_listeners_insert(turn.subscriptions, Set::empty(), Change::Location);
        assert(Set::<Change>::empty().insert(Change::Location) =~= set![Change::Location]);
        assert(after.pending =~= turn.pending.union(
            listeners_of_any(turn.subscriptions, location_topics(flags)),
        ));
    } else {
        lemma_listeners_of_none(turn.subscriptions);
        assert(after.pending =~= turn.pending.union(
            listeners_of_any(turn.subscriptions, location_topics(flags)),
        ));
    }
}

/// When the page that completes the feed of a thread comes, the feed is
/// synced with exactly the received pages, each marked as fetched; the
/// thread's metadata is stored; the location that was deferred is committed
/// with its page resolved; and the observers woken are those that listen to
/// the list of threads, to the thread, to a post of a received page or to
/// the committed location, and nobody else.
pub proof fn lemma_complete_thread_commits(turn: Turn, posts: Vec<Post>)
    requires
        posts@.len() > 0,
        posts@[0].page <= i32::MAX,
        turn.sync matches SyncView::Receiving { loc, thread, pages, .. } && thread is Some
            && loc.feed.code() == posts@[0].thread && complete(
            pages.insert(posts@[0].page as i32, Some(posts)).insert(
                mirror_page(posts@[0].page as i32, thread.unwrap().page_count),
                None,
            ),
        ),
    ensures
        ({
            let loc = turn.sync->Receiving_loc;
            let meta = turn.sync->Receiving_thread.unwrap();
            let flags = turn.sync->Receiving_flags;
            let filled = turn.sync->Receiving_pages.insert(
                posts@[0].page as i32,
                Some(posts),
            ).insert(mirror_page(posts@[0].page as i32, meta.page_count), None);
            let after = turn.register_page(posts);
            &&& after.subscriptions == turn.subscriptions
            &&& after.sync == (SyncView::Synced { feed: loc.feed, pages: fetched(filled) })
            &&& forall|page: u32|
                fetched(filled).contains_key(page) <==> page <= i32::MAX && filled.contains_key(
                    page as i32,
                )
            &&& forall|page: u32| fetched(filled).contains_key(page) ==> fetched(filled)[page]
            &&& after.store.threads == turn.store.threads.insert(meta.id, meta)
            &&& has_flag(flags, SET_STATE) ==> after.store.location == normalized(
                loc,
                meta.page_count,
            )
            &&& after.pending == turn.pending.union(
                listeners_of_any(
                    turn.subscriptions,
                    set![Change::ThreadList, Change::Thread(posts@[0].thread)].union(
                        page_topics(filled),
                    ).union(location_topics(flags)),
                ),
            )
        }),
{
    let loc = turn.sync->Receiving_loc;
    let meta = turn.sync->Receiving_thread.unwrap();
    let flags = turn.sync->Receiving_flags;
    let filled = turn.sync->Receiving_pages.insert(posts@[0].page as i32, Some(posts)).insert(
        mirror_page(posts@[0].page as i32, meta.page_count),
        None,
    );
    let subs = turn.subscriptions;
    let synced = turn.syncing(SyncView::Synced { feed: loc.feed, pages: fetched(filled) });
    let marked = synced.mark(Change::ThreadList).mark(Change::Thread(loc.feed.code()));
    let held = marked.holding(marked.store.with_thread(meta));
    let stored = held.register_pages(filled);
    let after = stored.commit_location(normalized(loc, meta.page_count), flags);
    assert(after == turn.register_page(posts));
    lemma_register_pages_below(held, filled, i32::MAX + 1);
    lemma_commit_location(stored, normalized(loc, meta.page_count), flags);
    let heads = set![Change::ThreadList, Change::Thread(posts@[0].thread)];
    lemma_listeners_of_none(subs);
    lemma_listeners_insert(subs, Set::empty(), Change::ThreadList);
    lemma_listeners_insert(
        subs,
        Set::<Change>::empty().insert(Change::ThreadList),
        Change::Thread(posts@[0].thread),
    );
    assert(Set::<Change>::empty().insert(Change::ThreadList).insert(
        Change::Thread(posts@[0].thread),
    ) =~= heads);
    lemma_listeners_union(subs, heads, page_topics(filled));
    lemma_listeners_union(subs, heads.union(page_topics(filled)), location_topics(flags));
    assert(after.pending =~= turn.pending.union(
        listeners_of_any(subs, heads.union(page_topics(filled)).union(location_topics(flags))),
    ));
}

/// Whether the post at the place `i` of the page `page` of the table is the
/// last of its ID in the order in which the pages are committed: no post
/// behind it on its page and no post of a later page has its ID.
pub open spec fn last_of_its_id(pages: PageTable, page: i32, i: int) -> bool {
    &&& page >= 0
    &&& pages.contains_key(page)
    &&& pages[page] is Some
    &&& 0 <= i < pages[page].unwrap()@.len()
    &&& forall|j: int|
        i < j < pages[page].unwrap()@.len() ==> (#[trigger] pages[page].unwrap()@[j]).id
            != pages[page].unwrap()@[i].id
    &&& forall|later: i32, j: int|
        later > page && pages.contains_key(later) && pages[later] is Some && 0 <= j
            < pages[later].unwrap()@.len() ==> (#[trigger] pages[later].unwrap()@[j]).id
            != pages[page].unwrap()@[i].id
}

/// Registering posts stores each as it came, unless a later one of them has
/// its ID.
pub proof fn lemma_register_posts_stores(turn: Turn, posts: Seq<Post>, i: int)
    requires
        0 <= i < posts.len(),
        forall|j: int| i < j < posts.len() ==> (#[trigger] posts[j]).id != posts[i].id,
    ensures
        turn.register_posts(posts).store.posts.contains_key(posts[i].id),
        turn.register_posts(posts).store.posts[posts[i].id] == posts[i],
    decreases posts.len(),
{
    let front = posts.drop_last();
    if i < posts.len() - 1 {
        assert forall|j: int| i < j < front.len() implies (#[trigger] front[j]).id
            != front[i].id by {
            assert(front[j] == posts[j]);
        }
        lemma_register_posts_stores(turn, front, i);
        assert(posts[posts.len() - 1].id != posts[i].id);
    }
}

/// Registering posts leaves every stored post with another ID as it is.
pub proof fn lemma_register_posts_keeps(turn: Turn, posts: Seq<Post>, id: u64)
    requires
        forall|j: int| 0 <= j < posts.len() ==> (#[trigger] posts[j]).id != id,
    ensures
        turn.register_posts(posts).store.posts.contains_key(id) == turn.store.posts.contains_key(
            id,
        ),
        turn.register_posts(posts).store.posts[id] == turn.store.posts[id],
    decreases posts.len(),
{
    if posts.len() > 0 {
        let front = posts.drop_last();
        assert forall|j: int| 0 <= j < front.len() implies (#[trigger] front[j]).id != id by {
            assert(front[j] == posts[j]);
        }
        lemma_register_posts_keeps(turn, front, id);
        assert(posts[posts.len() - 1].id != id);
    }
}

/// Registering the received pages of a table stores each post as it came,
/// unless a post behind it in the order of the commit has its ID.
pub proof fn lemma_register_pages_stores(turn: Turn, pages: PageTable, n: int, page: i32, i: int)
    requires
        page < n <= i32::MAX + 1,
        last_of_its_id(pages, page, i),
    ensures
        turn.register_pages_below(pages, n).store.posts.contains_key(
            pages[page].unwrap()@[i].id,
        ),
        turn.register_pages_below(pages, n).store.posts[pages[page].unwrap()@[i].id]
            == pages[page].unwrap()@[i],
    decreases n,
{
    let before = turn.register_pages_below(pages, n - 1);
    let last = (n - 1) as i32;
    if last == page {
        lemma_register_posts_stores(before, pages[page].unwrap()@, i);
    } else {
        lemma_register_pages_stores(turn, pages, n - 1, page, i);
        if pages.contains_key(last) && pages[last] is Some {
            lemma_register_posts_keeps(before, pages[last].unwrap()@, pages[page].unwrap()@[i].id);
        }
    }
}

/// When the page that completes the feed of a thread comes, every post of
/// every received page is in the store as it came, unless a post behind it
/// in the order of the commit has its ID.
pub proof fn lemma_committed_posts_are_stored(turn: Turn, posts: Vec<Post>, page: i32, i: int)
    requires
        posts@.len() > 0,
        posts@[0].page <= i32::MAX,
        turn.sync matches SyncView::Receiving { loc, thread, pages, .. } && thread is Some
            && loc.feed.code() == posts@[0].thread && complete(
            pages.insert(posts@[0].page as i32, Some(posts)).insert(
                mirror_page(posts@[0].page as i32, thread.unwrap().page_count),
                None,
            ),
        ) && last_of_its_id(
            pages.insert(posts@[0].page as i32, Some(posts)).insert(
                mirror_page(posts@[0].page as i32, thread.unwrap().page_count),
                None,
            ),
            page,
            i,
        ),
    ensures
        ({
            let filled = turn.sync->Receiving_pages.insert(
                posts@[0].page as i32,
                Some(posts),
            ).insert(
                mirror_page(posts@[0].page as i32, turn.sync->Receiving_thread.unwrap().page_count),
                None,
            );
            let post = filled[page].unwrap()@[i];
            &&& turn.register_page(posts).store.posts.contains_key(post.id)
            &&& turn.register_page(posts).store.posts[post.id] == post
        }),
{
    let loc = turn.sync->Receiving_loc;
    let meta = turn.sync->Receiving_thread.unwrap();
    let flags = turn.sync->Receiving_flags;
    let filled = turn.sync->Receiving_pages.insert(posts@[0].page as i32, Some(posts)).insert(
        mirror_page(posts@[0].page as i32, meta.page_count),
        None,
    );
    let synced = turn.syncing(SyncView::Synced { feed: loc.feed, pages: fetched(filled) });
    let marked = synced.mark(Change::ThreadList).mark(Change::Thread(loc.feed.code()));
    let held = marked.holding(marked.store.with_thread(meta));
    let stored = held.register_pages(filled);
    assert(stored.commit_location(normalized(loc, meta.page_count), flags) == turn.register_page(
        posts,
    ));
    lemma_register_pages_stores(held, filled, i32::MAX + 1, page, i);
    lemma_commit_location(stored, normalized(loc, meta.page_count), flags);
}

/// Page data changes nothing unless a feed is being received: what comes
/// before any feed was asked for, or once the feed is synced, is dropped.
pub proof fn lemma_pages_are_taken_only_while_receiving(turn: Turn, posts: Vec<Post>)
    requires
        !(turn.sync is Receiving),
    ensures
        turn.register_page(posts) == turn,
{
}

/// A navigation within the synced thread to a page below `-1` reports the
/// usage error and does nothing else: nothing is asked of the server,
/// nothing is stored, scrolled or pushed, and nobody is woken.
pub proof fn lemma_page_below_minus_one_is_refused(
    turn: Turn,
    new: Location,
    flags: u8,
    encodable: bool,
)
    requires
        turn.store.location != new,
        new.feed is Thread,
        new.feed->page < -1,
        turn.sync is Synced,
        turn.sync.follows(new.feed->id),
    ensures
        turn.navigate(new, flags, encodable) == turn.act(Action::Alert(Fault::PageOutOfRange)),
{
}

/// A page counted from the end within a thread stands for
/// `page_count + page`, a page of the thread: `-1` for the last page, `-2`
/// for the one before it.
pub proof fn lemma_pages_from_the_end(page: i32, page_count: u32)
    requires
        page < 0,
        0 <= page_count + page <= i32::MAX,
    ensures
        0 <= resolve_page(page, page_count) < page_count,
        resolve_page(page, page_count) == page_count + page,
{
}

/// A navigation to a page of the synced thread that was neither fetched nor
/// asked for asks the server for that page, once, and does not ask it to
/// synchronise again; the page is then recorded as asked for.
pub proof fn lemma_page_navigation_fetches_once(
    turn: Turn,
    new: Location,
    flags: u8,
    encodable: bool,
)
    requires
        turn.store.location != new,
        new.feed is Thread,
        new.feed->page >= 0,
        turn.sync matches SyncView::Synced { pages, .. } && turn.sync.follows(new.feed->id)
            && !pages.contains_key(new.feed->page as u32),
    ensures
        ({
            let after = turn.navigate(new, flags, encodable);
            let n = turn.actions.len() as int;
            &&& after.sync == (SyncView::Synced {
                feed: turn.sync->Synced_feed,
                pages: turn.sync->Synced_pages.insert(new.feed->page as u32, false),
            })
            &&& after.actions.len() > n
            &&& after.actions.take(n) == turn.actions
            &&& after.actions[n] == Action::FetchPage(new.feed->page)
            &&& forall|i: int|
                n < i < after.actions.len() ==> !((#[trigger] after.actions[i]) is FetchPage)
            &&& forall|i: int|
                n <= i < after.actions.len() ==> !((#[trigger] after.actions[i]) is Synchronize)
        }),
{
    let page = new.feed->page;
    let fetching = turn.syncing(
        SyncView::Synced {
            feed: turn.sync->Synced_feed,
            pages: turn.sync->Synced_pages.insert(page as u32, false),
        },
    ).act(Action::FetchPage(page));
    let after = fetching.commit_location(new, flags);
    assert(resolve_page(page, turn.store.page_count(new.feed->id)) == page);
    assert(after == turn.navigate(new, flags, encodable));
    lemma_commit_location(fetching, new, flags);
    let n = turn.actions.len() as int;
    assert(after.actions.take(n) =~= turn.actions) by {
        assert(fetching.actions.take(n) =~= turn.actions);
        assert forall|i: int| 0 <= i < n implies after.actions[i] == turn.actions[i] by {
            assert(after.actions[i] == fetching.actions[i]);
        }
    }
    assert(after.actions[n] == fetching.actions[n]);
}

/// What one processing pass leaves to be done.
#[derive(Debug)]
pub struct Outcome {
    /// What is asked of the surroundings, in order
    pub actions: Vec<Action>,
    /// The handles of the observers to wake, each once
    pub wake: Vec<u64>,
}

/// Global state storage and propagation agent.
pub struct Agent {
    /// Observers hooked into change notifications, and those due a wake-up
    hooks: ChangeBus,
    /// State of synchronisation to the current or pending feed
    feed_sync_state: FeedSyncState,
    /// The shared store
    state: State,
}

/// The number up to which the pages are registered once those before the
/// place `i` of the rising `numbers` are: the number at that place, or one
/// more than the largest number there is behind the last place.
spec fn bound(numbers: Seq<i32>, i: int) -> int {
    if 0 <= i < numbers.len() {
        numbers[i] as int
    } else {
        i32::MAX + 1
    }
}

/// Returns the location with the page of its thread resolved.
fn normalize(loc: Location, page_count: u32) -> (resolved: Location)
    ensures
        resolved == normalized(loc, page_count),
{
    match loc.feed {
        FeedID::Thread { id, page } => Location {
            feed: FeedID::Thread { id, page: resolve(page, page_count) },
            focus: loc.focus,
        },
        _ => loc,
    }
}

impl Agent {
    /// Which handle listens to which topic.
    pub closed spec fn subscriptions(&self) -> Set<(Change, u64)> {
        self.hooks.subscriptions()
    }

    /// Feed synchronisation state.
    pub closed spec fn sync(&self) -> SyncView {
        self.feed_sync_state@
    }

    /// The shared store.
    pub closed spec fn store(&self) -> StateView {
        self.state@
    }

    /// The handles queued for a wake-up.
    pub closed spec fn pending(&self) -> Set<u64> {
        self.hooks.pending()
    }

    /// The parts of the coordinator are consistent.
    pub closed spec fn inv(&self) -> bool {
        self.hooks.wf()
    }

    /// The coordinator is consistent and between two passes: nobody is
    /// queued for a wake-up.
    pub open spec fn wf(&self) -> bool {
        &&& self.inv()
        &&& self.pending() == Set::<u64>::empty()
    }

    /// The pass that the coordinator is in, having asked for `actions`.
    pub open spec fn turn(&self, actions: Seq<Action>) -> Turn {
        Turn {
            subscriptions: self.subscriptions(),
            sync: self.sync(),
            store: self.store(),
            actions,
            pending: self.pending(),
        }
    }

    /// A coordinator without observers, that has requested no feed, over an
    /// empty store navigated to `location`.
    pub fn create(location: Location) -> (agent: Self)
        ensures
            agent.wf(),
            agent.subscriptions() == Set::<(Change, u64)>::empty(),
            agent.sync() == SyncView::NotRequested,
            agent.store() == crate::store::empty_state(location),
    {
        Agent {
            hooks: ChangeBus::new(),
            feed_sync_state: FeedSyncState::NotRequested,
            state: State::new(location),
        }
    }

    /// Read access to the shared store.
    pub fn state(&self) -> (state: &State)
        ensures
            state@ == self.store(),
    {
        &self.state
    }

    /// Read access to the state of synchronisation to the feed.
    pub fn feed_sync_state(&self) -> (sync: &FeedSyncState)
        ensures
            sync@ == self.sync(),
    {
        &self.feed_sync_state
    }

    /// Schedules a change notification to the observers hooked to `topic`.
    ///
    /// Notifications are buffered until the end of the pass, so that an
    /// observer hooked to several changed topics is woken once.
    fn trigger(&mut self, topic: &Change, Ghost(actions): Ghost<Seq<Action>>)
        requires
            old(self).inv(),
        ensures
            final(self).inv(),
            final(self).turn(actions) == old(self).turn(actions).mark(*topic),
    {
        self.hooks.mark(*topic);
    }

    /// Hands out the observers to wake and empties the queue.
    fn flush_triggers(&mut self) -> (wake: Vec<u64>)
        requires
            old(self).inv(),
        ensures
            final(self).wf(),
            final(self).subscriptions() == old(self).subscriptions(),
            final(self).sync() == old(self).sync(),
            final(self).store() == old(self).store(),
            wake@.no_duplicates(),
            wake@.to_set() == old(self).pending(),
    {
        self.hooks.flush()
    }

    /// Registers a post: marks it and stores it.
    fn register_post(&mut self, post: Post, Ghost(actions): Ghost<Seq<Action>>)
        requires
            old(self).inv(),
        ensures
            final(self).inv(),
            final(self).turn(actions) == old(self).turn(actions).register_post(post),
    {
        self.trigger(&Change::Post(post.id), Ghost(actions));
        self.state.register_post(post);
    }

    /// Registers posts, in order.
    fn register_posts(&mut self, posts: Vec<Post>, Ghost(actions): Ghost<Seq<Action>>)
        requires
            old(self).inv(),
        ensures
            final(self).inv(),
            final(self).turn(actions) == old(self).turn(actions).register_posts(posts@),
    {
        let ghost start = self.turn(actions);
        let ghost all = posts@;
        for post in iter: posts
            invariant
                iter.seq() == all,
                self.inv(),
                self.turn(actions) == start.register_posts(all.take(iter.index())),
        {
            proof {
                assert(all.take(iter.index() + 1).drop_last() =~= all.take(iter.index()));
            }
            self.register_post(post, Ghost(actions));
        }
        assert(all.take(all.len() as int) =~= all);
    }

    /// Registers a thread and its posts.
    fn register_thread(&mut self, thread: ThreadWithPosts, Ghost(actions): Ghost<Seq<Action>>)
        requires
            old(self).inv(),
        ensures
            final(self).inv(),
            final(self).turn(actions) == old(self).turn(actions).register_thread(thread),
    {
        self.trigger(&Change::ThreadList, Ghost(actions));
        self.trigger(&Change::Thread(thread.thread.id), Ghost(actions));
        self.state.register_thread_meta(thread.thread);
        self.register_posts(thread.posts, Ghost(actions));
    }

    /// Registers the posts of every received page of the table, page by
    /// page in the order of their numbers.
    fn register_pages(
        &mut self,
        pages: HashMap<i32, Option<Vec<Post>>>,
        Ghost(actions): Ghost<Seq<Action>>,
    )
        requires
            old(self).inv(),
        ensures
            final(self).inv(),
            final(self).turn(actions) == old(self).turn(actions).register_pages(pages@),
    {
        let ghost start = self.turn(actions);
        let ghost table = pages@;
        let numbers = page_numbers(&pages);
        let mut pages = pages;
        let mut i: usize = 0;
        proof {
            assert forall|page: i32|
                0 <= page < bound(numbers@, 0) implies !(#[trigger] table.contains_key(page)
                && table[page] is Some) by {
                if table.contains_key(page) {
                    assert(numbers@.to_set().contains(page));
                    let j = choose|j: int| 0 <= j < numbers@.len() && numbers@[j] == page;
                    if j > 0 {
                        assert(numbers@[0] < numbers@[j]);
                    }
                }
            }
            if bound(numbers@, 0) >= 0 {
                lemma_register_pages_gap(start, table, 0, bound(numbers@, 0));
            }
        }
        while i < numbers.len()
            invariant
                i <= numbers.len(),
                self.inv(),
                rising(numbers@),
                numbers@.to_set() == table.dom(),
                forall|j: int|
                    i <= j < numbers@.len() ==> pages@.contains_key(#[trigger] numbers@[j])
                        && pages@[numbers@[j]] == table[numbers@[j]],
                bound(numbers@, i as int) >= 0 ==> self.turn(actions) == start.register_pages_below(
                    table,
                    bound(numbers@, i as int),
                ),
                bound(numbers@, i as int) < 0 ==> self.turn(actions) == start,
            decreases numbers.len() - i,
        {
            let number = numbers[i];
            let ghost before = pages@;
            if number >= 0 {
                match pages.remove(&number) {
                    Some(Some(posts)) => {
                        self.register_posts(posts, Ghost(actions));
                    },
                    _ => {},
                }
            }
            proof {
                assert forall|j: int| i + 1 <= j < numbers@.len() implies pages@.contains_key(
                    #[trigger] numbers@[j],
                ) && pages@[numbers@[j]] == table[numbers@[j]] by {
                    assert(numbers@[i as int] < numbers@[j]);
                    assert(before.contains_key(numbers@[j]));
                }
                let next = bound(numbers@, i + 1);
                if next >= 0 {
                    let from: int = if number >= 0 {
                        number + 1
                    } else {
                        0
                    };
                    assert(self.turn(actions) == start.register_pages_below(table, from));
                    assert forall|page: i32|
                        from <= page < next && 0 <= page implies !(#[trigger] table.contains_key(
                            page,
                        ) && table[page] is Some) by {
                        if table.contains_key(page) {
                            assert(numbers@.to_set().contains(page));
                            let j = choose|j: int| 0 <= j < numbers@.len() && numbers@[j] == page;
                            if j < i {
                                assert(numbers@[j] < numbers@[i as int]);
                            } else if j > i + 1 {
                                assert(numbers@[i + 1] < numbers@[j]);
                            }
                        }
                    }
                    lemma_register_pages_gap(start, table, from, next);
                }
            }
            i = i + 1;
        }
    }

    /// Sets the location and propagates the change, without a look at the
    /// feed.
    fn set_location_no_sync(&mut self, new: Location, flags: u8, actions: &mut Vec<Action>)
        requires
            old(self).inv(),
        ensures
            final(self).inv(),
            final(self).turn(final(actions)@) == old(self).turn(old(actions)@).commit_location(
                new,
                flags,
            ),
    {
        if flag_set(flags, SET_STATE) {
            self.state.set_location(new);
            if !flag_set(flags, NO_TRIGGER) {
                self.trigger(&Change::Location, Ghost(actions@));
            }
        }
        if flag_set(flags, SCROLL_TO_FOCUSED) {
            match new.focus {
                Some(focus) => {
                    actions.push(Action::ScrollNextFrame(focus));
                },
                None => {},
            }
        }
        if flag_set(flags, PUSH_STATE) {
            actions.push(Action::PushState(new));
        }
    }

    /// Returns whether the feed with the code `code` is being received or
    /// synced.
    fn follows(&self, code: u64) -> (same: bool)
        ensures
            same == self.sync().follows(code),
    {
        match &self.feed_sync_state {
            FeedSyncState::NotRequested => false,
            FeedSyncState::Receiving { loc, .. } => loc.feed.as_u64() == code,
            FeedSyncState::Synced { feed, .. } => feed.as_u64() == code,
        }
    }

    /// Fetches feed data from the server, if needed. Returns whether a fetch
    /// is outstanding.
    fn try_sync_feed(
        &mut self,
        new: &Location,
        flags: u8,
        encodable: bool,
        actions: &mut Vec<Action>,
    ) -> (fetching: bool)
        requires
            old(self).inv(),
        ensures
            final(self).inv(),
            final(self).turn(final(actions)@) == old(self).turn(old(actions)@).request_sync(
                *new,
                flags,
                encodable,
            ),
            fetching == old(self).turn(old(actions)@).fetch_outstanding(*new, encodable),
    {
        let code = new.feed.as_u64();
        if !self.follows(code) {
            if !encodable {
                actions.push(Action::Alert(Fault::NotEncodable));
                return false;
            }
            let mut pages: HashMap<i32, Option<Vec<Post>>> = HashMap::new();
            let mut asked: Option<i32> = None;
            match new.feed {
                FeedID::Thread { page, .. } => {
                    pages.insert(page, None);
                    asked = Some(page);
                },
                _ => {},
            }
            assert(pages@ =~= first_pages(new.feed));
            self.feed_sync_state = FeedSyncState::Receiving {
                loc: *new,
                thread: None,
                pages,
                flags,
            };
            actions.push(Action::Synchronize { feed: code, page: asked });
            return true;
        }
        let mut sync = FeedSyncState::NotRequested;
        std::mem::swap(&mut sync, &mut self.feed_sync_state);
        match sync {
            FeedSyncState::Receiving { loc, thread, mut pages, flags: first_flags } => {
                match new.feed {
                    FeedID::Thread { page, .. } => {
                        if !pages.contains_key(&page) {
                            pages.insert(page, None);
                            actions.push(Action::FetchPage(page));
                        }
                    },
                    _ => {},
                }
                self.feed_sync_state = FeedSyncState::Receiving {
                    loc: *new,
                    thread,
                    pages,
                    flags: first_flags,
                };
                true
            },
            other => {
                self.feed_sync_state = other;
                false
            },
        }
    }

    /// Sets the location and propagates the change, after syncing to its
    /// feed where that is needed.
    fn set_location(
        &mut self,
        new: Location,
        flags: u8,
        encodable: bool,
        actions: &mut Vec<Action>,
    )
        requires
            old(self).inv(),
        ensures
            final(self).inv(),
            final(self).turn(final(actions)@) == old(self).turn(old(actions)@).navigate(
                new,
                flags,
                encodable,
            ),
    {
        if self.state.location() == new {
            // Scroll to the focused element even if the location did not
            // change: it may have been scrolled away from since.
            if flag_set(flags, SCROLL_TO_FOCUSED) {
                match new.focus {
                    Some(focus) => {
                        actions.push(Action::ScrollTo(focus));
                    },
                    None => {},
                }
            }
            return;
        }
        match new.feed {
            FeedID::Thread { id, page } => {
                let synced = match &self.feed_sync_state {
                    FeedSyncState::Synced { feed, .. } => feed.as_u64() == id,
                    _ => false,
                };
                if synced {
                    let resolved = resolve(page, self.state.page_count(id));
                    if page < -1 || resolved < 0 {
                        actions.push(Action::Alert(Fault::PageOutOfRange));
                        return;
                    }
                    let key = resolved as u32;
                    let mut sync = FeedSyncState::NotRequested;
                    std::mem::swap(&mut sync, &mut self.feed_sync_state);
                    match sync {
                        FeedSyncState::Synced { feed, mut pages } => {
                            if !pages.contains_key(&key) {
                                pages.insert(key, false);
                                actions.push(Action::FetchPage(resolved));
                            }
                            self.feed_sync_state = FeedSyncState::Synced { feed, pages };
                        },
                        other => {
                            self.feed_sync_state = other;
                        },
                    }
                    self.set_location_no_sync(new, flags, actions);
                    return;
                }
            },
            _ => {},
        }
        let known = self.follows(new.feed.as_u64());
        let fetching = self.try_sync_feed(&new, flags, encodable, actions);
        if fetching || !(known || encodable) {
            return;
        }
        self.set_location_no_sync(new, flags, actions);
    }

    /// Keeps the metadata of the thread whose feed is being received.
    fn register_thread_meta(&mut self, meta: ThreadMeta, Ghost(actions): Ghost<Seq<Action>>)
        requires
            old(self).inv(),
        ensures
            final(self).inv(),
            final(self).turn(actions) == old(self).turn(actions).register_thread_meta(meta),
    {
        let mut sync = FeedSyncState::NotRequested;
        std::mem::swap(&mut sync, &mut self.feed_sync_state);
        match sync {
            FeedSyncState::Receiving { loc, thread, pages, flags } => {
                let kept = if loc.feed.as_u64() == meta.id {
                    Some(meta)
                } else {
                    thread
                };
                self.feed_sync_state = FeedSyncState::Receiving { loc, thread: kept, pages, flags };
            },
            other => {
                self.feed_sync_state = other;
            },
        }
    }

    /// Registers the posts of a page in the application state.
    fn register_page(&mut self, posts: Vec<Post>, actions: &mut Vec<Action>)
        requires
            old(self).inv(),
        ensures
            final(self).inv(),
            final(self).turn(final(actions)@) == old(self).turn(old(actions)@).register_page(
                posts,
            ),
    {
        if posts.len() == 0 {
            return;
        }
        let thread_id = posts[0].thread;
        let page = posts[0].page;
        let mut sync = FeedSyncState::NotRequested;
        std::mem::swap(&mut sync, &mut self.feed_sync_state);
        match sync {
            FeedSyncState::Receiving { loc, thread, mut pages, flags } => {
                // Posts are taken in only once the metadata has come and the
                // thread is the one asked for, not to overwrite the data of
                // another feed.
                let meta = match thread {
                    Some(meta) => if loc.feed.as_u64() == thread_id && page <= 2147483647 {
                        Some(meta)
                    } else {
                        None
                    },
                    None => None,
                };
                match meta {
                    Some(meta) => {
                        let number = page as i32;
                        pages.insert(number, Some(posts));
                        // Also record the page number counted from the back,
                        // to prevent duplicate requests
                        pages.insert(mirror(number, meta.page_count), None);
                        if is_complete(&pages) {
                            self.feed_sync_state = FeedSyncState::Synced {
                                feed: loc.feed,
                                pages: fetched_pages(&pages),
                            };
                            self.trigger(&Change::ThreadList, Ghost(actions@));
                            self.trigger(&Change::Thread(thread_id), Ghost(actions@));
                            self.state.register_thread_meta(meta);
                            self.register_pages(pages, Ghost(actions@));
                            let target = normalize(loc, meta.page_count);
                            self.set_location_no_sync(target, flags, actions);
                        } else {
                            self.feed_sync_state = FeedSyncState::Receiving {
                                loc,
                                thread,
                                pages,
                                flags,
                            };
                        }
                    },
                    None => {
                        self.feed_sync_state = FeedSyncState::Receiving {
                            loc,
                            thread,
                            pages,
                            flags,
                        };
                    },
                }
            },
            other => {
                // Data for a feed that is not being received is stale
                self.feed_sync_state = other;
            },
        }
    }

    /// Registers threads passed from the thread index feed.
    fn register_threads(&mut self, threads: Vec<ThreadWithPosts>, actions: &mut Vec<Action>)
        requires
            old(self).inv(),
        ensures
            final(self).inv(),
            final(self).turn(final(actions)@) == old(self).turn(old(actions)@).register_threads(
                threads@,
            ),
    {
        let target = match &self.feed_sync_state {
            FeedSyncState::Receiving { loc, flags, .. } => if loc.feed.as_u64() == 0 {
                Some((*loc, *flags))
            } else {
                None
            },
            _ => None,
        };
        match target {
            Some((loc, flags)) => {
                self.feed_sync_state = FeedSyncState::Synced {
                    feed: loc.feed,
                    pages: HashMap::new(),
                };
                let ghost start = self.turn(actions@);
                let ghost all = threads@;
                for thread in iter: threads
                    invariant
                        iter.seq() == all,
                        self.inv(),
                        self.turn(actions@) == start.register_thread_list(
                            all.take(iter.index()),
                        ),
                {
                    proof {
                        assert(all.take(iter.index() + 1).drop_last() =~= all.take(iter.index()));
                    }
                    self.register_thread(thread, Ghost(actions@));
                }
                assert(all.take(all.len() as int) =~= all);
                self.set_location_no_sync(loc, flags, actions);
            },
            None => {},
        }
    }

    /// Handles the request `req` of the observer `id` in one pass and ends
    /// the pass: whoever listens to a topic that the request marked is handed
    /// out to be woken, once, however many of its topics were marked.
    ///
    /// `encodable` says whether the request to synchronise to a feed can be
    /// encoded for the server; the caller tries before it asks.
    pub fn handle_input(&mut self, req: Request, id: u64, encodable: bool) -> (out: Outcome)
        requires
            old(self).wf(),
        ensures
            final(self).wf(),
            final(self).subscriptions() == old(self).turn(Seq::empty()).handle(
                req,
                id,
                encodable,
            ).subscriptions,
            final(self).sync() == old(self).turn(Seq::empty()).handle(req, id, encodable).sync,
            final(self).store() == old(self).turn(Seq::empty()).handle(req, id, encodable).store,
            out.actions@ == old(self).turn(Seq::empty()).handle(req, id, encodable).actions,
            out.wake@.no_duplicates(),
            out.wake@.to_set() == old(self).turn(Seq::empty()).handle(req, id, encodable).pending,
    {
        let mut actions: Vec<Action> = Vec::new();
        let ghost start = self.turn(actions@);
        assert(actions@ =~= Seq::<Action>::empty());
        match req {
            Request::NotifyChange(topics) => {
                self.hooks.subscribe(id, &topics);
            },
            Request::ChangeNotifications { remove, add } => {
                self.hooks.unsubscribe(id, &remove);
                self.hooks.subscribe(id, &add);
            },
            Request::NavigateTo { loc, flags } => {
                self.set_location(loc, flags, encodable, &mut actions);
            },
            Request::FetchFeed(loc) => {
                self.try_sync_feed(&loc, SCROLL_TO_FOCUSED, encodable, &mut actions);
            },
            Request::SetKeyID(key) => {
                self.state.set_key_id(key);
                actions.push(Action::StoreKeyPair);
            },
            Request::SetMine(post) => {
                self.state.set_mine(post);
            },
            Request::SetOpenPostID(post) => {
                self.state.set_open_post_id(post);
                self.trigger(&Change::OpenPostID, Ghost(actions@));
            },
            Request::RegisterPost(post) => {
                self.trigger(&Change::Thread(post.thread), Ghost(actions@));
                self.register_post(post, Ghost(actions@));
            },
            Request::RegisterPage(posts) => {
                self.register_page(posts, &mut actions);
            },
            Request::RegisterThreadMeta(meta) => {
                self.register_thread_meta(meta, Ghost(actions@));
            },
            Request::RegisterThread(thread) => {
                self.register_thread(thread, Ghost(actions@));
            },
            Request::RegisterThreads(threads) => {
                self.register_threads(threads, &mut actions);
            },
            Request::PatchPostBody { id: post, body } => {
                if self.state.set_post_body(post, body) {
                    self.trigger(&Change::Post(post), Ghost(actions@));
                }
            },
            Request::ClosePost { id: post, body } => {
                let was_open = match self.state.open_post_id() {
                    Some(open) => open == post,
                    None => false,
                };
                if self.state.close_post(post, body) {
                    self.trigger(&Change::Post(post), Ghost(actions@));
                }
                if was_open {
                    self.state.set_open_post_id(None);
                    self.trigger(&Change::OpenPostID, Ghost(actions@));
                }
            },
            Request::SetUsedTags(tags) => {
                self.state.set_used_tags(tags);
                self.trigger(&Change::UsedTags, Ghost(actions@));
            },
            Request::SetTimeCorrection(seconds) => {
                self.state.set_time_correction(seconds);
                self.trigger(&Change::TimeCorrection, Ghost(actions@));
            },
            Request::SetConfigs(configs) => {
                self.state.set_configs(configs);
                self.trigger(&Change::Configs, Ghost(actions@));
            },
            Request::SetPostPinCoords { post, change } => {
                self.state.set_post_pin(post, change);
                self.trigger(&Change::Post(post), Ghost(actions@));
            },
        }
        assert(self.turn(actions@) == start.handle(req, id, encodable));
        let wake = self.flush_triggers();
        Outcome { actions, wake }
    }

    /// Handles news of the page in one pass and ends the pass as
    /// `handle_input` does.
    pub fn update(&mut self, msg: Message, encodable: bool) -> (out: Outcome)
        requires
            old(self).wf(),
        ensures
            final(self).wf(),
            final(self).subscriptions() == old(self).subscriptions(),
            final(self).sync() == old(self).turn(Seq::empty()).update(msg, encodable).sync,
            final(self).store() == old(self).turn(Seq::empty()).update(msg, encodable).store,
            out.actions@ == old(self).turn(Seq::empty()).update(msg, encodable).actions,
            out.wake@.no_duplicates(),
            out.wake@.to_set() == old(self).turn(Seq::empty()).update(msg, encodable).pending,
    {
        let mut actions: Vec<Action> = Vec::new();
        let ghost start = self.turn(actions@);
        assert(actions@ =~= Seq::<Action>::empty());
        match msg {
            Message::ScrollTo(focus) => {
                actions.push(Action::ScrollTo(focus));
            },
            Message::PoppedState(loc) => {
                let flags: u8 = SET_STATE | SCROLL_TO_FOCUSED;
                assert(2u8 | 4u8 == 6u8) by (bit_vector);
                self.set_location(loc, flags, encodable, &mut actions);
            },
        }
        assert(self.turn(actions@) == start.update(msg, encodable));
        let wake = self.flush_triggers();
        Outcome { actions, wake }
    }

    /// The observer `id` has disconnected: every subscription of it ends.
    pub fn disconnected(&mut self, id: u64)
        requires
            old(self).wf(),
        ensures
            final(self).wf(),
            final(self).subscriptions() == without_handle(old(self).subscriptions(), id),
            final(self).sync() == old(self).sync(),
            final(self).store() == old(self).store(),
    {
        self.hooks.unsubscribe_all(id);
    }
}

/// The request that navigates the app to `loc`: its address is pushed to the
/// history, the store is navigated to it, and its focus is scrolled to.
pub fn navigate_to(loc: Location) -> (req: Request)
    ensures
        req == (Request::NavigateTo { loc, flags: 7 }),
{
    assert(1u8 | 2u8 | 4u8 == 7u8) by (bit_vector);
    Request::NavigateTo { loc, flags: PUSH_STATE | SET_STATE | SCROLL_TO_FOCUSED }
}

} // verus!
