//! The shared state store: what the application knows of threads and posts,
//! and the few values that go with them.

use crate::location::Location;
use crate::mouse::Coordinates;
use crate::set_map::{with_value, SetMap};
use std::collections::{HashMap, HashSet};
use vstd::prelude::*;
use vstd::std_specs::hash::*;
use vstd::std_specs::iter::IteratorSpec;

verus! {

broadcast use vstd::std_specs::hash::group_hash_axioms;

/// What is known of a thread apart from its posts.
#[derive(Debug, Clone, Copy, PartialEq, Eq, Structural)]
pub struct ThreadMeta {
    /// Thread ID
    pub id: u64,
    /// Number of pages the thread has
    pub page_count: u32,
    /// When the thread was last bumped, in seconds of Unix time
    pub bumped_on: u32,
}

/// A post, with its body as it came off the wire.
#[derive(Debug, Clone, PartialEq, Eq)]
pub struct Post {
    /// Post ID
    pub id: u64,
    /// ID of the thread the post belongs to
    pub thread: u64,
    /// Page of the thread the post stands on
    pub page: u32,
    /// Whether the post is still being written
    pub open: bool,
    /// Encoded body
    pub body: Vec<u8>,
}

/// A thread and posts of it.
#[derive(Debug, Clone, PartialEq, Eq)]
pub struct ThreadWithPosts {
    pub thread: ThreadMeta,
    pub posts: Vec<Post>,
}

/// Change to apply to a post's pin status.
#[derive(Debug, Clone, Copy, PartialEq, Eq, Structural)]
pub enum PostPinChange {
    /// Set coordinates of post
    Put(Coordinates),
    /// Increment the current value of the coordinates
    Increment(Coordinates),
    /// Unmark the post as pinned
    Remove,
}

/// What separates the keys of one thread's pages from those of the next.
pub open spec fn page_span() -> int {
    0x1_0000_0000
}

/// The key under which the posts of one page of one thread are indexed.
pub open spec fn page_key(thread: u64, page: u32) -> u128 {
    (thread as int * page_span() + page as int) as u128
}

/// Two pages with one key are one page of one thread.
pub proof fn lemma_page_key_injective(thread: u64, page: u32, thread2: u64, page2: u32)
    requires
        page_key(thread, page) == page_key(thread2, page2),
    ensures
        thread == thread2,
        page == page2,
{
}

/// Returns the key under which the posts of one page of one thread are
/// indexed.
pub fn page_key_of(thread: u64, page: u32) -> (key: u128)
    ensures
        key == page_key(thread, page),
{
    let span: u128 = 0x1_0000_0000;
    (thread as u128) * span + (page as u128)
}

/// What the store holds, as plain values.
pub struct StateView {
    /// Location the app is navigated to
    pub location: Location,
    /// All registered threads, by ID
    pub threads: Map<u64, ThreadMeta>,
    /// All registered posts, by ID
    pub posts: Map<u64, Post>,
    /// IDs of the posts of each page of each thread, by page key
    pub posts_by_thread_page: Map<u128, Set<u64>>,
    /// Posts pinned to the viewport, with their coordinates
    pub pinned_posts: Map<u64, Coordinates>,
    /// Tags already used on threads
    pub used_tags: Seq<String>,
    /// Seconds to add to the client's clock to get the server's
    pub time_correction: i32,
    /// Configuration sent by the server, encoded
    pub configs: Seq<u8>,
    /// Post currently being edited
    pub open_post_id: Option<u64>,
    /// Posts created by this user
    pub mine: Set<u64>,
    /// ID of the key pair in use
    pub key_id: Option<u128>,
}

/// What a post is once it has been closed with `body`.
pub open spec fn closed_post(post: Post, body: Vec<u8>) -> Post {
    Post { body, open: false, ..post }
}

/// What a post is once its body has been replaced by `body`.
pub open spec fn patched_post(post: Post, body: Vec<u8>) -> Post {
    Post { body, ..post }
}

impl StateView {
    /// The store with the post registered: stored under its ID, and its ID
    /// added to the posts of its page.
    pub open spec fn with_post(self, post: Post) -> StateView {
        let key = page_key(post.thread, post.page);
        StateView {
            posts: self.posts.insert(post.id, post),
            posts_by_thread_page: self.posts_by_thread_page.insert(
                key,
                with_value(self.posts_by_thread_page, key, post.id),
            ),
            ..self
        }
    }

    /// The store with the thread's metadata stored under its ID.
    pub open spec fn with_thread(self, thread: ThreadMeta) -> StateView {
        StateView { threads: self.threads.insert(thread.id, thread), ..self }
    }

    /// The store navigated to `location`.
    pub open spec fn at(self, location: Location) -> StateView {
        StateView { location, ..self }
    }

    /// The number of pages of a thread; zero for one that is not registered.
    pub open spec fn page_count(self, thread: u64) -> u32 {
        if self.threads.contains_key(thread) {
            self.threads[thread].page_count
        } else {
            0
        }
    }

    /// The store with the post closed, if it is registered.
    pub open spec fn with_closed(self, id: u64, body: Vec<u8>) -> StateView {
        if self.posts.contains_key(id) {
            StateView { posts: self.posts.insert(id, closed_post(self.posts[id], body)), ..self }
        } else {
            self
        }
    }

    /// The store with the post's body replaced, if it is registered.
    pub open spec fn with_body(self, id: u64, body: Vec<u8>) -> StateView {
        if self.posts.contains_key(id) {
            StateView { posts: self.posts.insert(id, patched_post(self.posts[id], body)), ..self }
        } else {
            self
        }
    }

    /// The pins once `change` has been applied to the pin of `post`. To set
    /// pins the post there; to increment moves a pinned post and leaves an
    /// unpinned one unpinned; to remove unpins it.
    pub open spec fn pins_after(self, post: u64, change: PostPinChange) -> Map<u64, Coordinates> {
        match change {
            PostPinChange::Put(c) => self.pinned_posts.insert(post, c),
            PostPinChange::Increment(c) => if self.pinned_posts.contains_key(post) {
                self.pinned_posts.insert(post, self.pinned_posts[post].moved_by(c))
            } else {
                self.pinned_posts
            },
            PostPinChange::Remove => self.pinned_posts.remove(post),
        }
    }

    /// The store with `change` applied to the pin of `post`.
    pub open spec fn with_pin(self, post: u64, change: PostPinChange) -> StateView {
        StateView { pinned_posts: self.pins_after(post, change), ..self }
    }
}

/// The shared state of the application.
pub struct State {
    location: Location,
    threads: HashMap<u64, ThreadMeta>,
    posts: HashMap<u64, Post>,
    posts_by_thread_page: SetMap<u128, u64>,
    pinned_posts: HashMap<u64, Coordinates>,
    used_tags: Vec<String>,
    time_correction: i32,
    configs: Vec<u8>,
    open_post_id: Option<u64>,
    mine: HashSet<u64>,
    key_id: Option<u128>,
}

impl View for State {
    type V = StateView;

    closed spec fn view(&self) -> StateView {
        StateView {
            location: self.location,
            threads: self.threads@,
            posts: self.posts@,
            posts_by_thread_page: self.posts_by_thread_page@,
            pinned_posts: self.pinned_posts@,
            used_tags: self.used_tags@,
            time_correction: self.time_correction,
            configs: self.configs@,
            open_post_id: self.open_post_id,
            mine: self.mine@,
            key_id: self.key_id,
        }
    }
}

/// A store that holds nothing and is navigated to `location`.
pub open spec fn empty_state(location: Location) -> StateView {
    StateView {
        location,
        threads: Map::empty(),
        posts: Map::empty(),
        posts_by_thread_page: Map::empty(),
        pinned_posts: Map::empty(),
        used_tags: Seq::empty(),
        time_correction: 0,
        configs: Seq::empty(),
        open_post_id: None,
        mine: Set::empty(),
        key_id: None,
    }
}

impl State {
    /// A store that holds nothing and is navigated to `location`.
    pub fn new(location: Location) -> (state: Self)
        ensures
            state@ == empty_state(location),
    {
        State {
            location,
            threads: HashMap::new(),
            posts: HashMap::new(),
            posts_by_thread_page: SetMap::new(),
            pinned_posts: HashMap::new(),
            used_tags: Vec::new(),
            time_correction: 0,
            configs: Vec::new(),
            open_post_id: None,
            mine: HashSet::new(),
            key_id: None,
        }
    }

    /// Location the app is navigated to.
    pub fn location(&self) -> (location: Location)
        ensures
            location == self@.location,
    {
        self.location
    }

    /// Metadata of a thread, if it is registered.
    pub fn thread(&self, id: u64) -> (thread: Option<&ThreadMeta>)
        ensures
            thread is Some <==> self@.threads.contains_key(id),
            thread is Some ==> *thread.unwrap() == self@.threads[id],
    {
        self.threads.get(&id)
    }

    /// A post, if it is registered.
    pub fn post(&self, id: u64) -> (post: Option<&Post>)
        ensures
            post is Some <==> self@.posts.contains_key(id),
            post is Some ==> *post.unwrap() == self@.posts[id],
    {
        self.posts.get(&id)
    }

    /// IDs of the posts registered on a page of a thread, if there is any.
    pub fn page_posts(&self, thread: u64, page: u32) -> (ids: Option<&HashSet<u64>>)
        ensures
            ids is Some <==> self@.posts_by_thread_page.contains_key(page_key(thread, page)),
            ids is Some ==> ids.unwrap()@ == self@.posts_by_thread_page[page_key(thread, page)],
    {
        let key = page_key_of(thread, page);
        self.posts_by_thread_page.get(&key)
    }

    /// Number of pages of a thread; zero for one that is not registered.
    pub fn page_count(&self, thread: u64) -> (count: u32)
        ensures
            count == self@.page_count(thread),
    {
        match self.threads.get(&thread) {
            Some(meta) => meta.page_count,
            None => 0,
        }
    }

    /// Coordinates of a pinned post; none for one that is not pinned.
    pub fn pinned(&self, post: u64) -> (at: Option<Coordinates>)
        ensures
            at == self@.pinned_posts.get(post),
    {
        match self.pinned_posts.get(&post) {
            Some(c) => Some(*c),
            None => None,
        }
    }

    /// IDs of the pinned posts, each once.
    pub fn pinned_ids(&self) -> (ids: Vec<u64>)
        ensures
            ids@.no_duplicates(),
            ids@.to_set() == self@.pinned_posts.dom(),
    {
        let mut ids: Vec<u64> = Vec::new();
        let ghost all = self.pinned_posts.keys().remaining();
        for id in iter: self.pinned_posts.keys()
            invariant
                iter.seq() == all,
                ids@ == all.unref().take(iter.index()),
        {
            ids.push(*id);
            assert(all.unref().take(iter.index() + 1) =~= all.unref().take(iter.index()).push(
                *id,
            ));
        }
        proof {
            assert(all.unref().take(all.len() as int) =~= all.unref());
            assert forall|i: int, j: int|
                0 <= i < ids@.len() && 0 <= j < ids@.len() && i != j implies ids@[i] != ids@[j] by {
                assert(ids@[i] == *all[i] && ids@[j] == *all[j]);
                if ids@[i] == ids@[j] {
                    assert(all[i] == all[j]);
                }
            }
        }
        ids
    }

    /// IDs of the registered threads, each once.
    pub fn thread_ids(&self) -> (ids: Vec<u64>)
        ensures
            ids@.no_duplicates(),
            ids@.to_set() == self@.threads.dom(),
    {
        let mut ids: Vec<u64> = Vec::new();
        let ghost all = self.threads.keys().remaining();
        for id in iter: self.threads.keys()
            invariant
                iter.seq() == all,
                ids@ == all.unref().take(iter.index()),
        {
            ids.push(*id);
            assert(all.unref().take(iter.index() + 1) =~= all.unref().take(iter.index()).push(
                *id,
            ));
        }
        proof {
            assert(all.unref().take(all.len() as int) =~= all.unref());
            assert forall|i: int, j: int|
                0 <= i < ids@.len() && 0 <= j < ids@.len() && i != j implies ids@[i] != ids@[j] by {
                assert(ids@[i] == *all[i] && ids@[j] == *all[j]);
                if ids@[i] == ids@[j] {
                    assert(all[i] == all[j]);
                }
            }
        }
        ids
    }

    /// Tags already used on threads.
    pub fn used_tags(&self) -> (tags: &Vec<String>)
        ensures
            tags@ == self@.used_tags,
    {
        &self.used_tags
    }

    /// Seconds to add to the client's clock to get the server's.
    pub fn time_correction(&self) -> (seconds: i32)
        ensures
            seconds == self@.time_correction,
    {
        self.time_correction
    }

    /// Configuration sent by the server, encoded.
    pub fn configs(&self) -> (configs: &Vec<u8>)
        ensures
            configs@ == self@.configs,
    {
        &self.configs
    }

    /// Post currently being edited.
    pub fn open_post_id(&self) -> (id: Option<u64>)
        ensures
            id == self@.open_post_id,
    {
        self.open_post_id
    }

    /// Whether a post was created by this user.
    pub fn is_mine(&self, post: u64) -> (mine: bool)
        ensures
            mine == self@.mine.contains(post),
    {
        self.mine.contains(&post)
    }

    /// ID of the key pair in use.
    pub fn key_id(&self) -> (id: Option<u128>)
        ensures
            id == self@.key_id,
    {
        self.key_id
    }

    /// Navigates the store to `location`.
    pub fn set_location(&mut self, location: Location)
        ensures
            final(self)@ == old(self)@.at(location),
    {
        self.location = location;
    }

    /// Stores the metadata of a thread under its ID.
    pub fn register_thread_meta(&mut self, thread: ThreadMeta)
        ensures
            final(self)@ == old(self)@.with_thread(thread),
    {
        self.threads.insert(thread.id, thread);
    }

    /// Stores a post under its ID and adds it to the posts of its page.
    pub fn register_post(&mut self, post: Post)
        ensures
            final(self)@ == old(self)@.with_post(post),
    {
        let key = page_key_of(post.thread, post.page);
        self.posts_by_thread_page.insert(key, post.id);
        self.posts.insert(post.id, post);
    }

    /// Closes a post with its final body. Returns whether the post is
    /// registered; one that is not changes nothing.
    pub fn close_post(&mut self, id: u64, body: Vec<u8>) -> (known: bool)
        ensures
            known == old(self)@.posts.contains_key(id),
            final(self)@ == old(self)@.with_closed(id, body),
    {
        match self.posts.remove(&id) {
            Some(post) => {
                let closed = Post {
                    id: post.id,
                    thread: post.thread,
                    page: post.page,
                    open: false,
                    body,
                };
                self.posts.insert(id, closed);
                assert(self.posts@ =~= old(self).posts@.insert(
                    id,
                    closed_post(old(self).posts@[id], body),
                ));
                true
            },
            None => {
                assert(self.posts@ =~= old(self).posts@);
                false
            },
        }
    }

    /// Replaces the body of a post. Returns whether the post is registered;
    /// one that is not changes nothing.
    pub fn set_post_body(&mut self, id: u64, body: Vec<u8>) -> (known: bool)
        ensures
            known == old(self)@.posts.contains_key(id),
            final(self)@ == old(self)@.with_body(id, body),
    {
        match self.posts.remove(&id) {
            Some(post) => {
                let patched = Post {
                    id: post.id,
                    thread: post.thread,
                    page: post.page,
                    open: post.open,
                    body,
                };
                self.posts.insert(id, patched);
                assert(self.posts@ =~= old(self).posts@.insert(
                    id,
                    patched_post(old(self).posts@[id], body),
                ));
                true
            },
            None => {
                assert(self.posts@ =~= old(self).posts@);
                false
            },
        }
    }

    /// Sets or clears the post currently being edited.
    pub fn set_open_post_id(&mut self, id: Option<u64>)
        ensures
            final(self)@ == (StateView { open_post_id: id, ..old(self)@ }),
    {
        self.open_post_id = id;
    }

    /// Marks a post as created by this user.
    pub fn set_mine(&mut self, post: u64)
        ensures
            final(self)@ == (StateView { mine: old(self)@.mine.insert(post), ..old(self)@ }),
    {
        self.mine.insert(post);
    }

    /// Sets the tags used on threads.
    pub fn set_used_tags(&mut self, tags: Vec<String>)
        ensures
            final(self)@ == (StateView { used_tags: tags@, ..old(self)@ }),
    {
        self.used_tags = tags;
    }

    /// Sets the correction of the client's clock.
    pub fn set_time_correction(&mut self, seconds: i32)
        ensures
            final(self)@ == (StateView { time_correction: seconds, ..old(self)@ }),
    {
        self.time_correction = seconds;
    }

    /// Sets the configuration sent by the server.
    pub fn set_configs(&mut self, configs: Vec<u8>)
        ensures
            final(self)@ == (StateView { configs: configs@, ..old(self)@ }),
    {
        self.configs = configs;
    }

    /// Sets or clears the ID of the key pair in use.
    pub fn set_key_id(&mut self, id: Option<u128>)
        ensures
            final(self)@ == (StateView { key_id: id, ..old(self)@ }),
    {
        self.key_id = id;
    }

    /// Applies a change to the pin of a post.
    pub fn set_post_pin(&mut self, post: u64, change: PostPinChange)
        ensures
            final(self)@ == old(self)@.with_pin(post, change),
    {
        match change {
            PostPinChange::Put(c) => {
                self.pinned_posts.insert(post, c);
            },
            PostPinChange::Increment(c) => {
                let at = match self.pinned_posts.get(&post) {
                    Some(at) => Some(*at),
                    None => None,
                };
                match at {
                    Some(at) => {
                        self.pinned_posts.insert(post, at + c);
                    },
                    None => {},
                }
            },
            PostPinChange::Remove => {
                self.pinned_posts.remove(&post);
            },
        }
    }
}

} // verus!
