use board_client::location::{FeedID, Location};
use board_client::mouse::Coordinates;
use board_client::store::{page_key_of, Post, PostPinChange, State, ThreadMeta};

fn post(id: u64, thread: u64, page: u32) -> Post {
    Post { id, thread, page, open: true, body: vec![1, 2, 3] }
}

#[test]
fn page_keys_tell_pages_apart() {
    assert_eq!(page_key_of(0, 0), 0);
    assert_eq!(page_key_of(0, 1), 1);
    assert_eq!(page_key_of(1, 0), 1 << 32);
    assert_eq!(page_key_of(1, u32::MAX), (1u128 << 33) - 1);
    assert_eq!(page_key_of(u64::MAX, u32::MAX), (1u128 << 96) - 1);
    assert_ne!(page_key_of(1, 0), page_key_of(0, u32::MAX));
}

#[test]
fn new_store_is_empty() {
    let loc = Location { feed: FeedID::Catalog, focus: None };
    let state = State::new(loc);
    assert_eq!(state.location(), loc);
    assert_eq!(state.thread(1), None);
    assert_eq!(state.post(1), None);
    assert_eq!(state.page_posts(1, 0), None);
    assert_eq!(state.page_count(1), 0);
    assert_eq!(state.pinned(1), None);
    assert!(state.pinned_ids().is_empty());
    assert!(state.used_tags().is_empty());
    assert_eq!(state.time_correction(), 0);
    assert!(state.configs().is_empty());
    assert_eq!(state.open_post_id(), None);
    assert!(!state.is_mine(1));
    assert_eq!(state.key_id(), None);
}

#[test]
fn posts_are_indexed_by_page() {
    let mut state = State::new(Location::default());
    state.register_post(post(1, 10, 0));
    state.register_post(post(2, 10, 0));
    state.register_post(post(3, 10, 1));
    state.register_post(post(4, 11, 0));
    let ids = |thread, page| {
        state.page_posts(thread, page).map(|s| {
            let mut v: Vec<u64> = s.iter().copied().collect();
            v.sort();
            v
        })
    };
    assert_eq!(ids(10, 0), Some(vec![1, 2]));
    assert_eq!(ids(10, 1), Some(vec![3]));
    assert_eq!(ids(11, 0), Some(vec![4]));
    assert_eq!(ids(11, 1), None);
    assert_eq!(state.post(3), Some(&post(3, 10, 1)));
}

#[test]
fn threads_and_their_page_counts() {
    let mut state = State::new(Location::default());
    let meta = ThreadMeta { id: 10, page_count: 4, bumped_on: 99 };
    state.register_thread_meta(meta);
    assert_eq!(state.thread(10), Some(&meta));
    assert_eq!(state.page_count(10), 4);
    state.register_thread_meta(ThreadMeta { id: 10, page_count: 5, bumped_on: 100 });
    assert_eq!(state.page_count(10), 5);
}

#[test]
fn closing_and_patching() {
    let mut state = State::new(Location::default());
    assert!(!state.close_post(1, vec![]));
    assert!(!state.set_post_body(1, vec![]));
    state.register_post(post(1, 10, 0));
    assert!(state.set_post_body(1, vec![7]));
    assert_eq!(
        state.post(1),
        Some(&Post { id: 1, thread: 10, page: 0, open: true, body: vec![7] })
    );
    assert!(state.close_post(1, vec![8, 9]));
    assert_eq!(
        state.post(1),
        Some(&Post { id: 1, thread: 10, page: 0, open: false, body: vec![8, 9] })
    );
}

#[test]
fn pins_wrap_round_when_incremented_past_the_range() {
    let mut state = State::new(Location::default());
    state.set_post_pin(1, PostPinChange::Put(Coordinates { x: i32::MAX, y: i32::MIN }));
    state.set_post_pin(1, PostPinChange::Increment(Coordinates { x: 1, y: -1 }));
    assert_eq!(state.pinned(1), Some(Coordinates { x: i32::MIN, y: i32::MAX }));
}

#[test]
fn location_can_be_set() {
    let mut state = State::new(Location::default());
    let loc = Location { feed: FeedID::Thread { id: 1, page: 2 }, focus: None };
    state.set_location(loc);
    assert_eq!(state.location(), loc);
}
