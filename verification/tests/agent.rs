use board_client::agent::{
    flag_set, navigate_to, Action, Agent, Fault, Message, Request, NO_TRIGGER, PUSH_STATE,
    SCROLL_TO_FOCUSED, SET_STATE,
};
use board_client::change::Change;
use board_client::feed::{mirror, page_numbers, resolve, FeedSyncState};
use board_client::location::{FeedID, Focus, Location};
use board_client::mouse::Coordinates;
use board_client::store::{Post, PostPinChange, ThreadMeta, ThreadWithPosts};
use std::collections::HashMap;

const ALL: u8 = PUSH_STATE | SET_STATE | SCROLL_TO_FOCUSED;

fn post(id: u64, thread: u64, page: u32) -> Post {
    Post { id, thread, page, open: false, body: vec![id as u8] }
}

fn meta(id: u64, page_count: u32) -> ThreadMeta {
    ThreadMeta { id, page_count, bumped_on: 0 }
}

fn thread(id: u64, page: i32) -> Location {
    Location { feed: FeedID::Thread { id, page }, focus: None }
}

fn index() -> Location {
    Location { feed: FeedID::Index, focus: None }
}

fn sorted(mut v: Vec<u64>) -> Vec<u64> {
    v.sort();
    v
}

fn pages(entries: &[(u32, bool)]) -> HashMap<u32, bool> {
    entries.iter().copied().collect()
}

fn table(entries: Vec<(i32, Option<Vec<Post>>)>) -> HashMap<i32, Option<Vec<Post>>> {
    entries.into_iter().collect()
}

/// An agent synced to pages 0 to `count - 1` of thread 10, each holding one
/// post, with the store navigated to page 0.
fn synced_thread(count: u32) -> Agent {
    let mut agent = Agent::create(index());
    agent.handle_input(Request::NavigateTo { loc: thread(10, 0), flags: SET_STATE }, 0, true);
    agent.handle_input(Request::RegisterThreadMeta(meta(10, count)), 0, true);
    for page in 1..count {
        agent.handle_input(Request::FetchFeed(thread(10, 0)), 0, true);
        agent.handle_input(Request::FetchFeed(thread(10, page as i32)), 0, true);
    }
    agent.handle_input(Request::FetchFeed(thread(10, 0)), 0, true);
    for page in 0..count {
        agent.handle_input(
            Request::RegisterPage(vec![post(100 + page as u64, 10, page)]),
            0,
            true,
        );
    }
    agent
}

#[test]
fn flags_are_distinct_bits() {
    assert_eq!((PUSH_STATE, SET_STATE, SCROLL_TO_FOCUSED, NO_TRIGGER), (1, 2, 4, 8));
    assert!(flag_set(ALL, PUSH_STATE));
    assert!(flag_set(ALL, SET_STATE));
    assert!(flag_set(ALL, SCROLL_TO_FOCUSED));
    assert!(!flag_set(ALL, NO_TRIGGER));
    assert!(!flag_set(0, SET_STATE));
}

#[test]
fn navigate_to_asks_for_push_store_and_scroll() {
    let loc = thread(3, 1);
    assert_eq!(navigate_to(loc), Request::NavigateTo { loc, flags: 7 });
}

#[test]
fn negative_pages_count_from_the_end() {
    assert_eq!(resolve(-1, 5), 4);
    assert_eq!(resolve(-2, 5), 3);
    assert_eq!(resolve(-5, 5), 0);
    assert_eq!(resolve(0, 5), 0);
    assert_eq!(resolve(7, 5), 7);
    assert_eq!(resolve(-6, 3), -3);
    assert_eq!(resolve(-1, 0), -1);
    assert_eq!(resolve(-1, u32::MAX), i32::MAX);
    assert_eq!(resolve(i32::MIN, 0), i32::MIN);
}

#[test]
fn arrived_pages_are_mirrored_from_the_end() {
    assert_eq!(mirror(4, 5), -1);
    assert_eq!(mirror(0, 5), -5);
    assert_eq!(mirror(2, 3), -1);
    assert_eq!(mirror(5, 5), 0);
    assert_eq!(mirror(7, 5), 2);
    assert_eq!(mirror(0, u32::MAX), i32::MIN);
    assert_eq!(mirror(i32::MAX, 0), i32::MAX);
}

#[test]
fn first_navigation_synchronizes_and_defers_the_location() {
    let mut agent = Agent::create(index());
    agent.handle_input(Request::NotifyChange(vec![Change::Location]), 1, true);
    let out = agent.handle_input(navigate_to(thread(10, 0)), 2, true);
    assert_eq!(out.actions, vec![Action::Synchronize { feed: 10, page: Some(0) }]);
    assert_eq!(out.wake, Vec::<u64>::new());
    assert_eq!(agent.state().location(), index());
    match agent.feed_sync_state() {
        FeedSyncState::Receiving { loc, thread: meta, pages, flags } => {
            assert_eq!(*loc, thread(10, 0));
            assert_eq!(*meta, None);
            assert_eq!(*pages, table(vec![(0, None)]));
            assert_eq!(*flags, 7);
        }
        other => panic!("{:?}", other),
    }
}

#[test]
fn index_feed_synchronizes_without_a_page() {
    let mut agent = Agent::create(thread(1, 0));
    let out = agent.handle_input(Request::FetchFeed(index()), 0, true);
    assert_eq!(out.actions, vec![Action::Synchronize { feed: 0, page: None }]);
    match agent.feed_sync_state() {
        FeedSyncState::Receiving { loc, pages, flags, .. } => {
            assert_eq!(*loc, index());
            assert!(pages.is_empty());
            assert_eq!(*flags, SCROLL_TO_FOCUSED);
        }
        other => panic!("{:?}", other),
    }
}

#[test]
fn all_pages_arriving_commits_the_thread() {
    let mut agent = Agent::create(index());
    agent.handle_input(Request::NotifyChange(vec![Change::ThreadList]), 1, true);
    agent.handle_input(Request::NotifyChange(vec![Change::Thread(10)]), 2, true);
    agent.handle_input(
        Request::NotifyChange(vec![Change::Post(100), Change::Post(101), Change::Post(120)]),
        3,
        true,
    );
    agent.handle_input(Request::NotifyChange(vec![Change::Post(110)]), 4, true);
    agent.handle_input(Request::NotifyChange(vec![Change::Post(999)]), 5, true);
    agent.handle_input(Request::NotifyChange(vec![Change::Location]), 6, true);
    agent.handle_input(Request::NotifyChange(vec![Change::Thread(11)]), 7, true);

    agent.handle_input(navigate_to(thread(10, 0)), 0, true);
    agent.handle_input(Request::RegisterThreadMeta(meta(10, 3)), 0, true);
    let out = agent.handle_input(Request::FetchFeed(thread(10, 1)), 0, true);
    assert_eq!(out.actions, vec![Action::FetchPage(1)]);
    let out = agent.handle_input(Request::FetchFeed(thread(10, 2)), 0, true);
    assert_eq!(out.actions, vec![Action::FetchPage(2)]);
    let out = agent.handle_input(Request::FetchFeed(thread(10, 2)), 0, true);
    assert_eq!(out.actions, vec![]);

    let out = agent.handle_input(
        Request::RegisterPage(vec![post(100, 10, 0), post(101, 10, 0)]),
        0,
        true,
    );
    assert_eq!((out.actions, out.wake), (vec![], vec![]));
    let out = agent.handle_input(Request::RegisterPage(vec![post(110, 10, 1)]), 0, true);
    assert_eq!((out.actions, out.wake), (vec![], vec![]));
    assert!(agent.state().post(100).is_none());
    match agent.feed_sync_state() {
        FeedSyncState::Receiving { pages, .. } => {
            assert_eq!(page_numbers(pages), vec![-3, -2, 0, 1, 2]);
            assert_eq!(pages[&0], Some(vec![post(100, 10, 0), post(101, 10, 0)]));
            assert_eq!(pages[&1], Some(vec![post(110, 10, 1)]));
            assert_eq!(pages[&2], None);
            assert_eq!(pages[&-3], None);
        }
        other => panic!("{:?}", other),
    }

    let out = agent.handle_input(Request::RegisterPage(vec![post(120, 10, 2)]), 0, true);
    assert_eq!(out.actions, vec![Action::PushState(thread(10, 2))]);
    assert_eq!(sorted(out.wake), vec![1, 2, 3, 4, 6]);
    match agent.feed_sync_state() {
        FeedSyncState::Synced { feed, pages: fetched } => {
            assert_eq!(feed.as_u64(), 10);
            assert_eq!(*fetched, pages(&[(0, true), (1, true), (2, true)]));
        }
        other => panic!("{:?}", other),
    }
    let state = agent.state();
    assert_eq!(state.location(), thread(10, 2));
    assert_eq!(state.thread(10), Some(&meta(10, 3)));
    assert_eq!(state.page_count(10), 3);
    assert_eq!(state.post(100), Some(&post(100, 10, 0)));
    assert_eq!(state.post(110), Some(&post(110, 10, 1)));
    assert_eq!(state.post(120), Some(&post(120, 10, 2)));
    assert_eq!(
        state.page_posts(10, 0).map(|s| sorted(s.iter().copied().collect())),
        Some(vec![100, 101])
    );
    assert_eq!(
        state.page_posts(10, 2).map(|s| sorted(s.iter().copied().collect())),
        Some(vec![120])
    );
    assert_eq!(state.page_posts(10, 3), None);
    assert_eq!(state.page_posts(11, 0), None);
}

#[test]
fn last_page_is_resolved_on_commit() {
    let mut agent = Agent::create(index());
    let loc = Location { feed: FeedID::Thread { id: 10, page: -1 }, focus: Some(Focus::Bottom) };
    let out = agent.handle_input(navigate_to(loc), 0, true);
    assert_eq!(out.actions, vec![Action::Synchronize { feed: 10, page: Some(-1) }]);
    agent.handle_input(Request::RegisterThreadMeta(meta(10, 5)), 0, true);
    let out = agent.handle_input(Request::RegisterPage(vec![post(1, 10, 4)]), 0, true);
    let resolved =
        Location { feed: FeedID::Thread { id: 10, page: 4 }, focus: Some(Focus::Bottom) };
    assert_eq!(
        out.actions,
        vec![Action::ScrollNextFrame(Focus::Bottom), Action::PushState(resolved)]
    );
    assert_eq!(agent.state().location(), resolved);
    match agent.feed_sync_state() {
        FeedSyncState::Synced { feed, pages: fetched } => {
            assert_eq!(*feed, FeedID::Thread { id: 10, page: -1 });
            assert_eq!(*fetched, pages(&[(4, true)]));
        }
        other => panic!("{:?}", other),
    }
}

#[test]
fn second_to_last_page_is_resolved_on_commit() {
    let mut agent = Agent::create(index());
    agent.handle_input(navigate_to(thread(10, -2)), 0, true);
    agent.handle_input(Request::RegisterThreadMeta(meta(10, 5)), 0, true);
    agent.handle_input(Request::RegisterPage(vec![post(1, 10, 3)]), 0, true);
    assert_eq!(agent.state().location(), thread(10, 3));
}

#[test]
fn page_from_the_end_beyond_the_thread_keeps_its_arithmetic() {
    let mut agent = Agent::create(index());
    agent.handle_input(navigate_to(thread(10, -6)), 0, true);
    agent.handle_input(Request::RegisterThreadMeta(meta(10, 3)), 0, true);
    agent.handle_input(Request::RegisterPage(vec![post(1, 10, 0)]), 0, true);
    assert_eq!(agent.state().location(), thread(10, -3));
}

#[test]
fn page_navigation_in_a_synced_thread_fetches_just_the_page() {
    let mut agent = synced_thread(2);
    agent.handle_input(Request::NavigateTo { loc: thread(10, 1), flags: SET_STATE }, 0, true);
    assert_eq!(agent.state().location(), thread(10, 1));
    agent.handle_input(Request::NotifyChange(vec![Change::Location]), 1, true);

    let out = agent.handle_input(navigate_to(thread(10, 2)), 0, true);
    assert_eq!(out.actions, vec![Action::FetchPage(2), Action::PushState(thread(10, 2))]);
    assert_eq!(out.wake, vec![1]);
    assert_eq!(agent.state().location(), thread(10, 2));
    match agent.feed_sync_state() {
        FeedSyncState::Synced { pages: fetched, .. } => {
            assert_eq!(*fetched, pages(&[(0, true), (1, true), (2, false)]));
        }
        other => panic!("{:?}", other),
    }

    let out = agent.handle_input(navigate_to(thread(10, 1)), 0, true);
    assert_eq!(out.actions, vec![Action::PushState(thread(10, 1))]);
    let out = agent.handle_input(navigate_to(thread(10, 2)), 0, true);
    assert_eq!(out.actions, vec![Action::PushState(thread(10, 2))]);

}

#[test]
fn page_data_is_dropped_once_the_feed_is_synced() {
    let mut agent = synced_thread(2);
    agent.handle_input(navigate_to(thread(10, 2)), 0, true);
    agent.handle_input(Request::NotifyChange(vec![Change::Thread(10)]), 2, true);
    agent.handle_input(Request::NotifyChange(vec![Change::Post(120)]), 3, true);
    agent.handle_input(Request::NotifyChange(vec![Change::ThreadList]), 4, true);
    for page in [2, 0, 7] {
        let out = agent.handle_input(Request::RegisterPage(vec![post(120, 10, page)]), 0, true);
        assert_eq!((out.actions, out.wake), (vec![], vec![]));
        assert!(agent.state().post(120).is_none());
        let expected = if page == 0 { Some(false) } else { None };
        assert_eq!(agent.state().page_posts(10, page).map(|s| s.contains(&120)), expected);
        match agent.feed_sync_state() {
            FeedSyncState::Synced { pages: fetched, .. } => {
                assert_eq!(*fetched, pages(&[(0, true), (1, true), (2, false)]));
            }
            other => panic!("{:?}", other),
        }
    }
    assert_eq!(agent.state().location(), thread(10, 2));
}

#[test]
fn last_page_of_a_synced_thread_is_resolved_before_it_is_fetched() {
    let mut agent = synced_thread(1);
    agent.handle_input(Request::RegisterThreadMeta(meta(10, 5)), 0, true);
    assert_eq!(agent.state().page_count(10), 1);
    let out = agent.handle_input(navigate_to(thread(10, -1)), 0, true);
    assert_eq!(out.actions, vec![Action::PushState(thread(10, -1))]);
    assert_eq!(agent.state().location(), thread(10, -1));

    let mut agent = synced_thread(1);
    agent.handle_input(
        Request::RegisterThread(ThreadWithPosts { thread: meta(10, 5), posts: vec![] }),
        0,
        true,
    );
    let out = agent.handle_input(navigate_to(thread(10, -1)), 0, true);
    assert_eq!(out.actions, vec![Action::FetchPage(4), Action::PushState(thread(10, -1))]);
    match agent.feed_sync_state() {
        FeedSyncState::Synced { pages: fetched, .. } => {
            assert_eq!(*fetched, pages(&[(0, true), (4, false)]));
        }
        other => panic!("{:?}", other),
    }
}

#[test]
fn page_below_minus_one_is_a_usage_error_in_a_synced_thread() {
    let mut agent = synced_thread(3);
    agent.handle_input(Request::NotifyChange(vec![Change::Location]), 1, true);
    for page in [-2, -6, i32::MIN] {
        let out = agent.handle_input(navigate_to(thread(10, page)), 0, true);
        assert_eq!(out.actions, vec![Action::Alert(Fault::PageOutOfRange)]);
        assert_eq!(out.wake, vec![]);
        assert_eq!(agent.state().location(), thread(10, 0));
        match agent.feed_sync_state() {
            FeedSyncState::Synced { pages: fetched, .. } => assert_eq!(fetched.len(), 3),
            other => panic!("{:?}", other),
        }
    }
}

#[test]
fn navigation_to_the_current_location_only_scrolls() {
    let loc = Location { feed: FeedID::Index, focus: Some(Focus::Post(5)) };
    let mut agent = Agent::create(loc);
    agent.handle_input(Request::NotifyChange(vec![Change::Location]), 1, true);
    let out = agent.handle_input(navigate_to(loc), 0, true);
    assert_eq!(out.actions, vec![Action::ScrollTo(Focus::Post(5))]);
    assert_eq!(out.wake, vec![]);
    let out = agent.handle_input(
        Request::NavigateTo { loc, flags: PUSH_STATE | SET_STATE },
        0,
        true,
    );
    assert_eq!(out.actions, vec![]);
    let mut agent = Agent::create(index());
    let out = agent.handle_input(navigate_to(index()), 0, true);
    assert_eq!(out.actions, vec![]);
    assert!(matches!(agent.feed_sync_state(), FeedSyncState::NotRequested));
}

#[test]
fn request_that_cannot_be_encoded_aborts_the_navigation() {
    let mut agent = Agent::create(index());
    agent.handle_input(Request::NotifyChange(vec![Change::Location]), 1, true);
    let out = agent.handle_input(navigate_to(thread(10, 0)), 0, false);
    assert_eq!(out.actions, vec![Action::Alert(Fault::NotEncodable)]);
    assert_eq!(out.wake, vec![]);
    assert_eq!(agent.state().location(), index());
    assert!(matches!(agent.feed_sync_state(), FeedSyncState::NotRequested));

    let mut agent = synced_thread(1);
    let out = agent.handle_input(navigate_to(thread(11, 0)), 0, false);
    assert_eq!(out.actions, vec![Action::Alert(Fault::NotEncodable)]);
    assert_eq!(agent.state().location(), thread(10, 0));
    assert!(matches!(agent.feed_sync_state(), FeedSyncState::Synced { .. }));
    let out = agent.handle_input(navigate_to(thread(11, 0)), 0, true);
    assert_eq!(out.actions, vec![Action::Synchronize { feed: 11, page: Some(0) }]);
}

#[test]
fn encoding_is_not_needed_within_a_followed_feed() {
    let mut agent = synced_thread(1);
    let out = agent.handle_input(navigate_to(thread(10, 1)), 0, false);
    assert_eq!(out.actions, vec![Action::FetchPage(1), Action::PushState(thread(10, 1))]);
    let mut agent = Agent::create(index());
    agent.handle_input(navigate_to(thread(10, 0)), 0, true);
    let out = agent.handle_input(navigate_to(thread(10, 1)), 0, false);
    assert_eq!(out.actions, vec![Action::FetchPage(1)]);
}

#[test]
fn focus_change_while_receiving_updates_the_target() {
    let mut agent = Agent::create(index());
    agent.handle_input(navigate_to(thread(10, 0)), 0, true);
    let focused = Location { feed: FeedID::Thread { id: 10, page: 0 }, focus: Some(Focus::Top) };
    let out = agent.handle_input(
        Request::NavigateTo { loc: focused, flags: SET_STATE | NO_TRIGGER },
        0,
        true,
    );
    assert_eq!(out.actions, vec![]);
    match agent.feed_sync_state() {
        FeedSyncState::Receiving { loc, flags, .. } => {
            assert_eq!(*loc, focused);
            assert_eq!(*flags, 7);
        }
        other => panic!("{:?}", other),
    }
}

#[test]
fn stale_data_is_dropped() {
    let mut agent = Agent::create(index());
    agent.handle_input(Request::NotifyChange(vec![Change::Thread(10), Change::Post(1)]), 1, true);
    // nothing requested yet
    let out = agent.handle_input(Request::RegisterPage(vec![post(1, 10, 0)]), 0, true);
    assert_eq!((out.actions, out.wake), (vec![], vec![]));
    agent.handle_input(Request::RegisterThreadMeta(meta(10, 1)), 0, true);
    assert!(matches!(agent.feed_sync_state(), FeedSyncState::NotRequested));
    // an empty page
    agent.handle_input(navigate_to(thread(10, 0)), 0, true);
    agent.handle_input(Request::RegisterPage(vec![]), 0, true);
    // a page before the metadata
    let out = agent.handle_input(Request::RegisterPage(vec![post(1, 10, 0)]), 0, true);
    assert_eq!((out.actions, out.wake), (vec![], vec![]));
    // metadata and a page of another thread
    agent.handle_input(Request::RegisterThreadMeta(meta(11, 1)), 0, true);
    agent.handle_input(Request::RegisterPage(vec![post(1, 10, 0)]), 0, true);
    agent.handle_input(Request::RegisterThreadMeta(meta(10, 1)), 0, true);
    let out = agent.handle_input(Request::RegisterPage(vec![post(2, 11, 0)]), 0, true);
    assert_eq!((out.actions, out.wake), (vec![], vec![]));
    // threads of the index while a thread is received
    agent.handle_input(
        Request::RegisterThreads(vec![ThreadWithPosts { thread: meta(11, 1), posts: vec![] }]),
        0,
        true,
    );
    assert!(agent.state().thread(11).is_none());
    assert!(agent.state().post(1).is_none());
    match agent.feed_sync_state() {
        FeedSyncState::Receiving { thread: kept, pages, .. } => {
            assert_eq!(*kept, Some(meta(10, 1)));
            assert_eq!(*pages, table(vec![(0, None)]));
        }
        other => panic!("{:?}", other),
    }
    // a page number that cannot be asked for
    let out = agent.handle_input(Request::RegisterPage(vec![post(1, 10, u32::MAX)]), 0, true);
    assert_eq!((out.actions, out.wake), (vec![], vec![]));
    // a page of another thread once synced
    let out = agent.handle_input(Request::RegisterPage(vec![post(1, 10, 0)]), 0, true);
    assert_eq!(out.wake, vec![1]);
    let out = agent.handle_input(Request::RegisterPage(vec![post(3, 11, 0)]), 0, true);
    assert_eq!((out.actions, out.wake), (vec![], vec![]));
    assert!(agent.state().post(3).is_none());
}

#[test]
fn index_threads_commit_the_index() {
    let mut agent = Agent::create(thread(1, 0));
    agent.handle_input(Request::NotifyChange(vec![Change::ThreadList, Change::Location]), 1, true);
    agent.handle_input(Request::NotifyChange(vec![Change::Thread(21)]), 2, true);
    agent.handle_input(Request::NotifyChange(vec![Change::Post(211)]), 3, true);
    let loc = Location { feed: FeedID::Index, focus: Some(Focus::Top) };
    agent.handle_input(navigate_to(loc), 0, true);
    let out = agent.handle_input(
        Request::RegisterThreads(vec![
            ThreadWithPosts { thread: meta(20, 1), posts: vec![post(200, 20, 0)] },
            ThreadWithPosts {
                thread: meta(21, 2),
                posts: vec![post(210, 21, 0), post(211, 21, 1)],
            },
        ]),
        0,
        true,
    );
    assert_eq!(out.actions, vec![Action::ScrollNextFrame(Focus::Top), Action::PushState(loc)]);
    assert_eq!(sorted(out.wake), vec![1, 2, 3]);
    assert_eq!(agent.state().location(), loc);
    assert_eq!(agent.state().thread(20), Some(&meta(20, 1)));
    assert_eq!(agent.state().thread(21), Some(&meta(21, 2)));
    assert_eq!(agent.state().post(211), Some(&post(211, 21, 1)));
    match agent.feed_sync_state() {
        FeedSyncState::Synced { feed, pages: fetched } => {
            assert_eq!(*feed, FeedID::Index);
            assert!(fetched.is_empty());
        }
        other => panic!("{:?}", other),
    }
    // index and catalog share a feed: no new synchronisation
    let catalog = Location { feed: FeedID::Catalog, focus: None };
    let out = agent.handle_input(navigate_to(catalog), 0, true);
    assert_eq!(out.actions, vec![Action::PushState(catalog)]);
    assert_eq!(agent.state().location(), catalog);
}

#[test]
fn location_flags_are_honoured() {
    let loc = Location { feed: FeedID::Catalog, focus: Some(Focus::Bottom) };
    let run = |flags: u8| {
        let mut agent = Agent::create(Location { feed: FeedID::Index, focus: Some(Focus::Top) });
        agent.handle_input(Request::NotifyChange(vec![Change::Location]), 1, true);
        agent.handle_input(
            Request::NavigateTo { loc: Location { feed: FeedID::Index, focus: None }, flags: 0 },
            0,
            true,
        );
        agent.handle_input(Request::RegisterThreads(vec![]), 0, true);
        let out = agent.handle_input(Request::NavigateTo { loc, flags }, 0, true);
        (out.actions, out.wake, agent.state().location() == loc)
    };
    assert_eq!(run(0), (vec![], vec![], false));
    assert_eq!(run(SET_STATE), (vec![], vec![1], true));
    assert_eq!(run(SET_STATE | NO_TRIGGER), (vec![], vec![], true));
    assert_eq!(run(NO_TRIGGER), (vec![], vec![], false));
    assert_eq!(
        run(SCROLL_TO_FOCUSED),
        (vec![Action::ScrollNextFrame(Focus::Bottom)], vec![], false)
    );
    assert_eq!(run(PUSH_STATE), (vec![Action::PushState(loc)], vec![], false));
    assert_eq!(
        run(15),
        (vec![Action::ScrollNextFrame(Focus::Bottom), Action::PushState(loc)], vec![], true)
    );
}

#[test]
fn registering_a_post_marks_thread_and_post() {
    let mut agent = Agent::create(index());
    agent.handle_input(Request::NotifyChange(vec![Change::Thread(10)]), 1, true);
    agent.handle_input(Request::NotifyChange(vec![Change::Post(5)]), 2, true);
    agent.handle_input(Request::NotifyChange(vec![Change::Post(10), Change::Thread(5)]), 3, true);
    agent.handle_input(Request::NotifyChange(vec![Change::Thread(10), Change::Post(5)]), 4, true);
    let out = agent.handle_input(Request::RegisterPost(post(5, 10, 2)), 0, true);
    assert_eq!(out.actions, vec![]);
    assert_eq!(sorted(out.wake), vec![1, 2, 4]);
    assert_eq!(agent.state().post(5), Some(&post(5, 10, 2)));
    assert!(agent.state().page_posts(10, 2).is_some_and(|s| s.contains(&5)));
}

#[test]
fn registering_a_thread_marks_list_thread_and_posts() {
    let mut agent = Agent::create(index());
    agent.handle_input(Request::NotifyChange(vec![Change::ThreadList]), 1, true);
    agent.handle_input(Request::NotifyChange(vec![Change::Thread(10)]), 2, true);
    agent.handle_input(Request::NotifyChange(vec![Change::Post(6)]), 3, true);
    agent.handle_input(Request::NotifyChange(vec![Change::Post(7)]), 4, true);
    let out = agent.handle_input(
        Request::RegisterThread(ThreadWithPosts {
            thread: meta(10, 1),
            posts: vec![post(5, 10, 0), post(6, 10, 0)],
        }),
        0,
        true,
    );
    assert_eq!(sorted(out.wake), vec![1, 2, 3]);
    assert_eq!(agent.state().thread(10), Some(&meta(10, 1)));
    assert_eq!(agent.state().post(6), Some(&post(6, 10, 0)));
}

#[test]
fn a_later_post_of_the_same_id_replaces_the_earlier() {
    let mut agent = Agent::create(index());
    let mut second = post(5, 10, 1);
    second.body = vec![9, 9];
    agent.handle_input(
        Request::RegisterThread(ThreadWithPosts {
            thread: meta(10, 2),
            posts: vec![post(5, 10, 0), second.clone()],
        }),
        0,
        true,
    );
    assert_eq!(agent.state().post(5), Some(&second));
    assert!(agent.state().page_posts(10, 0).is_some_and(|s| s.contains(&5)));
    assert!(agent.state().page_posts(10, 1).is_some_and(|s| s.contains(&5)));
}

#[test]
fn patching_and_closing_a_post() {
    let mut agent = Agent::create(index());
    agent.handle_input(Request::NotifyChange(vec![Change::Post(5)]), 1, true);
    agent.handle_input(Request::NotifyChange(vec![Change::OpenPostID]), 2, true);
    let out = agent.handle_input(Request::PatchPostBody { id: 5, body: vec![1] }, 0, true);
    assert_eq!(out.wake, vec![]);
    let out = agent.handle_input(Request::ClosePost { id: 5, body: vec![1] }, 0, true);
    assert_eq!(out.wake, vec![]);
    assert!(agent.state().post(5).is_none());

    let mut open = post(5, 10, 0);
    open.open = true;
    agent.handle_input(Request::RegisterPost(open), 0, true);
    let out = agent.handle_input(Request::SetOpenPostID(Some(5)), 0, true);
    assert_eq!(out.wake, vec![2]);
    assert_eq!(agent.state().open_post_id(), Some(5));

    let out = agent.handle_input(Request::PatchPostBody { id: 5, body: vec![1, 2] }, 0, true);
    assert_eq!(out.wake, vec![1]);
    let patched = agent.state().post(5).cloned();
    assert_eq!(
        patched,
        Some(Post { id: 5, thread: 10, page: 0, open: true, body: vec![1, 2] })
    );

    let out = agent.handle_input(Request::ClosePost { id: 6, body: vec![] }, 0, true);
    assert_eq!(out.wake, vec![]);
    assert_eq!(agent.state().open_post_id(), Some(5));

    let out = agent.handle_input(Request::ClosePost { id: 5, body: vec![3] }, 0, true);
    assert_eq!(sorted(out.wake), vec![1, 2]);
    assert_eq!(
        agent.state().post(5),
        Some(&Post { id: 5, thread: 10, page: 0, open: false, body: vec![3] })
    );
    assert_eq!(agent.state().open_post_id(), None);

    let out = agent.handle_input(Request::ClosePost { id: 5, body: vec![4] }, 0, true);
    assert_eq!(out.wake, vec![1]);
}

#[test]
fn closing_the_open_post_that_is_not_registered_clears_it() {
    let mut agent = Agent::create(index());
    agent.handle_input(Request::NotifyChange(vec![Change::Post(5)]), 1, true);
    agent.handle_input(Request::NotifyChange(vec![Change::OpenPostID]), 2, true);
    agent.handle_input(Request::SetOpenPostID(Some(5)), 0, true);
    let out = agent.handle_input(Request::ClosePost { id: 5, body: vec![] }, 0, true);
    assert_eq!(out.wake, vec![2]);
    assert_eq!(agent.state().open_post_id(), None);
}

#[test]
fn pinning_posts() {
    let mut agent = Agent::create(index());
    agent.handle_input(Request::NotifyChange(vec![Change::Post(5)]), 1, true);
    let at = Coordinates { x: 10, y: 20 };
    let by = Coordinates { x: 1, y: -2 };
    let pin = |agent: &mut Agent, change: PostPinChange| {
        agent.handle_input(Request::SetPostPinCoords { post: 5, change }, 0, true).wake
    };
    assert_eq!(pin(&mut agent, PostPinChange::Increment(by)), vec![1]);
    assert_eq!(agent.state().pinned(5), None);
    assert_eq!(pin(&mut agent, PostPinChange::Remove), vec![1]);
    assert_eq!(agent.state().pinned(5), None);
    assert_eq!(pin(&mut agent, PostPinChange::Put(at)), vec![1]);
    assert_eq!(agent.state().pinned(5), Some(at));
    assert_eq!(pin(&mut agent, PostPinChange::Increment(by)), vec![1]);
    assert_eq!(agent.state().pinned(5), Some(Coordinates { x: 11, y: 18 }));
    assert_eq!(pin(&mut agent, PostPinChange::Put(by)), vec![1]);
    assert_eq!(agent.state().pinned(5), Some(by));
    assert_eq!(agent.state().pinned_ids(), vec![5]);
    assert_eq!(pin(&mut agent, PostPinChange::Remove), vec![1]);
    assert_eq!(agent.state().pinned(5), None);
    assert_eq!(agent.state().pinned_ids(), Vec::<u64>::new());
}

#[test]
fn plain_settings() {
    let mut agent = Agent::create(index());
    agent.handle_input(
        Request::NotifyChange(vec![
            Change::UsedTags,
            Change::TimeCorrection,
            Change::Configs,
            Change::KeyPair,
        ]),
        1,
        true,
    );
    let out = agent.handle_input(Request::SetUsedTags(vec!["a".into(), "b".into()]), 0, true);
    assert_eq!(out.wake, vec![1]);
    assert_eq!(*agent.state().used_tags(), vec!["a".to_string(), "b".to_string()]);
    let out = agent.handle_input(Request::SetTimeCorrection(-3), 0, true);
    assert_eq!(out.wake, vec![1]);
    assert_eq!(agent.state().time_correction(), -3);
    let out = agent.handle_input(Request::SetConfigs(vec![1, 2, 3]), 0, true);
    assert_eq!(out.wake, vec![1]);
    assert_eq!(*agent.state().configs(), vec![1, 2, 3]);
    let out = agent.handle_input(Request::SetMine(7), 0, true);
    assert_eq!((out.actions, out.wake), (vec![], vec![]));
    assert!(agent.state().is_mine(7));
    assert!(!agent.state().is_mine(8));
    let out = agent.handle_input(Request::SetKeyID(Some(77)), 0, true);
    assert_eq!((out.actions, out.wake), (vec![Action::StoreKeyPair], vec![]));
    assert_eq!(agent.state().key_id(), Some(77));
    agent.handle_input(Request::SetKeyID(None), 0, true);
    assert_eq!(agent.state().key_id(), None);
}

#[test]
fn subscriptions_change_and_end() {
    let mut agent = Agent::create(index());
    agent.handle_input(Request::NotifyChange(vec![Change::UsedTags, Change::Configs]), 1, true);
    agent.handle_input(Request::NotifyChange(vec![Change::UsedTags]), 2, true);
    agent.handle_input(
        Request::ChangeNotifications {
            remove: vec![Change::UsedTags, Change::Configs],
            add: vec![Change::UsedTags, Change::TimeCorrection],
        },
        1,
        true,
    );
    let out = agent.handle_input(Request::SetConfigs(vec![]), 0, true);
    assert_eq!(out.wake, vec![]);
    let out = agent.handle_input(Request::SetUsedTags(vec![]), 0, true);
    assert_eq!(sorted(out.wake), vec![1, 2]);
    agent.disconnected(1);
    let out = agent.handle_input(Request::SetUsedTags(vec![]), 0, true);
    assert_eq!(out.wake, vec![2]);
    let out = agent.handle_input(Request::SetTimeCorrection(0), 0, true);
    assert_eq!(out.wake, vec![]);
}

#[test]
fn page_messages() {
    let mut agent = Agent::create(index());
    agent.handle_input(Request::NotifyChange(vec![Change::Location]), 1, true);
    let out = agent.update(Message::ScrollTo(Focus::Post(3)), true);
    assert_eq!((out.actions, out.wake), (vec![Action::ScrollTo(Focus::Post(3))], vec![]));
    let out = agent.update(Message::PoppedState(thread(10, 0)), true);
    assert_eq!(out.actions, vec![Action::Synchronize { feed: 10, page: Some(0) }]);
    match agent.feed_sync_state() {
        FeedSyncState::Receiving { flags, .. } => assert_eq!(*flags, SET_STATE | SCROLL_TO_FOCUSED),
        other => panic!("{:?}", other),
    }
    let focused = Location { feed: FeedID::Index, focus: Some(Focus::Top) };
    let out = agent.update(Message::PoppedState(focused), true);
    assert_eq!(out.actions, vec![Action::Synchronize { feed: 0, page: None }]);
    agent.handle_input(Request::RegisterThreads(vec![]), 0, true);
    assert_eq!(agent.state().location(), focused);
    let out = agent.update(Message::PoppedState(focused), true);
    assert_eq!((out.actions, out.wake), (vec![Action::ScrollTo(Focus::Top)], vec![]));
    let catalog = Location { feed: FeedID::Catalog, focus: Some(Focus::Bottom) };
    let out = agent.update(Message::PoppedState(catalog), true);
    assert_eq!(out.actions, vec![Action::ScrollNextFrame(Focus::Bottom)]);
    assert_eq!(out.wake, vec![1]);
}

#[test]
fn pages_are_committed_in_the_order_of_their_numbers() {
    // the same post ID on two pages: the one on the later page is kept,
    // whichever page came first
    for order in [[0u32, 1], [1, 0]] {
        let mut agent = Agent::create(index());
        agent.handle_input(navigate_to(thread(10, 0)), 0, true);
        agent.handle_input(Request::RegisterThreadMeta(meta(10, 2)), 0, true);
        agent.handle_input(Request::FetchFeed(thread(10, 1)), 0, true);
        for page in order {
            let mut p = post(5, 10, page);
            p.body = vec![page as u8];
            agent.handle_input(Request::RegisterPage(vec![p]), 0, true);
        }
        assert!(matches!(agent.feed_sync_state(), FeedSyncState::Synced { .. }));
        assert_eq!(agent.state().post(5).map(|p| p.page), Some(1));
    }
}

#[test]
fn page_numbers_rise() {
    assert_eq!(page_numbers(&table(vec![])), Vec::<i32>::new());
    assert_eq!(
        page_numbers(&table(vec![(3, None), (-1, None), (0, Some(vec![])), (i32::MIN, None)])),
        vec![i32::MIN, -1, 0, 3]
    );
}

#[test]
fn a_page_beyond_the_count_blocks_its_own_mirror() {
    // page 5 of a thread of 5 pages is recorded, and again without posts
    // under its number counted from the end, which is 0
    let mut agent = Agent::create(index());
    agent.handle_input(navigate_to(thread(10, 5)), 0, true);
    agent.handle_input(Request::RegisterThreadMeta(meta(10, 5)), 0, true);
    let out = agent.handle_input(Request::RegisterPage(vec![post(1, 10, 5)]), 0, true);
    assert_eq!(out.actions, vec![]);
    match agent.feed_sync_state() {
        FeedSyncState::Receiving { pages, .. } => {
            assert_eq!(*pages, table(vec![(5, Some(vec![post(1, 10, 5)])), (0, None)]));
        }
        other => panic!("{:?}", other),
    }
}
