use board_client::bus::ChangeBus;
use board_client::change::Change;

fn sorted(mut v: Vec<u64>) -> Vec<u64> {
    v.sort();
    v
}

#[test]
fn topic_keys_tell_all_topics_apart() {
    let topics = [
        Change::Location,
        Change::KeyPair,
        Change::Options,
        Change::Configs,
        Change::UsedTags,
        Change::ThreadList,
        Change::Thread(0),
        Change::Thread(1),
        Change::Thread(u64::MAX),
        Change::Post(0),
        Change::Post(1),
        Change::Post(u64::MAX),
        Change::TimeCorrection,
        Change::OpenPostID,
    ];
    for (i, a) in topics.iter().enumerate() {
        for (j, b) in topics.iter().enumerate() {
            assert_eq!(a.code() == b.code(), i == j, "{:?} {:?}", a, b);
        }
    }
    assert_eq!(Change::Location.code(), 0);
    assert_eq!(Change::Thread(1).code(), (6u128 << 64) + 1);
    assert_eq!(Change::Post(1).code(), (7u128 << 64) + 1);
    assert_eq!(Change::OpenPostID.code(), 9u128 << 64);
}

#[test]
fn marks_of_one_pass_collapse_into_one_wake_up_each() {
    let mut bus = ChangeBus::new();
    bus.subscribe_topic(1, Change::ThreadList);
    bus.subscribe_topic(1, Change::Thread(10));
    bus.subscribe_topic(2, Change::Thread(10));
    bus.subscribe_topic(3, Change::Post(10));
    bus.subscribe_topic(4, Change::Location);
    bus.mark(Change::Thread(10));
    bus.mark(Change::ThreadList);
    bus.mark(Change::Thread(10));
    bus.mark(Change::Thread(11));
    assert_eq!(sorted(bus.flush()), vec![1, 2]);
    assert_eq!(bus.flush(), Vec::<u64>::new());
    bus.mark(Change::Post(10));
    assert_eq!(bus.flush(), vec![3]);
}

#[test]
fn wake_ups_come_in_the_order_of_first_marking() {
    let mut bus = ChangeBus::new();
    bus.subscribe_topic(5, Change::Location);
    bus.subscribe_topic(3, Change::Configs);
    bus.subscribe_topic(9, Change::UsedTags);
    bus.subscribe_topic(5, Change::UsedTags);
    bus.mark(Change::Configs);
    bus.mark(Change::Location);
    bus.mark(Change::UsedTags);
    assert_eq!(bus.flush(), vec![3, 5, 9]);
}

#[test]
fn thread_and_post_of_one_id_are_different_topics() {
    let mut bus = ChangeBus::new();
    bus.subscribe_topic(1, Change::Thread(1));
    bus.subscribe_topic(2, Change::Post(1));
    bus.mark(Change::Post(1));
    assert_eq!(bus.flush(), vec![2]);
    bus.mark(Change::Thread(1));
    assert_eq!(bus.flush(), vec![1]);
}

#[test]
fn unsubscribed_handles_are_not_woken() {
    let mut bus = ChangeBus::new();
    bus.subscribe_topic(1, Change::Location);
    bus.subscribe_topic(2, Change::Location);
    bus.subscribe_topic(2, Change::Configs);
    bus.unsubscribe_topic(1, Change::Location);
    bus.unsubscribe_topic(1, Change::Configs);
    bus.mark(Change::Location);
    assert_eq!(bus.flush(), vec![2]);
    bus.unsubscribe_all(2);
    bus.mark(Change::Location);
    bus.mark(Change::Configs);
    assert_eq!(bus.flush(), Vec::<u64>::new());
}

#[test]
fn bulk_subscription() {
    let mut bus = ChangeBus::new();
    bus.subscribe(1, &vec![Change::Location, Change::Post(3), Change::Location]);
    bus.subscribe(2, &vec![]);
    bus.mark(Change::Post(3));
    assert_eq!(bus.flush(), vec![1]);
    bus.unsubscribe(1, &vec![Change::Post(3), Change::Post(4)]);
    bus.mark(Change::Post(3));
    assert_eq!(bus.flush(), Vec::<u64>::new());
    bus.mark(Change::Location);
    assert_eq!(bus.flush(), vec![1]);
}

#[test]
fn a_handle_queued_before_it_unsubscribes_is_still_woken() {
    let mut bus = ChangeBus::new();
    bus.subscribe_topic(1, Change::Location);
    bus.mark(Change::Location);
    bus.unsubscribe_all(1);
    assert_eq!(bus.flush(), vec![1]);
}
