use board_client::decimal::{parse_i32, parse_u64};
use board_client::location::{FeedID, Focus, Location};

fn chars(s: &str) -> Vec<char> {
    s.chars().collect()
}

#[test]
fn thread_post_location_round_trips() {
    let loc = Location {
        feed: FeedID::Thread { id: 7, page: 0 },
        focus: Some(Focus::Post(42)),
    };
    assert_eq!(loc.feed_path(), "/threads/7/0");
    assert_eq!(loc.fragment(), "#p-42");
    assert_eq!(loc.path(), "/threads/7/0#p-42");
    assert_eq!(Location::from_path("/threads/7/0", "#p-42"), loc);
}

#[test]
fn index_and_catalog_paths() {
    let index = Location { feed: FeedID::Index, focus: None };
    assert_eq!(index.path(), "/");
    assert_eq!(Location::from_path("/", ""), index);
    let catalog = Location { feed: FeedID::Catalog, focus: Some(Focus::Bottom) };
    assert_eq!(catalog.path(), "/catalog#bottom");
    assert_eq!(Location::from_path("/catalog", "#bottom"), catalog);
    let top = Location { feed: FeedID::Index, focus: Some(Focus::Top) };
    assert_eq!(top.path(), "/#top");
    assert_eq!(Location::from_path("/", "#top"), top);
}

#[test]
fn every_kind_of_location_round_trips() {
    let feeds = [
        FeedID::Index,
        FeedID::Catalog,
        FeedID::Thread { id: 0, page: 0 },
        FeedID::Thread { id: 10, page: 3 },
        FeedID::Thread { id: u64::MAX, page: i32::MAX },
        FeedID::Thread { id: 1234567890123, page: -1 },
        FeedID::Thread { id: 5, page: i32::MIN },
    ];
    let foci = [
        None,
        Some(Focus::Top),
        Some(Focus::Bottom),
        Some(Focus::Post(0)),
        Some(Focus::Post(u64::MAX)),
    ];
    for feed in feeds {
        for focus in foci {
            let loc = Location { feed, focus };
            let path = loc.feed_path();
            let fragment = loc.fragment();
            assert_eq!(loc.path(), format!("{}{}", path, fragment));
            assert_eq!(Location::from_path(&path, &fragment), loc);
        }
    }
}

#[test]
fn extreme_numbers_are_written_in_full() {
    let loc = Location {
        feed: FeedID::Thread { id: u64::MAX, page: i32::MIN },
        focus: Some(Focus::Post(u64::MAX)),
    };
    assert_eq!(
        loc.path(),
        "/threads/18446744073709551615/-2147483648#p-18446744073709551615"
    );
}

#[test]
fn malformed_thread_paths_fall_back_to_index() {
    for path in [
        "/threads/7",
        "/threads/7/",
        "/threads//0",
        "/threads/x/0",
        "/threads/7/x",
        "/threads/-7/0",
        "/threads/7/0/",
        "/threads/7/0/1",
        "/threads/18446744073709551616/0",
        "/threads/7/2147483648",
        "/threads/7/-2147483649",
        "/threads/7/1.5",
        "threads/7/0",
        "/thread/7/0",
        "/Threads/7/0",
        "",
        "/whatever",
        "//catalog",
    ] {
        assert_eq!(Location::from_path(path, "").feed, FeedID::Index, "{}", path);
    }
}

#[test]
fn thread_paths_are_read_as_the_integer_parser_reads_them() {
    assert_eq!(
        Location::from_path("/threads/+7/+2", "").feed,
        FeedID::Thread { id: 7, page: 2 }
    );
    assert_eq!(
        Location::from_path("/threads/007/-0", "").feed,
        FeedID::Thread { id: 7, page: 0 }
    );
    assert_eq!(
        Location::from_path("/threads/7/-1", "").feed,
        FeedID::Thread { id: 7, page: -1 }
    );
    assert_eq!(
        Location::from_path("x/threads/7/0", "#p-3"),
        Location { feed: FeedID::Thread { id: 7, page: 0 }, focus: Some(Focus::Post(3)) }
    );
}

#[test]
fn catalog_is_read_from_the_first_segment_alone() {
    for path in ["/catalog", "/catalog/", "/catalog/anything/else", "x/catalog"] {
        assert_eq!(Location::from_path(path, "").feed, FeedID::Catalog, "{}", path);
    }
    assert_eq!(Location::from_path("/catalogs", "").feed, FeedID::Index);
}

#[test]
fn fragments_are_read_or_ignored() {
    let focus = |fragment: &str| Location::from_path("/", fragment).focus;
    assert_eq!(focus("#top"), Some(Focus::Top));
    assert_eq!(focus("#bottom"), Some(Focus::Bottom));
    assert_eq!(focus("#p-1"), Some(Focus::Post(1)));
    assert_eq!(focus("#p-+1"), Some(Focus::Post(1)));
    assert_eq!(focus("#p-18446744073709551615"), Some(Focus::Post(u64::MAX)));
    for fragment in [
        "", "#", "top", "#Top", "#top ", "#bottoms", "#p-", "#p-x", "#p--1", "#p-1x",
        "#p-18446744073709551616", "#p1", "p-1", "#é",
    ] {
        assert_eq!(focus(fragment), None, "{}", fragment);
    }
}

#[test]
fn feed_codes() {
    assert_eq!(FeedID::Index.as_u64(), 0);
    assert_eq!(FeedID::Catalog.as_u64(), 0);
    assert_eq!(FeedID::Thread { id: 10, page: -1 }.as_u64(), 10);
    assert!(Location { feed: FeedID::Thread { id: 1, page: 0 }, focus: None }.is_thread());
    assert!(!Location { feed: FeedID::Index, focus: None }.is_thread());
    assert!(!Location { feed: FeedID::Catalog, focus: None }.is_thread());
}

#[test]
fn defaults() {
    assert_eq!(FeedID::default(), FeedID::Index);
    assert_eq!(Focus::default(), Focus::Top);
    assert_eq!(Location::default(), Location { feed: FeedID::Index, focus: None });
}

#[test]
fn numbers_are_parsed_like_std_parses_them() {
    for text in [
        "", "+", "-", "0", "+0", "-0", "00", "1", "+1", "-1", "--1", "+-1", "1+", " 1", "1 ",
        "12a", "a12", "4294967295", "2147483647", "2147483648", "-2147483648", "-2147483649",
        "18446744073709551615", "18446744073709551616", "99999999999999999999999999",
        "000000000000000000000000000000001", "١٢٣", "1_000",
    ] {
        let v = chars(text);
        assert_eq!(parse_u64(&v, 0), text.parse::<u64>().ok(), "u64 {:?}", text);
        assert_eq!(parse_i32(&v, 0), text.parse::<i32>().ok(), "i32 {:?}", text);
    }
}

#[test]
fn numbers_are_parsed_from_a_start() {
    let v = chars("#p-42");
    assert_eq!(parse_u64(&v, 3), Some(42));
    assert_eq!(parse_u64(&v, 5), None);
    assert_eq!(parse_i32(&v, 2), Some(-42));
}
