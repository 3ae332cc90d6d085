//! Where the application is navigated to: a feed and an optional focus, and
//! the path and fragment that stand for them in an address.

use crate::decimal::{
    decimal, lemma_read_i32_decimal, lemma_read_u64_decimal, lemma_decimal_value, parse_i32,
    parse_u64, push_decimal, push_signed, read_i32, read_u64, signed_decimal, is_digit,
};
use vstd::prelude::*;
use vstd::string::StringExecFns;
use vstd::std_specs::iter::IteratorSpec;

verus! {

/// Identifies the global index, the catalog or one page of a thread.
#[derive(Debug, PartialEq, Eq, Clone, Copy, Structural)]
pub enum FeedID {
    Index,
    Catalog,
    Thread {
        /// Thread ID
        id: u64,
        /// Page navigated to; a negative one counts from the last page
        page: i32,
    },
}

impl Default for FeedID {
    fn default() -> (feed: Self)
        ensures
            feed == FeedID::Index,
    {
        FeedID::Index
    }
}

impl FeedID {
    /// The feed code that the server knows the feed by: the thread's ID, or
    /// zero for the index and the catalog.
    pub open spec fn code(self) -> u64 {
        match self {
            FeedID::Index | FeedID::Catalog => 0,
            FeedID::Thread { id, .. } => id,
        }
    }

    /// Returns the feed code used by the server.
    pub fn as_u64(&self) -> (n: u64)
        ensures
            n == self.code(),
    {
        match self {
            FeedID::Index | FeedID::Catalog => 0,
            FeedID::Thread { id, .. } => *id,
        }
    }
}

/// Post or page margin to scroll to.
#[derive(Debug, PartialEq, Eq, Clone, Copy, Structural)]
pub enum Focus {
    Top,
    Bottom,
    Post(u64),
}

impl Default for Focus {
    fn default() -> (focus: Self)
        ensures
            focus == Focus::Top,
    {
        Focus::Top
    }
}

/// Location the application can navigate to.
#[derive(Debug, PartialEq, Eq, Clone, Copy, Structural)]
pub struct Location {
    pub feed: FeedID,
    /// What to bring into view once the feed is shown
    pub focus: Option<Focus>,
}

impl Default for Location {
    fn default() -> (loc: Self)
        ensures
            loc == (Location { feed: FeedID::Index, focus: None }),
    {
        Location { feed: FeedID::Index, focus: None }
    }
}

/// The segment that introduces a thread in a path.
pub open spec fn threads_word() -> Seq<char> {
    seq!['t', 'h', 'r', 'e', 'a', 'd', 's']
}

/// The segment that stands for the catalog in a path.
pub open spec fn catalog_word() -> Seq<char> {
    seq!['c', 'a', 't', 'a', 'l', 'o', 'g']
}

/// The fragment that focuses the top of the page.
pub open spec fn top_fragment() -> Seq<char> {
    seq!['#', 't', 'o', 'p']
}

/// The fragment that focuses the bottom of the page.
pub open spec fn bottom_fragment() -> Seq<char> {
    seq!['#', 'b', 'o', 't', 't', 'o', 'm']
}

/// What a fragment that focuses a post starts with.
pub open spec fn post_prefix() -> Seq<char> {
    seq!['#', 'p', '-']
}

/// The pieces of `s` between its separators: one more than there are
/// separators in `s`, empty ones included.
pub open spec fn split(s: Seq<char>, sep: char) -> Seq<Seq<char>>
    decreases s.len(),
{
    if s.len() == 0 {
        seq![Seq::<char>::empty()]
    } else {
        let before = split(s.drop_last(), sep);
        if s.last() == sep {
            before.push(Seq::<char>::empty())
        } else {
            before.update(before.len() - 1, before.last().push(s.last()))
        }
    }
}

/// The feed that a path stands for. `/threads/{id}/{page}`, with exactly
/// these segments and both numbers readable, is that page of that thread; a
/// path whose first segment is `catalog` is the catalog; anything else is the
/// index.
pub open spec fn parse_feed(path: Seq<char>) -> FeedID {
    let parts = split(path, '/');
    if parts.len() == 4 && parts[1] == threads_word() {
        match (read_u64(parts[2]), read_i32(parts[3])) {
            (Some(id), Some(page)) => FeedID::Thread { id, page },
            _ => FeedID::Index,
        }
    } else if parts.len() >= 2 && parts[1] == catalog_word() {
        FeedID::Catalog
    } else {
        FeedID::Index
    }
}

/// Whether `s` begins with all of `prefix`.
pub open spec fn has_prefix(s: Seq<char>, prefix: Seq<char>) -> bool {
    s.len() >= prefix.len() && s.take(prefix.len() as int) == prefix
}

/// The focus that a fragment stands for: `#top`, `#bottom`, or `#p-` and a
/// readable post ID; none for anything else.
pub open spec fn parse_focus(fragment: Seq<char>) -> Option<Focus> {
    if fragment == top_fragment() {
        Some(Focus::Top)
    } else if fragment == bottom_fragment() {
        Some(Focus::Bottom)
    } else if has_prefix(fragment, post_prefix()) {
        match read_u64(fragment.skip(3)) {
            Some(id) => Some(Focus::Post(id)),
            None => None,
        }
    } else {
        None
    }
}

/// The location that a path and a fragment stand for.
pub open spec fn parse_location(path: Seq<char>, fragment: Seq<char>) -> Location {
    Location { feed: parse_feed(path), focus: parse_focus(fragment) }
}

/// The path that stands for a feed.
pub open spec fn feed_path(feed: FeedID) -> Seq<char> {
    match feed {
        FeedID::Index => seq!['/'],
        FeedID::Catalog => seq!['/'] + catalog_word(),
        FeedID::Thread { id, page } => seq!['/'] + threads_word() + seq!['/'] + decimal(id as nat)
            + seq!['/'] + signed_decimal(page as int),
    }
}

/// The fragment that stands for a focus; empty where there is none.
pub open spec fn focus_fragment(focus: Option<Focus>) -> Seq<char> {
    match focus {
        None => Seq::<char>::empty(),
        Some(Focus::Top) => top_fragment(),
        Some(Focus::Bottom) => bottom_fragment(),
        Some(Focus::Post(id)) => post_prefix() + decimal(id as nat),
    }
}

/// Whether the character `c` occurs nowhere in `s`.
pub open spec fn free_of(s: Seq<char>, c: char) -> bool {
    forall|i: int| 0 <= i < s.len() ==> #[trigger] s[i] != c
}

/// A text without separator is a single piece.
pub proof fn lemma_split_whole(s: Seq<char>, sep: char)
    requires
        free_of(s, sep),
    ensures
        split(s, sep) == seq![s],
    decreases s.len(),
{
    if s.len() == 0 {
        assert(s =~= Seq::<char>::empty());
    } else {
        assert forall|i: int| 0 <= i < s.drop_last().len() implies #[trigger] s.drop_last()[i]
            != sep by {
            assert(s.drop_last()[i] == s[i]);
        }
        lemma_split_whole(s.drop_last(), sep);
        let before = split(s.drop_last(), sep);
        assert(before.len() == 1 && before[0] == s.drop_last());
        assert(s.last() == s[s.len() - 1]);
        assert(s.drop_last().push(s.last()) =~= s);
        assert(before.last().push(s.last()) == s);
        assert(split(s, sep) =~= seq![s]);
    }
}

/// A separator and then a text without one add that text as a last piece.
pub proof fn lemma_split_more(a: Seq<char>, b: Seq<char>, sep: char)
    requires
        free_of(b, sep),
    ensures
        split(a + seq![sep] + b, sep) == split(a, sep).push(b),
    decreases b.len(),
{
    let whole = a + seq![sep] + b;
    if b.len() == 0 {
        assert(whole.drop_last() =~= a);
        assert(b =~= Seq::<char>::empty());
    } else {
        assert forall|i: int| 0 <= i < b.drop_last().len() implies #[trigger] b.drop_last()[i]
            != sep by {
            assert(b.drop_last()[i] == b[i]);
        }
        lemma_split_more(a, b.drop_last(), sep);
        assert(whole.drop_last() =~= a + seq![sep] + b.drop_last());
        assert(whole.last() == b.last());
        assert(b.last() == b[b.len() - 1]);
        assert(b.drop_last().push(b.last()) =~= b);
        assert(split(whole, sep) =~= split(a, sep).push(b));
    }
}

/// The digits of a number hold no character but digits.
proof fn lemma_decimal_free(n: nat, c: char)
    requires
        !is_digit(c),
    ensures
        free_of(decimal(n), c),
{
    lemma_decimal_value(n);
}

/// The path that stands for a feed is read as that feed.
pub proof fn lemma_feed_round_trip(feed: FeedID)
    ensures
        parse_feed(feed_path(feed)) == feed,
{
    let empty = Seq::<char>::empty();
    lemma_split_whole(empty, '/');
    match feed {
        FeedID::Index => {
            lemma_split_more(empty, empty, '/');
            assert(feed_path(feed) =~= empty + seq!['/'] + empty);
            let parts = split(feed_path(feed), '/');
            assert(parts[1].len() == 0);
        },
        FeedID::Catalog => {
            lemma_split_more(empty, catalog_word(), '/');
            assert(feed_path(feed) =~= empty + seq!['/'] + catalog_word());
        },
        FeedID::Thread { id, page } => {
            let first = empty + seq!['/'] + threads_word();
            let digits = decimal(id as nat);
            let second = first + seq!['/'] + digits;
            let number = signed_decimal(page as int);
            lemma_split_more(empty, threads_word(), '/');
            lemma_decimal_free(id as nat, '/');
            lemma_split_more(first, digits, '/');
            if page < 0 {
                lemma_decimal_free((-page) as nat, '/');
            } else {
                lemma_decimal_free(page as nat, '/');
            }
            assert(free_of(number, '/'));
            lemma_split_more(second, number, '/');
            assert(feed_path(feed) =~= second + seq!['/'] + number);
            lemma_read_u64_decimal(id);
            lemma_read_i32_decimal(page);
        },
    }
}

/// The fragment that stands for a focus is read as that focus.
pub proof fn lemma_focus_round_trip(focus: Option<Focus>)
    ensures
        parse_focus(focus_fragment(focus)) == focus,
{
    match focus {
        None => {
            assert(focus_fragment(focus).len() == 0);
        },
        Some(Focus::Top) => {},
        Some(Focus::Bottom) => {
            assert(bottom_fragment().len() != top_fragment().len());
        },
        Some(Focus::Post(id)) => {
            let fragment = focus_fragment(focus);
            lemma_decimal_value(id as nat);
            lemma_read_u64_decimal(id);
            assert(fragment[1] == 'p');
            assert(top_fragment()[1] == 't');
            assert(bottom_fragment()[1] == 'b');
            assert(fragment.take(3) =~= post_prefix());
            assert(fragment.skip(3) =~= decimal(id as nat));
        },
    }
}

/// Reading the path and the fragment that stand for a location gives the
/// location back, whatever its feed, page and focus.
pub proof fn lemma_location_round_trip(loc: Location)
    ensures
        parse_location(feed_path(loc.feed), focus_fragment(loc.focus)) == loc,
{
    lemma_feed_round_trip(loc.feed);
    lemma_focus_round_trip(loc.focus);
}

/// The characters of `s`.
fn chars_of(s: &str) -> (v: Vec<char>)
    ensures
        v@ == s@,
{
    let mut v: Vec<char> = Vec::new();
    for c in iter: s.chars()
        invariant
            iter.seq() == s@,
            v@ == s@.take(iter.index()),
    {
        v.push(c);
        assert(s@.take(iter.index() + 1) =~= s@.take(iter.index()).push(c));
    }
    assert(s@.take(s@.len() as int) =~= s@);
    v
}

/// The view of each piece.
pub open spec fn piece_views(parts: Seq<Vec<char>>) -> Seq<Seq<char>> {
    parts.map_values(|piece: Vec<char>| piece@)
}

/// Cuts `s` at each `/`.
fn split_path(s: &Vec<char>) -> (parts: Vec<Vec<char>>)
    ensures
        piece_views(parts@) == split(s@, '/'),
{
    let mut parts: Vec<Vec<char>> = Vec::new();
    let mut piece: Vec<char> = Vec::new();
    let mut i: usize = 0;
    assert(piece_views(parts@).push(piece@) =~= split(s@.take(0), '/'));
    while i < s.len()
        invariant
            i <= s.len(),
            piece_views(parts@).push(piece@) == split(s@.take(i as int), '/'),
        decreases s.len() - i,
    {
        let c = s[i];
        let ghost before = split(s@.take(i as int), '/');
        proof {
            assert(s@.take(i + 1).drop_last() =~= s@.take(i as int));
            assert(s@.take(i + 1).last() == c);
        }
        if c == '/' {
            let ghost old_parts = parts@;
            let ghost old_piece = piece@;
            parts.push(piece);
            piece = Vec::new();
            assert(piece_views(parts@) =~= piece_views(old_parts).push(old_piece));
            assert(piece_views(parts@).push(piece@) =~= before.push(Seq::<char>::empty()));
        } else {
            piece.push(c);
            assert(piece_views(parts@).push(piece@) =~= before.update(
                before.len() - 1,
                before.last().push(c),
            ));
        }
        i = i + 1;
    }
    assert(s@.take(s@.len() as int) =~= s@);
    let ghost old_parts = parts@;
    parts.push(piece);
    assert(piece_views(parts@) =~= piece_views(old_parts).push(piece@));
    parts
}

/// Whether `s` from `start` on begins with `word`.
fn holds_at(s: &Vec<char>, start: usize, word: &Vec<char>) -> (b: bool)
    requires
        start <= s.len(),
    ensures
        b == has_prefix(s@.skip(start as int), word@),
{
    if s.len() - start < word.len() {
        return false;
    }
    let ghost tail = s@.skip(start as int);
    let mut i: usize = 0;
    while i < word.len()
        invariant
            i <= word.len(),
            start + word.len() <= s.len(),
            tail == s@.skip(start as int),
            tail.take(i as int) == word@.take(i as int),
        decreases word.len() - i,
    {
        if s[start + i] != word[i] {
            proof {
                if tail.take(word.len() as int) == word@ {
                    assert(tail.take(word.len() as int)[i as int] == word@[i as int]);
                }
            }
            return false;
        }
        assert(tail.take(i + 1) =~= tail.take(i as int).push(tail[i as int]));
        assert(word@.take(i + 1) =~= word@.take(i as int).push(word@[i as int]));
        i = i + 1;
    }
    assert(word@.take(word.len() as int) =~= word@);
    true
}

/// Whether `s` is exactly `word`.
fn is_word(s: &Vec<char>, word: &Vec<char>) -> (b: bool)
    ensures
        b == (s@ == word@),
{
    let b = s.len() == word.len() && holds_at(s, 0, word);
    proof {
        assert(s@.skip(0) =~= s@);
        if s.len() == word.len() {
            assert(s@.take(word.len() as int) =~= s@);
        }
    }
    b
}

impl Location {
    /// The text that stands for this location: the path of its feed, then
    /// the fragment of its focus.
    pub open spec fn text(self) -> Seq<char> {
        feed_path(self.feed) + focus_fragment(self.focus)
    }

    /// Reads a location from the path and the fragment of an address.
    pub fn from_path(path: &str, fragment: &str) -> (loc: Location)
        ensures
            loc == parse_location(path@, fragment@),
    {
        let path = chars_of(path);
        let parts = split_path(&path);
        let threads: Vec<char> = vec!['t', 'h', 'r', 'e', 'a', 'd', 's'];
        let catalog: Vec<char> = vec!['c', 'a', 't', 'a', 'l', 'o', 'g'];
        proof {
            assert(threads@ =~= threads_word());
            assert(catalog@ =~= catalog_word());
            assert(forall|i: int|
                0 <= i < parts@.len() ==> (#[trigger] parts@[i])@ == piece_views(parts@)[i]);
        }
        let mut feed = FeedID::Index;
        if parts.len() == 4 && is_word(&parts[1], &threads) {
            proof {
                assert(parts@[2]@.skip(0) =~= parts@[2]@);
                assert(parts@[3]@.skip(0) =~= parts@[3]@);
            }
            match (parse_u64(&parts[2], 0), parse_i32(&parts[3], 0)) {
                (Some(id), Some(page)) => {
                    feed = FeedID::Thread { id, page };
                },
                _ => {},
            }
        } else if parts.len() >= 2 && is_word(&parts[1], &catalog) {
            feed = FeedID::Catalog;
        }
        let fragment = chars_of(fragment);
        let top: Vec<char> = vec!['#', 't', 'o', 'p'];
        let bottom: Vec<char> = vec!['#', 'b', 'o', 't', 't', 'o', 'm'];
        let post: Vec<char> = vec!['#', 'p', '-'];
        proof {
            assert(top@ =~= top_fragment());
            assert(bottom@ =~= bottom_fragment());
            assert(post@ =~= post_prefix());
            assert(fragment@.skip(0) =~= fragment@);
        }
        let focus = if is_word(&fragment, &top) {
            Some(Focus::Top)
        } else if is_word(&fragment, &bottom) {
            Some(Focus::Bottom)
        } else if holds_at(&fragment, 0, &post) {
            match parse_u64(&fragment, 3) {
                Some(id) => Some(Focus::Post(id)),
                None => None,
            }
        } else {
            None
        };
        Location { feed, focus }
    }

    /// The path of the feed, as it stands in an address.
    pub fn feed_path(&self) -> (s: String)
        ensures
            s@ == feed_path(self.feed),
    {
        let mut s = String::new();
        s.push('/');
        match self.feed {
            FeedID::Index => {},
            FeedID::Catalog => {
                s.push('c');
                s.push('a');
                s.push('t');
                s.push('a');
                s.push('l');
                s.push('o');
                s.push('g');
            },
            FeedID::Thread { id, page } => {
                s.push('t');
                s.push('h');
                s.push('r');
                s.push('e');
                s.push('a');
                s.push('d');
                s.push('s');
                s.push('/');
                push_decimal(&mut s, id);
                s.push('/');
                push_signed(&mut s, page);
            },
        }
        assert(s@ =~= feed_path(self.feed));
        s
    }

    /// The fragment of the focus, as it stands in an address; empty where
    /// nothing is focused.
    pub fn fragment(&self) -> (s: String)
        ensures
            s@ == focus_fragment(self.focus),
    {
        let mut s = String::new();
        match self.focus {
            None => {},
            Some(Focus::Top) => {
                s.push('#');
                s.push('t');
                s.push('o');
                s.push('p');
            },
            Some(Focus::Bottom) => {
                s.push('#');
                s.push('b');
                s.push('o');
                s.push('t');
                s.push('t');
                s.push('o');
                s.push('m');
            },
            Some(Focus::Post(id)) => {
                s.push('#');
                s.push('p');
                s.push('-');
                push_decimal(&mut s, id);
            },
        }
        assert(s@ =~= focus_fragment(self.focus));
        s
    }

    /// The address of this location: its path, then its fragment.
    pub fn path(&self) -> (s: String)
        ensures
            s@ == self.text(),
    {
        let mut s = self.feed_path();
        let fragment = self.fragment();
        s.append(fragment.as_str());
        s
    }

    /// Returns whether this is a page of a single thread.
    pub fn is_thread(&self) -> (b: bool)
        ensures
            b == (self.feed is Thread),
    {
        match self.feed {
            FeedID::Thread { .. } => true,
            _ => false,
        }
    }
}

} // verus!
