//! The topics of observable state that a subscriber can ask to hear about.

use vstd::prelude::*;

verus! {

/// One class of observable change of the shared state.
#[derive(Eq, PartialEq, Hash, Copy, Clone, Debug, Structural)]
pub enum Change {
    /// Change of location the app is navigated to
    Location,
    /// Authentication key pair has been set by user
    KeyPair,
    /// Change to any field of the options
    Options,
    /// Change to any field of the configs
    Configs,
    /// Change in tags used on threads
    UsedTags,
    /// Change of the list of threads
    ThreadList,
    /// Change of a thread's data above the level of post content, the set of
    /// its posts included
    Thread(u64),
    /// Any change to a post
    Post(u64),
    /// Change in time correction value
    TimeCorrection,
    /// Change of the open allocated post ID
    OpenPostID,
}

/// What separates the keys of one kind of topic from those of the next.
pub open spec fn kind_span() -> int {
    0x1_0000_0000_0000_0000
}

impl Change {
    /// The number of the topic's kind.
    pub open spec fn kind(self) -> int {
        match self {
            Change::Location => 0,
            Change::KeyPair => 1,
            Change::Options => 2,
            Change::Configs => 3,
            Change::UsedTags => 4,
            Change::ThreadList => 5,
            Change::Thread(_) => 6,
            Change::Post(_) => 7,
            Change::TimeCorrection => 8,
            Change::OpenPostID => 9,
        }
    }

    /// The ID that the topic carries; zero where it carries none.
    pub open spec fn subject(self) -> int {
        match self {
            Change::Thread(id) => id as int,
            Change::Post(id) => id as int,
            _ => 0,
        }
    }

    /// The key under which the topic is indexed: its kind and the ID that it
    /// carries, side by side.
    pub open spec fn key(self) -> u128 {
        (self.kind() * kind_span() + self.subject()) as u128
    }

    /// Returns the key under which the topic is indexed.
    pub fn code(&self) -> (k: u128)
        ensures
            k == self.key(),
    {
        let span: u128 = 0x1_0000_0000_0000_0000;
        match self {
            Change::Location => 0,
            Change::KeyPair => span,
            Change::Options => 2 * span,
            Change::Configs => 3 * span,
            Change::UsedTags => 4 * span,
            Change::ThreadList => 5 * span,
            Change::Thread(id) => 6 * span + (*id as u128),
            Change::Post(id) => 7 * span + (*id as u128),
            Change::TimeCorrection => 8 * span,
            Change::OpenPostID => 9 * span,
        }
    }
}

/// Two topics with one key are one topic: a thread and a post never share a
/// key, whatever their IDs.
pub proof fn lemma_key_injective(a: Change, b: Change)
    requires
        a.key() == b.key(),
    ensures
        a == b,
{
    assert(0 <= a.subject() < kind_span());
    assert(0 <= b.subject() < kind_span());
    assert(a.kind() == b.kind());
}

} // verus!
