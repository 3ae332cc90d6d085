//! Pointer tracking and drag coordination: who is being dragged, who wants to
//! know whether anything is, and one update of the dragged per frame.

use std::collections::HashSet;
use vstd::prelude::*;
use vstd::std_specs::hash::*;
use vstd::std_specs::iter::IteratorSpec;

verus! {

broadcast use vstd::std_specs::hash::group_hash_axioms;

/// A point of the viewport, in pixels.
#[derive(Default, Clone, Copy, Debug, PartialEq, Eq, Structural)]
pub struct Coordinates {
    pub x: i32,
    pub y: i32,
}

/// The sum of two `i32` as the machine computes it, wrapping round at the
/// ends of the range.
pub open spec fn wrapped_sum(a: i32, b: i32) -> i32 {
    vstd::wrapping::i32_specs::wrapping_add(a, b)
}

/// The difference of two `i32` as the machine computes it, wrapping round at
/// the ends of the range.
pub open spec fn wrapped_difference(a: i32, b: i32) -> i32 {
    vstd::wrapping::i32_specs::wrapping_sub(a, b)
}

impl Coordinates {
    /// The point moved by `rhs`, each axis wrapping round on overflow.
    pub open spec fn moved_by(self, rhs: Coordinates) -> Coordinates {
        Coordinates { x: wrapped_sum(self.x, rhs.x), y: wrapped_sum(self.y, rhs.y) }
    }

    /// The way from `rhs` to the point, each axis wrapping round on overflow.
    pub open spec fn moved_back(self, rhs: Coordinates) -> Coordinates {
        Coordinates {
            x: wrapped_difference(self.x, rhs.x),
            y: wrapped_difference(self.y, rhs.y),
        }
    }
}

impl std::ops::Add for Coordinates {
    type Output = Self;

    fn add(self, rhs: Self) -> (sum: Self)
        ensures
            sum == self.moved_by(rhs),
    {
        Coordinates { x: self.x.wrapping_add(rhs.x), y: self.y.wrapping_add(rhs.y) }
    }
}

impl vstd::std_specs::ops::AddSpecImpl for Coordinates {
    open spec fn obeys_add_spec() -> bool {
        true
    }

    open spec fn add_req(self, rhs: Coordinates) -> bool {
        true
    }

    open spec fn add_spec(self, rhs: Coordinates) -> Coordinates {
        self.moved_by(rhs)
    }
}

impl vstd::std_specs::ops::SubSpecImpl for Coordinates {
    open spec fn obeys_sub_spec() -> bool {
        true
    }

    open spec fn sub_req(self, rhs: Coordinates) -> bool {
        true
    }

    open spec fn sub_spec(self, rhs: Coordinates) -> Coordinates {
        self.moved_back(rhs)
    }
}

impl std::ops::Sub for Coordinates {
    type Output = Self;

    fn sub(self, rhs: Self) -> (difference: Self)
        ensures
            difference == self.moved_back(rhs),
    {
        Coordinates { x: self.x.wrapping_sub(rhs.x), y: self.y.wrapping_sub(rhs.y) }
    }
}

impl std::ops::AddAssign for Coordinates {
    fn add_assign(&mut self, rhs: Self)
        ensures
            *final(self) == old(self).moved_by(rhs),
    {
        self.x = self.x.wrapping_add(rhs.x);
        self.y = self.y.wrapping_add(rhs.y);
    }
}

/// What the page tells the coordinator about the pointer.
#[derive(Clone, Copy, Debug, PartialEq, Eq, Structural)]
pub enum Message {
    /// The pointer moved to these coordinates
    MouseMove(Coordinates),
    /// The pointer's button was released
    MouseUp,
    /// The frame that was asked for has come
    AnimationFrame,
}

/// What an observer can ask of the coordinator.
#[derive(Clone, Copy, Debug, PartialEq, Eq, Structural)]
pub enum Request {
    StartDragging,
}

/// What the coordinator tells an observer.
#[derive(Clone, Copy, Debug, PartialEq, Eq, Structural)]
pub enum Response {
    /// Is any element being dragged?
    IsDragging(bool),
    /// Pointer coordinates to drag the element to
    Coordinates(Coordinates),
    /// Tells a dragged view that it is dragged no longer
    StoppedDragging,
}

/// What the coordinator asks of its surroundings.
#[derive(Clone, Copy, Debug, PartialEq, Eq, Structural)]
pub enum Effect {
    /// Deliver the response to the observer with this handle
    Respond(u64, Response),
    /// Call back with `Message::AnimationFrame` on the next frame
    RequestFrame,
}

/// The handle that an effect delivers to; zero where it delivers nothing.
pub open spec fn recipient(effect: Effect) -> u64 {
    match effect {
        Effect::Respond(handle, _) => handle,
        Effect::RequestFrame => 0,
    }
}

/// `sent` delivers `msg` to each handle of `to` once and does nothing else.
pub open spec fn delivers(sent: Seq<Effect>, to: Set<u64>, msg: Response) -> bool {
    &&& sent.len() == to.len()
    &&& forall|i: int|
        0 <= i < sent.len() ==> (#[trigger] sent[i]) == Effect::Respond(recipient(sent[i]), msg)
            && to.contains(recipient(sent[i]))
    &&& forall|i: int, j: int| 0 <= i < j < sent.len() ==> sent[i] != sent[j]
    &&& forall|h: u64| to.contains(h) ==> sent.contains(Effect::Respond(h, msg))
}

/// Global pointer tracking and drag coordination.
pub struct Agent {
    /// Where the pointer was last seen
    current: Coordinates,
    /// Whether a frame callback is outstanding
    frame_requested: bool,
    /// Observers told whether anything is dragged
    state_subs: HashSet<u64>,
    /// Observers being dragged
    dragging: HashSet<u64>,
}

/// Appends to `out` one delivery of `msg` for each handle of `to`.
fn broadcast(to: &HashSet<u64>, msg: Response, out: &mut Vec<Effect>)
    ensures
        final(out)@.len() == old(out)@.len() + to@.len(),
        final(out)@.take(old(out)@.len() as int) == old(out)@,
        delivers(final(out)@.skip(old(out)@.len() as int), to@, msg),
{
    let ghost before = out@;
    let ghost all = to.iter().remaining();
    for handle in iter: to.iter()
        invariant
            iter.seq() == all,
            out@.len() == before.len() + iter.index(),
            out@.take(before.len() as int) == before,
            forall|i: int|
                0 <= i < iter.index() ==> #[trigger] out@[before.len() + i] == Effect::Respond(
                    *all[i],
                    msg,
                ),
    {
        let ghost prev = out@;
        out.push(Effect::Respond(*handle, msg));
        assert(out@.take(before.len() as int) =~= prev.take(before.len() as int));
    }
    proof {
        let sent = out@.skip(before.len() as int);
        assert(all.unref().to_set() == to@);
        assert(all.no_duplicates());
        assert(all.len() == to@.len());
        assert forall|i: int| 0 <= i < sent.len() implies (#[trigger] sent[i]) == Effect::Respond(
            recipient(sent[i]),
            msg,
        ) && to@.contains(recipient(sent[i])) by {
            assert(sent[i] == out@[before.len() + i]);
            assert(all.unref()[i] == *all[i]);
            assert(all.unref().to_set().contains(*all[i]));
        }
        assert forall|i: int, j: int| 0 <= i < j < sent.len() implies sent[i] != sent[j] by {
            assert(sent[i] == out@[before.len() + i]);
            assert(sent[j] == out@[before.len() + j]);
            if *all[i] == *all[j] {
                assert(all[i] == all[j]);
            }
        }
        assert forall|h: u64| to@.contains(h) implies sent.contains(Effect::Respond(h, msg)) by {
            assert(all.unref().to_set().contains(h));
            let i = choose|i: int| 0 <= i < all.unref().len() && all.unref()[i] == h;
            assert(sent[i] == out@[before.len() + i]);
        }
    }
}

impl Agent {
    /// Where the pointer was last seen.
    pub closed spec fn position(&self) -> Coordinates {
        self.current
    }

    /// Whether a frame callback is outstanding.
    pub closed spec fn awaiting_frame(&self) -> bool {
        self.frame_requested
    }

    /// The observers that are told whether anything is dragged.
    pub closed spec fn watchers(&self) -> Set<u64> {
        self.state_subs@
    }

    /// The observers that are being dragged.
    pub closed spec fn dragged(&self) -> Set<u64> {
        self.dragging@
    }

    /// A coordinator with the pointer at the origin, nobody connected and
    /// nothing dragged.
    pub fn create() -> (agent: Self)
        ensures
            agent.position() == (Coordinates { x: 0, y: 0 }),
            !agent.awaiting_frame(),
            agent.watchers() == Set::<u64>::empty(),
            agent.dragged() == Set::<u64>::empty(),
    {
        Agent {
            current: Coordinates { x: 0, y: 0 },
            frame_requested: false,
            state_subs: HashSet::new(),
            dragging: HashSet::new(),
        }
    }

    /// Where the pointer was last seen.
    pub fn current(&self) -> (c: Coordinates)
        ensures
            c == self.position(),
    {
        self.current
    }

    /// Whether anything is being dragged.
    pub fn is_dragging(&self) -> (b: bool)
        ensures
            b == !self.dragged().is_empty(),
    {
        !self.dragging.is_empty()
    }

    /// An observer has connected: from now on it is told whether anything is
    /// dragged.
    pub fn connected(&mut self, id: u64)
        ensures
            final(self).watchers() == old(self).watchers().insert(id),
            final(self).dragged() == old(self).dragged(),
            final(self).position() == old(self).position(),
            final(self).awaiting_frame() == old(self).awaiting_frame(),
    {
        self.state_subs.insert(id);
    }

    /// Tells every watcher whether anything is dragged.
    fn send_dragging_status(&self, out: &mut Vec<Effect>)
        ensures
            final(out)@.len() == old(out)@.len() + self.watchers().len(),
            final(out)@.take(old(out)@.len() as int) == old(out)@,
            delivers(
                final(out)@.skip(old(out)@.len() as int),
                self.watchers(),
                Response::IsDragging(!self.dragged().is_empty()),
            ),
    {
        let msg = Response::IsDragging(!self.dragging.is_empty());
        broadcast(&self.state_subs, msg, out);
    }

    /// Handles a request of the observer `id`. To start dragging, the
    /// observer joins the dragged and is sent the pointer's position at once;
    /// if nothing was dragged before, every watcher is then told that
    /// something is.
    pub fn handle_input(&mut self, req: Request, id: u64) -> (out: Vec<Effect>)
        ensures
            final(self).dragged() == old(self).dragged().insert(id),
            final(self).watchers() == old(self).watchers(),
            final(self).position() == old(self).position(),
            final(self).awaiting_frame() == old(self).awaiting_frame(),
            out@.len() > 0,
            out@[0] == Effect::Respond(id, Response::Coordinates(old(self).position())),
            old(self).dragged().is_empty() ==> delivers(
                out@.skip(1),
                old(self).watchers(),
                Response::IsDragging(true),
            ),
            !old(self).dragged().is_empty() ==> out@.len() == 1,
    {
        let mut out: Vec<Effect> = Vec::new();
        match req {
            Request::StartDragging => {
                let was_empty = self.dragging.is_empty();
                self.dragging.insert(id);
                out.push(Effect::Respond(id, Response::Coordinates(self.current)));
                let ghost first = out@;
                if was_empty {
                    assert(self.dragging@.contains(id));
                    self.send_dragging_status(&mut out);
                    assert(out@.take(1)[0] == first[0]);
                }
            },
        }
        out
    }

    /// The observer `id` has disconnected: it is neither watcher nor dragged
    /// any more. If it was the last of the dragged, every remaining watcher is
    /// told that nothing is dragged.
    pub fn disconnected(&mut self, id: u64) -> (out: Vec<Effect>)
        ensures
            final(self).watchers() == old(self).watchers().remove(id),
            final(self).dragged() == old(self).dragged().remove(id),
            final(self).position() == old(self).position(),
            final(self).awaiting_frame() == old(self).awaiting_frame(),
            old(self).dragged().contains(id) && final(self).dragged().is_empty() ==> delivers(
                out@,
                final(self).watchers(),
                Response::IsDragging(false),
            ),
            !(old(self).dragged().contains(id) && final(self).dragged().is_empty()) ==> out@.len()
                == 0,
    {
        let mut out: Vec<Effect> = Vec::new();
        self.state_subs.remove(&id);
        let was_dragged = self.dragging.remove(&id);
        if was_dragged && self.dragging.is_empty() {
            self.send_dragging_status(&mut out);
            assert(out@.skip(0) =~= out@);
        }
        out
    }

    /// Handles news of the pointer.
    ///
    /// A move is remembered; while something is dragged and no frame is
    /// awaited, one frame is asked for. On that frame every dragged observer
    /// is sent the pointer's position, and a frame can be asked for again. A
    /// release ends every drag: each dragged observer is told so, then every
    /// watcher is told that nothing is dragged; with nothing dragged it does
    /// nothing.
    pub fn update(&mut self, msg: Message) -> (out: Vec<Effect>)
        ensures
            final(self).watchers() == old(self).watchers(),
            match msg {
                Message::MouseMove(coords) => {
                    let ask = !old(self).dragged().is_empty() && !old(self).awaiting_frame();
                    &&& final(self).position() == coords
                    &&& final(self).dragged() == old(self).dragged()
                    &&& final(self).awaiting_frame() == (old(self).awaiting_frame() || ask)
                    &&& out@ == if ask {
                        seq![Effect::RequestFrame]
                    } else {
                        Seq::<Effect>::empty()
                    }
                },
                Message::AnimationFrame => {
                    &&& final(self).position() == old(self).position()
                    &&& final(self).dragged() == old(self).dragged()
                    &&& !final(self).awaiting_frame()
                    &&& delivers(
                        out@,
                        old(self).dragged(),
                        Response::Coordinates(old(self).position()),
                    )
                },
                Message::MouseUp => {
                    let n = old(self).dragged().len() as int;
                    &&& final(self).position() == old(self).position()
                    &&& final(self).dragged() == Set::<u64>::empty()
                    &&& final(self).awaiting_frame() == old(self).awaiting_frame()
                    &&& old(self).dragged().is_empty() ==> out@.len() == 0
                    &&& !old(self).dragged().is_empty() ==> out@.len() == n + old(
                        self,
                    ).watchers().len() && delivers(
                        out@.take(n),
                        old(self).dragged(),
                        Response::StoppedDragging,
                    ) && delivers(out@.skip(n), old(self).watchers(), Response::IsDragging(false))
                },
            },
    {
        let mut out: Vec<Effect> = Vec::new();
        match msg {
            Message::MouseMove(coords) => {
                self.current = coords;
                if !self.dragging.is_empty() && !self.frame_requested {
                    self.frame_requested = true;
                    out.push(Effect::RequestFrame);
                }
                assert(out@ =~= if !old(self).dragged().is_empty() && !old(self).awaiting_frame() {
                    seq![Effect::RequestFrame]
                } else {
                    Seq::<Effect>::empty()
                });
            },
            Message::AnimationFrame => {
                self.frame_requested = false;
                broadcast(&self.dragging, Response::Coordinates(self.current), &mut out);
                assert(out@.skip(0) =~= out@);
            },
            Message::MouseUp => {
                let mut dragging: HashSet<u64> = HashSet::new();
                std::mem::swap(&mut dragging, &mut self.dragging);
                if !dragging.is_empty() {
                    broadcast(&dragging, Response::StoppedDragging, &mut out);
                    let ghost first = out@;
                    assert(first.skip(0) =~= first);
                    self.send_dragging_status(&mut out);
                    assert(out@.take(first.len() as int) == first);
                }
            },
        }
        out
    }
}

} // verus!
