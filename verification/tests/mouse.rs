use board_client::mouse::{Agent, Coordinates, Effect, Message, Request, Response};

fn sorted(mut v: Vec<Effect>) -> Vec<Effect> {
    v.sort_by_key(|e| match e {
        Effect::Respond(h, _) => *h,
        Effect::RequestFrame => u64::MAX,
    });
    v
}

#[test]
fn coordinates_add_and_subtract() {
    let a = Coordinates { x: 1, y: -2 };
    let b = Coordinates { x: 10, y: 20 };
    assert_eq!(a + b, Coordinates { x: 11, y: 18 });
    assert_eq!(a - b, Coordinates { x: -9, y: -22 });
    let mut c = a;
    c += b;
    assert_eq!(c, Coordinates { x: 11, y: 18 });
    assert_eq!(Coordinates::default(), Coordinates { x: 0, y: 0 });
}

#[test]
fn coordinates_wrap_round() {
    let a = Coordinates { x: i32::MAX, y: i32::MIN };
    let one = Coordinates { x: 1, y: 1 };
    assert_eq!(a + one, Coordinates { x: i32::MIN, y: i32::MIN + 1 });
    assert_eq!(a - one, Coordinates { x: i32::MAX - 1, y: i32::MAX });
}

#[test]
fn first_drag_announces_dragging_once() {
    let mut agent = Agent::create();
    agent.connected(1);
    agent.connected(2);
    agent.connected(3);
    assert_eq!(agent.update(Message::MouseMove(Coordinates { x: 5, y: 6 })), vec![]);
    assert!(!agent.is_dragging());

    let out = agent.handle_input(Request::StartDragging, 1);
    let at = Response::Coordinates(Coordinates { x: 5, y: 6 });
    assert_eq!(out[0], Effect::Respond(1, at));
    assert_eq!(
        sorted(out[1..].to_vec()),
        vec![
            Effect::Respond(1, Response::IsDragging(true)),
            Effect::Respond(2, Response::IsDragging(true)),
            Effect::Respond(3, Response::IsDragging(true)),
        ]
    );
    assert!(agent.is_dragging());

    let out = agent.handle_input(Request::StartDragging, 2);
    assert_eq!(out, vec![Effect::Respond(2, at)]);
}

#[test]
fn release_stops_every_drag_and_announces_it_once() {
    let mut agent = Agent::create();
    agent.connected(1);
    agent.connected(2);
    agent.connected(3);
    agent.handle_input(Request::StartDragging, 1);
    agent.handle_input(Request::StartDragging, 2);
    let out = agent.update(Message::MouseUp);
    assert_eq!(
        sorted(out[..2].to_vec()),
        vec![
            Effect::Respond(1, Response::StoppedDragging),
            Effect::Respond(2, Response::StoppedDragging),
        ]
    );
    assert_eq!(
        sorted(out[2..].to_vec()),
        vec![
            Effect::Respond(1, Response::IsDragging(false)),
            Effect::Respond(2, Response::IsDragging(false)),
            Effect::Respond(3, Response::IsDragging(false)),
        ]
    );
    assert!(!agent.is_dragging());
    assert_eq!(agent.update(Message::MouseUp), vec![]);
}

#[test]
fn moves_are_coalesced_into_one_update_per_frame() {
    let mut agent = Agent::create();
    agent.connected(1);
    agent.handle_input(Request::StartDragging, 1);
    assert_eq!(
        agent.update(Message::MouseMove(Coordinates { x: 1, y: 1 })),
        vec![Effect::RequestFrame]
    );
    assert_eq!(agent.update(Message::MouseMove(Coordinates { x: 2, y: 2 })), vec![]);
    assert_eq!(agent.update(Message::MouseMove(Coordinates { x: 3, y: 4 })), vec![]);
    assert_eq!(agent.current(), Coordinates { x: 3, y: 4 });
    assert_eq!(
        agent.update(Message::AnimationFrame),
        vec![Effect::Respond(1, Response::Coordinates(Coordinates { x: 3, y: 4 }))]
    );
    assert_eq!(
        agent.update(Message::MouseMove(Coordinates { x: 5, y: 5 })),
        vec![Effect::RequestFrame]
    );
}

#[test]
fn a_frame_with_nothing_dragged_updates_nobody() {
    let mut agent = Agent::create();
    agent.connected(1);
    assert_eq!(agent.update(Message::AnimationFrame), vec![]);
}

#[test]
fn disconnect_of_the_last_dragged_announces_the_end() {
    let mut agent = Agent::create();
    agent.connected(1);
    agent.connected(2);
    agent.handle_input(Request::StartDragging, 1);
    agent.handle_input(Request::StartDragging, 2);
    assert_eq!(agent.disconnected(1), vec![]);
    assert!(agent.is_dragging());
    assert_eq!(agent.disconnected(9), vec![]);
    agent.connected(3);
    let out = agent.disconnected(2);
    assert_eq!(out, vec![Effect::Respond(3, Response::IsDragging(false))]);
    assert!(!agent.is_dragging());
    assert_eq!(agent.disconnected(3), vec![]);
}

#[test]
fn drag_by_an_observer_that_never_connected() {
    let mut agent = Agent::create();
    let out = agent.handle_input(Request::StartDragging, 7);
    assert_eq!(
        out,
        vec![Effect::Respond(7, Response::Coordinates(Coordinates { x: 0, y: 0 }))]
    );
    assert_eq!(
        agent.update(Message::MouseUp),
        vec![Effect::Respond(7, Response::StoppedDragging)]
    );
}
