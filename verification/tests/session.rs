use battleship::client::convert_to_bool_array;
use battleship::game::{FieldState, MessageContent, INITIAL_SHIPS_COUNT};
use battleship::protocol::{ClientToServer, DisconnectReason, ServerToClient};
use battleship::server::accepts_connection;
use battleship::session::{Action, ClientState, Event, Message, Session};

const LAYOUT: [[i32; 10]; 10] = [
    [1, 0, 1, 0, 1, 1, 0, 0, 0, 0],
    [0, 0, 0, 0, 0, 0, 0, 0, 0, 0],
    [0, 0, 0, 0, 0, 1, 0, 0, 0, 1],
    [0, 0, 0, 0, 0, 1, 0, 0, 0, 1],
    [0, 0, 0, 0, 0, 0, 0, 0, 0, 1],
    [0, 0, 0, 1, 1, 1, 1, 0, 0, 0],
    [0, 0, 0, 0, 0, 0, 0, 0, 0, 0],
    [0, 0, 0, 0, 0, 0, 0, 0, 0, 0],
    [0, 0, 0, 1, 1, 1, 1, 1, 0, 0],
    [0, 0, 0, 0, 0, 0, 0, 0, 0, 0],
];

#[test]
fn valid_layout_registers_once() {
    let mut s: Session<u32> = Session::new(42);
    let layout = convert_to_bool_array(LAYOUT);
    let out = s.handle(Event::Client(ClientToServer::SetBoard(layout)));
    assert!(!out.stop);
    match out.action {
        Some(Action::Register(r)) => {
            assert_eq!(r.alive_ships, INITIAL_SHIPS_COUNT);
            assert_eq!(r.board[0][0], FieldState::Occupied);
            assert_eq!(r.board[0][1], FieldState::Free);
        }
        _ => panic!("expected a registration"),
    }
    assert_eq!(s.state, ClientState::Ready);
    let again = s.handle(Event::Client(ClientToServer::SetBoard(layout)));
    assert!(again.action.is_none());
    assert!(!again.stop);
}

#[test]
fn invalid_layout_disconnects_with_error() {
    let mut s: Session<u32> = Session::new(1);
    let out = s.handle(Event::Client(ClientToServer::SetBoard([[false; 10]; 10])));
    assert!(out.stop);
    assert!(matches!(
        out.action,
        Some(Action::Send(ServerToClient::Disconnect(DisconnectReason::Error)))
    ));
    assert_eq!(s.state, ClientState::Connected);
}

#[test]
fn shots_reach_the_game_only_when_playing() {
    let mut s: Session<u32> = Session::new(7);
    let early = s.handle(Event::Client(ClientToServer::Shoot((1, 2))));
    assert!(early.action.is_none());
    let start = s.handle(Event::Internal(Message::StartGame(99)));
    assert!(start.action.is_none() && !start.stop);
    assert_eq!(s.state, ClientState::Playing);
    assert_eq!(s.game_tx, Some(99));
    let shot = s.handle(Event::Client(ClientToServer::Shoot((1, 2))));
    match shot.action {
        Some(Action::ToGame(m)) => {
            assert_eq!(m.player_id, 7);
            assert_eq!(m.content, MessageContent::Shoot((1, 2)));
        }
        _ => panic!("expected a shot for the game"),
    }
    let farewell = s.farewell().unwrap();
    assert_eq!(farewell.player_id, 7);
    assert_eq!(farewell.content, MessageContent::Disconnect);
}

#[test]
fn server_messages_are_forwarded() {
    let mut s: Session<u32> = Session::new(3);
    let out = s.handle(Event::Internal(Message::YourTurn));
    assert!(matches!(out.action, Some(Action::Send(ServerToClient::YourTurn))));
    assert!(!out.stop);
    let out = s.handle(Event::Internal(Message::Disconnect(DisconnectReason::Win)));
    assert!(matches!(
        out.action,
        Some(Action::Send(ServerToClient::Disconnect(DisconnectReason::Win)))
    ));
    assert!(out.stop);
    assert!(s.farewell().is_none());
}

#[test]
fn closed_connection_ends_session() {
    let mut s: Session<u32> = Session::new(3);
    let out = s.handle(Event::Closed);
    assert!(out.stop && out.action.is_none());
}

#[test]
fn connection_limit() {
    assert!(accepts_connection(0, 1));
    assert!(accepts_connection(9, 10));
    assert!(!accepts_connection(10, 10));
    assert!(!accepts_connection(0, 0));
}

#[test]
fn only_the_first_layout_while_connected_registers() {
    let mut s: Session<u32> = Session::new(3);
    let layout = convert_to_bool_array(LAYOUT);
    // requests that are not layouts leave the session connected and go nowhere
    let shot = s.handle(Event::Client(ClientToServer::Shoot((0, 0))));
    assert!(shot.action.is_none() && !shot.stop);
    assert_eq!(s.state, ClientState::Connected);
    // the first layout registers
    let first = s.handle(Event::Client(ClientToServer::SetBoard(layout)));
    assert!(matches!(first.action, Some(Action::Register(_))));
    // while ready, every client request is ignored, a second layout too
    for request in [
        ClientToServer::SetBoard(layout),
        ClientToServer::SetBoard([[false; 10]; 10]),
        ClientToServer::Shoot((4, 4)),
    ] {
        let out = s.handle(Event::Client(request));
        assert!(out.action.is_none() && !out.stop);
        assert_eq!(s.state, ClientState::Ready);
    }
}
