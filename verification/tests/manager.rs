use battleship::game::FieldState;
use battleship::manager::{Lobby, Message};
use battleship::session::Player;

fn player(id: u128) -> Player<&'static str, ()> {
    Player {
        address: "peer",
        id,
        tx: (),
        board: [[FieldState::Free; 10]; 10],
        alive_ships: 7,
    }
}

#[test]
fn two_ready_players_start_a_game_in_order() {
    let mut lobby = Lobby::new();
    assert!(lobby.handle(Message::Ready(player(1))).is_none());
    assert_eq!(lobby.waiting_player.as_ref().map(|p| p.id), Some(1));
    let (first, second) = lobby.handle(Message::Ready(player(2))).unwrap();
    assert_eq!((first.id, second.id), (1, 2));
    assert!(lobby.waiting_player.is_none());
}

#[test]
fn waiting_player_leaves_on_own_disconnect_only() {
    let mut lobby = Lobby::new();
    lobby.handle(Message::Ready(player(5)));
    assert!(lobby.handle(Message::Disconnect(6)).is_none());
    assert_eq!(lobby.waiting_player.as_ref().map(|p| p.id), Some(5));
    assert!(lobby.handle(Message::Disconnect(5)).is_none());
    assert!(lobby.waiting_player.is_none());
    lobby.handle(Message::Ready(player(7)));
    assert_eq!(lobby.waiting_player.as_ref().map(|p| p.id), Some(7));
}

#[test]
fn players_are_conserved_over_a_run() {
    let mut lobby = Lobby::new();
    let mut readied = 0;
    let mut started = 0;
    let mut sent_away = 0;
    let msgs = vec![
        Message::Ready(player(1)),
        Message::Disconnect(1),
        Message::Ready(player(2)),
        Message::Ready(player(3)),
        Message::Ready(player(4)),
        Message::Disconnect(9),
        Message::Ready(player(5)),
        Message::Ready(player(6)),
    ];
    for m in msgs {
        let is_ready = matches!(m, Message::Ready(_));
        let had = lobby.waiting_player.is_some();
        if is_ready {
            readied += 1;
        }
        if lobby.handle(m).is_some() {
            started += 1;
        }
        if !is_ready && had && lobby.waiting_player.is_none() {
            sent_away += 1;
        }
    }
    let waiting = if lobby.waiting_player.is_some() { 1 } else { 0 };
    assert_eq!(readied, 2 * started + sent_away + waiting);
    assert_eq!((readied, started, sent_away, waiting), (6, 2, 1, 1));
}

#[test]
fn games_pair_players_in_ready_order_skipping_those_who_left() {
    let mut lobby = Lobby::new();
    let msgs = vec![
        Message::Ready(player(1)),
        Message::Ready(player(2)),
        Message::Ready(player(3)),
        Message::Disconnect(3),
        Message::Ready(player(4)),
        Message::Ready(player(5)),
        Message::Disconnect(4),
        Message::Ready(player(6)),
        Message::Ready(player(7)),
    ];
    let mut games = Vec::new();
    for m in msgs {
        if let Some((first, second)) = lobby.handle(m) {
            games.push((first.id, second.id));
        }
    }
    assert_eq!(games, vec![(1, 2), (4, 5), (6, 7)]);
    assert!(lobby.waiting_player.is_none());
}
