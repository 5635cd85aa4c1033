use battleship::client::{
    automatic_shot, board_layout, parse_board_coordinates, parse_shot_input, react, Glyph, Reaction,
    ALLY_BOARD_POSITION, ENEMY_BOARD_POSITION,
};
use battleship::protocol::{AllyField, ClientToServer, DisconnectReason, EnemyField, ServerToClient};

#[test]
fn corner_coordinates_are_read() {
    assert_eq!(parse_board_coordinates("A0"), Ok((0, 0)));
    assert_eq!(parse_board_coordinates("J9"), Ok((9, 9)));
    assert_eq!(parse_board_coordinates("C7"), Ok((2, 7)));
}

#[test]
fn every_label_is_read() {
    for x in 0u8..10 {
        for y in 0u8..10 {
            let s: String = [(b'A' + x) as char, (b'0' + y) as char].iter().collect();
            assert_eq!(parse_board_coordinates(&s), Ok((x, y)));
        }
    }
}

#[test]
fn wrong_length_is_refused() {
    assert_eq!(parse_board_coordinates(""), Err("Invalid input length".to_string()));
    assert_eq!(parse_board_coordinates("A"), Err("Invalid input length".to_string()));
    assert_eq!(parse_board_coordinates("A10"), Err("Invalid input length".to_string()));
    assert_eq!(parse_board_coordinates("€"), Err("Invalid input length".to_string()));
}

#[test]
fn one_two_byte_character_is_refused() {
    assert_eq!(parse_board_coordinates("é"), Err("Invalid input".to_string()));
}

#[test]
fn out_of_board_coordinates_are_refused() {
    let err = Err("Invalid board coordinates".to_string());
    assert_eq!(parse_board_coordinates("K0"), err);
    assert_eq!(parse_board_coordinates("a0"), err);
    assert_eq!(parse_board_coordinates("@5"), err);
    assert_eq!(parse_board_coordinates("A/"), err);
    assert_eq!(parse_board_coordinates("A:"), err);
    assert_eq!(parse_board_coordinates("00"), err);
}

#[test]
fn typed_shot_is_upper_cased_and_trimmed() {
    assert_eq!(parse_shot_input("b3\n"), Ok((1, 3)));
    assert_eq!(parse_shot_input("  J9 \r\n"), Ok((9, 9)));
    assert_eq!(parse_shot_input("c"), Err("Invalid input length".to_string()));
    assert_eq!(parse_shot_input("k1\n"), Err("Invalid board coordinates".to_string()));
}

#[test]
fn layout_places_labels_and_fields() {
    let mut symbols = [['.'; 10]; 10];
    symbols[2][7] = 'x';
    let glyphs = board_layout(&symbols, (5, 3));
    assert_eq!(glyphs.len(), 120);
    assert_eq!(glyphs[0], Glyph { x: 7, y: 3, symbol: '0' });
    assert_eq!(glyphs[9], Glyph { x: 25, y: 3, symbol: '9' });
    assert_eq!(glyphs[10], Glyph { x: 5, y: 4, symbol: 'A' });
    assert_eq!(glyphs[19], Glyph { x: 5, y: 13, symbol: 'J' });
    assert_eq!(glyphs[20], Glyph { x: 7, y: 4, symbol: '.' });
    assert_eq!(glyphs[20 + 27], Glyph { x: 21, y: 6, symbol: 'x' });
    assert_eq!(glyphs[119], Glyph { x: 25, y: 13, symbol: '.' });
}

#[test]
fn drawn_labels_read_back_as_field() {
    let glyphs = board_layout(&[[' '; 10]; 10], (0, 0));
    for row in 0u8..10 {
        for col in 0u8..10 {
            let typed: String = [glyphs[10 + row as usize].symbol, glyphs[col as usize].symbol]
                .iter()
                .collect();
            assert_eq!(parse_board_coordinates(&typed), Ok((row, col)));
        }
    }
}

#[test]
fn ally_update_is_drawn_at_ally_position() {
    let mut board = [[AllyField::Free; 10]; 10];
    board[0][0] = AllyField::Hit;
    match react(&ServerToClient::UpdateAlly(board)) {
        Reaction::Draw(glyphs) => {
            assert_eq!(glyphs.len(), 120);
            assert_eq!(glyphs[10], Glyph { x: ALLY_BOARD_POSITION.0, y: 5, symbol: 'A' });
            assert_eq!(glyphs[20], Glyph { x: 2, y: 5, symbol: '🟡' });
            assert_eq!(glyphs[21], Glyph { x: 4, y: 5, symbol: '🟦' });
        }
        _ => panic!("expected a drawing"),
    }
}

#[test]
fn enemy_update_is_drawn_at_enemy_position() {
    let mut board = [[EnemyField::Unknown; 10]; 10];
    board[9][9] = EnemyField::Sank;
    match react(&ServerToClient::UpdateEnemy(board)) {
        Reaction::Draw(glyphs) => {
            assert_eq!(glyphs[0], Glyph { x: ENEMY_BOARD_POSITION.0 + 2, y: 4, symbol: '0' });
            assert_eq!(glyphs[119], Glyph { x: 50, y: 14, symbol: '🔴' });
        }
        _ => panic!("expected a drawing"),
    }
}

#[test]
fn disconnect_and_turn_reactions() {
    assert!(matches!(
        react(&ServerToClient::Disconnect(DisconnectReason::Defeat)),
        Reaction::Leave(DisconnectReason::Defeat)
    ));
    assert!(matches!(react(&ServerToClient::YourTurn), Reaction::TakeTurn));
}

#[test]
fn automatic_shots_land_on_the_board() {
    let mut rng = rand::thread_rng();
    for _ in 0..200 {
        match automatic_shot(&mut rng) {
            ClientToServer::Shoot((y, x)) => assert!(y <= 9 && x <= 9),
            other => panic!("expected a shot, got {:?}", other),
        }
    }
}
