use vstd::prelude::*;
use crate::session::Player;

verus! {

/// Number of ships every player starts a game with.
pub const INITIAL_SHIPS_COUNT: u8 = 7;

/// State of one field of a player's own board, as the server keeps it.
#[derive(Clone, Copy, PartialEq, Eq, Structural, Debug)]
pub enum FieldState {
    Free,
    Occupied,
    Missed,
    Hit,
    Sank,
}

/// A player's board as the server keeps it, indexed `[y][x]`.
pub type Board = [[FieldState; 10]; 10];

/// What a player's session hands to the game the player is in.
#[derive(Clone, Copy, PartialEq, Eq, Debug)]
pub enum MessageContent {
    Shoot((u8, u8)),
    Disconnect,
}

/// A message from one player's session to the game, tagged with the player.
#[derive(Clone, Copy, PartialEq, Eq, Debug)]
pub struct Message {
    pub player_id: u128,
    pub content: MessageContent,
}

/// Two matched players; `A` is how a player is reached on the network and
/// `T` the channel to the player's session.
pub struct Game<A, T> {
    pub id: u128,
    pub player_1: Player<A, T>,
    pub player_2: Player<A, T>,
}

} // verus!
