//! Matchmaking: players whose layouts were accepted wait in the lobby until
//! a second player arrives, and the two are then started in a game.
use vstd::prelude::*;
use crate::session::Player;

verus! {

/// What the matchmaker is told.
pub enum Message<A, T> {
    /// A player's layout was accepted and the player wants a game.
    Ready(Player<A, T>),
    /// The player with this id has left.
    Disconnect(u128),
}

/// The matchmaker's state: at most one player waits for an opponent.
pub struct Lobby<A, T> {
    pub waiting_player: Option<Player<A, T>>,
}

/// How the matchmaker answers a message: who waits afterwards, and which
/// two players, if any, are to start a game (the one who waited first).
pub open spec fn lobby_next<A, T>(waiting: Option<Player<A, T>>, msg: Message<A, T>) -> (
    Option<Player<A, T>>,
    Option<(Player<A, T>, Player<A, T>)>,
) {
    match msg {
        Message::Ready(new_player) => match waiting {
            Some(old_player) => (None, Some((old_player, new_player))),
            None => (Some(new_player), None),
        },
        Message::Disconnect(id) => if waiting matches Some(w) && w.id == id {
            (None, None)
        } else {
            (waiting, None)
        },
    }
}

impl<A, T> Lobby<A, T> {
    /// An empty lobby.
    pub fn new() -> (lobby: Self)
        ensures
            lobby.waiting_player is None,
    {
        Lobby { waiting_player: None }
    }

    /// Answers one message; returns the two players to start a game with,
    /// the one who waited first in front.
    pub fn handle(&mut self, msg: Message<A, T>) -> (game: Option<(Player<A, T>, Player<A, T>)>)
        ensures
            (final(self).waiting_player, game) == lobby_next(old(self).waiting_player, msg),
    {
        match msg {
            Message::Ready(new_player) => {
                if let Some(old_player) = self.waiting_player.take() {
                    Some((old_player, new_player))
                } else {
                    self.waiting_player = Some(new_player);
                    None
                }
            },
            Message::Disconnect(id) => {
                let leaves = match &self.waiting_player {
                    Some(w_player) => w_player.id == id,
                    None => false,
                };
                if leaves {
                    self.waiting_player = None;
                }
                None
            },
        }
    }
}

/// `waiting[i + 1]` and `games[i]` are how the lobby holding `waiting[i]`
/// answers `msgs[i]`, for every message of the run.
pub open spec fn lobby_run<A, T>(
    waiting: Seq<Option<Player<A, T>>>,
    msgs: Seq<Message<A, T>>,
    games: Seq<Option<(Player<A, T>, Player<A, T>)>>,
) -> bool {
    &&& waiting.len() == msgs.len() + 1
    &&& games.len() == msgs.len()
    &&& forall|i: int|
        0 <= i < msgs.len() ==> (waiting[i + 1], games[i]) == #[trigger] lobby_next(
            waiting[i],
            msgs[i],
        )
}

/// Number of `Ready` messages among the first `n`.
pub open spec fn readied<A, T>(msgs: Seq<Message<A, T>>, n: int) -> nat
    decreases n,
{
    if n <= 0 {
        0
    } else {
        readied(msgs, n - 1) + if msgs[n - 1] is Ready {
            1nat
        } else {
            0nat
        }
    }
}

/// Number of games started by the first `n` messages.
pub open spec fn started<A, T>(games: Seq<Option<(Player<A, T>, Player<A, T>)>>, n: int) -> nat
    decreases n,
{
    if n <= 0 {
        0
    } else {
        started(games, n - 1) + if games[n - 1] is Some {
            1nat
        } else {
            0nat
        }
    }
}

/// Number of waiting players that the first `n` messages sent away.
pub open spec fn sent_away<A, T>(
    waiting: Seq<Option<Player<A, T>>>,
    msgs: Seq<Message<A, T>>,
    n: int,
) -> nat
    decreases n,
{
    if n <= 0 {
        0
    } else {
        sent_away(waiting, msgs, n - 1) + if msgs[n - 1] is Disconnect && waiting[n - 1] is Some
            && waiting[n] is None {
            1nat
        } else {
            0nat
        }
    }
}

/// No player is lost or duplicated: starting from an empty lobby, every
/// player announced ready is at any time either the one waiting, one of two
/// players of a started game, or was sent away by a disconnect.
pub proof fn lemma_lobby_conserves_players<A, T>(
    waiting: Seq<Option<Player<A, T>>>,
    msgs: Seq<Message<A, T>>,
    games: Seq<Option<(Player<A, T>, Player<A, T>)>>,
    n: int,
)
    requires
        lobby_run(waiting, msgs, games),
        waiting[0] is None,
        0 <= n <= msgs.len(),
    ensures
        readied(msgs, n) == 2 * started(games, n) + sent_away(waiting, msgs, n) + if waiting[n] is Some {
            1nat
        } else {
            0nat
        },
    decreases n,
{
    if n > 0 {
        lemma_lobby_conserves_players(waiting, msgs, games, n - 1);
        assert((waiting[n], games[n - 1]) == lobby_next(waiting[n - 1], msgs[n - 1]));
    }
}

/// A disconnect only ever sends away the waiting player with that id.
pub proof fn lemma_disconnect_removes_only_that_player<A, T>(
    waiting: Option<Player<A, T>>,
    id: u128,
)
    ensures
        ({
            let (after, game) = lobby_next(waiting, Message::Disconnect(id));
            &&& game is None
            &&& after is None <==> (waiting is None || waiting->0.id == id)
            &&& after is Some ==> after == waiting
        }),
{
}

/// `p` was announced by the `Ready` at index `j`, which started no game,
/// and every message from then up to index `n` (excluded) was a
/// disconnect of another player.
pub open spec fn waits_since<A, T>(
    msgs: Seq<Message<A, T>>,
    games: Seq<Option<(Player<A, T>, Player<A, T>)>>,
    p: Player<A, T>,
    j: int,
    n: int,
) -> bool {
    &&& 0 <= j < n
    &&& msgs[j] == Message::Ready(p)
    &&& games[j] is None
    &&& forall|k: int| j < k < n ==> (#[trigger] msgs[k] matches Message::Disconnect(id) && id != p.id)
}

/// The player who waited, of the two started in a game.
pub open spec fn first_player<A, T>(game: (Player<A, T>, Player<A, T>)) -> Player<A, T> {
    let (first, _) = game;
    first
}

/// The player who just arrived, of the two started in a game.
pub open spec fn second_player<A, T>(game: (Player<A, T>, Player<A, T>)) -> Player<A, T> {
    let (_, second) = game;
    second
}

/// Starting from an empty lobby, the player waiting after the first `n`
/// messages is the one of the latest `Ready` that started no game, and only
/// disconnects of other players came after it.
pub proof fn lemma_lobby_waiting_origin<A, T>(
    waiting: Seq<Option<Player<A, T>>>,
    msgs: Seq<Message<A, T>>,
    games: Seq<Option<(Player<A, T>, Player<A, T>)>>,
    n: int,
)
    requires
        lobby_run(waiting, msgs, games),
        waiting[0] is None,
        0 <= n <= msgs.len(),
    ensures
        waiting[n] is Some ==> exists|j: int| #[trigger] waits_since(msgs, games, waiting[n]->0, j, n),
    decreases n,
{
    if n > 0 {
        lemma_lobby_waiting_origin(waiting, msgs, games, n - 1);
        assert((waiting[n], games[n - 1]) == lobby_next(waiting[n - 1], msgs[n - 1]));
        if waiting[n] is Some {
            let p = waiting[n]->0;
            if msgs[n - 1] is Ready {
                assert(waits_since(msgs, games, p, n - 1, n));
            } else {
                let j = choose|j: int| #[trigger] waits_since(msgs, games, p, j, n - 1);
                assert(waits_since(msgs, games, p, j, n));
            }
        }
    }
}

/// Games pair players in the order they were announced: the game started
/// by the `i`-th message pairs the player of that `Ready` with the player of
/// an earlier `Ready` that started no game, after which only disconnects of
/// other players arrived; and that earlier `Ready` came after every game
/// started before, so each announced player takes part in at most one game.
pub proof fn lemma_lobby_pairs_in_order<A, T>(
    waiting: Seq<Option<Player<A, T>>>,
    msgs: Seq<Message<A, T>>,
    games: Seq<Option<(Player<A, T>, Player<A, T>)>>,
    i: int,
)
    requires
        lobby_run(waiting, msgs, games),
        waiting[0] is None,
        0 <= i < msgs.len(),
        games[i] is Some,
    ensures
        msgs[i] == Message::Ready(second_player(games[i]->0)),
        exists|j: int| #[trigger] waits_since(msgs, games, first_player(games[i]->0), j, i),
        forall|j: int, earlier: int|
            #[trigger] waits_since(msgs, games, first_player(games[i]->0), j, i) && 0 <= earlier < i
                && #[trigger] games[earlier] is Some ==> earlier < j,
{
    assert((waiting[i + 1], games[i]) == lobby_next(waiting[i], msgs[i]));
    assert(waiting[i] is Some && waiting[i]->0 == first_player(games[i]->0));
    lemma_lobby_waiting_origin(waiting, msgs, games, i);
    assert forall|j: int, earlier: int|
        #[trigger] waits_since(msgs, games, first_player(games[i]->0), j, i) && 0 <= earlier < i
            && #[trigger] games[earlier] is Some implies earlier < j by {
        assert((waiting[earlier + 1], games[earlier]) == lobby_next(waiting[earlier], msgs[earlier]));
        if j < earlier {
            assert(msgs[earlier] matches Message::Disconnect(id) && id != first_player(games[i]->0).id);
        }
    }
}

/// Of two games, the earlier one is made of earlier `Ready` messages: the
/// announcements that the two games pair come in the order
/// `j1 < i1 < j2 < i2`, so no announcement takes part in both.
pub proof fn lemma_games_follow_ready_order<A, T>(
    waiting: Seq<Option<Player<A, T>>>,
    msgs: Seq<Message<A, T>>,
    games: Seq<Option<(Player<A, T>, Player<A, T>)>>,
    i1: int,
    j1: int,
    i2: int,
    j2: int,
)
    requires
        lobby_run(waiting, msgs, games),
        waiting[0] is None,
        0 <= i1 < i2 < msgs.len(),
        games[i1] is Some,
        games[i2] is Some,
        waits_since(msgs, games, first_player(games[i1]->0), j1, i1),
        waits_since(msgs, games, first_player(games[i2]->0), j2, i2),
    ensures
        j1 < i1 < j2 < i2,
{
    lemma_lobby_pairs_in_order(waiting, msgs, games, i2);
    assert(waits_since(msgs, games, first_player(games[i2]->0), j2, i2) && 0 <= i1 < i2 && games[i1] is Some);
}

} // verus!
