//! What the server does for one connected client: it checks the submitted
//! layout, turns it into the server's board, and decides how to answer each
//! event of the session.
use vstd::prelude::*;
use crate::game::{self, Board, FieldState, MessageContent, INITIAL_SHIPS_COUNT};
use crate::fleet::{
    lemma_measure_across, lemma_measure_down, lemma_next_row, lemma_pass_field,
    lemma_run_down_bound, lemma_run_right_bound, lemma_scan_begins, lemma_unmarked_is_start,
    marked, marks_agree, occupied, required_ships, row_ships, rows_ships, run_down, run_right,
    ship_count, ships_spaced, spaced_at, starts_ship_of, valid_board,
};
use crate::protocol::{AllyBoard, ClientBoard, ClientToServer, DisconnectReason, EnemyBoard, ServerToClient};

verus! {

/// Number of ships of the given length a player must place.
fn required_ship_count(len: usize) -> (n: usize)
    ensures
        n == required_ships(len as nat),
{
    if len == 1 || len == 2 {
        2
    } else if 3 <= len && len <= 5 {
        1
    } else {
        0
    }
}

/// Checks that no segment has neighbours both along its row and its column.
fn check_spacing(board: &ClientBoard) -> (spaced: bool)
    ensures
        spaced == ships_spaced(*board),
{
    let mut y: usize = 0;
    while y < 10
        invariant
            y <= 10,
            forall|y2: int, x2: int| 0 <= y2 < y && 0 <= x2 < 10 ==> #[trigger] spaced_at(*board, y2, x2),
        decreases 10 - y,
    {
        let mut x: usize = 0;
        while x < 10
            invariant
                y < 10,
                x <= 10,
                forall|y2: int, x2: int|
                    0 <= y2 < y && 0 <= x2 < 10 ==> #[trigger] spaced_at(*board, y2, x2),
                forall|x2: int| 0 <= x2 < x ==> #[trigger] spaced_at(*board, y as int, x2),
            decreases 10 - x,
        {
            if board[y][x] {
                let right = x + 1 < 10 && board[y][x + 1];
                let left = x > 0 && board[y][x - 1];
                let below = y + 1 < 10 && board[y + 1][x];
                let above = y > 0 && board[y - 1][x];
                if (right || left) && (below || above) {
                    assert(!spaced_at(*board, y as int, x as int));
                    return false;
                }
            }
            assert(spaced_at(*board, y as int, x as int));
            x = x + 1;
        }
        y = y + 1;
    }
    true
}

/// Verifies if all ships are used and if there's empty space between ships
pub fn verify_board(board: &ClientBoard) -> (valid: bool)
    ensures
        valid == valid_board(*board),
{
    let ghost b = *board;
    let ghost spaced = ships_spaced(b);
    // verify lengths
    let unmarked_row = [false;10];
    let mut checked = [unmarked_row;10];
    let mut ship_lengths = [0usize; 11];
    proof {
        assert forall|yy: int, xx: int| 0 <= yy < 10 && 0 <= xx < 10 implies !#[trigger] marked(
            checked,
            yy,
            xx,
        ) by {
            assert(checked@[yy] == unmarked_row);
        }
        lemma_scan_begins(b, checked);
    }
    let mut y: usize = 0;
    while y < 10
        invariant
            b == *board,
            spaced == ships_spaced(b),
            y <= 10,
            marks_agree(b, checked, y as int, 0),
            spaced ==> forall|len: int|
                0 <= len <= 10 ==> #[trigger] ship_lengths[len] == rows_ships(b, len as nat, y as int),
            forall|len: int| 0 <= len <= 10 ==> #[trigger] ship_lengths[len] <= 10 * y,
        decreases 10 - y,
    {
        let mut x: usize = 0;
        while x < 10
            invariant
                b == *board,
                spaced == ships_spaced(b),
                y < 10,
                x <= 10,
                marks_agree(b, checked, y as int, x as int),
                spaced ==> forall|len: int|
                    0 <= len <= 10 ==> #[trigger] ship_lengths[len] == rows_ships(
                        b,
                        len as nat,
                        y as int,
                    ) + row_ships(b, len as nat, y as int, x as int),
                forall|len: int| 0 <= len <= 10 ==> #[trigger] ship_lengths[len] <= 10 * y + x,
            decreases 10 - x,
        {
            let ghost counted = ship_lengths;
            proof {
                if spaced {
                    assert forall|len: int| 0 <= len <= 10 implies row_ships(b, len as nat, y as int, x + 1)
                        == row_ships(b, len as nat, y as int, x as int) + if #[trigger] starts_ship_of(
                        b,
                        len as nat,
                        y as int,
                        x as int,
                    ) {
                        1nat
                    } else {
                        0nat
                    } by {}
                }
            }
            if !board[y][x] || checked[y][x] {
                proof {
                    lemma_pass_field(b, checked, y as int, x as int);
                    if spaced && occupied(b, y as int, x as int) {
                        lemma_unmarked_is_start(b, checked, y as int, x as int);
                    }
                }
                x = x + 1;
                continue;
            }
            let ghost before = checked;
            proof {
                if spaced {
                    lemma_unmarked_is_start(b, checked, y as int, x as int);
                }
            }
            let mut ship_length: usize = 1;

            // check horizontal ship
            let mut x_2 = x + 1;
            while x_2 < 10 && board[y][x_2]
                invariant
                    b == *board,
                    y < 10,
                    x < x_2 <= 10,
                    ship_length == x_2 - x,
                    occupied(b, y as int, x as int),
                    run_right(b, y as int, x as int) == (x_2 - x) + run_right(b, y as int, x_2 as int),
                    forall|yy: int, xx: int|
                        0 <= yy < 10 && 0 <= xx < 10 ==> #[trigger] marked(checked, yy, xx) == (marked(
                            before,
                            yy,
                            xx,
                        ) || (yy == y && x < xx < x_2)),
                decreases 10 - x_2,
            {
                ship_length = ship_length + 1;
                let ghost prev = checked;
                let mut row = checked[y];
                row[x_2] = true;
                checked[y] = row;
                assert forall|yy: int, xx: int| 0 <= yy < 10 && 0 <= xx < 10 implies #[trigger] marked(
                    checked,
                    yy,
                    xx,
                ) == (marked(prev, yy, xx) || (yy == y && xx == x_2)) by {
                    if yy != y {
                        assert(checked@[yy] == prev@[yy]);
                    }
                }
                x_2 = x_2 + 1;
            }

            if ship_length > 1 {
                proof {
                    lemma_run_right_bound(b, y as int, x as int);
                    lemma_measure_across(b, before, checked, y as int, x as int);
                }
                ship_lengths[ship_length] = ship_lengths[ship_length] + 1;
                x = x + 1;
                continue;
            }

            // check vertical ship
            let mut y_2 = y + 1;
            while y_2 < 10 && board[y_2][x]
                invariant
                    b == *board,
                    y < y_2 <= 10,
                    x < 10,
                    ship_length == y_2 - y,
                    occupied(b, y as int, x as int),
                    run_down(b, y as int, x as int) == (y_2 - y) + run_down(b, y_2 as int, x as int),
                    forall|yy: int, xx: int|
                        0 <= yy < 10 && 0 <= xx < 10 ==> #[trigger] marked(checked, yy, xx) == (marked(
                            before,
                            yy,
                            xx,
                        ) || (xx == x && y < yy < y_2)),
                decreases 10 - y_2,
            {
                ship_length = ship_length + 1;
                let ghost prev = checked;
                let mut row = checked[y_2];
                row[x] = true;
                checked[y_2] = row;
                assert forall|yy: int, xx: int| 0 <= yy < 10 && 0 <= xx < 10 implies #[trigger] marked(
                    checked,
                    yy,
                    xx,
                ) == (marked(prev, yy, xx) || (yy == y_2 && xx == x)) by {
                    if yy != y_2 {
                        assert(checked@[yy] == prev@[yy]);
                    }
                }
                y_2 = y_2 + 1;
            }
            proof {
                lemma_run_down_bound(b, y as int, x as int);
                lemma_measure_down(b, before, checked, y as int, x as int);
            }
            ship_lengths[ship_length] = ship_lengths[ship_length] + 1;
            x = x + 1;
        }
        proof {
            lemma_next_row(b, checked, y as int);
            if spaced {
                assert forall|len: int| 0 <= len <= 10 implies #[trigger] ship_lengths[len] == rows_ships(
                    b,
                    len as nat,
                    y + 1,
                ) by {
                    assert(rows_ships(b, len as nat, y + 1) == rows_ships(b, len as nat, y as int)
                        + row_ships(b, len as nat, y as int, 10));
                }
            }
        }
        y = y + 1;
    }

    let mut len: usize = 0;
    while len < 11
        invariant
            b == *board,
            spaced == ships_spaced(b),
            len <= 11,
            spaced ==> forall|l: int|
                0 <= l <= 10 ==> #[trigger] ship_lengths[l] == ship_count(b, l as nat),
            spaced ==> forall|l: nat| l < len ==> #[trigger] ship_count(b, l) == required_ships(l),
        decreases 11 - len,
    {
        if ship_lengths[len] != required_ship_count(len) {
            assert(!valid_board(b)) by {
                if spaced {
                    assert(ship_count(b, len as nat) != required_ships(len as nat));
                }
            }
            return false;
        }
        len = len + 1;
    }

    // verify spacing
    check_spacing(board)
}

/// The server's field for a submitted field: occupied where the client
/// placed a segment, free elsewhere.
pub open spec fn initial_field(occupied: bool) -> FieldState {
    if occupied {
        FieldState::Occupied
    } else {
        FieldState::Free
    }
}

/// Turns a submitted layout into the server's board.
pub fn create_board(client_board: ClientBoard) -> (board: Board)
    ensures
        forall|y: int, x: int|
            0 <= y < 10 && 0 <= x < 10 ==> #[trigger] board[y][x] == initial_field(
                client_board[y][x],
            ),
{
    let mut board: Board = [[FieldState::Free;10];10];
    let mut y: usize = 0;
    while y < 10
        invariant
            y <= 10,
            forall|y2: int, x2: int|
                0 <= y2 < y && 0 <= x2 < 10 ==> #[trigger] board[y2][x2] == initial_field(
                    client_board[y2][x2],
                ),
            forall|y2: int, x2: int|
                y <= y2 < 10 && 0 <= x2 < 10 ==> #[trigger] board[y2][x2] == FieldState::Free,
        decreases 10 - y,
    {
        let mut row = board[y];
        let mut x: usize = 0;
        while x < 10
            invariant
                y < 10,
                x <= 10,
                forall|x2: int| 0 <= x2 < x ==> #[trigger] row[x2] == initial_field(client_board[y as int][x2]),
                forall|x2: int| x <= x2 < 10 ==> #[trigger] row[x2] == FieldState::Free,
            decreases 10 - x,
        {
            if client_board[y][x] {
                row[x] = FieldState::Occupied;
            }
            x = x + 1;
        }
        board[y] = row;
        y = y + 1;
    }
    board
}

// ---------------------------------------------------------------------
// The session of one client
// ---------------------------------------------------------------------

/// Where a client's session stands.
#[derive(Clone, Copy, PartialEq, Eq, Structural, Debug)]
pub enum ClientState {
    /// Connected, no accepted layout yet.
    Connected,
    /// Layout accepted, waiting to be matched.
    Ready,
    /// In a game.
    Playing,
}

/// What the rest of the server tells a session; `G` is the channel to the
/// game the player joins.
pub enum Message<G> {
    StartGame(G),
    UpdateAlly(AllyBoard),
    UpdateEnemy(EnemyBoard),
    Disconnect(DisconnectReason),
    YourTurn,
}

/// One event a session reacts to.
pub enum Event<G> {
    /// A message from the rest of the server.
    Internal(Message<G>),
    /// A request from the client.
    Client(ClientToServer),
    /// Either side can no longer be read.
    Closed,
}

/// A player whose layout was accepted, as the matchmaker receives it; `A` is
/// the player's network address and `T` the channel to the player's session.
pub struct Player<A, T> {
    pub address: A,
    pub id: u128,
    pub tx: T,
    pub board: Board,
    pub alive_ships: u8,
}

/// What a session hands to the matchmaker once the client's layout is accepted.
pub struct Registration {
    pub board: Board,
    pub alive_ships: u8,
}

/// Something a session does in answer to an event.
pub enum Action {
    /// Send this to the client.
    Send(ServerToClient),
    /// Announce the player to the matchmaker.
    Register(Registration),
    /// Pass this to the game the player is in.
    ToGame(game::Message),
}

/// The answer to one event: at most one action, and whether the session ends.
pub struct Outcome {
    pub action: Option<Action>,
    pub stop: bool,
}

/// The state of one client's session.
pub struct Session<G> {
    pub state: ClientState,
    pub player_id: u128,
    pub game_tx: Option<G>,
}

/// Nothing to do, the session goes on.
pub open spec fn idle() -> Outcome {
    Outcome { action: None, stop: false }
}

/// Send `msg` to the client; end the session when `stop`.
pub open spec fn reply(msg: ServerToClient, stop: bool) -> Outcome {
    Outcome { action: Some(Action::Send(msg)), stop }
}

/// `board` is the server's board made from the submitted `layout`.
pub open spec fn board_from_layout(board: Board, layout: ClientBoard) -> bool {
    forall|y: int, x: int|
        0 <= y < 10 && 0 <= x < 10 ==> #[trigger] board[y][x] == initial_field(layout[y][x])
}

/// `out` registers the player with a board made from `layout` and a full fleet.
pub open spec fn registers(out: Outcome, layout: ClientBoard) -> bool {
    &&& !out.stop
    &&& out.action matches Some(Action::Register(r))
    &&& r.alive_ships == INITIAL_SHIPS_COUNT
    &&& board_from_layout(r.board, layout)
}

/// `pre` with its state replaced.
pub open spec fn with_state<G>(pre: Session<G>, state: ClientState) -> Session<G> {
    Session { state, player_id: pre.player_id, game_tx: pre.game_tx }
}

/// How a session answers an event: its next state `post` and the outcome `out`.
pub open spec fn session_step<G>(pre: Session<G>, event: Event<G>, post: Session<G>, out: Outcome) -> bool {
    match event {
        Event::Internal(msg) => match msg {
            Message::Disconnect(reason) => post == pre && out == reply(
                ServerToClient::Disconnect(reason),
                true,
            ),
            Message::StartGame(tx) => post == Session {
                state: ClientState::Playing,
                player_id: pre.player_id,
                game_tx: Some(tx),
            } && out == idle(),
            Message::UpdateAlly(board) => post == pre && out == reply(
                ServerToClient::UpdateAlly(board),
                false,
            ),
            Message::UpdateEnemy(board) => post == pre && out == reply(
                ServerToClient::UpdateEnemy(board),
                false,
            ),
            Message::YourTurn => post == pre && out == reply(ServerToClient::YourTurn, false),
        },
        Event::Client(request) => match request {
            ClientToServer::SetBoard(layout) => if pre.state == ClientState::Connected {
                if valid_board(layout) {
                    post == with_state(pre, ClientState::Ready) && registers(out, layout)
                } else {
                    post == pre && out == reply(
                        ServerToClient::Disconnect(DisconnectReason::Error),
                        true,
                    )
                }
            } else {
                post == pre && out == idle()
            },
            ClientToServer::Shoot(coords) => post == pre && out == if pre.state
                == ClientState::Playing && pre.game_tx is Some {
                Outcome {
                    action: Some(
                        Action::ToGame(
                            game::Message {
                                player_id: pre.player_id,
                                content: MessageContent::Shoot(coords),
                            },
                        ),
                    ),
                    stop: false,
                }
            } else {
                idle()
            },
        },
        Event::Closed => post == pre && out == Outcome { action: None, stop: true },
    }
}

impl<G> Session<G> {
    /// The session of a newly connected client.
    pub fn new(player_id: u128) -> (s: Self)
        ensures
            s.state == ClientState::Connected,
            s.player_id == player_id,
            s.game_tx is None,
    {
        Session { state: ClientState::Connected, player_id, game_tx: None }
    }

    /// Answers one event: updates the session and says what to do.
    pub fn handle(&mut self, event: Event<G>) -> (out: Outcome)
        ensures
            session_step(*old(self), event, *final(self), out),
    {
        match event {
            Event::Internal(msg) => match msg {
                Message::Disconnect(reason) => Outcome {
                    action: Some(Action::Send(ServerToClient::Disconnect(reason))),
                    stop: true,
                },
                Message::StartGame(tx) => {
                    self.state = ClientState::Playing;
                    self.game_tx = Some(tx);
                    Outcome { action: None, stop: false }
                },
                Message::UpdateAlly(board) => Outcome {
                    action: Some(Action::Send(ServerToClient::UpdateAlly(board))),
                    stop: false,
                },
                Message::UpdateEnemy(board) => Outcome {
                    action: Some(Action::Send(ServerToClient::UpdateEnemy(board))),
                    stop: false,
                },
                Message::YourTurn => Outcome {
                    action: Some(Action::Send(ServerToClient::YourTurn)),
                    stop: false,
                },
            },
            Event::Client(request) => match self.state {
                ClientState::Connected => {
                    if let ClientToServer::SetBoard(layout) = request {
                        if verify_board(&layout) {
                            let board = create_board(layout);
                            self.state = ClientState::Ready;
                            Outcome {
                                action: Some(
                                    Action::Register(
                                        Registration { board, alive_ships: INITIAL_SHIPS_COUNT },
                                    ),
                                ),
                                stop: false,
                            }
                        } else {
                            Outcome {
                                action: Some(
                                    Action::Send(
                                        ServerToClient::Disconnect(DisconnectReason::Error),
                                    ),
                                ),
                                stop: true,
                            }
                        }
                    } else {
                        Outcome { action: None, stop: false }
                    }
                },
                ClientState::Playing => {
                    if self.game_tx.is_some() {
                        if let ClientToServer::Shoot(coords) = request {
                            Outcome {
                                action: Some(
                                    Action::ToGame(
                                        game::Message {
                                            player_id: self.player_id,
                                            content: MessageContent::Shoot(coords),
                                        },
                                    ),
                                ),
                                stop: false,
                            }
                        } else {
                            Outcome { action: None, stop: false }
                        }
                    } else {
                        Outcome { action: None, stop: false }
                    }
                },
                ClientState::Ready => Outcome { action: None, stop: false },
            },
            Event::Closed => Outcome { action: None, stop: true },
        }
    }

    /// The message to leave with the game when the session ends, if the
    /// player is in one.
    pub fn farewell(&self) -> (m: Option<game::Message>)
        ensures
            m == if self.game_tx is Some {
                Some(game::Message { player_id: self.player_id, content: MessageContent::Disconnect })
            } else {
                None
            },
    {
        if self.game_tx.is_some() {
            Some(game::Message { player_id: self.player_id, content: MessageContent::Disconnect })
        } else {
            None
        }
    }
}

/// `sessions[i + 1]` and `outcomes[i]` are how the session in `sessions[i]`
/// answers `events[i]`, for every event of the run.
pub open spec fn session_run<G>(
    sessions: Seq<Session<G>>,
    events: Seq<Event<G>>,
    outcomes: Seq<Outcome>,
) -> bool {
    &&& sessions.len() == events.len() + 1
    &&& outcomes.len() == events.len()
    &&& forall|i: int|
        0 <= i < events.len() ==> #[trigger] session_step(
            sessions[i],
            events[i],
            sessions[i + 1],
            outcomes[i],
        )
}

/// Whether an outcome announces the player to the matchmaker.
pub open spec fn is_registration(out: Outcome) -> bool {
    out.action matches Some(Action::Register(_))
}

proof fn lemma_stays_past_connected<G>(
    sessions: Seq<Session<G>>,
    events: Seq<Event<G>>,
    outcomes: Seq<Outcome>,
    i: int,
    j: int,
)
    requires
        session_run(sessions, events, outcomes),
        0 <= i <= j <= events.len(),
        sessions[i].state != ClientState::Connected,
    ensures
        sessions[j].state != ClientState::Connected,
    decreases j - i,
{
    if i < j {
        assert(session_step(sessions[i], events[i], sessions[i + 1], outcomes[i]));
        lemma_stays_past_connected(sessions, events, outcomes, i + 1, j);
    }
}

/// A session announces its player to the matchmaker at most once, whatever
/// the events: after one registration no later event registers again.
pub proof fn lemma_registers_at_most_once<G>(
    sessions: Seq<Session<G>>,
    events: Seq<Event<G>>,
    outcomes: Seq<Outcome>,
    i: int,
    j: int,
)
    requires
        session_run(sessions, events, outcomes),
        0 <= i < j < events.len(),
        is_registration(outcomes[i]),
    ensures
        !is_registration(outcomes[j]),
{
    assert(session_step(sessions[i], events[i], sessions[i + 1], outcomes[i]));
    lemma_stays_past_connected(sessions, events, outcomes, i + 1, j);
    assert(session_step(sessions[j], events[j], sessions[j + 1], outcomes[j]));
}

/// A session only registers a layout that passes verification, and it then
/// registers the board made from that layout with a full fleet.
pub proof fn lemma_registers_only_valid_layouts<G>(
    pre: Session<G>,
    event: Event<G>,
    post: Session<G>,
    out: Outcome,
)
    requires
        session_step(pre, event, post, out),
        is_registration(out),
    ensures
        pre.state == ClientState::Connected,
        post.state == ClientState::Ready,
        event matches Event::Client(ClientToServer::SetBoard(layout)) && valid_board(layout)
            && registers(out, layout),
{
}

/// The event at step `k` is a layout the client submitted while its
/// session was still `Connected`.
pub open spec fn layout_read_while_connected<G>(
    sessions: Seq<Session<G>>,
    events: Seq<Event<G>>,
    k: int,
) -> bool {
    &&& events[k] matches Event::Client(ClientToServer::SetBoard(_))
    &&& sessions[k].state == ClientState::Connected
}

/// In a session that ends at its first stopping outcome, the one
/// registration answers the first layout the client submitted while
/// `Connected`: that layout is valid, and no layout came earlier while
/// `Connected`.
pub proof fn lemma_registration_answers_first_layout<G>(
    sessions: Seq<Session<G>>,
    events: Seq<Event<G>>,
    outcomes: Seq<Outcome>,
    i: int,
)
    requires
        session_run(sessions, events, outcomes),
        0 <= i < events.len(),
        forall|k: int| 0 <= k < i ==> !(#[trigger] outcomes[k]).stop,
        is_registration(outcomes[i]),
    ensures
        layout_read_while_connected(sessions, events, i),
        events[i] matches Event::Client(ClientToServer::SetBoard(layout)) && valid_board(layout),
        forall|k: int| 0 <= k < i ==> !#[trigger] layout_read_while_connected(sessions, events, k),
{
    assert(session_step(sessions[i], events[i], sessions[i + 1], outcomes[i]));
    assert forall|k: int| 0 <= k < i implies !#[trigger] layout_read_while_connected(
        sessions,
        events,
        k,
    ) by {
        assert(session_step(sessions[k], events[k], sessions[k + 1], outcomes[k]));
        assert(!outcomes[k].stop);
        if layout_read_while_connected(sessions, events, k) {
            lemma_stays_past_connected(sessions, events, outcomes, k + 1, i);
        }
    }
}

/// Until the game starts, a shot the client sends goes nowhere and is
/// answered with nothing: a session that began without a game, and has not
/// received `StartGame` since, answers a shot with no action.
pub proof fn lemma_shots_before_the_game_go_nowhere<G>(
    sessions: Seq<Session<G>>,
    events: Seq<Event<G>>,
    outcomes: Seq<Outcome>,
    i: int,
)
    requires
        session_run(sessions, events, outcomes),
        0 <= i < events.len(),
        sessions[0].game_tx is None,
        forall|k: int| 0 <= k < i ==> !(#[trigger] events[k] matches Event::Internal(Message::StartGame(_))),
        events[i] matches Event::Client(ClientToServer::Shoot(_)),
    ensures
        outcomes[i] == idle(),
        sessions[i + 1] == sessions[i],
{
    lemma_no_game_yet(sessions, events, outcomes, i);
    assert(session_step(sessions[i], events[i], sessions[i + 1], outcomes[i]));
}

proof fn lemma_no_game_yet<G>(
    sessions: Seq<Session<G>>,
    events: Seq<Event<G>>,
    outcomes: Seq<Outcome>,
    n: int,
)
    requires
        session_run(sessions, events, outcomes),
        0 <= n <= events.len(),
        sessions[0].game_tx is None,
        forall|k: int| 0 <= k < n ==> !(#[trigger] events[k] matches Event::Internal(Message::StartGame(_))),
    ensures
        sessions[n].game_tx is None,
    decreases n,
{
    if n > 0 {
        let k = n - 1;
        lemma_no_game_yet(sessions, events, outcomes, k);
        assert(session_step(sessions[k], events[k], sessions[k + 1], outcomes[k]));
        assert(!(events[k] matches Event::Internal(Message::StartGame(_))));
    }
}

/// While the player waits to be matched, whatever the client sends goes
/// nowhere and is answered with nothing.
pub proof fn lemma_ready_session_ignores_the_client<G>(
    pre: Session<G>,
    request: ClientToServer,
    post: Session<G>,
    out: Outcome,
)
    requires
        pre.state == ClientState::Ready,
        session_step(pre, Event::Client(request), post, out),
    ensures
        out == idle(),
        post == pre,
{
}

/// When the game ends a player's session, the client is told the reason the
/// game gave, whatever it is, and the session ends; nothing else changes.
pub proof fn lemma_session_passes_on_the_ending<G>(
    pre: Session<G>,
    reason: DisconnectReason,
    post: Session<G>,
    out: Outcome,
)
    requires
        session_step(pre, Event::Internal(Message::Disconnect(reason)), post, out),
    ensures
        out.action matches Some(Action::Send(ServerToClient::Disconnect(sent))) && sent == reason,
        out.stop,
        post == pre,
{
}

/// Every board update and turn the game sends reaches the client unchanged,
/// whatever state the session is in, and the session goes on as it was.
pub proof fn lemma_session_forwards_game_updates<G>(
    pre: Session<G>,
    msg: Message<G>,
    post: Session<G>,
    out: Outcome,
)
    requires
        session_step(pre, Event::Internal(msg), post, out),
        !(msg is StartGame),
        !(msg is Disconnect),
    ensures
        !out.stop,
        post == pre,
        msg matches Message::UpdateAlly(b) ==> out.action matches Some(
            Action::Send(ServerToClient::UpdateAlly(sent)),
        ) && sent == b,
        msg matches Message::UpdateEnemy(b) ==> out.action matches Some(
            Action::Send(ServerToClient::UpdateEnemy(sent)),
        ) && sent == b,
        msg is YourTurn ==> out.action matches Some(Action::Send(ServerToClient::YourTurn)),
{
}

} // verus!
