//! The client's decisions: the layout it submits, how a typed shot is read,
//! where the boards are drawn, and what it does with each server message.
use vstd::prelude::*;
use vstd::utf8::{encode_utf8, encode_scalar, has_width_1_encoding, is_ascii_chars, is_ascii_chars_encode_utf8};
use crate::protocol::{
    AllyBoard, ClientBoard, ClientToServer, DisconnectReason, EnemyBoard, ServerToClient,
    ally_symbol, enemy_symbol,
};
use rand::Rng;
use rand::rngs::ThreadRng;

verus! {

broadcast use vstd::string::group_string_axioms;

/// Reads a grid of numbers as a layout: a field holds a ship segment where
/// its number is not zero.
pub fn convert_to_bool_array(input: [[i32; 10]; 10]) -> (layout: ClientBoard)
    ensures
        forall|y: int, x: int|
            0 <= y < 10 && 0 <= x < 10 ==> #[trigger] layout[y][x] == (input[y][x] != 0),
{
    let mut layout = [[false;10];10];
    let mut y: usize = 0;
    while y < 10
        invariant
            y <= 10,
            forall|y2: int, x2: int|
                0 <= y2 < y && 0 <= x2 < 10 ==> #[trigger] layout[y2][x2] == (input[y2][x2] != 0),
        decreases 10 - y,
    {
        let mut row = [false;10];
        let mut x: usize = 0;
        while x < 10
            invariant
                y < 10,
                x <= 10,
                forall|x2: int| 0 <= x2 < x ==> #[trigger] row[x2] == (input[y as int][x2] != 0),
            decreases 10 - x,
        {
            row[x] = input[y][x] != 0;
            x = x + 1;
        }
        layout[y] = row;
        y = y + 1;
    }
    layout
}

// ---------------------------------------------------------------------
// Reading a shot
// ---------------------------------------------------------------------

/// What a typed shot denotes: a row letter `A`..`J` and a column digit
/// `0`..`9` give the coordinates `(letter, digit)`; anything else is
/// refused with the message the player is shown. The input must be two
/// bytes long in UTF-8.
pub open spec fn parse_coordinates(s: Seq<char>) -> Result<(u8, u8), Seq<char>> {
    if byte_len(s) != 2 {
        Err("Invalid input length"@)
    } else if s.len() < 2 {
        Err("Invalid input"@)
    } else if char_byte(s[0]) < 65 || char_byte(s[1]) < 48 {
        Err("Invalid board coordinates"@)
    } else if char_byte(s[0]) - 65 > 9 || char_byte(s[1]) - 48 > 9 {
        Err("Invalid board coordinates"@)
    } else {
        Ok(((char_byte(s[0]) - 65) as u8, (char_byte(s[1]) - 48) as u8))
    }
}

/// A character cast to a byte: the low 8 bits of its code point.
pub open spec fn char_byte(c: char) -> u8 {
    (c as u32) as u8
}

/// The length in bytes that `str::len` reports for a string of these
/// characters: the length of their UTF-8 encoding, as a `usize`.
pub open spec fn byte_len(s: Seq<char>) -> usize {
    encode_utf8(s).len() as usize
}

/// The row letter of row `y`: `A` for the first.
pub open spec fn row_label(y: u8) -> char {
    ((65 + y) as u32) as char
}

/// The column digit of column `x`: `0` for the first.
pub open spec fn column_label(x: u8) -> char {
    ((48 + x) as u32) as char
}

proof fn lemma_utf8_len_at_least_chars(s: Seq<char>)
    ensures
        encode_utf8(s).len() >= s.len(),
    decreases s.len(),
{
    if s.len() > 0 {
        lemma_utf8_len_at_least_chars(s.drop_first());
    }
}

/// Two bytes of UTF-8 that make two characters make two ASCII characters.
proof fn lemma_two_bytes_two_chars(s: Seq<char>)
    requires
        encode_utf8(s).len() == 2,
        s.len() >= 2,
    ensures
        s.len() == 2,
        (s[0] as u32) < 128,
        (s[1] as u32) < 128,
{
    let rest = s.drop_first();
    lemma_utf8_len_at_least_chars(rest.drop_first());
    assert(encode_utf8(s) == encode_scalar(s[0] as u32) + encode_utf8(rest));
    assert(encode_utf8(rest) == encode_scalar(rest[0] as u32) + encode_utf8(rest.drop_first()));
    assert(encode_scalar(s[0] as u32).len() >= 1);
    assert(encode_scalar(rest[0] as u32).len() >= 1);
    assert(has_width_1_encoding(s[0] as u32));
    assert(has_width_1_encoding(rest[0] as u32));
}

/// Reads a typed shot as board coordinates `(x, y)`.
pub fn parse_board_coordinates(input: &str) -> (coords: Result<(u8, u8), String>)
    ensures
        match coords {
            Ok(c) => parse_coordinates(input@) == Ok::<(u8, u8), Seq<char>>(c),
            Err(e) => parse_coordinates(input@) == Err::<(u8, u8), Seq<char>>(e@),
        },
{
    if input.len() != 2 {
        return Err(String::from_str("Invalid input length"));
    }
    let mut chars = input.chars();
    let x_char = match chars.next() {
        Some(c) => c,
        None => {
            assert(input@.len() == 0);
            return Err(String::from_str("Invalid input"));
        },
    };
    let y_char = match chars.next() {
        Some(c) => c,
        None => {
            assert(input@.len() == 1);
            return Err(String::from_str("Invalid input"));
        },
    };
    assert(x_char == input@[0] && y_char == input@[1]);
    let x_val = #[verifier::truncate] ((x_char as u32) as u8);
    let y_val = #[verifier::truncate] ((y_char as u32) as u8);
    if x_val < 65 || y_val < 48 {
        return Err(String::from_str("Invalid board coordinates"));
    }
    let x = x_val - 65;
    let y = y_val - 48;
    if x > 9 || y > 9 {
        return Err(String::from_str("Invalid board coordinates"));
    }
    Ok((x as u8, y as u8))
}

/// What `str::to_uppercase` makes of a string: every character replaced
/// by its Unicode upper-case mapping.
pub uninterp spec fn uppercase_of(s: Seq<char>) -> Seq<char>;

/// Whether `c` has the Unicode `White_Space` property, which is what
/// `char::is_whitespace` tests.
pub open spec fn is_white_space(c: char) -> bool {
    let u = c as u32;
    ||| 0x9 <= u <= 0xD
    ||| u == 0x20
    ||| u == 0x85
    ||| u == 0xA0
    ||| u == 0x1680
    ||| 0x2000 <= u <= 0x200A
    ||| u == 0x2028
    ||| u == 0x2029
    ||| u == 0x202F
    ||| u == 0x205F
    ||| u == 0x3000
}

/// `s` without its leading white space.
pub open spec fn trim_start(s: Seq<char>) -> Seq<char>
    decreases s.len(),
{
    if s.len() > 0 && is_white_space(s[0]) {
        trim_start(s.drop_first())
    } else {
        s
    }
}

/// `s` without its trailing white space.
pub open spec fn trim_end(s: Seq<char>) -> Seq<char>
    decreases s.len(),
{
    if s.len() > 0 && is_white_space(s.last()) {
        trim_end(s.drop_last())
    } else {
        s
    }
}

/// What `str::trim` leaves of a string: the string without its leading and
/// trailing white space.
pub open spec fn trimmed(s: Seq<char>) -> Seq<char> {
    trim_end(trim_start(s))
}

/// Calls `str::to_uppercase`; what it returns is only named here, by
/// `uppercase_of` of the string's characters.
#[verifier::external_body]
fn to_uppercase(s: &str) -> (upper: String)
    ensures
        upper@ == uppercase_of(s@),
{
    s.to_uppercase()
}

/// Calls `str::trim`, which returns the string without its leading and
/// trailing characters of the Unicode `White_Space` property.
#[verifier::external_body]
fn trim(s: &str) -> (inner: &str)
    ensures
        inner@ == trimmed(s@),
{
    s.trim()
}

/// Reads a shot as the player typed it: upper-cased, trimmed of white
/// space, then read as coordinates.
pub fn parse_shot_input(line: &str) -> (coords: Result<(u8, u8), String>)
    ensures
        match coords {
            Ok(c) => parse_coordinates(trimmed(uppercase_of(line@))) == Ok::<(u8, u8), Seq<char>>(c),
            Err(e) => parse_coordinates(trimmed(uppercase_of(line@))) == Err::<(u8, u8), Seq<char>>(e@),
        },
{
    let upper = to_uppercase(line);
    let shot = trim(upper.as_str());
    parse_board_coordinates(shot)
}

#[verifier::external_type_specification]
#[verifier::external_body]
pub struct ExThreadRng(ThreadRng);

/// Calls `Rng::gen_range` with the range `0..=9` on the thread's random
/// generator; rand documents that it returns a value of the range (it panics
/// only on an empty range). Which value comes back is left to chance.
#[verifier::external_body]
fn random_coordinate(rng: &mut ThreadRng) -> (c: u8)
    ensures
        c <= 9,
{
    rng.gen_range(0..=9u8)
}

/// The shot an automatic player fires: a row and then a column drawn at
/// random, each somewhere on the board.
pub fn automatic_shot(rng: &mut ThreadRng) -> (msg: ClientToServer)
    ensures
        msg matches ClientToServer::Shoot((y, x)) && y <= 9 && x <= 9,
{
    let y = random_coordinate(rng);
    let x = random_coordinate(rng);
    ClientToServer::Shoot((y, x))
}

/// The typed shots that are accepted are exactly the labels of the board's
/// fields: a row letter followed by a column digit, read as `(row, column)`.
pub proof fn lemma_accepted_shots_are_labels(s: Seq<char>, x: u8, y: u8)
    requires
        encode_utf8(s).len() <= usize::MAX,
    ensures
        parse_coordinates(s) == Ok::<(u8, u8), Seq<char>>((x, y)) <==> (x <= 9 && y <= 9 && s
            == seq![row_label(x), column_label(y)]),
{
    if parse_coordinates(s) == Ok::<(u8, u8), Seq<char>>((x, y)) {
        lemma_utf8_len_at_least_chars(s);
        lemma_two_bytes_two_chars(s);
        let c0 = s[0];
        let c1 = s[1];
        let u0 = c0 as u32;
        let u1 = c1 as u32;
        assert(u0 < 128 ==> (u0 as u8) as u32 == u0) by (bit_vector);
        assert(u1 < 128 ==> (u1 as u8) as u32 == u1) by (bit_vector);
        vstd::utf8::char_u32_cast(c0, u0);
        vstd::utf8::char_u32_cast(c1, u1);
        assert(row_label(x) == c0);
        assert(column_label(y) == c1);
        assert(s =~= seq![row_label(x), column_label(y)]);
    }
    if x <= 9 && y <= 9 && s == seq![row_label(x), column_label(y)] {
        assert(is_ascii_chars(s));
        is_ascii_chars_encode_utf8(s);
    }
}

// ---------------------------------------------------------------------
// Where the boards are drawn
// ---------------------------------------------------------------------

/// One symbol to draw at column `x`, line `y` of the terminal.
#[derive(Clone, Copy, PartialEq, Eq, Structural, Debug)]
pub struct Glyph {
    pub x: u16,
    pub y: u16,
    pub symbol: char,
}

/// Where the player's own board is drawn.
pub const ALLY_BOARD_POSITION: (u16, u16) = (0, 4);

/// Where the opponent's board is drawn.
pub const ENEMY_BOARD_POSITION: (u16, u16) = (30, 4);

/// Where status lines are written, below both boards.
pub const STATUS_POSITION: (u16, u16) = (0, 16);

/// The board drawn with its top left corner at `(x0, y0)`: column digits
/// along the top, two terminal columns apart; row letters down the left;
/// and the symbol of field `(row, column)` under its digit and beside its letter.
pub open spec fn board_glyphs(symbol: spec_fn(int, int) -> char, x0: u16, y0: u16) -> Seq<Glyph> {
    Seq::new(
        120,
        |i: int|
            if i < 10 {
                Glyph { x: (x0 + 2 * (i + 1)) as u16, y: y0, symbol: column_label(i as u8) }
            } else if i < 20 {
                Glyph { x: x0, y: (y0 + (i - 10) + 1) as u16, symbol: row_label((i - 10) as u8) }
            } else {
                let row = (i - 20) / 10;
                let col = (i - 20) % 10;
                Glyph {
                    x: (x0 + 2 * col + 2) as u16,
                    y: (y0 + row + 1) as u16,
                    symbol: symbol(row, col),
                }
            },
    )
}

/// The symbol of field `(row, col)`.
pub open spec fn symbol_at(symbols: [[char; 10]; 10], row: int, col: int) -> char {
    symbols[row][col]
}

/// The symbols of a grid, field by field.
pub open spec fn symbols_of(symbols: [[char; 10]; 10]) -> spec_fn(int, int) -> char {
    |row: int, col: int| symbol_at(symbols, row, col)
}

/// The symbols of the player's own board.
pub open spec fn ally_symbols(board: AllyBoard) -> spec_fn(int, int) -> char {
    |row: int, col: int| ally_symbol(board[row][col])
}

/// The symbols of the opponent's board.
pub open spec fn enemy_symbols(board: EnemyBoard) -> spec_fn(int, int) -> char {
    |row: int, col: int| enemy_symbol(board[row][col])
}

/// Lays out a board of symbols with its top left corner at `position`.
pub fn board_layout(symbols: &[[char; 10]; 10], position: (u16, u16)) -> (glyphs: Vec<Glyph>)
    requires
        position.0 + 20 <= u16::MAX,
        position.1 + 10 <= u16::MAX,
    ensures
        glyphs@ == board_glyphs(symbols_of(*symbols), position.0, position.1),
{
    let (x0, y0) = position;
    let ghost all = board_glyphs(symbols_of(*symbols), x0, y0);
    assert(all.len() == 120);
    let mut glyphs: Vec<Glyph> = Vec::new();
    let mut i: u16 = 0;
    while i < 10
        invariant
            i <= 10,
            x0 + 20 <= u16::MAX,
            all == board_glyphs(symbols_of(*symbols), x0, y0),
            all.len() == 120,
            glyphs@ == all.take(i as int),
        decreases 10 - i,
    {
        let digit = char_from_digit(i as u8);
        glyphs.push(Glyph { x: x0 + 2 * (i + 1), y: y0, symbol: digit });
        assert(glyphs@ =~= all.take(i + 1));
        i = i + 1;
    }
    let mut i: u16 = 0;
    while i < 10
        invariant
            i <= 10,
            y0 + 10 <= u16::MAX,
            all == board_glyphs(symbols_of(*symbols), x0, y0),
            all.len() == 120,
            glyphs@ == all.take(10 + i),
        decreases 10 - i,
    {
        let letter = char_from_letter(i as u8);
        glyphs.push(Glyph { x: x0, y: y0 + i + 1, symbol: letter });
        assert(glyphs@ =~= all.take(10 + i + 1));
        i = i + 1;
    }
    let mut row: usize = 0;
    while row < 10
        invariant
            row <= 10,
            x0 + 20 <= u16::MAX,
            y0 + 10 <= u16::MAX,
            all == board_glyphs(symbols_of(*symbols), x0, y0),
            all.len() == 120,
            glyphs@ == all.take(20 + 10 * row),
        decreases 10 - row,
    {
        let mut col: usize = 0;
        while col < 10
            invariant
                row < 10,
                col <= 10,
                x0 + 20 <= u16::MAX,
                y0 + 10 <= u16::MAX,
                all == board_glyphs(symbols_of(*symbols), x0, y0),
                all.len() == 120,
                glyphs@ == all.take(20 + 10 * row + col),
            decreases 10 - col,
        {
            let g = Glyph {
                x: x0 + 2 * (col as u16) + 2,
                y: y0 + (row as u16) + 1,
                symbol: symbols[row][col],
            };
            proof {
                let k = 20 + 10 * row + col;
                assert((k - 20) / 10 == row as int && (k - 20) % 10 == col as int) by (nonlinear_arith)
                    requires
                        k == 20 + 10 * row + col,
                        col < 10,
                ;
                assert(all[k] == g);
            }
            glyphs.push(g);
            assert(glyphs@ =~= all.take(20 + 10 * row + col + 1));
            col = col + 1;
        }
        row = row + 1;
    }
    assert(all.take(120) =~= all);
    glyphs
}

/// The column digit of a column.
fn char_from_digit(x: u8) -> (c: char)
    requires
        x < 10,
    ensures
        c == column_label(x),
{
    let digits = ['0', '1', '2', '3', '4', '5', '6', '7', '8', '9'];
    let c = digits[x as usize];
    proof {
        reveal_labels();
    }
    c
}

/// The row letter of a row.
fn char_from_letter(y: u8) -> (c: char)
    requires
        y < 10,
    ensures
        c == row_label(y),
{
    let letters = ['A', 'B', 'C', 'D', 'E', 'F', 'G', 'H', 'I', 'J'];
    let c = letters[y as usize];
    proof {
        reveal_labels();
    }
    c
}

proof fn reveal_labels()
    ensures
        column_label(0) == '0' && column_label(1) == '1' && column_label(2) == '2'
            && column_label(3) == '3' && column_label(4) == '4' && column_label(5) == '5'
            && column_label(6) == '6' && column_label(7) == '7' && column_label(8) == '8'
            && column_label(9) == '9',
        row_label(0) == 'A' && row_label(1) == 'B' && row_label(2) == 'C' && row_label(3) == 'D'
            && row_label(4) == 'E' && row_label(5) == 'F' && row_label(6) == 'G' && row_label(7)
            == 'H' && row_label(8) == 'I' && row_label(9) == 'J',
{
}

/// The symbols to draw for the player's own board.
pub fn ally_symbol_grid(board: &AllyBoard) -> (symbols: [[char; 10]; 10])
    ensures
        forall|row: int, col: int|
            0 <= row < 10 && 0 <= col < 10 ==> #[trigger] symbols[row][col] == ally_symbol(
                board[row][col],
            ),
{
    let mut symbols = [[' ';10];10];
    let mut y: usize = 0;
    while y < 10
        invariant
            y <= 10,
            forall|y2: int, x2: int|
                0 <= y2 < y && 0 <= x2 < 10 ==> #[trigger] symbols[y2][x2] == ally_symbol(board[y2][x2]),
        decreases 10 - y,
    {
        let mut row = [' ';10];
        let mut x: usize = 0;
        while x < 10
            invariant
                y < 10,
                x <= 10,
                forall|x2: int| 0 <= x2 < x ==> #[trigger] row[x2] == ally_symbol(board[y as int][x2]),
            decreases 10 - x,
        {
            row[x] = char::from(board[y][x]);
            x = x + 1;
        }
        symbols[y] = row;
        y = y + 1;
    }
    symbols
}

/// The symbols to draw for the opponent's board.
pub fn enemy_symbol_grid(board: &EnemyBoard) -> (symbols: [[char; 10]; 10])
    ensures
        forall|row: int, col: int|
            0 <= row < 10 && 0 <= col < 10 ==> #[trigger] symbols[row][col] == enemy_symbol(
                board[row][col],
            ),
{
    let mut symbols = [[' ';10];10];
    let mut y: usize = 0;
    while y < 10
        invariant
            y <= 10,
            forall|y2: int, x2: int|
                0 <= y2 < y && 0 <= x2 < 10 ==> #[trigger] symbols[y2][x2] == enemy_symbol(board[y2][x2]),
        decreases 10 - y,
    {
        let mut row = [' ';10];
        let mut x: usize = 0;
        while x < 10
            invariant
                y < 10,
                x <= 10,
                forall|x2: int| 0 <= x2 < x ==> #[trigger] row[x2] == enemy_symbol(board[y as int][x2]),
            decreases 10 - x,
        {
            row[x] = char::from(board[y][x]);
            x = x + 1;
        }
        symbols[y] = row;
        y = y + 1;
    }
    symbols
}

// ---------------------------------------------------------------------
// What the client does with a server message
// ---------------------------------------------------------------------

/// The client's answer to a message from the server.
pub enum Reaction {
    /// Draw these glyphs.
    Draw(Vec<Glyph>),
    /// Show the reason at the status position and leave.
    Leave(DisconnectReason),
    /// Announce the turn at the status position and read a shot.
    TakeTurn,
}

/// What the client does with each message: boards are drawn at their
/// positions, a disconnect ends the game, a turn asks for a shot.
pub open spec fn reaction_to(msg: ServerToClient, reaction: Reaction) -> bool {
    match msg {
        ServerToClient::UpdateAlly(board) => reaction matches Reaction::Draw(g) && g@
            == board_glyphs(ally_symbols(board), ALLY_BOARD_POSITION.0, ALLY_BOARD_POSITION.1),
        ServerToClient::UpdateEnemy(board) => reaction matches Reaction::Draw(g) && g@
            == board_glyphs(enemy_symbols(board), ENEMY_BOARD_POSITION.0, ENEMY_BOARD_POSITION.1),
        ServerToClient::Disconnect(reason) => reaction matches Reaction::Leave(r) && r == reason,
        ServerToClient::YourTurn => reaction is TakeTurn,
    }
}

/// Decides what the client does with a message from the server.
pub fn react(msg: &ServerToClient) -> (reaction: Reaction)
    ensures
        reaction_to(*msg, reaction),
{
    match msg {
        ServerToClient::UpdateAlly(board) => {
            let symbols = ally_symbol_grid(board);
            let glyphs = board_layout(&symbols, ALLY_BOARD_POSITION);
            assert(board_glyphs(symbols_of(symbols), 0, 4) =~= board_glyphs(ally_symbols(*board), 0, 4));
            Reaction::Draw(glyphs)
        },
        ServerToClient::UpdateEnemy(board) => {
            let symbols = enemy_symbol_grid(board);
            let glyphs = board_layout(&symbols, ENEMY_BOARD_POSITION);
            assert(board_glyphs(symbols_of(symbols), 30, 4) =~= board_glyphs(enemy_symbols(*board), 30, 4));
            Reaction::Draw(glyphs)
        },
        ServerToClient::Disconnect(reason) => Reaction::Leave(*reason),
        ServerToClient::YourTurn => Reaction::TakeTurn,
    }
}

/// Every field of a drawn board can be shot by typing its labels: the
/// letter drawn beside its row followed by the digit drawn above its
/// column is read as `(row, column)`.
pub proof fn lemma_drawn_labels_are_read_back(symbols: [[char; 10]; 10], x0: u16, y0: u16, row: u8, col: u8)
    requires
        row < 10,
        col < 10,
    ensures
        ({
            let glyphs = board_glyphs(symbols_of(symbols), x0, y0);
            parse_coordinates(seq![glyphs[10 + row].symbol, glyphs[col as int].symbol])
                == Ok::<(u8, u8), Seq<char>>((row, col))
        }),
{
    let glyphs = board_glyphs(symbols_of(symbols), x0, y0);
    assert(glyphs.len() == 120);
    assert(glyphs[10 + row].symbol == row_label(row));
    assert(glyphs[col as int].symbol == column_label(col));
    reveal_labels();
    assert(encode_utf8(seq![row_label(row), column_label(col)]).len() <= usize::MAX) by {
        let s = seq![row_label(row), column_label(col)];
        assert(is_ascii_chars(s));
        is_ascii_chars_encode_utf8(s);
    }
    lemma_accepted_shots_are_labels(seq![row_label(row), column_label(col)], row, col);
}

/// When the server ends the game, the client leaves with the reason the
/// server gave, whatever it is.
pub proof fn lemma_client_leaves_with_the_servers_reason(reason: DisconnectReason, reaction: Reaction)
    requires
        reaction_to(ServerToClient::Disconnect(reason), reaction),
    ensures
        reaction matches Reaction::Leave(shown) && shown == reason,
{
}

/// A drawn board puts field `board[row][col]` on the line of the letter of
/// `row` and under the digit of `col`: glyph `20 + 10 * row + col` shares its
/// line with glyph `10 + row`, which carries the row's letter, and its
/// terminal column with glyph `col`, which carries the column's digit.
pub open spec fn field_drawn_at(g: Seq<Glyph>, row: int, col: int, symbol: char) -> bool {
    &&& g.len() == 120
    &&& g[20 + 10 * row + col].symbol == symbol
    &&& g[20 + 10 * row + col].y == g[10 + row].y
    &&& g[20 + 10 * row + col].x == g[col].x
    &&& g[10 + row].symbol == row_label(row as u8)
    &&& g[col].symbol == column_label(col as u8)
}

/// The opponent's board is drawn as sent: the symbol of the field in row
/// `row` and column `col` of the board appears in row `row` and column `col`
/// of the drawing, for every field.
pub proof fn lemma_enemy_board_drawn_as_sent(board: EnemyBoard, reaction: Reaction, row: int, col: int)
    requires
        reaction_to(ServerToClient::UpdateEnemy(board), reaction),
        0 <= row < 10,
        0 <= col < 10,
    ensures
        reaction matches Reaction::Draw(g) && field_drawn_at(g@, row, col, enemy_symbol(board[row][col])),
{
    let g = board_glyphs(enemy_symbols(board), ENEMY_BOARD_POSITION.0, ENEMY_BOARD_POSITION.1);
    let k = 20 + 10 * row + col;
    assert(g.len() == 120);
    assert((k - 20) / 10 == row && (k - 20) % 10 == col);
    assert(g[k].y == g[10 + row].y);
    assert(g[k].x == g[col].x);
}

/// The player's own board is drawn as sent: the symbol of the field in row
/// `row` and column `col` of the board appears in row `row` and column `col`
/// of the drawing, for every field.
pub proof fn lemma_ally_board_drawn_as_sent(board: AllyBoard, reaction: Reaction, row: int, col: int)
    requires
        reaction_to(ServerToClient::UpdateAlly(board), reaction),
        0 <= row < 10,
        0 <= col < 10,
    ensures
        reaction matches Reaction::Draw(g) && field_drawn_at(g@, row, col, ally_symbol(board[row][col])),
{
    let g = board_glyphs(ally_symbols(board), ALLY_BOARD_POSITION.0, ALLY_BOARD_POSITION.1);
    let k = 20 + 10 * row + col;
    assert(g.len() == 120);
    assert((k - 20) / 10 == row && (k - 20) % 10 == col);
    assert(g[k].y == g[10 + row].y);
    assert(g[k].x == g[col].x);
}

} // verus!
