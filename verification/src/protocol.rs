//! Messages exchanged between client and server, how board fields are
//! drawn, and the length-prefixed framing of messages on the wire.
use vstd::prelude::*;
use byteorder::{BigEndian, ByteOrder};

verus! {

/// The layout a client submits: `true` where a ship segment lies, indexed `[y][x]`.
pub type ClientBoard = [[bool; 10]; 10];

/// A player's own board as shown to that player.
pub type AllyBoard = [[AllyField; 10]; 10];

/// The opponent's board as shown to a player.
pub type EnemyBoard = [[EnemyField; 10]; 10];

/// Requests a client sends to the server.
#[derive(Clone, Copy, PartialEq, Eq, Debug)]
pub enum ClientToServer {
    SetBoard(ClientBoard),
    Shoot((u8, u8)),
}

/// Notifications the server sends to a client.
#[derive(Clone, Copy, PartialEq, Eq, Debug)]
pub enum ServerToClient {
    UpdateAlly(AllyBoard),
    UpdateEnemy(EnemyBoard),
    Disconnect(DisconnectReason),
    YourTurn,
}

/// Why the server ends a client's session.
#[derive(Clone, Copy, PartialEq, Eq, Structural, Debug)]
pub enum DisconnectReason {
    Win,
    Defeat,
    Error,
}

/// A field of a player's own board.
#[derive(Clone, Copy, PartialEq, Eq, Structural, Debug)]
pub enum AllyField {
    Free,
    Occupied,
    Missed,
    Hit,
    Sank,
}

/// A field of the opponent's board, as far as the player knows it.
#[derive(Clone, Copy, PartialEq, Eq, Structural, Debug)]
pub enum EnemyField {
    Unknown,
    Hit,
    Sank,
    Missed,
}

/// The symbol drawn for a field of the player's own board.
pub open spec fn ally_symbol(field: AllyField) -> char {
    match field {
        AllyField::Free => '\u{1F7E6}',
        AllyField::Occupied => '\u{26AA}',
        AllyField::Missed => '\u{1F7EB}',
        AllyField::Hit => '\u{1F7E1}',
        AllyField::Sank => '\u{1F534}',
    }
}

/// The symbol drawn for a field of the opponent's board.
pub open spec fn enemy_symbol(field: EnemyField) -> char {
    match field {
        EnemyField::Unknown => '\u{1F7E6}',
        EnemyField::Hit => '\u{1F7E1}',
        EnemyField::Sank => '\u{1F534}',
        EnemyField::Missed => '\u{1F7EB}',
    }
}

/// Each state of a field is drawn with its own symbol, on either board.
pub proof fn lemma_symbols_tell_fields_apart(a1: AllyField, a2: AllyField, e1: EnemyField, e2: EnemyField)
    ensures
        ally_symbol(a1) == ally_symbol(a2) ==> a1 == a2,
        enemy_symbol(e1) == enemy_symbol(e2) ==> e1 == e2,
{
}

impl From<AllyField> for char {
    fn from(field: AllyField) -> (c: char) {
        match field {
            AllyField::Free => '\u{1F7E6}',
            AllyField::Occupied => '\u{26AA}',
            AllyField::Missed => '\u{1F7EB}',
            AllyField::Hit => '\u{1F7E1}',
            AllyField::Sank => '\u{1F534}',
        }
    }
}

impl vstd::std_specs::convert::FromSpecImpl<AllyField> for char {
    open spec fn obeys_from_spec() -> bool {
        true
    }

    open spec fn from_spec(field: AllyField) -> char {
        ally_symbol(field)
    }
}

impl From<EnemyField> for char {
    fn from(field: EnemyField) -> (c: char) {
        match field {
            EnemyField::Unknown => '\u{1F7E6}',
            EnemyField::Hit => '\u{1F7E1}',
            EnemyField::Sank => '\u{1F534}',
            EnemyField::Missed => '\u{1F7EB}',
        }
    }
}

impl vstd::std_specs::convert::FromSpecImpl<EnemyField> for char {
    open spec fn obeys_from_spec() -> bool {
        true
    }

    open spec fn from_spec(field: EnemyField) -> char {
        enemy_symbol(field)
    }
}

// ---------------------------------------------------------------------
// Framing: every message travels as a 4-byte big-endian length followed by
// that many bytes of encoded message.
// ---------------------------------------------------------------------

/// Size of the buffer a message is received into; longer messages cannot
/// be received.
pub const MAX_MESSAGE_LEN: usize = 2048;

/// The 4 big-endian bytes of `n`.
pub open spec fn u32_be_bytes(n: u32) -> Seq<u8> {
    seq![
        ((n >> 24u32) & 0xffu32) as u8,
        ((n >> 16u32) & 0xffu32) as u8,
        ((n >> 8u32) & 0xffu32) as u8,
        (n & 0xffu32) as u8,
    ]
}

/// The number whose big-endian bytes are the first 4 of `b`.
pub open spec fn u32_from_be(b: Seq<u8>) -> u32 {
    ((b[0] as u32) << 24u32) | ((b[1] as u32) << 16u32) | ((b[2] as u32) << 8u32) | (b[3] as u32)
}

/// Writes `n` in big-endian order through byteorder's `BigEndian::write_u32`,
/// which stores the most significant byte first.
#[verifier::external_body]
fn be_bytes(n: u32) -> (bytes: [u8; 4])
    ensures
        bytes@ == u32_be_bytes(n),
{
    let mut bytes = [0u8; 4];
    BigEndian::write_u32(&mut bytes, n);
    bytes
}

/// Reads a big-endian `u32` through byteorder's `BigEndian::read_u32`,
/// which takes the first byte as the most significant.
#[verifier::external_body]
fn be_value(bytes: &[u8; 4]) -> (n: u32)
    ensures
        n == u32_from_be(bytes@),
{
    BigEndian::read_u32(bytes)
}

/// The frame of an encoded message: its length as 4 big-endian bytes
/// (kept to its low 32 bits, as the length field holds no more), then the
/// message itself.
pub open spec fn frame(payload: Seq<u8>) -> Seq<u8> {
    u32_be_bytes(payload.len() as u32) + payload
}

/// Frames an encoded message for sending.
pub fn frame_message(payload: &[u8]) -> (framed: Vec<u8>)
    ensures
        framed@ == frame(payload@),
{
    let header = be_bytes(payload.len() as u32);
    let mut framed: Vec<u8> = Vec::new();
    let mut i: usize = 0;
    while i < 4
        invariant
            i <= 4,
            framed@ == header@.take(i as int),
        decreases 4 - i,
    {
        framed.push(header[i]);
        i = i + 1;
    }
    let mut j: usize = 0;
    while j < payload.len()
        invariant
            j <= payload@.len(),
            framed@ == header@ + payload@.take(j as int),
        decreases payload@.len() - j,
    {
        framed.push(payload[j]);
        j = j + 1;
    }
    assert(payload@.take(payload@.len() as int) == payload@);
    framed
}

/// The length a frame header announces, if a message of that length fits
/// the receive buffer.
pub open spec fn announced_length(header: Seq<u8>) -> Option<usize> {
    if u32_from_be(header) as int <= MAX_MESSAGE_LEN {
        Some(u32_from_be(header) as usize)
    } else {
        None
    }
}

/// Reads the length from a received frame header; `None` when the
/// announced message does not fit the receive buffer.
pub fn message_length(header: [u8; 4]) -> (len: Option<usize>)
    ensures
        len == announced_length(header@),
{
    let n = be_value(&header);
    let len = n as usize;
    if len <= MAX_MESSAGE_LEN {
        Some(len)
    } else {
        None
    }
}

proof fn lemma_u32_be_roundtrip(n: u32)
    ensures
        u32_from_be(u32_be_bytes(n)) == n,
{
    assert(((((n >> 24u32) & 0xffu32) as u8) as u32) << 24u32 | ((((n >> 16u32) & 0xffu32) as u8) as u32) << 16u32
        | ((((n >> 8u32) & 0xffu32) as u8) as u32) << 8u32 | (((n & 0xffu32) as u8) as u32) == n) by (bit_vector);
}

/// Reading the header of a framed message gives back the length of the
/// message, whenever the message fits the receive buffer; the message
/// follows the header unchanged.
pub proof fn lemma_frame_roundtrip(payload: Seq<u8>)
    requires
        payload.len() <= MAX_MESSAGE_LEN,
    ensures
        announced_length(frame(payload).take(4)) == Some(payload.len() as usize),
        frame(payload).skip(4) == payload,
{
    lemma_u32_be_roundtrip(payload.len() as u32);
    assert(frame(payload).take(4) =~= u32_be_bytes(payload.len() as u32));
    assert(frame(payload).skip(4) =~= payload);
}

} // verus!
