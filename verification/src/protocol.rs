use vstd::prelude::*;
use vstd::utf8::encode_utf8;

verus! {

/// The `rmp_serde` serialisation error; `encode` carries it in its signature.
#[verifier::external_type_specification]
#[verifier::external_body]
pub struct ExEncodeError(rmp_serde::encode::Error);

/// Messages sent from the client to the server.
/// On the wire each is a MessagePack map with an internal "type" tag.
#[derive(Debug, Clone, PartialEq, Eq)]
pub enum ClientMessage {
    Join { username: String },
    Turn { dir: u8 },
}

/// Messages received from the server.
#[derive(Debug, Clone, PartialEq, Eq)]
pub enum ServerMessage {
    State { tick: u64, food: [u16; 2], snakes: Vec<SnakeData> },
    Crown { name: String, crowns: u32 },
    Leaderboard { players: Vec<LeaderboardEntry> },
    Error { msg: String },
}

/// One worm as the server reports it: its owner, the board cells it covers
/// (each `[x, y]`), its heading, its crown count and its server-assigned colour.
#[derive(Debug, Clone, PartialEq, Eq)]
pub struct SnakeData {
    pub name: String,
    pub body: Vec<[u16; 2]>,
    pub dir: u8,
    pub crowns: u32,
    pub color: String,
}

/// One player's line in the server's leaderboard broadcast.
#[derive(Debug, Clone, PartialEq, Eq)]
pub struct LeaderboardEntry {
    pub name: String,
    pub crowns: u32,
    pub length: u16,
    pub alive: bool,
}

/// The MessagePack header of a string whose UTF-8 form is `n` bytes long.
/// The length is taken modulo 2^32, as the encoder writes it into a `u32`.
pub open spec fn str_header(n: nat) -> Seq<u8> {
    let m = n % 0x1_0000_0000;
    if m < 32 {
        seq![(0xa0 + m) as u8]
    } else if m < 256 {
        seq![0xd9u8, m as u8]
    } else if m < 0x1_0000 {
        seq![0xdau8, (m / 0x100) as u8, (m % 0x100) as u8]
    } else {
        seq![
            0xdbu8,
            (m / 0x100_0000) as u8,
            ((m / 0x1_0000) % 0x100) as u8,
            ((m / 0x100) % 0x100) as u8,
            (m % 0x100) as u8,
        ]
    }
}

/// A MessagePack string: its header, then its UTF-8 bytes.
pub open spec fn str_frame(bytes: Seq<u8>) -> Seq<u8> {
    str_header(bytes.len()) + bytes
}

/// A MessagePack unsigned integer in its shortest form.
pub open spec fn uint_frame(v: u8) -> Seq<u8> {
    if v < 128 {
        seq![v]
    } else {
        seq![0xccu8, v]
    }
}

/// The bytes of the key `"type"`.
pub open spec fn key_type() -> Seq<u8> {
    seq![0x74u8, 0x79, 0x70, 0x65]
}

/// The bytes of the tag `"join"`.
pub open spec fn tag_join() -> Seq<u8> {
    seq![0x6au8, 0x6f, 0x69, 0x6e]
}

/// The bytes of the key `"username"`.
pub open spec fn key_username() -> Seq<u8> {
    seq![0x75u8, 0x73, 0x65, 0x72, 0x6e, 0x61, 0x6d, 0x65]
}

/// The bytes of the tag `"turn"`.
pub open spec fn tag_turn() -> Seq<u8> {
    seq![0x74u8, 0x75, 0x72, 0x6e]
}

/// The bytes of the key `"dir"`.
pub open spec fn key_dir() -> Seq<u8> {
    seq![0x64u8, 0x69, 0x72]
}

/// `{"type": "join", "username": <username>}` as a two-entry MessagePack map.
pub open spec fn join_frame(username: Seq<char>) -> Seq<u8> {
    seq![0x82u8] + str_frame(key_type()) + str_frame(tag_join()) + str_frame(key_username())
        + str_frame(encode_utf8(username))
}

/// `{"type": "turn", "dir": <dir>}` as a two-entry MessagePack map.
pub open spec fn turn_frame(dir: u8) -> Seq<u8> {
    seq![0x82u8] + str_frame(key_type()) + str_frame(tag_turn()) + str_frame(key_dir())
        + uint_frame(dir)
}

/// The wire form of a client message.
pub open spec fn message_frame(msg: ClientMessage) -> Seq<u8> {
    match msg {
        ClientMessage::Join { username } => join_frame(username@),
        ClientMessage::Turn { dir } => turn_frame(dir),
    }
}

/// Appends the MessagePack header of a string of `len` bytes.
fn push_str_header(out: &mut Vec<u8>, len: usize)
    ensures
        final(out)@ == old(out)@ + str_header(len as nat),
{
    let m: u64 = (len as u64) % 0x1_0000_0000;
    if m < 32 {
        out.push((0xa0 + m) as u8);
    } else if m < 256 {
        out.push(0xd9u8);
        out.push(m as u8);
    } else if m < 0x1_0000 {
        out.push(0xdau8);
        out.push((m / 0x100) as u8);
        out.push((m % 0x100) as u8);
    } else {
        out.push(0xdbu8);
        out.push((m / 0x100_0000) as u8);
        out.push(((m / 0x1_0000) % 0x100) as u8);
        out.push(((m / 0x100) % 0x100) as u8);
        out.push((m % 0x100) as u8);
    }
}

/// Appends a MessagePack string made of `bytes`.
fn push_str_frame(out: &mut Vec<u8>, bytes: &[u8])
    ensures
        final(out)@ == old(out)@ + str_frame(bytes@),
{
    let ghost start = out@;
    push_str_header(out, bytes.len());
    let ghost head = out@;
    let mut i: usize = 0;
    while i < bytes.len()
        invariant
            i <= bytes@.len(),
            head == start + str_header(bytes@.len()),
            out@ == head + bytes@.take(i as int),
        decreases bytes@.len() - i,
    {
        out.push(bytes[i]);
        i = i + 1;
        assert(bytes@.take(i as int) == bytes@.take(i - 1) + seq![bytes@[i - 1]]);
    }
    assert(bytes@.take(i as int) == bytes@);
}

/// Builds the wire form of a client message.
fn frame(msg: &ClientMessage) -> (bytes: Vec<u8>)
    ensures
        bytes@ == message_frame(*msg),
{
    let mut out: Vec<u8> = Vec::new();
    out.push(0x82u8);
    let key_type_bytes: Vec<u8> = vec![0x74u8, 0x79, 0x70, 0x65];
    push_str_frame(&mut out, key_type_bytes.as_slice());
    match msg {
        ClientMessage::Join { username } => {
            let tag: Vec<u8> = vec![0x6au8, 0x6f, 0x69, 0x6e];
            push_str_frame(&mut out, tag.as_slice());
            let key: Vec<u8> = vec![0x75u8, 0x73, 0x65, 0x72, 0x6e, 0x61, 0x6d, 0x65];
            push_str_frame(&mut out, key.as_slice());
            push_str_frame(&mut out, username.as_str().as_bytes());
        },
        ClientMessage::Turn { dir } => {
            let tag: Vec<u8> = vec![0x74u8, 0x75, 0x72, 0x6e];
            push_str_frame(&mut out, tag.as_slice());
            let key: Vec<u8> = vec![0x64u8, 0x69, 0x72];
            push_str_frame(&mut out, key.as_slice());
            if *dir < 128 {
                out.push(*dir);
            } else {
                out.push(0xccu8);
                out.push(*dir);
            }
        },
    }
    out
}

/// The join message for `username`.
pub fn encode_join(username: &String) -> (bytes: Vec<u8>)
    ensures
        bytes@ == join_frame(username@),
{
    let msg = ClientMessage::Join { username: username.clone() };
    frame(&msg)
}

/// The turn message for direction number `dir`.
pub fn encode_turn(dir: u8) -> (bytes: Vec<u8>)
    ensures
        bytes@ == turn_frame(dir),
{
    frame(&ClientMessage::Turn { dir })
}

/// Encodes a `ClientMessage` to a MessagePack byte vector: a map whose
/// first entry is the "type" tag and whose second is the variant's field.
/// Writing into memory cannot fail, so the result is always `Ok`.
pub fn encode(msg: &ClientMessage) -> (res: Result<Vec<u8>, rmp_serde::encode::Error>)
    ensures
        res matches Ok(bytes) && bytes@ == message_frame(*msg),
{
    Ok(frame(msg))
}

} // verus!
