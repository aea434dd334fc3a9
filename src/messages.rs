//! What a block hears from clients and from the shipgate, and what it sends back.
use vstd::prelude::*;

verus! {

/// A request of a connected client, already decoded from the wire.
pub enum ClientMessage {
    Login { username: Vec<u8>, password: Vec<u8> },
    CharData(Vec<u8>),
    Chat(Vec<u8>),
    CreateGame { name: Vec<u8>, difficulty: u8, mode: u8 },
    SubCmd60(Vec<u8>),
    LobbyChange(u32),
    JoinGame(u32),
    /// A kind of message this block does not handle, by its wire code.
    Other(u16),
}

/// A message for clients.
pub enum ServerMessage {
    Welcome { server_key: Vec<u8>, client_key: Vec<u8> },
    LoginRejected,
    ProceedToCharSelect,
    LobbyRoster { lobby: usize, players: Vec<usize> },
    PlayerJoined { lobby: usize, id: usize },
    ChatRelay { from: usize, text: Vec<u8> },
    SubCmdRelay { from: usize, data: Vec<u8> },
    GameCreated { game: u32 },
    GameListed { lobby: usize, game: u32 },
    CreateGameRejected,
    GameJoined { game: u32, members: Vec<usize> },
    JoinGameRejected,
    LobbyChangeRejected,
}

/// One message and the connections it goes to.
pub struct Outbound {
    pub to: Vec<usize>,
    pub msg: ServerMessage,
}

/// An authentication request for the shipgate, tagged with its correlation key.
pub struct AuthRequest {
    pub key: u64,
    pub username: Vec<u8>,
    pub password: Vec<u8>,
}

/// The shipgate's answer to the request with the same key: the account on
/// success.
pub struct ShipgateReply {
    pub key: u64,
    pub account: Option<u32>,
}

/// One event of a block's queue.
pub enum Event {
    Connected(usize),
    Disconnected(usize),
    Said(usize, ClientMessage),
    Shipgate(ShipgateReply),
}

/// What handling one event asks the outside world to do.
pub struct Effects {
    pub sends: Vec<Outbound>,
    pub requests: Vec<AuthRequest>,
}

impl Effects {
    pub fn none() -> (r: Effects)
        ensures
            r.sends@.len() == 0,
            r.requests@.len() == 0,
    {
        Effects { sends: Vec::new(), requests: Vec::new() }
    }

    /// One message to one connection.
    pub fn to_one(id: usize, msg: ServerMessage) -> (r: Effects)
        ensures
            r.sends@.len() == 1,
            r.sends@[0].to@ == seq![id],
            r.sends@[0].msg == msg,
            r.requests@.len() == 0,
    {
        let mut to: Vec<usize> = Vec::new();
        to.push(id);
        let mut sends: Vec<Outbound> = Vec::new();
        sends.push(Outbound { to, msg });
        Effects { sends, requests: Vec::new() }
    }
}

} // verus!
