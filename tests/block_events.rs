use idola_block::block::{BlockService, NUM_LOBBIES, KEY_LEN};
use idola_block::lobby::{Lobby, LobbyError, LOBBY_CAPACITY};
use idola_block::messages::{ClientMessage, Effects, Event, ServerMessage, ShipgateReply};

fn said(b: &mut BlockService, id: usize, m: ClientMessage) -> Effects {
    b.handle_event(Event::Said(id, m))
}

fn connect_and_place(b: &mut BlockService, id: usize, lobby: u32) {
    b.handle_event(Event::Connected(id));
    said(b, id, ClientMessage::CharData(vec![1, 2, 3]));
    said(b, id, ClientMessage::LobbyChange(lobby));
}

fn lobby_of(b: &BlockService, id: usize) -> Option<usize> {
    (0..NUM_LOBBIES).find(|&l| b.lobbies[l].players.contains(&id))
}

#[test]
fn new_block_has_fifteen_empty_lobbies() {
    let b = BlockService::new(2, 7);
    assert_eq!(b.lobbies.len(), 15);
    for (i, l) in b.lobbies.iter().enumerate() {
        assert_eq!(l.index, i);
        assert_eq!(l.block_num, 2);
        assert_eq!(l.event, 7);
        assert!(l.players.is_empty());
        assert!(l.games.is_empty());
    }
    assert!(b.clients.is_empty());
}

#[test]
fn login_round_trip_through_shipgate() {
    let mut b = BlockService::new(1, 0);
    let fx = b.handle_event(Event::Connected(7));
    assert_eq!(fx.sends.len(), 1);
    assert_eq!(fx.sends[0].to, vec![7]);
    match &fx.sends[0].msg {
        ServerMessage::Welcome { server_key, client_key } => {
            assert_eq!(server_key.len(), 48);
            assert_eq!(client_key.len(), 48);
        }
        _ => panic!("expected a welcome"),
    }
    let fx = said(&mut b, 7, ClientMessage::Login { username: b"sonic".to_vec(), password: b"pw".to_vec() });
    assert!(fx.sends.is_empty());
    assert_eq!(fx.requests.len(), 1);
    let k = fx.requests[0].key;
    assert_eq!(fx.requests[0].username, b"sonic".to_vec());
    assert_eq!(fx.requests[0].password, b"pw".to_vec());
    assert_eq!(b.pending.len(), 1);
    let fx = b.handle_event(Event::Shipgate(ShipgateReply { key: k, account: Some(42) }));
    assert_eq!(fx.sends.len(), 1);
    assert_eq!(fx.sends[0].to, vec![7]);
    assert!(matches!(fx.sends[0].msg, ServerMessage::ProceedToCharSelect));
    assert_eq!(b.clients[0].connection_id, 7);
    assert_eq!(b.clients[0].account, Some(42));
    assert!(b.pending.is_empty());
}

#[test]
fn failed_login_reply_rejects() {
    let mut b = BlockService::new(1, 0);
    b.handle_event(Event::Connected(3));
    let fx = said(&mut b, 3, ClientMessage::Login { username: b"a".to_vec(), password: vec![] });
    let k = fx.requests[0].key;
    let fx = b.handle_event(Event::Shipgate(ShipgateReply { key: k, account: None }));
    assert!(matches!(fx.sends[0].msg, ServerMessage::LoginRejected));
    assert_eq!(b.clients[0].account, None);
}

#[test]
fn empty_username_rejected_without_request() {
    let mut b = BlockService::new(1, 0);
    b.handle_event(Event::Connected(3));
    let fx = said(&mut b, 3, ClientMessage::Login { username: vec![], password: vec![] });
    assert!(fx.requests.is_empty());
    assert!(matches!(fx.sends[0].msg, ServerMessage::LoginRejected));
    assert!(b.pending.is_empty());
}

#[test]
fn login_keys_are_distinct() {
    let mut b = BlockService::new(1, 0);
    b.handle_event(Event::Connected(1));
    b.handle_event(Event::Connected(2));
    let a = said(&mut b, 1, ClientMessage::Login { username: b"x".to_vec(), password: vec![] });
    let c = said(&mut b, 2, ClientMessage::Login { username: b"y".to_vec(), password: vec![] });
    assert_ne!(a.requests[0].key, c.requests[0].key);
}

#[test]
fn unmatched_reply_changes_nothing() {
    let mut b = BlockService::new(1, 0);
    b.handle_event(Event::Connected(4));
    let fx = b.handle_event(Event::Shipgate(ShipgateReply { key: 99, account: Some(1) }));
    assert!(fx.sends.is_empty());
    assert!(fx.requests.is_empty());
    assert_eq!(b.clients.len(), 1);
    assert_eq!(b.clients[0].account, None);
}

#[test]
fn reply_after_disconnect_touches_no_session() {
    let mut b = BlockService::new(1, 0);
    b.handle_event(Event::Connected(4));
    b.handle_event(Event::Connected(5));
    let fx = said(&mut b, 4, ClientMessage::Login { username: b"x".to_vec(), password: vec![] });
    let k = fx.requests[0].key;
    b.handle_event(Event::Disconnected(4));
    let fx = b.handle_event(Event::Shipgate(ShipgateReply { key: k, account: Some(9) }));
    assert!(fx.sends.is_empty());
    assert_eq!(b.clients.len(), 1);
    assert_eq!(b.clients[0].connection_id, 5);
    assert_eq!(b.clients[0].account, None);
    assert!(b.pending.is_empty());
}

#[test]
fn char_data_places_in_first_lobby() {
    let mut b = BlockService::new(1, 0);
    b.handle_event(Event::Connected(1));
    b.handle_event(Event::Connected(2));
    said(&mut b, 1, ClientMessage::CharData(vec![5]));
    let fx = said(&mut b, 2, ClientMessage::CharData(vec![6]));
    assert_eq!(b.lobbies[0].players, vec![1, 2]);
    assert_eq!(b.clients[1].character, Some(vec![6]));
    assert_eq!(fx.sends.len(), 2);
    assert_eq!(fx.sends[0].to, vec![2]);
    match &fx.sends[0].msg {
        ServerMessage::LobbyRoster { lobby, players } => {
            assert_eq!(*lobby, 0);
            assert_eq!(players, &vec![1, 2]);
        }
        _ => panic!("expected a roster"),
    }
    assert_eq!(fx.sends[1].to, vec![1]);
    assert!(matches!(fx.sends[1].msg, ServerMessage::PlayerJoined { lobby: 0, id: 2 }));
}

#[test]
fn char_data_skips_full_lobby() {
    let mut b = BlockService::new(1, 0);
    for id in 0..LOBBY_CAPACITY + 1 {
        b.handle_event(Event::Connected(id));
        said(&mut b, id, ClientMessage::CharData(vec![]));
    }
    assert_eq!(b.lobbies[0].players.len(), LOBBY_CAPACITY);
    assert_eq!(b.lobbies[1].players, vec![LOBBY_CAPACITY]);
}

#[test]
fn chat_relayed_to_others_not_sender() {
    let mut b = BlockService::new(1, 0);
    connect_and_place(&mut b, 1, 3);
    connect_and_place(&mut b, 2, 3);
    assert_eq!(b.lobbies[3].players, vec![1, 2]);
    let fx = said(&mut b, 1, ClientMessage::Chat(b"hello".to_vec()));
    assert_eq!(fx.sends.len(), 1);
    assert_eq!(fx.sends[0].to, vec![2]);
    match &fx.sends[0].msg {
        ServerMessage::ChatRelay { from, text } => {
            assert_eq!(*from, 1);
            assert_eq!(text, &b"hello".to_vec());
        }
        _ => panic!("expected a chat relay"),
    }
}

#[test]
fn chat_from_unplaced_client_dropped() {
    let mut b = BlockService::new(1, 0);
    b.handle_event(Event::Connected(1));
    let fx = said(&mut b, 1, ClientMessage::Chat(b"hi".to_vec()));
    assert!(fx.sends.is_empty());
}

#[test]
fn subcmd_relayed_to_lobby() {
    let mut b = BlockService::new(1, 0);
    connect_and_place(&mut b, 1, 2);
    connect_and_place(&mut b, 2, 2);
    connect_and_place(&mut b, 3, 2);
    let fx = said(&mut b, 2, ClientMessage::SubCmd60(vec![0x60, 1]));
    assert_eq!(fx.sends[0].to, vec![1, 3]);
    assert!(matches!(fx.sends[0].msg, ServerMessage::SubCmdRelay { from: 2, .. }));
}

#[test]
fn create_game_then_disconnect_dissolves_it() {
    let mut b = BlockService::new(1, 0);
    connect_and_place(&mut b, 1, 3);
    connect_and_place(&mut b, 2, 3);
    let fx = said(&mut b, 1, ClientMessage::CreateGame { name: b"run".to_vec(), difficulty: 2, mode: 0 });
    assert_eq!(b.lobbies[3].games.len(), 1);
    let g = &b.lobbies[3].games[0];
    assert_eq!(g.members, vec![1]);
    assert_eq!(g.name, b"run".to_vec());
    assert_eq!(g.difficulty, 2);
    let gid = g.id;
    assert_eq!(fx.sends.len(), 2);
    assert_eq!(fx.sends[0].to, vec![1]);
    assert!(matches!(fx.sends[0].msg, ServerMessage::GameCreated { game } if game == gid));
    assert_eq!(fx.sends[1].to, vec![2]);
    assert!(matches!(fx.sends[1].msg, ServerMessage::GameListed { lobby: 3, game } if game == gid));
    b.handle_event(Event::Disconnected(1));
    assert!(b.lobbies[3].games.is_empty());
    assert_eq!(b.lobbies[3].players, vec![2]);
}

#[test]
fn create_game_needs_a_lobby() {
    let mut b = BlockService::new(1, 0);
    b.handle_event(Event::Connected(1));
    let fx = said(&mut b, 1, ClientMessage::CreateGame { name: vec![], difficulty: 0, mode: 0 });
    assert!(matches!(fx.sends[0].msg, ServerMessage::CreateGameRejected));
    assert!(b.lobbies.iter().all(|l| l.games.is_empty()));
}

#[test]
fn create_second_game_while_in_one_rejected() {
    let mut b = BlockService::new(1, 0);
    connect_and_place(&mut b, 1, 0);
    said(&mut b, 1, ClientMessage::CreateGame { name: vec![], difficulty: 0, mode: 0 });
    let fx = said(&mut b, 1, ClientMessage::CreateGame { name: vec![], difficulty: 0, mode: 0 });
    assert!(matches!(fx.sends[0].msg, ServerMessage::CreateGameRejected));
    assert_eq!(b.lobbies[0].games.len(), 1);
}

#[test]
fn chat_inside_game_goes_to_game_members() {
    let mut b = BlockService::new(1, 0);
    connect_and_place(&mut b, 1, 4);
    connect_and_place(&mut b, 2, 4);
    connect_and_place(&mut b, 3, 4);
    said(&mut b, 1, ClientMessage::CreateGame { name: vec![], difficulty: 0, mode: 0 });
    let gid = b.lobbies[4].games[0].id;
    said(&mut b, 2, ClientMessage::JoinGame(gid));
    let fx = said(&mut b, 1, ClientMessage::Chat(b"go".to_vec()));
    assert_eq!(fx.sends[0].to, vec![2]);
    let fx = said(&mut b, 3, ClientMessage::Chat(b"hey".to_vec()));
    assert_eq!(fx.sends[0].to, vec![1, 2]);
}

#[test]
fn join_game_then_owner_disconnects_keeps_game() {
    let mut b = BlockService::new(1, 0);
    connect_and_place(&mut b, 1, 3);
    connect_and_place(&mut b, 2, 3);
    said(&mut b, 1, ClientMessage::CreateGame { name: b"p".to_vec(), difficulty: 1, mode: 1 });
    let gid = b.lobbies[3].games[0].id;
    let fx = said(&mut b, 2, ClientMessage::JoinGame(gid));
    assert_eq!(fx.sends[0].to, vec![2]);
    match &fx.sends[0].msg {
        ServerMessage::GameJoined { game, members } => {
            assert_eq!(*game, gid);
            assert_eq!(members, &vec![1, 2]);
        }
        _ => panic!("expected a join"),
    }
    assert_eq!(b.current_game(2), Some(gid));
    b.handle_event(Event::Disconnected(1));
    assert_eq!(b.lobbies[3].games.len(), 1);
    assert_eq!(b.lobbies[3].games[0].id, gid);
    assert_eq!(b.lobbies[3].games[0].members, vec![2]);
    assert_eq!(b.current_game(1), None);
}

#[test]
fn join_unknown_game_rejected() {
    let mut b = BlockService::new(1, 0);
    connect_and_place(&mut b, 1, 3);
    let fx = said(&mut b, 1, ClientMessage::JoinGame(77));
    assert!(matches!(fx.sends[0].msg, ServerMessage::JoinGameRejected));
    assert_eq!(b.current_game(1), None);
}

#[test]
fn join_full_game_rejected() {
    let mut b = BlockService::new(1, 0);
    for id in 1..=5 {
        connect_and_place(&mut b, id, 9);
    }
    said(&mut b, 1, ClientMessage::CreateGame { name: vec![], difficulty: 0, mode: 0 });
    let gid = b.lobbies[9].games[0].id;
    for id in 2..=4 {
        said(&mut b, id, ClientMessage::JoinGame(gid));
    }
    let fx = said(&mut b, 5, ClientMessage::JoinGame(gid));
    assert!(matches!(fx.sends[0].msg, ServerMessage::JoinGameRejected));
    assert_eq!(b.lobbies[9].games[0].members, vec![1, 2, 3, 4]);
}

#[test]
fn lobby_change_into_full_lobby_rejected() {
    let mut b = BlockService::new(1, 0);
    for id in 100..100 + LOBBY_CAPACITY {
        connect_and_place(&mut b, id, 5);
    }
    assert_eq!(b.lobbies[5].players.len(), LOBBY_CAPACITY);
    connect_and_place(&mut b, 1, 2);
    let fx = said(&mut b, 1, ClientMessage::LobbyChange(5));
    assert!(matches!(fx.sends[0].msg, ServerMessage::LobbyChangeRejected));
    assert_eq!(lobby_of(&b, 1), Some(2));
    assert_eq!(b.lobbies[5].players.len(), LOBBY_CAPACITY);
}

#[test]
fn lobby_change_out_of_range_rejected() {
    let mut b = BlockService::new(1, 0);
    connect_and_place(&mut b, 1, 2);
    let fx = said(&mut b, 1, ClientMessage::LobbyChange(15));
    assert!(matches!(fx.sends[0].msg, ServerMessage::LobbyChangeRejected));
    assert_eq!(lobby_of(&b, 1), Some(2));
}

#[test]
fn lobby_change_moves_client() {
    let mut b = BlockService::new(1, 0);
    connect_and_place(&mut b, 1, 2);
    connect_and_place(&mut b, 2, 6);
    let fx = said(&mut b, 1, ClientMessage::LobbyChange(6));
    assert_eq!(lobby_of(&b, 1), Some(6));
    assert!(b.lobbies[2].players.is_empty());
    assert_eq!(b.lobbies[6].players, vec![2, 1]);
    assert_eq!(fx.sends[1].to, vec![2]);
    assert!(matches!(fx.sends[1].msg, ServerMessage::PlayerJoined { lobby: 6, id: 1 }));
}

#[test]
fn lobby_change_to_own_lobby_does_nothing() {
    let mut b = BlockService::new(1, 0);
    connect_and_place(&mut b, 1, 2);
    let fx = said(&mut b, 1, ClientMessage::LobbyChange(2));
    assert!(fx.sends.is_empty());
    assert_eq!(b.lobbies[2].players, vec![1]);
}

#[test]
fn sessions_follow_connects_and_disconnects() {
    let mut b = BlockService::new(1, 0);
    let ids = |b: &BlockService| {
        let mut v: Vec<usize> = b.clients.iter().map(|c| c.connection_id).collect();
        v.sort();
        v
    };
    b.handle_event(Event::Connected(1));
    b.handle_event(Event::Connected(2));
    b.handle_event(Event::Connected(2));
    assert_eq!(ids(&b), vec![1, 2]);
    b.handle_event(Event::Disconnected(1));
    assert_eq!(ids(&b), vec![2]);
    b.handle_event(Event::Disconnected(9));
    assert_eq!(ids(&b), vec![2]);
    b.handle_event(Event::Connected(1));
    assert_eq!(ids(&b), vec![1, 2]);
}

#[test]
fn disconnect_leaves_no_placement() {
    let mut b = BlockService::new(1, 0);
    connect_and_place(&mut b, 1, 8);
    b.handle_event(Event::Disconnected(1));
    assert_eq!(lobby_of(&b, 1), None);
    assert!(b.clients.is_empty());
}

#[test]
fn unknown_message_ignored() {
    let mut b = BlockService::new(1, 0);
    connect_and_place(&mut b, 1, 0);
    let fx = said(&mut b, 1, ClientMessage::Other(0x1d));
    assert!(fx.sends.is_empty());
    assert!(fx.requests.is_empty());
    assert_eq!(b.lobbies[0].players, vec![1]);
}

#[test]
fn session_keys_have_key_length() {
    let k = idola_block::keys::session_key();
    assert_eq!(k.len(), KEY_LEN);
}

#[test]
fn lobby_remove_sole_member_dissolves_game() {
    let mut l = Lobby::new(3, 1, 0);
    l.add_player(1).unwrap();
    l.create_game(1, 10, vec![], 0, 0);
    assert_eq!(l.remove_player(1), Ok(()));
    assert!(l.games.is_empty());
    assert!(l.players.is_empty());
}

#[test]
fn lobby_remove_one_of_several_keeps_game() {
    let mut l = Lobby::new(3, 1, 0);
    l.add_player(1).unwrap();
    l.add_player(2).unwrap();
    l.add_player(3).unwrap();
    l.create_game(1, 10, b"g".to_vec(), 1, 2);
    assert_eq!(l.game_index(10), Some(0));
    l.join_game(2, 0).unwrap();
    l.join_game(3, 0).unwrap();
    assert_eq!(l.join_game(3, 0), Err(LobbyError::AlreadyPresent));
    assert_eq!(l.join_game(9, 0), Err(LobbyError::NotPresent));
    assert_eq!(l.remove_player(2), Ok(()));
    assert_eq!(l.games.len(), 1);
    assert_eq!(l.games[0].id, 10);
    assert_eq!(l.games[0].members, vec![1, 3]);
    assert_eq!(l.players, vec![1, 3]);
}

#[test]
fn lobby_errors() {
    let mut l = Lobby::new(0, 1, 0);
    assert_eq!(l.remove_player(5), Err(LobbyError::NotPresent));
    l.add_player(5).unwrap();
    assert_eq!(l.add_player(5), Err(LobbyError::AlreadyPresent));
    for id in 0..LOBBY_CAPACITY - 1 {
        l.add_player(100 + id).unwrap();
    }
    assert_eq!(l.add_player(7), Err(LobbyError::Full));
    assert!(l.is_full());
    assert!(l.has_player(5));
    assert_eq!(l.game_of(5), None);
}
