//! The block actor's state: the session table, the block's lobbies, and the
//! requests sent to the shipgate that still wait for their reply. Each event
//! is handled to completion by one call.
use vstd::prelude::*;
use crate::lobby::Lobby;
use crate::messages::{ClientMessage, ServerMessage, Outbound, AuthRequest, ShipgateReply, Event, Effects};
use crate::seqs::{without, lemma_without_absent, lemma_remove_keeps, lemma_remove_subset, lemma_remove_no_dup, lemma_push_no_dup};

verus! {

/// Number of lobbies of a block.
pub const NUM_LOBBIES: usize = 15;

/// Length of each of the two session keys sent on connect.
pub const KEY_LEN: usize = 48;

/// One connected client.
pub struct ClientState {
    pub connection_id: usize,
    pub account: Option<u32>,
    pub character: Option<Vec<u8>>,
}

/// What to do with a shipgate reply once it arrives.
#[derive(Debug, Clone, Copy, PartialEq, Eq, Structural)]
pub enum Continuation {
    Login,
}

/// A request sent to the shipgate whose reply has not come yet.
pub struct PendingRequest {
    pub key: u64,
    pub client: usize,
    pub then: Continuation,
}

pub struct BlockService {
    pub block_num: u16,
    pub event: u16,
    pub clients: Vec<ClientState>,
    pub lobbies: Vec<Lobby>,
    pub pending: Vec<PendingRequest>,
    pub next_key: u64,
    pub next_game: u32,
}

impl BlockService {
    /// Connection ids of the session table, in table order.
    pub open spec fn ids(self) -> Seq<usize> {
        self.clients@.map_values(|c: ClientState| c.connection_id)
    }

    pub open spec fn connected(self, id: usize) -> bool {
        self.ids().contains(id)
    }

    /// The key set of the session table.
    pub open spec fn session_ids(self) -> Set<usize> {
        Set::new(|id: usize| self.connected(id))
    }

    pub open spec fn placed(self, l: int, id: usize) -> bool {
        0 <= l < self.lobbies@.len() && self.lobbies@[l].occupied(id)
    }

    pub open spec fn placed_anywhere(self, id: usize) -> bool {
        exists|l: int| #[trigger] self.placed(l, id)
    }

    pub open spec fn sessions_wf(self) -> bool {
        self.ids().no_duplicates()
    }

    pub open spec fn lobbies_wf(self) -> bool {
        &&& self.lobbies@.len() == NUM_LOBBIES
        &&& forall|l: int| 0 <= l < NUM_LOBBIES ==> {
            &&& #[trigger] self.lobbies@[l].wf()
            &&& self.lobbies@[l].index == l
            &&& self.lobbies@[l].block_num == self.block_num
            &&& self.lobbies@[l].event == self.event
            &&& forall|g: int| 0 <= g < self.lobbies@[l].games@.len()
                ==> #[trigger] self.lobbies@[l].games@[g].id < self.next_game
        }
        &&& forall|l1: int, l2: int, id: usize|
            #[trigger] self.placed(l1, id) && #[trigger] self.placed(l2, id) ==> l1 == l2
        &&& forall|l: int, id: usize| #[trigger] self.placed(l, id) ==> self.connected(id)
    }

    pub open spec fn pending_wf(self) -> bool {
        &&& forall|p: int| 0 <= p < self.pending@.len() ==> #[trigger] self.pending@[p].key < self.next_key
        &&& forall|p: int, q: int|
            0 <= p < self.pending@.len() && 0 <= q < self.pending@.len() && p != q
                ==> #[trigger] self.pending@[p].key != #[trigger] self.pending@[q].key
    }

    pub open spec fn wf(self) -> bool {
        self.sessions_wf() && self.lobbies_wf() && self.pending_wf()
    }

    pub open spec fn has_pending(self, key: u64) -> bool {
        exists|p: int| 0 <= p < self.pending@.len() && #[trigger] self.pending@[p].key == key
    }

    /// A block with its lobbies and nobody connected.
    pub fn new(block_num: u16, event: u16) -> (r: BlockService)
        ensures
            r.wf(),
            r.block_num == block_num,
            r.event == event,
            r.clients@.len() == 0,
            r.session_ids() == Set::<usize>::empty(),
            r.pending@.len() == 0,
            forall|l: int| 0 <= l < NUM_LOBBIES ==> (#[trigger] r.lobbies@[l]).players@.len() == 0
                && r.lobbies@[l].games@.len() == 0,
    {
        let mut r = BlockService {
            block_num,
            event,
            clients: Vec::new(),
            lobbies: Vec::new(),
            pending: Vec::new(),
            next_key: 0,
            next_game: 0,
        };
        r.init_lobbies();
        assert(r.session_ids() =~= Set::<usize>::empty());
        r
    }

    fn init_lobbies(&mut self)
        requires
            old(self).lobbies@.len() == 0,
        ensures
            final(self).block_num == old(self).block_num,
            final(self).event == old(self).event,
            final(self).clients == old(self).clients,
            final(self).pending == old(self).pending,
            final(self).next_key == old(self).next_key,
            final(self).next_game == old(self).next_game,
            final(self).lobbies@.len() == NUM_LOBBIES,
            forall|l: int| 0 <= l < NUM_LOBBIES ==> {
                &&& (#[trigger] final(self).lobbies@[l]).wf()
                &&& final(self).lobbies@[l].index == l
                &&& final(self).lobbies@[l].block_num == final(self).block_num
                &&& final(self).lobbies@[l].event == final(self).event
                &&& final(self).lobbies@[l].players@.len() == 0
                &&& final(self).lobbies@[l].games@.len() == 0
            },
    {
        let mut i: usize = 0;
        while i < NUM_LOBBIES
            invariant
                i <= NUM_LOBBIES,
                self.block_num == old(self).block_num,
                self.event == old(self).event,
                self.clients == old(self).clients,
                self.pending == old(self).pending,
                self.next_key == old(self).next_key,
                self.next_game == old(self).next_game,
                self.lobbies@.len() == i,
                forall|l: int| 0 <= l < i ==> {
                    &&& (#[trigger] self.lobbies@[l]).wf()
                    &&& self.lobbies@[l].index == l
                    &&& self.lobbies@[l].block_num == self.block_num
                    &&& self.lobbies@[l].event == self.event
                    &&& self.lobbies@[l].players@.len() == 0
                    &&& self.lobbies@[l].games@.len() == 0
                },
            decreases NUM_LOBBIES - i,
        {
            let lobby = Lobby::new(i, self.block_num, self.event);
            self.lobbies.push(lobby);
            i = i + 1;
        }
    }

    /// Position of `id` in the session table.
    pub fn find_client(&self, id: usize) -> (r: Option<usize>)
        ensures
            match r {
                Some(c) => c < self.clients@.len() && self.clients@[c as int].connection_id == id,
                None => !self.connected(id),
            },
    {
        let mut c: usize = 0;
        while c < self.clients.len()
            invariant
                c <= self.clients@.len(),
                forall|k: int| 0 <= k < c ==> self.clients@[k].connection_id != id,
            decreases self.clients@.len() - c,
        {
            if self.clients[c].connection_id == id {
                return Some(c);
            }
            c = c + 1;
        }
        assert forall|k: int| 0 <= k < self.ids().len() implies self.ids()[k] != id by {
            assert(self.ids()[k] == self.clients@[k].connection_id);
        }
        None
    }

    /// The lobby `id` occupies.
    pub fn lobby_of(&self, id: usize) -> (r: Option<usize>)
        requires
            self.lobbies_wf(),
        ensures
            match r {
                Some(l) => self.placed(l as int, id),
                None => !self.placed_anywhere(id),
            },
    {
        let mut l: usize = 0;
        while l < self.lobbies.len()
            invariant
                l <= self.lobbies@.len(),
                forall|k: int| 0 <= k < l ==> !#[trigger] self.placed(k, id),
            decreases self.lobbies@.len() - l,
        {
            if self.lobbies[l].has_player(id) {
                return Some(l);
            }
            l = l + 1;
        }
        None
    }

    /// Replacing lobby `l` keeps the lobby invariants when its new occupants
    /// are old ones, or `x` coming from nowhere.
    proof fn lemma_lobby_replaced(before: BlockService, after: BlockService, l: int, x: usize)
        requires
            before.lobbies_wf(),
            0 <= l < NUM_LOBBIES,
            after.block_num == before.block_num,
            after.event == before.event,
            after.next_game >= before.next_game,
            after.ids() == before.ids(),
            after.lobbies@ == before.lobbies@.update(l, after.lobbies@[l]),
            after.lobbies@[l].wf(),
            after.lobbies@[l].same_place(before.lobbies@[l]),
            forall|g: int| 0 <= g < after.lobbies@[l].games@.len()
                ==> #[trigger] after.lobbies@[l].games@[g].id < after.next_game,
            forall|id: usize| #[trigger] after.lobbies@[l].occupied(id)
                ==> before.lobbies@[l].occupied(id)
                    || (id == x && before.connected(x) && !before.placed_anywhere(x)),
        ensures
            after.lobbies_wf(),
    {
        assert forall|k: int| 0 <= k < NUM_LOBBIES implies {
            &&& #[trigger] after.lobbies@[k].wf()
            &&& after.lobbies@[k].index == k
            &&& after.lobbies@[k].block_num == after.block_num
            &&& after.lobbies@[k].event == after.event
            &&& forall|g: int| 0 <= g < after.lobbies@[k].games@.len()
                ==> #[trigger] after.lobbies@[k].games@[g].id < after.next_game
        } by {
            assert(before.lobbies@[k].wf());
            if k != l {
                assert forall|g: int| 0 <= g < after.lobbies@[k].games@.len()
                    implies #[trigger] after.lobbies@[k].games@[g].id < after.next_game by {
                    assert(before.lobbies@[k].games@[g].id < before.next_game);
                }
            }
        }
        assert forall|l1: int, l2: int, id: usize|
            #[trigger] after.placed(l1, id) && #[trigger] after.placed(l2, id) implies l1 == l2 by {
            if l1 == l && !before.lobbies@[l].occupied(id) {
                if l2 != l {
                    assert(before.placed(l2, id));
                }
            } else if l2 == l && !before.lobbies@[l].occupied(id) {
                if l1 != l {
                    assert(before.placed(l1, id));
                }
            } else {
                assert(before.placed(l1, id) && before.placed(l2, id));
            }
        }
        assert forall|k: int, id: usize| #[trigger] after.placed(k, id) implies after.connected(id) by {
            if k != l || before.lobbies@[l].occupied(id) {
                assert(before.placed(k, id));
            }
        }
    }

    /// The lobby invariants survive a change of the session table that keeps
    /// every placed client.
    proof fn lemma_lobbies_kept(before: BlockService, after: BlockService)
        requires
            before.lobbies_wf(),
            after.lobbies == before.lobbies,
            after.block_num == before.block_num,
            after.event == before.event,
            after.next_game == before.next_game,
            forall|l: int, id: usize| #[trigger] before.placed(l, id) ==> after.connected(id),
        ensures
            after.lobbies_wf(),
    {
        assert forall|k: int| 0 <= k < NUM_LOBBIES implies {
            &&& #[trigger] after.lobbies@[k].wf()
            &&& after.lobbies@[k].index == k
            &&& after.lobbies@[k].block_num == after.block_num
            &&& after.lobbies@[k].event == after.event
            &&& forall|g: int| 0 <= g < after.lobbies@[k].games@.len()
                ==> #[trigger] after.lobbies@[k].games@[g].id < after.next_game
        } by {
            assert(before.lobbies@[k].wf());
        }
        assert forall|l1: int, l2: int, m: usize|
            #[trigger] after.placed(l1, m) && #[trigger] after.placed(l2, m) implies l1 == l2 by {
            assert(before.placed(l1, m) && before.placed(l2, m));
        }
        assert forall|l: int, m: usize| #[trigger] after.placed(l, m) implies after.connected(m) by {
            assert(before.placed(l, m));
        }
    }

    /// A new client gets an empty session and the welcome message with its
    /// two session keys.
    pub fn on_connect(&mut self, id: usize, server_key: Vec<u8>, client_key: Vec<u8>) -> (r: Effects)
        requires
            old(self).wf(),
        ensures
            final(self).wf(),
            final(self).session_ids() == old(self).session_ids().insert(id),
            final(self).lobbies == old(self).lobbies,
            final(self).pending == old(self).pending,
            final(self).next_key == old(self).next_key,
            final(self).next_game == old(self).next_game,
            final(self).block_num == old(self).block_num,
            final(self).event == old(self).event,
            old(self).connected(id) ==> final(self).clients == old(self).clients && r.sends@.len() == 0,
            !old(self).connected(id) ==> {
                &&& final(self).clients@ == old(self).clients@.push(
                    ClientState { connection_id: id, account: None, character: None },
                )
                &&& r.sends@.len() == 1
                &&& r.sends@[0].to@ == seq![id]
                &&& r.sends@[0].msg == (ServerMessage::Welcome { server_key, client_key })
            },
            r.requests@.len() == 0,
    {
        let ghost before = *self;
        if let Some(c) = self.find_client(id) {
            assert(self.ids()[c as int] == id);
            assert(self.session_ids() =~= before.session_ids().insert(id));
            return Effects::none();
        }
        proof {
            lemma_push_no_dup(self.ids(), id);
        }
        self.clients.push(ClientState { connection_id: id, account: None, character: None });
        assert(self.ids() =~= before.ids().push(id));
        assert forall|l: int, m: usize| #[trigger] before.placed(l, m) implies self.connected(m) by {
            let k = choose|k: int| 0 <= k < before.ids().len() && before.ids()[k] == m;
            assert(self.ids()[k] == m);
        }
        proof {
            BlockService::lemma_lobbies_kept(before, *self);
        }
        assert forall|x: usize| #[trigger] self.session_ids().contains(x) <==> before.session_ids().insert(id).contains(x) by {
            if x != id && self.connected(x) {
                let k = choose|k: int| 0 <= k < self.ids().len() && self.ids()[k] == x;
                assert(before.ids()[k] == x);
            }
            if before.connected(x) {
                let k = choose|k: int| 0 <= k < before.ids().len() && before.ids()[k] == x;
                assert(self.ids()[k] == x);
            }
            if x == id {
                assert(self.ids()[before.ids().len() as int] == id);
            }
        }
        assert(self.session_ids() =~= before.session_ids().insert(id));
        assert(self.sessions_wf());
        assert(self.lobbies_wf());
        assert(self.pending_wf());
        Effects::to_one(id, ServerMessage::Welcome { server_key, client_key })
    }

    /// Takes `id` out of whichever lobby it occupies, and out of its game.
    pub fn leave_lobbies(&mut self, id: usize)
        requires
            old(self).wf(),
        ensures
            final(self).wf(),
            BlockService::left_all(*old(self), *final(self), id),
    {
        let ghost before = *self;
        match self.lobby_of(id) {
            Some(l) => {
                let mut lobby = self.lobbies.remove(l);
                assert(lobby == before.lobbies@[l as int]);
                assert(lobby.wf());
                let _ = lobby.remove_player(id);
                self.lobbies.insert(l, lobby);
                assert(self.lobbies@ =~= before.lobbies@.update(l as int, lobby));
                proof {
                    assert forall|m: usize| #[trigger] lobby.occupied(m)
                        implies before.lobbies@[l as int].occupied(m) by {
                        let i = choose|i: int| 0 <= i < before.lobbies@[l as int].players@.len()
                            && before.lobbies@[l as int].players@[i] == id
                            && lobby.players@ == before.lobbies@[l as int].players@.remove(i);
                        lemma_remove_subset(before.lobbies@[l as int].players@, i, m);
                    }
                    assert forall|g: int| 0 <= g < lobby.games@.len()
                        implies #[trigger] lobby.games@[g].id < self.next_game by {
                        let bl = before.lobbies@[l as int];
                        if bl.playing(id) {
                            let g0 = choose|g0: int| #[trigger] bl.in_game(g0, id);
                            assert(Lobby::left_game(bl.games@, lobby.games@, g0, id));
                            if bl.games@[g0].members@.len() == 1 {
                                let g2 = if g < g0 { g } else { g + 1 };
                                assert(lobby.games@[g] == bl.games@[g2]);
                                assert(bl.games@[g2].id < before.next_game);
                            } else if g == g0 {
                                assert(bl.games@[g].id < before.next_game);
                            } else {
                                assert(bl.games@[g].id < before.next_game);
                            }
                        } else {
                            assert(bl.games@[g].id < before.next_game);
                        }
                    }
                    BlockService::lemma_lobby_replaced(before, *self, l as int, id);
                    assert forall|k: int| !#[trigger] self.placed(k, id) by {
                        if k != l && self.placed(k, id) {
                            assert(before.placed(k, id));
                            assert(before.placed(l as int, id));
                        }
                    }
                    assert forall|k: int| #[trigger] before.placed(k, id)
                        implies Lobby::left(before.lobbies@[k], self.lobbies@[k], id) by {
                        assert(before.placed(l as int, id));
                    }
                }
            },
            None => {
                assert forall|k: int| !#[trigger] self.placed(k, id) by {}
            },
        }
    }

    /// A client that went away leaves its lobby and game, then the session
    /// table. Its pending shipgate requests stay, orphaned.
    pub fn on_disconnect(&mut self, id: usize)
        requires
            old(self).wf(),
        ensures
            final(self).wf(),
            BlockService::disconnect_done(*old(self), *final(self), id),
    {
        let ghost before = *self;
        self.leave_lobbies(id);
        let ghost mid = *self;
        match self.find_client(id) {
            Some(c) => {
                proof {
                    lemma_remove_no_dup(self.ids(), c as int);
                    assert(self.ids()[c as int] == id);
                }
                self.clients.remove(c);
                assert(self.ids() =~= mid.ids().remove(c as int));
                assert forall|l: int, m: usize| #[trigger] mid.placed(l, m) implies self.connected(m) by {
                    assert(!mid.placed(l, id));
                    lemma_remove_keeps(mid.ids(), c as int, m);
                }
                proof {
                    BlockService::lemma_lobbies_kept(mid, *self);
                }
                assert forall|x: usize| #[trigger] self.session_ids().contains(x)
                    <==> before.session_ids().remove(id).contains(x) by {
                    if self.connected(x) {
                        lemma_remove_subset(mid.ids(), c as int, x);
                    }
                    if x != id && before.connected(x) {
                        lemma_remove_keeps(mid.ids(), c as int, x);
                    }
                }
                assert(self.session_ids() =~= before.session_ids().remove(id));
                assert(self.sessions_wf());
                assert(self.lobbies_wf());
                assert(self.pending_wf());
            },
            None => {
                assert(self.session_ids() =~= before.session_ids().remove(id));
            },
        }
    }

    /// Position of the pending request with correlation key `key`.
    pub fn find_pending(&self, key: u64) -> (r: Option<usize>)
        ensures
            match r {
                Some(p) => p < self.pending@.len() && self.pending@[p as int].key == key,
                None => !self.has_pending(key),
            },
    {
        let mut p: usize = 0;
        while p < self.pending.len()
            invariant
                p <= self.pending@.len(),
                forall|k: int| 0 <= k < p ==> self.pending@[k].key != key,
            decreases self.pending@.len() - p,
        {
            if self.pending[p].key == key {
                return Some(p);
            }
            p = p + 1;
        }
        None
    }

    /// A login: an empty user name is refused at once; any other goes to the
    /// shipgate under a fresh correlation key, remembered until the reply.
    pub fn on_login(&mut self, id: usize, username: Vec<u8>, password: Vec<u8>) -> (r: Effects)
        requires
            old(self).wf(),
        ensures
            final(self).wf(),
            BlockService::login_done(*old(self), *final(self), id, username, password, r),
    {
        let ghost before = *self;
        match self.find_client(id) {
            None => {
                return Effects::none();
            },
            Some(c) => {
                assert(self.ids()[c as int] == id);
            },
        }
        if username.len() == 0 || self.next_key == u64::MAX {
            return Effects::to_one(id, ServerMessage::LoginRejected);
        }
        let key = self.next_key;
        self.pending.push(PendingRequest { key, client: id, then: Continuation::Login });
        self.next_key = key + 1;
        assert forall|p: int, q: int|
            0 <= p < self.pending@.len() && 0 <= q < self.pending@.len() && p != q
            implies #[trigger] self.pending@[p].key != #[trigger] self.pending@[q].key by {
            if p < before.pending@.len() && q < before.pending@.len() {
                assert(before.pending@[p].key != before.pending@[q].key);
            } else if p < before.pending@.len() {
                assert(before.pending@[p].key < key);
            } else {
                assert(before.pending@[q].key < key);
            }
        }
        assert forall|p: int| 0 <= p < self.pending@.len() implies #[trigger] self.pending@[p].key < self.next_key by {
            if p < before.pending@.len() {
                assert(before.pending@[p].key < key);
            }
        }
        proof {
            BlockService::lemma_lobbies_kept(before, *self);
        }
        let mut requests: Vec<AuthRequest> = Vec::new();
        requests.push(AuthRequest { key, username, password });
        assert(requests@ =~= seq![AuthRequest { key: before.next_key, username, password }]);
        Effects { sends: Vec::new(), requests }
    }

    /// A shipgate reply finds its pending request by correlation key and
    /// completes it; a reply that matches none changes nothing.
    pub fn on_shipgate_reply(&mut self, reply: ShipgateReply) -> (r: Effects)
        requires
            old(self).wf(),
        ensures
            final(self).wf(),
            BlockService::reply_done(*old(self), *final(self), reply, r),
    {
        let ghost before = *self;
        let p = match self.find_pending(reply.key) {
            Some(p) => p,
            None => {
                return Effects::none();
            },
        };
        let req = self.pending.remove(p);
        assert(req == before.pending@[p as int]);
        assert forall|a: int, b: int|
            0 <= a < self.pending@.len() && 0 <= b < self.pending@.len() && a != b
            implies #[trigger] self.pending@[a].key != #[trigger] self.pending@[b].key by {
            let a2 = if a < p { a } else { a + 1 };
            let b2 = if b < p { b } else { b + 1 };
            assert(self.pending@[a] == before.pending@[a2] && self.pending@[b] == before.pending@[b2]);
        }
        assert forall|a: int| 0 <= a < self.pending@.len() implies #[trigger] self.pending@[a].key < self.next_key by {
            let a2 = if a < p { a } else { a + 1 };
            assert(self.pending@[a] == before.pending@[a2]);
        }
        let mid = Ghost(*self);
        let r = match self.find_client(req.client) {
            None => Effects::none(),
            Some(c) => {
                assert(self.ids()[c as int] == req.client);
                match reply.account {
                    Some(a) => {
                        let mut cs = self.clients.remove(c);
                        cs.account = Some(a);
                        self.clients.insert(c, cs);
                        assert(self.clients@ =~= before.clients@.update(c as int, cs));
                        assert(self.ids() =~= mid@.ids());
                        let r = Effects::to_one(req.client, ServerMessage::ProceedToCharSelect);
                        assert(BlockService::login_completed(before, *self, req.client, reply.account, r));
                        r
                    },
                    None => Effects::to_one(req.client, ServerMessage::LoginRejected),
                }
            },
        };
        assert(self.ids() =~= before.ids());
        assert(self.session_ids() =~= before.session_ids());
        assert(BlockService::login_completed(before, *self, req.client, reply.account, r));
        proof {
            BlockService::lemma_lobbies_kept(before, *self);
        }
        r
    }

    /// What completing a login for `cid` with the shipgate's answer `account`
    /// did: nothing for a client that is gone; else the account is recorded
    /// and the client sent on to character selection, or the login refused.
    pub open spec fn login_completed(
        before: BlockService,
        after: BlockService,
        cid: usize,
        account: Option<u32>,
        r: Effects,
    ) -> bool {
        if !before.connected(cid) {
            after.clients == before.clients && r.sends@.len() == 0
        } else {
            match account {
                Some(a) => exists|c: int|
                    0 <= c < before.clients@.len() && before.clients@[c].connection_id == cid
                        && after.clients@ == before.clients@.update(
                        c,
                        ClientState {
                            connection_id: cid,
                            account: Some(a),
                            character: before.clients@[c].character,
                        },
                    ) && r.sends@.len() == 1 && r.sends@[0].to@ == seq![cid]
                        && r.sends@[0].msg == ServerMessage::ProceedToCharSelect,
                None => after.clients == before.clients && r.sends@.len() == 1
                    && r.sends@[0].to@ == seq![cid] && r.sends@[0].msg == ServerMessage::LoginRejected,
            }
        }
    }

    /// The lobby `id` occupies, where it occupies one.
    pub open spec fn lobby_index(self, id: usize) -> int {
        choose|l: int| #[trigger] self.placed(l, id)
    }

    /// Gives `id`, placed nowhere, a slot in lobby `t`: it gets the lobby's
    /// roster, and the occupants already there hear that it joined.
    fn join(&mut self, id: usize, t: usize) -> (r: Effects)
        requires
            old(self).wf(),
            old(self).connected(id),
            !old(self).placed_anywhere(id),
            t < NUM_LOBBIES,
            old(self).lobbies@[t as int].players@.len() < crate::lobby::LOBBY_CAPACITY,
        ensures
            final(self).wf(),
            BlockService::joined(*old(self), *final(self), id, t as int, r),
    {
        let ghost before = *self;
        let mut lobby = self.lobbies.remove(t);
        assert(lobby == before.lobbies@[t as int]);
        assert(lobby.wf());
        assert(!lobby.occupied(id)) by {
            assert(!before.placed(t as int, id));
        }
        let others = crate::seqs::copy_without(&lobby.players, id);
        let _ = lobby.add_player(id);
        let roster = crate::seqs::copy_all(&lobby.players);
        self.lobbies.insert(t, lobby);
        assert(self.lobbies@ =~= before.lobbies@.update(t as int, lobby));
        proof {
            assert forall|g: int| 0 <= g < lobby.games@.len()
                implies #[trigger] lobby.games@[g].id < self.next_game by {
                assert(before.lobbies@[t as int].games@[g].id < before.next_game);
            }
            assert forall|m: usize| #[trigger] lobby.occupied(m)
                implies before.lobbies@[t as int].occupied(m) || (m == id && before.connected(id)
                && !before.placed_anywhere(id)) by {
                if m != id {
                    let k = choose|k: int| 0 <= k < lobby.players@.len() && lobby.players@[k] == m;
                    assert(before.lobbies@[t as int].players@[k] == m);
                }
            }
            BlockService::lemma_lobby_replaced(before, *self, t as int, id);
            lemma_without_absent(before.lobbies@[t as int].players@, id);
        }
        let mut sends: Vec<Outbound> = Vec::new();
        let mut me: Vec<usize> = Vec::new();
        me.push(id);
        sends.push(Outbound { to: me, msg: ServerMessage::LobbyRoster { lobby: t, players: roster } });
        sends.push(Outbound { to: others, msg: ServerMessage::PlayerJoined { lobby: t, id } });
        Effects { sends, requests: Vec::new() }
    }

    /// What `join` did: `id` took the last slot of lobby `t`, nothing else
    /// moved, and two messages went out.
    pub open spec fn joined(before: BlockService, after: BlockService, id: usize, t: int, r: Effects) -> bool {
        &&& after.clients == before.clients
        &&& after.pending == before.pending
        &&& after.next_key == before.next_key
        &&& after.next_game == before.next_game
        &&& after.block_num == before.block_num
        &&& after.event == before.event
        &&& after.lobbies@.len() == NUM_LOBBIES
        &&& forall|k: int| 0 <= k < NUM_LOBBIES && k != t ==> #[trigger] after.lobbies@[k] == before.lobbies@[k]
        &&& after.lobbies@[t].same_place(before.lobbies@[t])
        &&& after.lobbies@[t].games@ == before.lobbies@[t].games@
        &&& after.lobbies@[t].players@ == before.lobbies@[t].players@.push(id)
        &&& r.requests@.len() == 0
        &&& r.sends@.len() == 2
        &&& r.sends@[0].to@ == seq![id]
        &&& (match r.sends@[0].msg {
            ServerMessage::LobbyRoster { lobby, players } => lobby == t
                && players@ == after.lobbies@[t].players@,
            _ => false,
        })
        &&& r.sends@[1].to@ == before.lobbies@[t].players@
        &&& r.sends@[1].msg == (ServerMessage::PlayerJoined { lobby: t as usize, id })
    }

    /// Index of the first lobby with a free slot.
    pub fn first_open_lobby(&self) -> (r: Option<usize>)
        requires
            self.lobbies_wf(),
        ensures
            match r {
                Some(l) => l < NUM_LOBBIES && self.lobbies@[l as int].players@.len()
                    < crate::lobby::LOBBY_CAPACITY && forall|k: int| 0 <= k < l
                    ==> (#[trigger] self.lobbies@[k]).players@.len() >= crate::lobby::LOBBY_CAPACITY,
                None => forall|k: int| 0 <= k < NUM_LOBBIES
                    ==> (#[trigger] self.lobbies@[k]).players@.len() >= crate::lobby::LOBBY_CAPACITY,
            },
    {
        let mut l: usize = 0;
        while l < NUM_LOBBIES
            invariant
                l <= NUM_LOBBIES,
                self.lobbies@.len() == NUM_LOBBIES,
                forall|k: int| 0 <= k < l
                    ==> (#[trigger] self.lobbies@[k]).players@.len() >= crate::lobby::LOBBY_CAPACITY,
            decreases NUM_LOBBIES - l,
        {
            if !self.lobbies[l].is_full() {
                return Some(l);
            }
            l = l + 1;
        }
        None
    }

    /// The chosen character is stored; a client placed nowhere then gets a
    /// slot in the first lobby with room, if any has room.
    pub fn on_char_data(&mut self, id: usize, data: Vec<u8>) -> (r: Effects)
        requires
            old(self).wf(),
        ensures
            final(self).wf(),
            BlockService::char_data_done(*old(self), *final(self), id, data, r),
    {
        let ghost before = *self;
        let c = match self.find_client(id) {
            Some(c) => c,
            None => {
                assert(self.session_ids() =~= before.session_ids());
                return Effects::none();
            },
        };
        assert(self.ids()[c as int] == id);
        let mut cs = self.clients.remove(c);
        cs.character = Some(data);
        self.clients.insert(c, cs);
        assert(self.clients@ =~= before.clients@.update(c as int, cs));
        assert(self.ids() =~= before.ids());
        assert(self.session_ids() =~= before.session_ids());
        assert forall|l: int, m: usize| #[trigger] before.placed(l, m) implies self.connected(m) by {}
        proof {
            BlockService::lemma_lobbies_kept(before, *self);
        }
        let ghost stored = *self;
        assert(BlockService::character_stored(before, stored, id, data@));
        if let Some(l) = self.lobby_of(id) {
            assert(before.placed(l as int, id));
            return Effects::none();
        }
        match self.first_open_lobby() {
            None => Effects::none(),
            Some(t) => {
                assert(self.connected(id));
                assert(!before.placed_anywhere(id)) by {
                    assert forall|l: int| !#[trigger] before.placed(l, id) by {
                        if before.placed(l, id) {
                            assert(stored.placed(l, id));
                        }
                    }
                }
                assert(before.lobbies@[t as int].players@.len() < crate::lobby::LOBBY_CAPACITY);
                let r = self.join(id, t);
                assert(BlockService::joined(stored, *self, id, t as int, r));
                r
            },
        }
    }

    /// `after` is `before` with `data` stored as the character of `id`.
    pub open spec fn character_stored(before: BlockService, after: BlockService, id: usize, data: Seq<u8>) -> bool {
        &&& exists|c: int|
            0 <= c < before.clients@.len() && before.clients@[c].connection_id == id
                && after.clients@.len() == before.clients@.len()
                && (forall|k: int| 0 <= k < before.clients@.len() && k != c
                    ==> #[trigger] after.clients@[k] == before.clients@[k])
                && after.clients@[c].connection_id == id
                && after.clients@[c].account == before.clients@[c].account
                && (match after.clients@[c].character {
                    Some(ch) => ch@ == data,
                    None => false,
                })
        &&& after.lobbies == before.lobbies
        &&& after.pending == before.pending
        &&& after.next_key == before.next_key
        &&& after.next_game == before.next_game
        &&& after.block_num == before.block_num
        &&& after.event == before.event
    }

    /// Moves `id` to lobby `target`: out of its present lobby and game, then
    /// into a slot of the target. A target that does not exist or is full is
    /// refused, and nothing moves.
    pub fn on_lobby_change(&mut self, id: usize, target: u32) -> (r: Effects)
        requires
            old(self).wf(),
        ensures
            final(self).wf(),
            BlockService::lobby_change_done(*old(self), *final(self), id, target, r),
    {
        let ghost before = *self;
        match self.find_client(id) {
            None => {
                return Effects::none();
            },
            Some(c) => {
                assert(self.ids()[c as int] == id);
            },
        }
        if target as usize >= NUM_LOBBIES {
            return Effects::to_one(id, ServerMessage::LobbyChangeRejected);
        }
        let t = target as usize;
        if self.lobbies[t].has_player(id) {
            return Effects::none();
        }
        if self.lobbies[t].is_full() {
            return Effects::to_one(id, ServerMessage::LobbyChangeRejected);
        }
        self.leave_lobbies(id);
        let ghost mid = *self;
        assert(self.session_ids() =~= before.session_ids());
        assert(self.lobbies@[t as int] == before.lobbies@[t as int]);
        let r = self.join(id, t);
        assert(BlockService::left_all(before, mid, id));
        r
    }

    /// What `leave_lobbies` did: `id` left the one lobby it occupied, if any,
    /// and nothing else moved.
    pub open spec fn left_all(before: BlockService, after: BlockService, id: usize) -> bool {
        &&& after.ids() == before.ids()
        &&& after.clients == before.clients
        &&& !after.placed_anywhere(id)
        &&& forall|l: int| #[trigger] before.placed(l, id)
            ==> Lobby::left(before.lobbies@[l], after.lobbies@[l], id)
        &&& forall|l: int| 0 <= l < NUM_LOBBIES && !before.placed(l, id)
            ==> #[trigger] after.lobbies@[l] == before.lobbies@[l]
        &&& after.lobbies@.len() == NUM_LOBBIES
        &&& after.pending == before.pending
        &&& after.next_key == before.next_key
        &&& after.next_game == before.next_game
        &&& after.block_num == before.block_num
        &&& after.event == before.event
    }

    /// Who hears what `id` says: its game's other members, or else its
    /// lobby's other occupants; nobody when it is placed nowhere.
    pub open spec fn listeners(self, id: usize) -> Seq<usize> {
        if self.placed_anywhere(id) {
            self.lobbies@[self.lobby_index(id)].audience(id)
        } else {
            Seq::empty()
        }
    }

    fn listeners_of(&self, id: usize) -> (r: Option<Vec<usize>>)
        requires
            self.lobbies_wf(),
        ensures
            match r {
                Some(v) => self.placed_anywhere(id) && v@ == self.listeners(id),
                None => !self.placed_anywhere(id),
            },
    {
        match self.lobby_of(id) {
            None => None,
            Some(l) => {
                let ghost c = self.lobby_index(id);
                assert(self.placed(c, id));
                assert(c == l);
                assert(self.lobbies@[l as int].wf());
                Some(self.lobbies[l].audience_of(id))
            },
        }
    }

    /// A chat line goes to everyone who hears `id`, never back to `id`.
    pub fn on_chat(&self, id: usize, text: Vec<u8>) -> (r: Effects)
        requires
            self.wf(),
        ensures
            BlockService::chat_done(*self, id, text, r),
    {
        match self.listeners_of(id) {
            None => Effects::none(),
            Some(to) => {
                let mut sends: Vec<Outbound> = Vec::new();
                sends.push(Outbound { to, msg: ServerMessage::ChatRelay { from: id, text } });
                Effects { sends, requests: Vec::new() }
            },
        }
    }

    /// A game sub-command is relayed like a chat line.
    pub fn on_subcmd_60(&self, id: usize, data: Vec<u8>) -> (r: Effects)
        requires
            self.wf(),
        ensures
            BlockService::subcmd_done(*self, id, data, r),
    {
        match self.listeners_of(id) {
            None => Effects::none(),
            Some(to) => {
                let mut sends: Vec<Outbound> = Vec::new();
                sends.push(Outbound { to, msg: ServerMessage::SubCmdRelay { from: id, data } });
                Effects { sends, requests: Vec::new() }
            },
        }
    }

    /// Can `id` open a game: it occupies a lobby, is in no game there, and a
    /// game id is left.
    pub open spec fn can_create_game(self, id: usize) -> bool {
        &&& self.placed_anywhere(id)
        &&& !self.lobbies@[self.lobby_index(id)].playing(id)
        &&& self.next_game < u32::MAX
    }

    /// Opens a game in the lobby of `id`, with `id` as its sole member; the
    /// other occupants of the lobby hear of it.
    pub fn on_create_game(&mut self, id: usize, name: Vec<u8>, difficulty: u8, mode: u8) -> (r: Effects)
        requires
            old(self).wf(),
        ensures
            final(self).wf(),
            BlockService::create_game_done(*old(self), *final(self), id, name, difficulty, mode, r),
    {
        let ghost before = *self;
        let l = match self.lobby_of(id) {
            None => {
                return Effects::to_one(id, ServerMessage::CreateGameRejected);
            },
            Some(l) => l,
        };
        let ghost c = self.lobby_index(id);
        assert(self.placed(c, id));
        assert(c == l);
        assert(self.lobbies@[l as int].wf());
        if self.lobbies[l].game_of(id).is_some() || self.next_game == u32::MAX {
            return Effects::to_one(id, ServerMessage::CreateGameRejected);
        }
        let gid = self.next_game;
        let mut lobby = self.lobbies.remove(l);
        assert(lobby == before.lobbies@[l as int]);
        assert(!lobby.has_game_id(gid)) by {
            if lobby.has_game_id(gid) {
                let g = choose|g: int| 0 <= g < lobby.games@.len() && #[trigger] lobby.games@[g].id == gid;
                assert(before.lobbies@[l as int].games@[g].id < before.next_game);
            }
        }
        let others = crate::seqs::copy_without(&lobby.players, id);
        lobby.create_game(id, gid, name, difficulty, mode);
        self.lobbies.insert(l, lobby);
        self.next_game = gid + 1;
        assert(self.lobbies@ =~= before.lobbies@.update(l as int, lobby));
        proof {
            assert forall|g: int| 0 <= g < lobby.games@.len()
                implies #[trigger] lobby.games@[g].id < self.next_game by {
                if g < lobby.games@.len() - 1 {
                    assert(lobby.games@[g] == lobby.games@.drop_last()[g]);
                    assert(before.lobbies@[l as int].games@[g].id < before.next_game);
                }
            }
            BlockService::lemma_lobby_replaced(before, *self, l as int, id);
        }
        let mut sends: Vec<Outbound> = Vec::new();
        let mut me: Vec<usize> = Vec::new();
        me.push(id);
        sends.push(Outbound { to: me, msg: ServerMessage::GameCreated { game: gid } });
        sends.push(Outbound { to: others, msg: ServerMessage::GameListed { lobby: l, game: gid } });
        Effects { sends, requests: Vec::new() }
    }

    /// Can `id` join game `gid`: it occupies a lobby, is in no game there,
    /// and the lobby has a game `gid` with room.
    pub open spec fn can_join_game(self, id: usize, gid: u32) -> bool {
        let lobby = self.lobbies@[self.lobby_index(id)];
        &&& self.placed_anywhere(id)
        &&& !lobby.playing(id)
        &&& exists|g: int| 0 <= g < lobby.games@.len() && #[trigger] lobby.games@[g].id == gid
            && lobby.games@[g].members@.len() < crate::lobby::GAME_CAPACITY
    }

    /// Adds `id` to game `gid` of its lobby; it gets the member list.
    pub fn on_join_game(&mut self, id: usize, gid: u32) -> (r: Effects)
        requires
            old(self).wf(),
        ensures
            final(self).wf(),
            BlockService::join_game_done(*old(self), *final(self), id, gid, r),
    {
        let ghost before = *self;
        let l = match self.lobby_of(id) {
            None => {
                return Effects::to_one(id, ServerMessage::JoinGameRejected);
            },
            Some(l) => l,
        };
        let ghost c = self.lobby_index(id);
        assert(self.placed(c, id));
        assert(c == l);
        assert(self.lobbies@[l as int].wf());
        let g = match self.lobbies[l].game_index(gid) {
            None => {
                return Effects::to_one(id, ServerMessage::JoinGameRejected);
            },
            Some(g) => g,
        };
        proof {
            let lb = before.lobbies@[l as int];
            assert forall|g2: int| 0 <= g2 < lb.games@.len() && #[trigger] lb.games@[g2].id == gid
                implies g2 == g as int by {
                if g2 != g as int {
                    assert(lb.games@[g2].id != lb.games@[g as int].id);
                }
            }
        }
        if self.lobbies[l].game_of(id).is_some() || self.lobbies[l].games[g].members.len()
            >= crate::lobby::GAME_CAPACITY {
            return Effects::to_one(id, ServerMessage::JoinGameRejected);
        }
        let mut lobby = self.lobbies.remove(l);
        assert(lobby == before.lobbies@[l as int]);
        let _ = lobby.join_game(id, g);
        let members = crate::seqs::copy_all(&lobby.games[g].members);
        self.lobbies.insert(l, lobby);
        assert(self.lobbies@ =~= before.lobbies@.update(l as int, lobby));
        proof {
            let lb = before.lobbies@[l as int];
            assert forall|k: int| 0 <= k < lobby.games@.len()
                implies #[trigger] lobby.games@[k].id < self.next_game by {
                assert(lb.games@[k].id < before.next_game);
            }
            BlockService::lemma_lobby_replaced(before, *self, l as int, id);
        }
        let r = Effects::to_one(id, ServerMessage::GameJoined { game: gid, members });
        assert(before.lobbies@[l as int].games@[g as int].id == gid);
        r
    }

    /// The id of the game `id` is a member of, in the lobby it occupies.
    pub fn current_game(&self, id: usize) -> (r: Option<u32>)
        requires
            self.wf(),
        ensures
            match r {
                Some(gid) => self.placed_anywhere(id) && exists|g: int|
                    #[trigger] self.lobbies@[self.lobby_index(id)].in_game(g, id)
                        && self.lobbies@[self.lobby_index(id)].games@[g].id == gid,
                None => !self.placed_anywhere(id) || !self.lobbies@[self.lobby_index(id)].playing(id),
            },
    {
        match self.lobby_of(id) {
            None => None,
            Some(l) => {
                let ghost c = self.lobby_index(id);
                assert(self.placed(c, id));
                assert(c == l);
                match self.lobbies[l].game_of(id) {
                    None => None,
                    Some(g) => Some(self.lobbies[l].games[g].id),
                }
            },
        }
    }

    /// A new connection: two fresh session keys, then `on_connect`.
    pub fn client_connected(&mut self, id: usize) -> (r: Effects)
        requires
            old(self).wf(),
        ensures
            final(self).wf(),
            BlockService::connect_done(*old(self), *final(self), id, r),
    {
        let server_key = crate::keys::session_key();
        let client_key = crate::keys::session_key();
        self.on_connect(id, server_key, client_key)
    }

    /// What handling a connection of `id` does.
    pub open spec fn connect_done(before: BlockService, after: BlockService, id: usize, r: Effects) -> bool {
        &&& after.session_ids() =~= before.session_ids().insert(id)
        &&& after.lobbies == before.lobbies
        &&& after.pending == before.pending
        &&& r.requests@.len() == 0
        &&& before.connected(id) ==> after.clients == before.clients && r.sends@.len() == 0
        &&& (!before.connected(id) ==> {
            &&& after.clients@ == before.clients@.push(
                ClientState { connection_id: id, account: None, character: None },
            )
            &&& r.sends@.len() == 1
            &&& r.sends@[0].to@ == seq![id]
            &&& (match r.sends@[0].msg {
                ServerMessage::Welcome { server_key, client_key } => server_key@.len() == KEY_LEN
                    && client_key@.len() == KEY_LEN,
                _ => false,
            })
        })
    }

    /// What handling the disconnection of `id` does.
    pub open spec fn disconnect_done(before: BlockService, after: BlockService, id: usize) -> bool {
        &&& after.session_ids() =~= before.session_ids().remove(id)
        &&& !after.placed_anywhere(id)
        &&& (forall|l: int| #[trigger] before.placed(l, id)
            ==> Lobby::left(before.lobbies@[l], after.lobbies@[l], id))
        &&& (forall|l: int| 0 <= l < NUM_LOBBIES && !before.placed(l, id)
            ==> #[trigger] after.lobbies@[l] == before.lobbies@[l])
        &&& after.lobbies@.len() == NUM_LOBBIES
        &&& (before.connected(id) ==> exists|c: int|
            0 <= c < before.clients@.len() && before.clients@[c].connection_id == id
                && after.clients@ == before.clients@.remove(c))
        &&& !before.connected(id) ==> after.clients == before.clients
        &&& after.pending == before.pending
        &&& after.next_key == before.next_key
        &&& after.next_game == before.next_game
        &&& after.block_num == before.block_num
        &&& after.event == before.event
    }

    /// What handling a login of `id` does.
    pub open spec fn login_done(before: BlockService, after: BlockService, id: usize, username: Vec<u8>, password: Vec<u8>, r: Effects) -> bool {
        &&& after.clients == before.clients
        &&& after.lobbies == before.lobbies
        &&& after.next_game == before.next_game
        &&& after.block_num == before.block_num
        &&& after.event == before.event
        &&& (!before.connected(id) ==> after == before && r.sends@.len() == 0
            && r.requests@.len() == 0)
        &&& (before.connected(id) && (username@.len() == 0 || before.next_key == u64::MAX) ==> {
            &&& after == before
            &&& r.sends@.len() == 1
            &&& r.sends@[0].to@ == seq![id]
            &&& r.sends@[0].msg == ServerMessage::LoginRejected
            &&& r.requests@.len() == 0
        })
        &&& (before.connected(id) && username@.len() > 0 && before.next_key < u64::MAX ==> {
            &&& after.pending@ == before.pending@.push(
                PendingRequest { key: before.next_key, client: id, then: Continuation::Login },
            )
            &&& after.next_key == before.next_key + 1
            &&& r.sends@.len() == 0
            &&& r.requests@ == seq![AuthRequest { key: before.next_key, username, password }]
        })
    }

    /// What handling a shipgate reply does.
    pub open spec fn reply_done(before: BlockService, after: BlockService, reply: ShipgateReply, r: Effects) -> bool {
        &&& after.session_ids() =~= before.session_ids()
        &&& after.lobbies == before.lobbies
        &&& after.next_key == before.next_key
        &&& after.next_game == before.next_game
        &&& after.block_num == before.block_num
        &&& after.event == before.event
        &&& r.requests@.len() == 0
        &&& !before.has_pending(reply.key) ==> after == before && r.sends@.len() == 0
        &&& (before.has_pending(reply.key) ==> exists|p: int|
            0 <= p < before.pending@.len() && before.pending@[p].key == reply.key
                && after.pending@ == before.pending@.remove(p)
                && BlockService::login_completed(
                before,
                after,
                before.pending@[p].client,
                reply.account,
                r,
            ))
    }

    /// What handling the character data of `id` does.
    pub open spec fn char_data_done(before: BlockService, after: BlockService, id: usize, data: Vec<u8>, r: Effects) -> bool {
        &&& after.session_ids() =~= before.session_ids()
        &&& (!before.connected(id) ==> after == before && r.sends@.len() == 0
            && r.requests@.len() == 0)
        &&& (before.connected(id) ==> exists|mid: BlockService|
            BlockService::character_stored(before, mid, id, data@) && {
                if before.placed_anywhere(id) {
                    after == mid && r.sends@.len() == 0 && r.requests@.len() == 0
                } else if exists|l: int| 0 <= l < NUM_LOBBIES
                    && (#[trigger] before.lobbies@[l]).players@.len() < crate::lobby::LOBBY_CAPACITY {
                    exists|t: int| 0 <= t < NUM_LOBBIES
                        && before.lobbies@[t].players@.len() < crate::lobby::LOBBY_CAPACITY
                        && (forall|k: int| 0 <= k < t
                            ==> (#[trigger] before.lobbies@[k]).players@.len() >= crate::lobby::LOBBY_CAPACITY)
                        && BlockService::joined(mid, after, id, t, r)
                } else {
                    after == mid && r.sends@.len() == 0 && r.requests@.len() == 0
                }
            })
    }

    /// What handling a lobby change of `id` does.
    pub open spec fn lobby_change_done(before: BlockService, after: BlockService, id: usize, target: u32, r: Effects) -> bool {
        &&& after.session_ids() =~= before.session_ids()
        &&& after.clients == before.clients
        &&& after.pending == before.pending
        &&& r.requests@.len() == 0
        &&& !before.connected(id) ==> after == before && r.sends@.len() == 0
        &&& (before.connected(id) && (target >= NUM_LOBBIES || before.lobbies@[target as int].players@.len()
            >= crate::lobby::LOBBY_CAPACITY && !before.placed(target as int, id)) ==> {
            &&& after == before
            &&& r.sends@.len() == 1
            &&& r.sends@[0].to@ == seq![id]
            &&& r.sends@[0].msg == ServerMessage::LobbyChangeRejected
        })
        &&& (before.connected(id) && target < NUM_LOBBIES && before.placed(target as int, id)
            ==> after == before && r.sends@.len() == 0)
        &&& (before.connected(id) && target < NUM_LOBBIES && !before.placed(target as int, id)
            && before.lobbies@[target as int].players@.len() < crate::lobby::LOBBY_CAPACITY ==> {
            exists|mid: BlockService|
                BlockService::left_all(before, mid, id) && BlockService::joined(
                    mid,
                    after,
                    id,
                    target as int,
                    r,
                )
        })
    }

    /// What handling a game creation by `id` does.
    pub open spec fn create_game_done(before: BlockService, after: BlockService, id: usize, name: Vec<u8>, difficulty: u8, mode: u8, r: Effects) -> bool {
        &&& after.session_ids() =~= before.session_ids()
        &&& after.clients == before.clients
        &&& after.pending == before.pending
        &&& after.next_key == before.next_key
        &&& r.requests@.len() == 0
        &&& (!before.can_create_game(id) ==> {
            &&& after == before
            &&& r.sends@.len() == 1
            &&& r.sends@[0].to@ == seq![id]
            &&& r.sends@[0].msg == ServerMessage::CreateGameRejected
        })
        &&& (before.can_create_game(id) ==> {
            let l = before.lobby_index(id);
            let gid = before.next_game;
            let lb = before.lobbies@[l];
            let la = after.lobbies@[l];
            &&& after.next_game == gid + 1
            &&& after.lobbies@.len() == NUM_LOBBIES
            &&& forall|k: int| 0 <= k < NUM_LOBBIES && k != l
                ==> #[trigger] after.lobbies@[k] == before.lobbies@[k]
            &&& la.same_place(lb)
            &&& la.players@ == lb.players@
            &&& la.games@.drop_last() == lb.games@
            &&& la.games@.len() == lb.games@.len() + 1
            &&& la.games@.last().id == gid
            &&& la.games@.last().name@ == name@
            &&& la.games@.last().difficulty == difficulty
            &&& la.games@.last().mode == mode
            &&& la.games@.last().members@ == seq![id]
            &&& r.sends@.len() == 2
            &&& r.sends@[0].to@ == seq![id]
            &&& r.sends@[0].msg == (ServerMessage::GameCreated { game: gid })
            &&& r.sends@[1].to@ == without(lb.players@, id)
            &&& r.sends@[1].msg == (ServerMessage::GameListed { lobby: l as usize, game: gid })
        })
    }

    /// What handling a request of `id` to join game `gid` does.
    pub open spec fn join_game_done(before: BlockService, after: BlockService, id: usize, gid: u32, r: Effects) -> bool {
        &&& after.session_ids() =~= before.session_ids()
        &&& after.clients == before.clients
        &&& after.pending == before.pending
        &&& after.next_key == before.next_key
        &&& after.next_game == before.next_game
        &&& r.requests@.len() == 0
        &&& (!before.can_join_game(id, gid) ==> {
            &&& after == before
            &&& r.sends@.len() == 1
            &&& r.sends@[0].to@ == seq![id]
            &&& r.sends@[0].msg == ServerMessage::JoinGameRejected
        })
        &&& (before.can_join_game(id, gid) ==> {
            let l = before.lobby_index(id);
            let lb = before.lobbies@[l];
            let la = after.lobbies@[l];
            &&& after.lobbies@.len() == NUM_LOBBIES
            &&& forall|k: int| 0 <= k < NUM_LOBBIES && k != l
                ==> #[trigger] after.lobbies@[k] == before.lobbies@[k]
            &&& la.same_place(lb)
            &&& la.players@ == lb.players@
            &&& exists|g: int| 0 <= g < lb.games@.len() && lb.games@[g].id == gid && {
                &&& la.games@.len() == lb.games@.len()
                &&& forall|k: int| 0 <= k < lb.games@.len() && k != g
                    ==> #[trigger] la.games@[k] == lb.games@[k]
                &&& la.games@[g].same_settings(lb.games@[g])
                &&& la.games@[g].members@ == lb.games@[g].members@.push(id)
                &&& r.sends@.len() == 1
                &&& r.sends@[0].to@ == seq![id]
                &&& (match r.sends@[0].msg {
                    ServerMessage::GameJoined { game, members } => game == gid
                        && members@ == la.games@[g].members@,
                    _ => false,
                })
            }
        })
    }

    /// What a chat line of `id` sends.
    pub open spec fn chat_done(before: BlockService, id: usize, text: Vec<u8>, r: Effects) -> bool {
        &&& r.requests@.len() == 0
        &&& !before.placed_anywhere(id) ==> r.sends@.len() == 0
        &&& (before.placed_anywhere(id) ==> {
            &&& r.sends@.len() == 1
            &&& r.sends@[0].to@ == before.listeners(id)
            &&& r.sends@[0].msg == (ServerMessage::ChatRelay { from: id, text })
        })
    }

    /// What a sub-command of `id` sends.
    pub open spec fn subcmd_done(before: BlockService, id: usize, data: Vec<u8>, r: Effects) -> bool {
        &&& r.requests@.len() == 0
        &&& !before.placed_anywhere(id) ==> r.sends@.len() == 0
        &&& (before.placed_anywhere(id) ==> {
            &&& r.sends@.len() == 1
            &&& r.sends@[0].to@ == before.listeners(id)
            &&& r.sends@[0].msg == (ServerMessage::SubCmdRelay { from: id, data })
        })
    }

    /// Handles one event of the block's queue to completion. A message of a
    /// kind this block does not handle, and a shipgate reply that matches no
    /// pending request, change nothing.
    pub fn handle_event(&mut self, ev: Event) -> (r: Effects)
        requires
            old(self).wf(),
        ensures
            final(self).wf(),
            final(self).session_ids() == crate::laws::session_step(old(self).session_ids(), ev),
            match ev {
                Event::Connected(id) => BlockService::connect_done(*old(self), *final(self), id, r),
                Event::Disconnected(id) => BlockService::disconnect_done(*old(self), *final(self), id)
                    && r.sends@.len() == 0 && r.requests@.len() == 0,
                Event::Said(id, msg) => match msg {
                    ClientMessage::Login { username, password } => BlockService::login_done(
                        *old(self),
                        *final(self),
                        id,
                        username,
                        password,
                        r,
                    ),
                    ClientMessage::CharData(data) => BlockService::char_data_done(*old(self), *final(self), id, data, r),
                    ClientMessage::Chat(text) => *final(self) == *old(self) && BlockService::chat_done(
                        *old(self),
                        id,
                        text,
                        r,
                    ),
                    ClientMessage::CreateGame { name, difficulty, mode } => BlockService::create_game_done(
                        *old(self),
                        *final(self),
                        id,
                        name,
                        difficulty,
                        mode,
                        r,
                    ),
                    ClientMessage::SubCmd60(data) => *final(self) == *old(self) && BlockService::subcmd_done(
                        *old(self),
                        id,
                        data,
                        r,
                    ),
                    ClientMessage::LobbyChange(target) => BlockService::lobby_change_done(
                        *old(self),
                        *final(self),
                        id,
                        target,
                        r,
                    ),
                    ClientMessage::JoinGame(gid) => BlockService::join_game_done(*old(self), *final(self), id, gid, r),
                    ClientMessage::Other(_) => *final(self) == *old(self) && r.sends@.len() == 0
                        && r.requests@.len() == 0,
                },
                Event::Shipgate(reply) => BlockService::reply_done(*old(self), *final(self), reply, r),
            },
    {
        match ev {
            Event::Connected(id) => self.client_connected(id),
            Event::Disconnected(id) => {
                self.on_disconnect(id);
                Effects::none()
            },
            Event::Said(id, msg) => match msg {
                ClientMessage::Login { username, password } => self.on_login(id, username, password),
                ClientMessage::CharData(data) => self.on_char_data(id, data),
                ClientMessage::Chat(text) => self.on_chat(id, text),
                ClientMessage::CreateGame { name, difficulty, mode } => self.on_create_game(id, name, difficulty, mode),
                ClientMessage::SubCmd60(data) => self.on_subcmd_60(id, data),
                ClientMessage::LobbyChange(target) => self.on_lobby_change(id, target),
                ClientMessage::JoinGame(gid) => self.on_join_game(id, gid),
                ClientMessage::Other(_) => Effects::none(),
            },
            Event::Shipgate(reply) => self.on_shipgate_reply(reply),
        }
    }
}

} // verus!
