//! A lobby: an ordered list of occupied player slots and the game sessions
//! (parties) created from within it.
//!
//! Every member of a game is also an occupant of the lobby the game belongs
//! to: a client is "in the lobby" when it occupies a slot and belongs to no
//! game, and "in a game" when it occupies a slot and belongs to one game.
use vstd::prelude::*;
use crate::seqs::{index_of, copy_without, without, lemma_remove_keeps, lemma_remove_subset, lemma_remove_no_dup, lemma_push_no_dup};

verus! {

/// Number of player slots of one lobby.
pub const LOBBY_CAPACITY: usize = 12;

/// Number of members a game session can hold.
pub const GAME_CAPACITY: usize = 4;

/// A game session (party) inside a lobby.
pub struct Game {
    pub id: u32,
    pub name: Vec<u8>,
    pub difficulty: u8,
    pub mode: u8,
    pub members: Vec<usize>,
}

impl Game {
    /// Everything but the member list is equal.
    pub open spec fn same_settings(self, other: Game) -> bool {
        &&& self.id == other.id
        &&& self.name@ == other.name@
        &&& self.difficulty == other.difficulty
        &&& self.mode == other.mode
    }

    /// A live game has between one and `GAME_CAPACITY` distinct members.
    pub open spec fn wf(self) -> bool {
        &&& 0 < self.members@.len() <= GAME_CAPACITY
        &&& self.members@.no_duplicates()
    }
}

/// Why a lobby refused a change of its occupants.
#[derive(Debug, Clone, Copy, PartialEq, Eq, Structural)]
pub enum LobbyError {
    NotPresent,
    AlreadyPresent,
    Full,
}

pub struct Lobby {
    pub index: usize,
    pub block_num: u16,
    pub event: u16,
    pub players: Vec<usize>,
    pub games: Vec<Game>,
}

impl Lobby {
    pub open spec fn occupied(self, id: usize) -> bool {
        self.players@.contains(id)
    }

    pub open spec fn in_game(self, g: int, id: usize) -> bool {
        0 <= g < self.games@.len() && self.games@[g].members@.contains(id)
    }

    pub open spec fn playing(self, id: usize) -> bool {
        exists|g: int| #[trigger] self.in_game(g, id)
    }

    pub open spec fn has_game_id(self, gid: u32) -> bool {
        exists|g: int| 0 <= g < self.games@.len() && #[trigger] self.games@[g].id == gid
    }

    pub open spec fn wf(self) -> bool {
        &&& self.players@.len() <= LOBBY_CAPACITY
        &&& self.players@.no_duplicates()
        &&& forall|g: int| 0 <= g < self.games@.len() ==> #[trigger] self.games@[g].wf()
        &&& forall|g: int, id: usize| #[trigger] self.in_game(g, id) ==> self.occupied(id)
        &&& forall|g1: int, g2: int, id: usize|
            #[trigger] self.in_game(g1, id) && #[trigger] self.in_game(g2, id) ==> g1 == g2
        &&& forall|g1: int, g2: int|
            0 <= g1 < self.games@.len() && 0 <= g2 < self.games@.len() && g1 != g2
                ==> #[trigger] self.games@[g1].id != #[trigger] self.games@[g2].id
    }

    /// The lobby's identity is kept.
    pub open spec fn same_place(self, other: Lobby) -> bool {
        self.index == other.index && self.block_num == other.block_num && self.event == other.event
    }

    /// `after` is `before` once `id`, a member of game `g`, has left that game:
    /// a game left by its last member is gone, any other loses that member.
    pub open spec fn left_game(before: Seq<Game>, after: Seq<Game>, g: int, id: usize) -> bool {
        if before[g].members@.len() == 1 {
            after == before.remove(g)
        } else {
            &&& after.len() == before.len()
            &&& forall|k: int| 0 <= k < before.len() && k != g ==> after[k] == before[k]
            &&& after[g].same_settings(before[g])
            &&& exists|j: int|
                0 <= j < before[g].members@.len() && before[g].members@[j] == id
                    && after[g].members@ == before[g].members@.remove(j)
        }
    }

    /// `after` is `before` once the occupant `id` has left the lobby, and
    /// with it any game it was a member of.
    pub open spec fn left(before: Lobby, after: Lobby, id: usize) -> bool {
        &&& after.same_place(before)
        &&& exists|i: int|
            0 <= i < before.players@.len() && before.players@[i] == id
                && after.players@ == before.players@.remove(i)
        &&& !before.playing(id) ==> after.games@ == before.games@
        &&& forall|g: int| #[trigger] before.in_game(g, id) ==> Lobby::left_game(before.games@, after.games@, g, id)
    }

    pub fn new(index: usize, block_num: u16, event: u16) -> (r: Lobby)
        ensures
            r.wf(),
            r.index == index,
            r.block_num == block_num,
            r.event == event,
            r.players@ == Seq::<usize>::empty(),
            r.games@ == Seq::<Game>::empty(),
    {
        Lobby { index, block_num, event, players: Vec::new(), games: Vec::new() }
    }

    pub fn has_player(&self, id: usize) -> (r: bool)
        ensures
            r == self.occupied(id),
    {
        index_of(&self.players, id).is_some()
    }

    pub fn is_full(&self) -> (r: bool)
        ensures
            r == (self.players@.len() >= LOBBY_CAPACITY),
    {
        self.players.len() >= LOBBY_CAPACITY
    }

    /// Index of the game `id` is a member of.
    pub fn game_of(&self, id: usize) -> (r: Option<usize>)
        ensures
            match r {
                Some(g) => self.in_game(g as int, id),
                None => !self.playing(id),
            },
    {
        let mut g: usize = 0;
        while g < self.games.len()
            invariant
                g <= self.games@.len(),
                forall|k: int| 0 <= k < g ==> !#[trigger] self.in_game(k, id),
            decreases self.games@.len() - g,
        {
            if index_of(&self.games[g].members, id).is_some() {
                return Some(g);
            }
            g = g + 1;
        }
        None
    }

    /// Gives `id` a slot, at the end of the list.
    pub fn add_player(&mut self, id: usize) -> (r: Result<(), LobbyError>)
        requires
            old(self).wf(),
        ensures
            final(self).wf(),
            old(self).occupied(id) ==> r == Err::<(), LobbyError>(LobbyError::AlreadyPresent)
                && *final(self) == *old(self),
            !old(self).occupied(id) && old(self).players@.len() >= LOBBY_CAPACITY
                ==> r == Err::<(), LobbyError>(LobbyError::Full) && *final(self) == *old(self),
            !old(self).occupied(id) && old(self).players@.len() < LOBBY_CAPACITY ==> {
                &&& r == Ok::<(), LobbyError>(())
                &&& final(self).same_place(*old(self))
                &&& final(self).players@ == old(self).players@.push(id)
                &&& final(self).games@ == old(self).games@
            },
    {
        if self.has_player(id) {
            return Err(LobbyError::AlreadyPresent);
        }
        if self.is_full() {
            return Err(LobbyError::Full);
        }
        proof {
            lemma_push_no_dup(self.players@, id);
        }
        let ghost before = *self;
        self.players.push(id);
        assert forall|g: int, m: usize| #[trigger] self.in_game(g, m) implies self.occupied(m) by {
            assert(before.in_game(g, m));
            let k = choose|k: int| 0 <= k < before.players@.len() && before.players@[k] == m;
            assert(self.players@[k] == m);
        }
        assert forall|g1: int, g2: int, m: usize|
            #[trigger] self.in_game(g1, m) && #[trigger] self.in_game(g2, m) implies g1 == g2 by {
            assert(before.in_game(g1, m) && before.in_game(g2, m));
        }
        Ok(())
    }

    /// Takes `id` out of its slot and out of its game; a game left empty is
    /// dissolved.
    pub fn remove_player(&mut self, id: usize) -> (r: Result<(), LobbyError>)
        requires
            old(self).wf(),
        ensures
            final(self).wf(),
            !final(self).occupied(id),
            !final(self).playing(id),
            !old(self).occupied(id) ==> r == Err::<(), LobbyError>(LobbyError::NotPresent)
                && *final(self) == *old(self),
            old(self).occupied(id) ==> r == Ok::<(), LobbyError>(()) && Lobby::left(*old(self), *final(self), id),
    {
        let ghost before = *self;
        let i = match index_of(&self.players, id) {
            Some(i) => i,
            None => {
                assert forall|g: int| !#[trigger] self.in_game(g, id) by {}
                return Err(LobbyError::NotPresent);
            },
        };
        proof {
            lemma_remove_no_dup(self.players@, i as int);
        }
        self.players.remove(i);
        assert(self.players@ == before.players@.remove(i as int));
        assert(before.players@[i as int] == id);
        match self.game_of(id) {
            None => {
                assert forall|g: int, m: usize| #[trigger] self.in_game(g, m) implies self.occupied(m) by {
                    assert(before.in_game(g, m));
                    lemma_remove_keeps(before.players@, i as int, m);
                }
                assert forall|g1: int, g2: int, m: usize|
                    #[trigger] self.in_game(g1, m) && #[trigger] self.in_game(g2, m) implies g1 == g2 by {
                    assert(before.in_game(g1, m) && before.in_game(g2, m));
                }
                assert forall|g: int| !#[trigger] before.in_game(g, id) by {
                    if before.in_game(g, id) {
                        assert(self.in_game(g, id));
                    }
                }
                assert forall|g: int| !#[trigger] self.in_game(g, id) by {
                    if self.in_game(g, id) {
                        assert(before.in_game(g, id));
                    }
                }
                assert(self.wf());
            },
            Some(g) => {
                let ghost old_game = self.games@[g as int];
                assert(old_game.wf());
                assert(before.in_game(g as int, id));
                let mut game = self.games.remove(g);
                assert(game == old_game);
                if game.members.len() == 1 {
                    assert(game.members@[0] == id);
                    assert forall|k: int, m: usize| #[trigger] self.in_game(k, m) implies self.occupied(m) by {
                        let k2 = if k < g { k } else { k + 1 };
                        assert(self.games@[k] == before.games@[k2]);
                        assert(before.in_game(k2, m));
                        if m == id {
                            assert(before.in_game(g as int, id));
                        }
                        lemma_remove_keeps(before.players@, i as int, m);
                    }
                    assert forall|k1: int, k2: int, m: usize|
                        #[trigger] self.in_game(k1, m) && #[trigger] self.in_game(k2, m) implies k1 == k2 by {
                        let a = if k1 < g { k1 } else { k1 + 1 };
                        let b = if k2 < g { k2 } else { k2 + 1 };
                        assert(before.in_game(a, m) && before.in_game(b, m));
                    }
                    assert forall|k1: int, k2: int|
                        0 <= k1 < self.games@.len() && 0 <= k2 < self.games@.len() && k1 != k2
                        implies #[trigger] self.games@[k1].id != #[trigger] self.games@[k2].id by {
                        let a = if k1 < g { k1 } else { k1 + 1 };
                        let b = if k2 < g { k2 } else { k2 + 1 };
                        assert(self.games@[k1] == before.games@[a] && self.games@[k2] == before.games@[b]);
                    }
                    assert forall|k: int| !#[trigger] self.in_game(k, id) by {
                        if self.in_game(k, id) {
                            let a = if k < g { k } else { k + 1 };
                            assert(before.in_game(a, id));
                        }
                    }
                    assert forall|k: int| #[trigger] before.in_game(k, id)
                        implies Lobby::left_game(before.games@, self.games@, k, id) by {
                        assert(before.in_game(g as int, id));
                    }
                    assert(self.wf());
                } else {
                    let j = match index_of(&game.members, id) {
                        Some(j) => j,
                        None => {
                            assert(false);
                            0
                        },
                    };
                    proof {
                        lemma_remove_no_dup(game.members@, j as int);
                    }
                    game.members.remove(j);
                    assert(old_game.members@[j as int] == id);
                    assert(game.members@ == old_game.members@.remove(j as int));
                    let ghost new_game = game;
                    self.games.insert(g, game);
                    assert(self.games@ == before.games@.update(g as int, new_game));
                    assert forall|k: int, m: usize| #[trigger] self.in_game(k, m) implies self.occupied(m) by {
                        if k == g {
                            lemma_remove_subset(old_game.members@, j as int, m);
                        }
                        assert(before.in_game(k, m));
                        if m == id {
                            assert(before.in_game(g as int, id));
                        }
                        lemma_remove_keeps(before.players@, i as int, m);
                    }
                    assert forall|k1: int, k2: int, m: usize|
                        #[trigger] self.in_game(k1, m) && #[trigger] self.in_game(k2, m) implies k1 == k2 by {
                        if k1 == g {
                            lemma_remove_subset(old_game.members@, j as int, m);
                        }
                        if k2 == g {
                            lemma_remove_subset(old_game.members@, j as int, m);
                        }
                        assert(before.in_game(k1, m) && before.in_game(k2, m));
                    }
                    assert forall|k: int| 0 <= k < self.games@.len() implies #[trigger] self.games@[k].wf() by {
                        if k != g {
                            assert(self.games@[k] == before.games@[k]);
                        }
                    }
                    assert forall|k: int| !#[trigger] self.in_game(k, id) by {
                        if self.in_game(k, id) && k != g {
                            assert(before.in_game(k, id));
                            assert(before.in_game(g as int, id));
                        }
                    }
                    assert forall|k: int| #[trigger] before.in_game(k, id)
                        implies Lobby::left_game(before.games@, self.games@, k, id) by {
                        assert(before.in_game(g as int, id));
                    }
                    assert(self.wf());
                }
            },
        }
        assert(Lobby::left(before, *self, id));
        Ok(())
    }

    /// Who hears what `id` says: the other members of its game if it is in
    /// one, else the other occupants of the lobby.
    pub open spec fn audience(self, id: usize) -> Seq<usize> {
        if self.playing(id) {
            let g = choose|g: int| #[trigger] self.in_game(g, id);
            without(self.games@[g].members@, id)
        } else {
            without(self.players@, id)
        }
    }

    pub fn audience_of(&self, id: usize) -> (r: Vec<usize>)
        requires
            self.wf(),
        ensures
            r@ == self.audience(id),
    {
        match self.game_of(id) {
            Some(g) => {
                let ghost c = choose|g: int| #[trigger] self.in_game(g, id);
                assert(self.in_game(c, id));
                assert(c == g);
                copy_without(&self.games[g].members, id)
            },
            None => copy_without(&self.players, id),
        }
    }

    /// Opens a game with `id` as its sole member.
    pub fn create_game(&mut self, id: usize, gid: u32, name: Vec<u8>, difficulty: u8, mode: u8)
        requires
            old(self).wf(),
            old(self).occupied(id),
            !old(self).playing(id),
            !old(self).has_game_id(gid),
        ensures
            final(self).wf(),
            final(self).same_place(*old(self)),
            final(self).players@ == old(self).players@,
            final(self).games@.len() == old(self).games@.len() + 1,
            final(self).games@.drop_last() == old(self).games@,
            final(self).games@.last().id == gid,
            final(self).games@.last().name@ == name@,
            final(self).games@.last().difficulty == difficulty,
            final(self).games@.last().mode == mode,
            final(self).games@.last().members@ == seq![id],
    {
        let ghost before = *self;
        let mut members: Vec<usize> = Vec::new();
        members.push(id);
        let game = Game { id: gid, name, difficulty, mode, members };
        self.games.push(game);
        assert(self.games@.drop_last() == before.games@);
        let ghost n = before.games@.len() as int;
        assert forall|g: int, m: usize| #[trigger] self.in_game(g, m) implies self.occupied(m) by {
            if g < n {
                assert(before.in_game(g, m));
            } else {
                assert(self.games@[g].members@ == seq![id]);
            }
        }
        assert forall|g1: int, g2: int, m: usize|
            #[trigger] self.in_game(g1, m) && #[trigger] self.in_game(g2, m) implies g1 == g2 by {
            if g1 < n && g2 < n {
                assert(before.in_game(g1, m) && before.in_game(g2, m));
            } else if g1 < n {
                assert(self.games@[g2].members@ == seq![id]);
                assert(before.in_game(g1, id));
            } else if g2 < n {
                assert(self.games@[g1].members@ == seq![id]);
                assert(before.in_game(g2, id));
            }
        }
        assert forall|g1: int, g2: int|
            0 <= g1 < self.games@.len() && 0 <= g2 < self.games@.len() && g1 != g2
            implies #[trigger] self.games@[g1].id != #[trigger] self.games@[g2].id by {
            if g1 == n {
                assert(before.games@[g2].id != gid);
            } else if g2 == n {
                assert(before.games@[g1].id != gid);
            }
        }
        assert(self.games@[n].wf());
    }

    /// Index of the game with id `gid`.
    pub fn game_index(&self, gid: u32) -> (r: Option<usize>)
        ensures
            match r {
                Some(g) => g < self.games@.len() && self.games@[g as int].id == gid,
                None => !self.has_game_id(gid),
            },
    {
        let mut g: usize = 0;
        while g < self.games.len()
            invariant
                g <= self.games@.len(),
                forall|k: int| 0 <= k < g ==> self.games@[k].id != gid,
            decreases self.games@.len() - g,
        {
            if self.games[g].id == gid {
                return Some(g);
            }
            g = g + 1;
        }
        None
    }

    /// Adds the occupant `id`, in no game yet, to the end of game `g`'s
    /// member list.
    pub fn join_game(&mut self, id: usize, g: usize) -> (r: Result<(), LobbyError>)
        requires
            old(self).wf(),
        ensures
            final(self).wf(),
            !old(self).occupied(id) ==> r == Err::<(), LobbyError>(LobbyError::NotPresent)
                && *final(self) == *old(self),
            old(self).occupied(id) && old(self).playing(id)
                ==> r == Err::<(), LobbyError>(LobbyError::AlreadyPresent) && *final(self) == *old(self),
            old(self).occupied(id) && !old(self).playing(id) && (g >= old(self).games@.len()
                || old(self).games@[g as int].members@.len() >= GAME_CAPACITY)
                ==> r == Err::<(), LobbyError>(LobbyError::Full) && *final(self) == *old(self),
            old(self).occupied(id) && !old(self).playing(id) && g < old(self).games@.len()
                && old(self).games@[g as int].members@.len() < GAME_CAPACITY ==> {
                &&& r == Ok::<(), LobbyError>(())
                &&& final(self).same_place(*old(self))
                &&& final(self).players@ == old(self).players@
                &&& final(self).games@.len() == old(self).games@.len()
                &&& forall|k: int| 0 <= k < old(self).games@.len() && k != g
                    ==> #[trigger] final(self).games@[k] == old(self).games@[k]
                &&& final(self).games@[g as int].same_settings(old(self).games@[g as int])
                &&& final(self).games@[g as int].members@ == old(self).games@[g as int].members@.push(id)
            },
    {
        let ghost before = *self;
        if !self.has_player(id) {
            return Err(LobbyError::NotPresent);
        }
        if self.game_of(id).is_some() {
            return Err(LobbyError::AlreadyPresent);
        }
        if g >= self.games.len() || self.games[g].members.len() >= GAME_CAPACITY {
            return Err(LobbyError::Full);
        }
        let mut game = self.games.remove(g);
        assert(game == before.games@[g as int]);
        assert(game.wf());
        assert(!game.members@.contains(id)) by {
            if game.members@.contains(id) {
                assert(before.in_game(g as int, id));
            }
        }
        proof {
            lemma_push_no_dup(game.members@, id);
        }
        game.members.push(id);
        let ghost new_game = game;
        self.games.insert(g, game);
        assert(self.games@ =~= before.games@.update(g as int, new_game));
        assert forall|k: int, m: usize| #[trigger] self.in_game(k, m) implies self.occupied(m) by {
            if k == g && m != id {
                let j = choose|j: int| 0 <= j < new_game.members@.len() && new_game.members@[j] == m;
                assert(before.games@[g as int].members@[j] == m);
            }
            if m != id {
                assert(before.in_game(k, m)) by {
                    if k == g {
                        let j = choose|j: int| 0 <= j < new_game.members@.len() && new_game.members@[j] == m;
                        assert(before.games@[g as int].members@[j] == m);
                    }
                }
            }
        }
        assert forall|k1: int, k2: int, m: usize|
            #[trigger] self.in_game(k1, m) && #[trigger] self.in_game(k2, m) implies k1 == k2 by {
            if m == id {
                if k1 != g {
                    assert(before.in_game(k1, id));
                }
                if k2 != g {
                    assert(before.in_game(k2, id));
                }
            } else {
                if k1 == g {
                    let j = choose|j: int| 0 <= j < new_game.members@.len() && new_game.members@[j] == m;
                    assert(before.games@[g as int].members@[j] == m);
                }
                if k2 == g {
                    let j = choose|j: int| 0 <= j < new_game.members@.len() && new_game.members@[j] == m;
                    assert(before.games@[g as int].members@[j] == m);
                }
                assert(before.in_game(k1, m) && before.in_game(k2, m));
            }
        }
        assert forall|k: int| 0 <= k < self.games@.len() implies #[trigger] self.games@[k].wf() by {
            if k != g {
                assert(self.games@[k] == before.games@[k]);
            }
        }
        assert forall|k1: int, k2: int|
            0 <= k1 < self.games@.len() && 0 <= k2 < self.games@.len() && k1 != k2
            implies #[trigger] self.games@[k1].id != #[trigger] self.games@[k2].id by {
            assert(before.games@[k1].id != before.games@[k2].id);
        }
        Ok(())
    }
}

} // verus!
