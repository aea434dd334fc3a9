//! Properties of the block that hold across events and calls.
use vstd::prelude::*;
use crate::block::{BlockService, NUM_LOBBIES};
use crate::lobby::Lobby;
use crate::messages::{Event, ShipgateReply, Effects, ServerMessage};

verus! {

/// How one event changes the set of connected ids.
pub open spec fn session_step(ids: Set<usize>, ev: Event) -> Set<usize> {
    match ev {
        Event::Connected(id) => ids.insert(id),
        Event::Disconnected(id) => ids.remove(id),
        _ => ids,
    }
}

/// `id` is connected after `evs`: some event connected it and no later one
/// disconnected it.
pub open spec fn is_connected(evs: Seq<Event>, id: usize) -> bool {
    exists|i: int|
        0 <= i < evs.len() && evs[i] == Event::Connected(id) && forall|j: int|
            i < j < evs.len() ==> evs[j] != Event::Disconnected(id)
}

/// Whatever sequence of events a fresh block handles, after each prefix the
/// session table holds exactly the connection ids that are connected.
pub proof fn lemma_sessions_are_connections(states: Seq<BlockService>, evs: Seq<Event>)
    requires
        states.len() == evs.len() + 1,
        states[0].session_ids() == Set::<usize>::empty(),
        forall|i: int| 0 <= i < evs.len()
            ==> #[trigger] states[i + 1].session_ids() == session_step(states[i].session_ids(), evs[i]),
    ensures
        forall|i: int, id: usize| 0 <= i <= evs.len()
            ==> (#[trigger] states[i].session_ids().contains(id) <==> is_connected(evs.take(i), id)),
{
    assert forall|i: int, id: usize| 0 <= i <= evs.len()
        implies (#[trigger] states[i].session_ids().contains(id) <==> is_connected(evs.take(i), id)) by {
        lemma_prefix(states, evs, i, id);
    }
}

proof fn lemma_prefix(states: Seq<BlockService>, evs: Seq<Event>, i: int, id: usize)
    requires
        states.len() == evs.len() + 1,
        states[0].session_ids() == Set::<usize>::empty(),
        forall|k: int| 0 <= k < evs.len()
            ==> #[trigger] states[k + 1].session_ids() == session_step(states[k].session_ids(), evs[k]),
        0 <= i <= evs.len(),
    ensures
        states[i].session_ids().contains(id) <==> is_connected(evs.take(i), id),
    decreases i,
{
    if i > 0 {
        lemma_prefix(states, evs, i - 1, id);
        let pre = evs.take(i - 1);
        let cur = evs.take(i);
        let k = i - 1;
        assert(states[k + 1].session_ids() == session_step(states[k].session_ids(), evs[k]));
        assert(k + 1 == i);
        assert forall|k: int| 0 <= k < i - 1 implies cur[k] == pre[k] by {}
        assert(cur[i - 1] == evs[i - 1]);
        if is_connected(pre, id) {
            let w = choose|w: int|
                0 <= w < pre.len() && pre[w] == Event::Connected(id) && forall|j: int|
                    w < j < pre.len() ==> pre[j] != Event::Disconnected(id);
            if cur[i - 1] != Event::Disconnected(id) {
                assert(cur[w] == Event::Connected(id));
                assert(is_connected(cur, id));
            }
        } else {
            if is_connected(cur, id) {
                let w = choose|w: int|
                    0 <= w < cur.len() && cur[w] == Event::Connected(id) && forall|j: int|
                        w < j < cur.len() ==> cur[j] != Event::Disconnected(id);
                if w < i - 1 {
                    assert(pre[w] == Event::Connected(id));
                    assert(is_connected(pre, id));
                }
            }
        }
        if cur[i - 1] == Event::Connected(id) {
            assert(is_connected(cur, id));
        }
        if cur[i - 1] == Event::Disconnected(id) && is_connected(cur, id) {
            let w = choose|w: int|
                0 <= w < cur.len() && cur[w] == Event::Connected(id) && forall|j: int|
                    w < j < cur.len() ==> cur[j] != Event::Disconnected(id);
            assert(w == i - 1);
        }
    } else {
        assert(!is_connected(evs.take(0), id));
    }
}

/// In a well-formed block a connection occupies at most one lobby, belongs
/// to at most one game, and only to a game of the lobby it occupies.
pub proof fn lemma_single_placement(b: BlockService, id: usize)
    requires
        b.wf(),
    ensures
        forall|l1: int, l2: int| b.placed(l1, id) && b.placed(l2, id) ==> l1 == l2,
        forall|l: int, g: int| 0 <= l < NUM_LOBBIES && #[trigger] b.lobbies@[l].in_game(g, id)
            ==> b.placed(l, id),
        forall|l1: int, g1: int, l2: int, g2: int|
            0 <= l1 < NUM_LOBBIES && 0 <= l2 < NUM_LOBBIES && #[trigger] b.lobbies@[l1].in_game(g1, id)
                && #[trigger] b.lobbies@[l2].in_game(g2, id) ==> l1 == l2 && g1 == g2,
{
    assert forall|l: int, g: int| 0 <= l < NUM_LOBBIES && #[trigger] b.lobbies@[l].in_game(g, id)
        implies b.placed(l, id) by {
        assert(b.lobbies@[l].wf());
    }
    assert forall|l1: int, g1: int, l2: int, g2: int|
        0 <= l1 < NUM_LOBBIES && 0 <= l2 < NUM_LOBBIES && #[trigger] b.lobbies@[l1].in_game(g1, id)
            && #[trigger] b.lobbies@[l2].in_game(g2, id) implies l1 == l2 && g1 == g2 by {
        assert(b.lobbies@[l1].wf());
        assert(b.lobbies@[l2].wf());
        assert(b.placed(l1, id) && b.placed(l2, id));
    }
}

/// When a connection leaves its lobby, a game it was the sole member of is
/// gone, and a game it shared keeps its settings and its other members, in
/// order; every other game stays as it was.
pub proof fn lemma_leaving_dissolves_sole_games(before: Lobby, after: Lobby, id: usize, g: int)
    requires
        before.wf(),
        Lobby::left(before, after, id),
        before.in_game(g, id),
    ensures
        before.games@[g].members@.len() == 1 ==> !after.has_game_id(before.games@[g].id),
        before.games@[g].members@.len() > 1 ==> {
            &&& after.games@[g].same_settings(before.games@[g])
            &&& after.games@[g].members@ == crate::seqs::without(before.games@[g].members@, id)
        },
        forall|k: int| 0 <= k < before.games@.len() && k != g ==> after.has_game_id(before.games@[k].id),
{
    assert(Lobby::left_game(before.games@, after.games@, g, id));
    assert(before.games@[g].wf());
    if before.games@[g].members@.len() == 1 {
        if after.has_game_id(before.games@[g].id) {
            let k = choose|k: int| 0 <= k < after.games@.len() && #[trigger] after.games@[k].id == before.games@[g].id;
            let k2 = if k < g { k } else { k + 1 };
            assert(after.games@[k] == before.games@[k2]);
        }
        assert forall|k: int| 0 <= k < before.games@.len() && k != g implies after.has_game_id(before.games@[k].id) by {
            let k2 = if k < g { k } else { k - 1 };
            assert(after.games@[k2] == before.games@[k]);
        }
    } else {
        let j = choose|j: int|
            0 <= j < before.games@[g].members@.len() && before.games@[g].members@[j] == id
                && after.games@[g].members@ == before.games@[g].members@.remove(j);
        crate::seqs::lemma_remove_is_without(before.games@[g].members@, j);
        assert forall|k: int| 0 <= k < before.games@.len() && k != g implies after.has_game_id(before.games@[k].id) by {
            assert(after.games@[k] == before.games@[k]);
        }
    }
}

/// Handling the disconnection of a game member: a game it was the sole
/// member of is gone from its lobby, a game it shared stays with its settings
/// and its other members in order, and every other game of that lobby stays.
pub proof fn lemma_disconnect_dissolves_sole_games(
    before: BlockService,
    after: BlockService,
    id: usize,
    l: int,
    g: int,
)
    requires
        before.wf(),
        BlockService::disconnect_done(before, after, id),
        0 <= l < NUM_LOBBIES,
        before.lobbies@[l].in_game(g, id),
    ensures
        !after.placed_anywhere(id),
        before.lobbies@[l].games@[g].members@.len() == 1
            ==> !after.lobbies@[l].has_game_id(before.lobbies@[l].games@[g].id),
        before.lobbies@[l].games@[g].members@.len() > 1 ==> {
            &&& after.lobbies@[l].games@[g].same_settings(before.lobbies@[l].games@[g])
            &&& after.lobbies@[l].games@[g].members@ == crate::seqs::without(
                before.lobbies@[l].games@[g].members@,
                id,
            )
        },
        forall|k: int| 0 <= k < before.lobbies@[l].games@.len() && k != g
            ==> after.lobbies@[l].has_game_id(before.lobbies@[l].games@[k].id),
{
    assert(before.lobbies@[l].wf());
    assert(before.placed(l, id));
    lemma_leaving_dissolves_sole_games(before.lobbies@[l], after.lobbies@[l], id, g);
}

/// A successful shipgate reply that carries the key of a pending login of a
/// connected client completes it: the client's session now holds the account,
/// the client alone is told to go on to character selection, and the key is
/// no longer pending, so a second reply with it is an orphan.
pub proof fn lemma_login_reply_completes(
    before: BlockService,
    after: BlockService,
    key: u64,
    cid: usize,
    account: u32,
    q: int,
    r: Effects,
)
    requires
        before.wf(),
        0 <= q < before.pending@.len(),
        before.pending@[q].key == key,
        before.pending@[q].client == cid,
        before.connected(cid),
        BlockService::reply_done(before, after, ShipgateReply { key, account: Some(account) }, r),
    ensures
        exists|c: int|
            0 <= c < after.clients@.len() && #[trigger] after.clients@[c].connection_id == cid
                && after.clients@[c].account == Some(account),
        r.sends@.len() == 1,
        r.sends@[0].to@ == seq![cid],
        r.sends@[0].msg == ServerMessage::ProceedToCharSelect,
        r.requests@.len() == 0,
        after.pending@.len() == before.pending@.len() - 1,
        !after.has_pending(key),
{
    assert(before.has_pending(key));
    let p = choose|p: int|
        0 <= p < before.pending@.len() && before.pending@[p].key == key
            && after.pending@ == before.pending@.remove(p)
            && BlockService::login_completed(before, after, before.pending@[p].client, Some(account), r);
    if p != q {
        assert(before.pending@[p].key != before.pending@[q].key);
    }
    let c = choose|c: int|
        0 <= c < before.clients@.len() && before.clients@[c].connection_id == cid
            && after.clients@ == before.clients@.update(
            c,
            crate::block::ClientState {
                connection_id: cid,
                account: Some(account),
                character: before.clients@[c].character,
            },
        );
    assert(after.clients@[c].connection_id == cid);
    if after.has_pending(key) {
        let k = choose|k: int| 0 <= k < after.pending@.len() && #[trigger] after.pending@[k].key == key;
        let k2 = if k < p { k } else { k + 1 };
        assert(after.pending@[k] == before.pending@[k2]);
        assert(before.pending@[k2].key != before.pending@[p].key);
    }
}

} // verus!
