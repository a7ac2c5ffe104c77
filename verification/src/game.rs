//! The game phase: playing players, their events, and the game-level
//! requests of the engine.

use vstd::prelude::*;

use crate::common::code_index;
use crate::common::game_index;
use crate::common::has_code;
use crate::common::lemma_remove_entry;
use crate::common::lemma_update_entry;
use crate::common::GlobalState;
use crate::common::Mailbox;
use crate::errors;
use crate::gameplay;
use crate::gameplay::{Cable, CutOutcome, Game, Team};
use crate::rng;

verus! {

/// A player taking part in a running game.
pub struct Player {
    /// The player's id, unique within the game and carried over from the
    /// lobby.
    pub id: u32,
    /// The player's display name.
    pub name: String,
    /// The player's side.
    pub team: Team,
    /// The cables currently in the player's hand.
    pub cables: Vec<Cable>,
    /// The cables cut from this player's hand so far, in cut order.
    pub revealed_cables: Vec<Cable>,
    /// The player's outbound event queue.
    pub mailbox: Mailbox<Message>,
}

impl Player {
    /// A fresh game player carrying a lobby player's identity: the given
    /// team, no cables yet, and a fresh, detached mailbox.
    pub fn new(player: &crate::lobby::Player, team: Team) -> (p: Player)
        ensures
            p.id == player.id,
            p.name == player.name,
            p.team == team,
            p.cables@ == Seq::<Cable>::empty(),
            p.revealed_cables@ == Seq::<Cable>::empty(),
            p.mailbox.queue@ == Seq::<Message>::empty(),
            !p.mailbox.attached,
    {
        Player {
            id: player.id,
            name: player.name.clone(),
            team,
            cables: Vec::new(),
            revealed_cables: Vec::new(),
            mailbox: Mailbox::new(),
        }
    }

    /// Whether a live stream is currently attached to this player.
    pub fn connected(&self) -> (r: bool)
        ensures
            r == self.mailbox.attached,
    {
        self.mailbox.attached
    }

    /// The public face of this player, as carried by game events.
    pub fn clone_data(&self) -> (d: PlayerData)
        ensures
            player_data_matches(d, *self),
    {
        PlayerData {
            id: self.id,
            name: self.name.clone(),
            revealed_cables: self.cables_clone_revealed(),
            connected: self.mailbox.attached,
        }
    }

    /// A copy of the revealed-cable history.
    fn cables_clone_revealed(&self) -> (v: Vec<Cable>)
        ensures
            v@ == self.revealed_cables@,
    {
        let mut v: Vec<Cable> = Vec::new();
        let n = self.revealed_cables.len();
        let mut i: usize = 0;
        while i < n
            invariant
                i <= n,
                n == self.revealed_cables@.len(),
                v@ == self.revealed_cables@.subrange(0, i as int),
            decreases n - i,
        {
            v.push(self.revealed_cables[i]);
            i = i + 1;
        }
        proof {
            assert(v@ =~= self.revealed_cables@);
        }
        v
    }

    /// Removes one cable, picked at random, from the hand and records it in
    /// the revealed history.  The cutter does not choose which cable falls:
    /// the hand is shuffled, then the last cable is taken.
    pub fn cut_cable(&mut self) -> (c: Cable)
        requires
            old(self).cables@.len() > 0,
        ensures
            old(self).cables@.to_multiset().count(c) > 0,
            final(self).cables@.to_multiset() == old(self).cables@.to_multiset().remove(c),
            final(self).cables@.len() == old(self).cables@.len() - 1,
            final(self).revealed_cables@ == old(self).revealed_cables@.push(c),
            final(self).id == old(self).id,
            final(self).name == old(self).name,
            final(self).team == old(self).team,
            final(self).mailbox == old(self).mailbox,
    {
        rng::shuffle(&mut self.cables);
        let ghost pre = self.cables@;
        let c = self.cables.pop().unwrap();
        proof {
            broadcast use vstd::seq_lib::group_to_multiset_ensures;

            assert(pre.drop_last() =~= pre.remove(pre.len() - 1));
            assert(self.cables@ =~= pre.drop_last());
            assert(pre.remove(pre.len() - 1).to_multiset() == pre.to_multiset().remove(
                pre.last(),
            ));
            assert(pre.to_multiset().contains(pre.last())) by {
                assert(pre.contains(pre.last()));
            }
        }
        self.revealed_cables.push(c);
        c
    }
}

impl gameplay::Player for Player {
    fn id(&self) -> u32 {
        self.id
    }

    fn name(&self) -> &str {
        self.name.as_str()
    }
}

impl gameplay::PlayingPlayer for Player {
    open spec fn spec_cables(&self) -> Seq<Cable> {
        self.cables@
    }

    fn connected(&self) -> bool {
        self.mailbox.attached
    }

    fn team(&self) -> Team {
        self.team
    }

    fn cables(&self) -> &[Cable] {
        self.cables.as_slice()
    }

    fn set_cables(&mut self, cables: Vec<Cable>) {
        self.cables = cables;
    }

    fn cut_cable(&mut self) -> Cable {
        Player::cut_cable(self)
    }
}

/// The public face of a game player, as carried by game events.
pub struct PlayerData {
    /// The player's id.
    pub id: u32,
    /// The player's display name.
    pub name: String,
    /// The cables cut from this player's hand so far, in cut order.
    pub revealed_cables: Vec<Cable>,
    /// Whether a live stream is currently attached to the player.
    pub connected: bool,
}

/// Whether `d` is the public face of player `p`.
pub open spec fn player_data_matches(d: PlayerData, p: Player) -> bool {
    &&& d.id == p.id
    &&& d.name@ == p.name@
    &&& d.revealed_cables@ == p.revealed_cables@
    &&& d.connected == p.mailbox.attached
}

/// One event of a game's outbound stream.
#[allow(inconsistent_fields)]
pub enum Message {
    /// A request failed; the reason is reported to the requester.
    Error {
        /// The failure, in words.
        reason: &'static str,
    },
    /// Snapshot of the game, sent only to a player whose stream just
    /// attached.
    Initialize {
        /// The game's code.
        lobby: String,
        /// The public face of every player.
        players: Vec<PlayerData>,
        /// The addressee's own team.
        team: Team,
        /// The id of the player holding the wire cutters.
        wire_cutters: u32,
    },
    /// A player's stream attached.
    Connect {
        /// The id of the player.
        player: u32,
    },
    /// A player's stream detached.
    Disconnect {
        /// The id of the player.
        player: u32,
    },
    /// A round began; the payload is the addressee's own hand and therefore
    /// differs per recipient.
    RoundStart {
        /// The addressee's hand for the new round.
        cables: Vec<Cable>,
    },
    /// A cable was cut from a player's hand.
    Cut {
        /// The id of the player whose cable fell.
        player: u32,
        /// The cable that fell.
        cable: Cable,
    },
    /// The game is over.
    Win {
        /// The winning team.
        team: Team,
        /// The ids of the winning players.
        players: Vec<u32>,
    },
}

impl Message {
    /// The tag under which an event is delivered to clients.
    pub fn name(&self) -> (r: &'static str)
        ensures
            *self is Error ==> r@ == "error"@,
            *self is Initialize ==> r@ == "init"@,
            *self is Connect ==> r@ == "connect"@,
            *self is Disconnect ==> r@ == "disconnect"@,
            *self is RoundStart ==> r@ == "round_start"@,
            *self is Cut ==> r@ == "cut"@,
            *self is Win ==> r@ == "win"@,
    {
        match self {
            Message::Error { .. } => "error",
            Message::Initialize { .. } => "init",
            Message::Connect { .. } => "connect",
            Message::Disconnect { .. } => "disconnect",
            Message::RoundStart { .. } => "round_start",
            Message::Cut { .. } => "cut",
            Message::Win { .. } => "win",
        }
    }
}

/// An element-wise copy of a cable list.
fn clone_cables(v: &Vec<Cable>) -> (r: Vec<Cable>)
    ensures
        r@ == v@,
{
    let n = v.len();
    let mut r: Vec<Cable> = Vec::new();
    let mut i: usize = 0;
    while i < n
        invariant
            i <= n,
            n == v@.len(),
            r@ == v@.subrange(0, i as int),
        decreases n - i,
    {
        r.push(v[i]);
        i = i + 1;
    }
    proof {
        assert(r@ =~= v@);
    }
    r
}

/// An element-wise copy of an id list.
fn clone_ids(v: &Vec<u32>) -> (r: Vec<u32>)
    ensures
        r@ == v@,
{
    let n = v.len();
    let mut r: Vec<u32> = Vec::new();
    let mut i: usize = 0;
    while i < n
        invariant
            i <= n,
            n == v@.len(),
            r@ == v@.subrange(0, i as int),
        decreases n - i,
    {
        r.push(v[i]);
        i = i + 1;
    }
    proof {
        assert(r@ =~= v@);
    }
    r
}

/// Whether `post` and `pre` agree on everything but the mailbox queue.
pub open spec fn kept_but_queue(post: Player, pre: Player) -> bool {
    &&& post.id == pre.id
    &&& post.name == pre.name
    &&& post.team == pre.team
    &&& post.cables == pre.cables
    &&& post.revealed_cables == pre.revealed_cables
    &&& post.mailbox.attached == pre.mailbox.attached
}

/// Whether `post` is `pre` with exactly one more queued event.
pub open spec fn appended_one(post: Player, pre: Player) -> bool {
    &&& kept_but_queue(post, pre)
    &&& post.mailbox.queue@.len() == pre.mailbox.queue@.len() + 1
    &&& post.mailbox.queue@.drop_last() == pre.mailbox.queue@
}

/// Whether `post` is `pre` with exactly the event `m` queued.
pub open spec fn game_sent(post: Player, pre: Player, m: Message) -> bool {
    &&& kept_but_queue(post, pre)
    &&& post.mailbox.queue@ == pre.mailbox.queue@.push(m)
}

/// Whether `post` is `pre` with one `Win` event for `team` queued, carrying
/// exactly the ids `ids`.
pub open spec fn win_sent(post: Player, pre: Player, team: Team, ids: Seq<u32>) -> bool {
    &&& appended_one(post, pre)
    &&& post.mailbox.queue@.last() matches Message::Win { team: t, players: p } && t == team
        && p@ == ids
}

/// Whether `post` is `pre` with one `RoundStart` event queued carrying
/// exactly the hand `hand`.
pub open spec fn round_sent(post: Player, pre: Player, hand: Seq<Cable>) -> bool {
    &&& appended_one(post, pre)
    &&& post.mailbox.queue@.last() matches Message::RoundStart { cables } && cables@ == hand
}

/// Whether `post` is `pre` with one `Initialize` snapshot queued: code
/// `code`, the public face of roster `ps`, the addressee's team `team` and
/// wire-cutter holder `wc`.
pub open spec fn game_init_sent(
    post: Player,
    pre: Player,
    code: Seq<char>,
    ps: Seq<Player>,
    team: Team,
    wc: u32,
) -> bool {
    &&& appended_one(post, pre)
    &&& post.mailbox.queue@.last() matches Message::Initialize {
        lobby,
        players,
        team: t,
        wire_cutters,
    } && lobby@ == code && players@.len() == ps.len() && (forall|k: int|
        0 <= k < ps.len() ==> player_data_matches(#[trigger] players@[k], ps[k])) && t == team
        && wire_cutters == wc
}

/// Queues the event `msg` for the player at position `j` of the game.
fn push_game_msg(g: &mut gameplay::Game, j: usize, msg: Message)
    requires
        j < old(g).players@.len(),
    ensures
        final(g).name == old(g).name,
        final(g).wire_cutters == old(g).wire_cutters,
        final(g).defusing_remaining == old(g).defusing_remaining,
        final(g).cutted_count == old(g).cutted_count,
        final(g).players@.len() == old(g).players@.len(),
        forall|k: int|
            0 <= k < old(g).players@.len() && k != j ==> final(g).players@[k] == #[trigger] old(
                g,
            ).players@[k],
        game_sent(final(g).players@[j as int], old(g).players@[j as int], msg),
{
    let mut p = g.players.remove(j);
    p.mailbox.send(msg);
    g.players.insert(j, p);
}

/// An equal copy of any event that carries no list payload.
fn duplicate(m: &Message) -> (r: Message)
    requires
        *m is Error || *m is Connect || *m is Disconnect || *m is Cut,
    ensures
        r == *m,
{
    match m {
        Message::Error { reason } => Message::Error { reason: *reason },
        Message::Connect { player } => Message::Connect { player: *player },
        Message::Disconnect { player } => Message::Disconnect { player: *player },
        Message::Cut { player, cable } => Message::Cut { player: *player, cable: *cable },
        _ => Message::Connect { player: 0 },
    }
}

/// Queues the same event for every player of the game, attached or not.
#[verifier::loop_isolation(false)]
pub fn broadcast(g: &mut gameplay::Game, msg: &Message)
    requires
        *msg is Error || *msg is Connect || *msg is Disconnect || *msg is Cut,
    ensures
        final(g).name == old(g).name,
        final(g).wire_cutters == old(g).wire_cutters,
        final(g).defusing_remaining == old(g).defusing_remaining,
        final(g).cutted_count == old(g).cutted_count,
        final(g).players@.len() == old(g).players@.len(),
        forall|k: int|
            0 <= k < old(g).players@.len() ==> game_sent(
                #[trigger] final(g).players@[k],
                old(g).players@[k],
                *msg,
            ),
{
    let n = g.players.len();
    let mut j: usize = 0;
    while j < n
        invariant
            j <= n,
            forall|k: int| j <= k < n ==> g.players@[k] == #[trigger] old(g).players@[k],
            forall|k: int|
                0 <= k < j ==> game_sent(#[trigger] g.players@[k], old(g).players@[k], *msg),
            g.players@.len() == n,
            g.name == old(g).name,
            g.wire_cutters == old(g).wire_cutters,
            g.defusing_remaining == old(g).defusing_remaining,
            g.cutted_count == old(g).cutted_count,
        decreases n - j,
    {
        let ghost prev = g.players@;
        let copy = duplicate(msg);
        push_game_msg(g, j, copy);
        proof {
            assert forall|k: int| 0 <= k < j + 1 implies game_sent(
                #[trigger] g.players@[k],
                old(g).players@[k],
                *msg,
            ) by {
                if k < j {
                    assert(g.players@[k] == prev[k]);
                }
            }
        }
        j = j + 1;
    }
}

/// Queues a `Win` event for every player, carrying the winning team and the
/// ids of its members.
#[verifier::loop_isolation(false)]
pub fn broadcast_win(g: &mut gameplay::Game, team: Team, winning: &Vec<u32>)
    ensures
        final(g).name == old(g).name,
        final(g).wire_cutters == old(g).wire_cutters,
        final(g).defusing_remaining == old(g).defusing_remaining,
        final(g).cutted_count == old(g).cutted_count,
        final(g).players@.len() == old(g).players@.len(),
        forall|k: int|
            0 <= k < old(g).players@.len() ==> win_sent(
                #[trigger] final(g).players@[k],
                old(g).players@[k],
                team,
                winning@,
            ),
{
    let n = g.players.len();
    let mut j: usize = 0;
    while j < n
        invariant
            j <= n,
            forall|k: int| j <= k < n ==> g.players@[k] == #[trigger] old(g).players@[k],
            forall|k: int|
                0 <= k < j ==> win_sent(#[trigger] g.players@[k], old(g).players@[k], team, winning@),
            g.players@.len() == n,
            g.name == old(g).name,
            g.wire_cutters == old(g).wire_cutters,
            g.defusing_remaining == old(g).defusing_remaining,
            g.cutted_count == old(g).cutted_count,
        decreases n - j,
    {
        let ghost prev = g.players@;
        let ids = clone_ids(winning);
        let msg = Message::Win { team, players: ids };
        let ghost m = msg;
        let ghost q = g.players@[j as int].mailbox.queue@;
        push_game_msg(g, j, msg);
        proof {
            assert(q.push(m).drop_last() =~= q);
            assert forall|k: int| 0 <= k < j + 1 implies win_sent(
                #[trigger] g.players@[k],
                old(g).players@[k],
                team,
                winning@,
            ) by {
                if k < j {
                    assert(g.players@[k] == prev[k]);
                }
            }
        }
        j = j + 1;
    }
}

/// Queues a `RoundStart` event for every player; each payload is that
/// player's own hand, never a shared one.
#[verifier::loop_isolation(false)]
pub fn send_round(g: &mut gameplay::Game)
    ensures
        final(g).name == old(g).name,
        final(g).wire_cutters == old(g).wire_cutters,
        final(g).defusing_remaining == old(g).defusing_remaining,
        final(g).cutted_count == old(g).cutted_count,
        final(g).players@.len() == old(g).players@.len(),
        forall|k: int|
            0 <= k < old(g).players@.len() ==> round_sent(
                #[trigger] final(g).players@[k],
                old(g).players@[k],
                old(g).players@[k].cables@,
            ),
{
    let n = g.players.len();
    let mut j: usize = 0;
    while j < n
        invariant
            j <= n,
            forall|k: int| j <= k < n ==> g.players@[k] == #[trigger] old(g).players@[k],
            forall|k: int|
                0 <= k < j ==> round_sent(
                    #[trigger] g.players@[k],
                    old(g).players@[k],
                    old(g).players@[k].cables@,
                ),
            g.players@.len() == n,
            g.name == old(g).name,
            g.wire_cutters == old(g).wire_cutters,
            g.defusing_remaining == old(g).defusing_remaining,
            g.cutted_count == old(g).cutted_count,
        decreases n - j,
    {
        let ghost prev = g.players@;
        let hand = clone_cables(&g.players[j].cables);
        let msg = Message::RoundStart { cables: hand };
        let ghost m = msg;
        let ghost q = g.players@[j as int].mailbox.queue@;
        push_game_msg(g, j, msg);
        proof {
            assert(q.push(m).drop_last() =~= q);
            assert forall|k: int| 0 <= k < j + 1 implies round_sent(
                #[trigger] g.players@[k],
                old(g).players@[k],
                old(g).players@[k].cables@,
            ) by {
                if k < j {
                    assert(g.players@[k] == prev[k]);
                }
            }
        }
        j = j + 1;
    }
}

/// Queues a `RoundStart` event carrying the addressee's own hand for the
/// player at position `j` alone.
pub fn send_hand(g: &mut gameplay::Game, j: usize)
    requires
        j < old(g).players@.len(),
    ensures
        final(g).name == old(g).name,
        final(g).wire_cutters == old(g).wire_cutters,
        final(g).defusing_remaining == old(g).defusing_remaining,
        final(g).cutted_count == old(g).cutted_count,
        final(g).players@.len() == old(g).players@.len(),
        forall|k: int|
            0 <= k < old(g).players@.len() && k != j ==> final(g).players@[k] == #[trigger] old(
                g,
            ).players@[k],
        round_sent(
            final(g).players@[j as int],
            old(g).players@[j as int],
            old(g).players@[j as int].cables@,
        ),
{
    let hand = clone_cables(&g.players[j].cables);
    let msg = Message::RoundStart { cables: hand };
    let ghost m = msg;
    let ghost q = g.players@[j as int].mailbox.queue@;
    push_game_msg(g, j, msg);
    proof {
        assert(q.push(m).drop_last() =~= q);
    }
}

/// Queues an `Initialize` snapshot of the whole game for the player at
/// position `j` alone.
#[verifier::loop_isolation(false)]
pub fn send_initialize(g: &mut gameplay::Game, j: usize)
    requires
        j < old(g).players@.len(),
    ensures
        final(g).name == old(g).name,
        final(g).wire_cutters == old(g).wire_cutters,
        final(g).defusing_remaining == old(g).defusing_remaining,
        final(g).cutted_count == old(g).cutted_count,
        final(g).players@.len() == old(g).players@.len(),
        forall|k: int|
            0 <= k < old(g).players@.len() && k != j ==> final(g).players@[k] == #[trigger] old(
                g,
            ).players@[k],
        game_init_sent(
            final(g).players@[j as int],
            old(g).players@[j as int],
            old(g).name@,
            old(g).players@,
            old(g).players@[j as int].team,
            old(g).wire_cutters,
        ),
{
    let n = g.players.len();
    let mut data: Vec<PlayerData> = Vec::new();
    let mut k: usize = 0;
    while k < n
        invariant
            k <= n,
            data@.len() == k,
            forall|i: int|
                0 <= i < k ==> player_data_matches(#[trigger] data@[i], g.players@[i]),
        decreases n - k,
    {
        data.push(g.players[k].clone_data());
        k = k + 1;
    }
    let team = g.players[j].team;
    let msg = Message::Initialize {
        lobby: g.name.clone(),
        players: data,
        team,
        wire_cutters: g.wire_cutters,
    };
    let ghost m = msg;
    let ghost q = g.players@[j as int].mailbox.queue@;
    push_game_msg(g, j, msg);
    proof {
        assert(q.push(m).drop_last() =~= q);
    }
}

/// The ids of the players on the given team, in roster order.
pub open spec fn team_ids(ps: Seq<Player>, t: Team) -> Seq<u32>
    decreases ps.len(),
{
    if ps.len() == 0 {
        Seq::empty()
    } else if ps.last().team == t {
        team_ids(ps.drop_last(), t).push(ps.last().id)
    } else {
        team_ids(ps.drop_last(), t)
    }
}

/// Collects the ids of the players on the given team, in roster order.
#[verifier::loop_isolation(false)]
pub fn winning_players(g: &gameplay::Game, t: Team) -> (r: Vec<u32>)
    ensures
        r@ == team_ids(g.players@, t),
{
    let n = g.players.len();
    let mut r: Vec<u32> = Vec::new();
    let mut i: usize = 0;
    while i < n
        invariant
            i <= n,
            r@ == team_ids(g.players@.take(i as int), t),
        decreases n - i,
    {
        proof {
            let tp = g.players@.take(i + 1);
            assert(tp.drop_last() =~= g.players@.take(i as int));
            assert(tp.last() == g.players@[i as int]);
        }
        if g.players[i].team == t {
            r.push(g.players[i].id);
        }
        i = i + 1;
    }
    proof {
        assert(g.players@.take(n as int) =~= g.players@);
    }
    r
}

/// Whether any player of the game currently has a live stream attached.
pub fn any_connected(g: &Game) -> (r: bool)
    ensures
        r == exists|k: int|
            0 <= k < g.players@.len() && (#[trigger] g.players@[k]).mailbox.attached,
{
    let n = g.players.len();
    let mut i: usize = 0;
    while i < n
        invariant
            i <= n,
            n == g.players@.len(),
            forall|k: int| 0 <= k < i ==> !(#[trigger] g.players@[k]).mailbox.attached,
        decreases n - i,
    {
        if g.players[i].connected() {
            return true;
        }
        i = i + 1;
    }
    false
}

/// Whether `post` is `pre` with player `id`'s stream freshly attached: the
/// backlog is discarded, the addressee's mailbox holds exactly the
/// `Initialize` snapshot, the addressee's own hand, and the `Connect`
/// announcement that every other player also received.
pub open spec fn attach_effect(post: Game, pre: Game, id: u32) -> bool {
    let pi = gameplay::index_of_id(pre.players@, id);
    let p0 = pre.players@[pi];
    let p1 = post.players@[pi];
    &&& post.name == pre.name
    &&& post.wire_cutters == pre.wire_cutters
    &&& post.defusing_remaining == pre.defusing_remaining
    &&& post.cutted_count == pre.cutted_count
    &&& post.players@.len() == pre.players@.len()
    &&& forall|k: int|
        0 <= k < pre.players@.len() && k != pi ==> game_sent(
            #[trigger] post.players@[k],
            pre.players@[k],
            Message::Connect { player: id },
        )
    &&& p1.id == p0.id
    &&& p1.name == p0.name
    &&& p1.team == p0.team
    &&& p1.cables == p0.cables
    &&& p1.revealed_cables == p0.revealed_cables
    &&& p1.mailbox.attached
    &&& p1.mailbox.queue@.len() == 3
    &&& (p1.mailbox.queue@[0] matches Message::Initialize { lobby, players, team, wire_cutters }
        && lobby@ == pre.name@ && players@.len() == pre.players@.len() && (forall|k: int|
        0 <= k < pre.players@.len() && k != pi ==> player_data_matches(
            #[trigger] players@[k],
            pre.players@[k],
        )) && players@[pi].id == p0.id && players@[pi].name@ == p0.name@
        && players@[pi].revealed_cables@ == p0.revealed_cables@ && players@[pi].connected && team
        == p0.team && wire_cutters == pre.wire_cutters)
    &&& (p1.mailbox.queue@[1] matches Message::RoundStart { cables } && cables@ == p0.cables@)
    &&& p1.mailbox.queue@[2] == Message::Connect { player: id }
}

/// Attaches a live stream to player `id` of the game at `code`.  At most
/// one stream may consume a mailbox at a time; stale events queued while
/// detached are never delivered — the newcomer catches up through a fresh
/// `Initialize` snapshot instead.
pub fn attach_stream(st: &mut GlobalState, code: &String, id: u32) -> (r: Result<
    (),
    errors::Attach,
>)
    requires
        old(st).inv(),
    ensures
        final(st).inv(),
        !has_code(old(st).games@, code@) ==> r == Err::<(), errors::Attach>(
            errors::Attach::UnknownRoom,
        ) && *final(st) == *old(st),
        has_code(old(st).games@, code@) ==> {
            let gi = code_index(old(st).games@, code@);
            let g = old(st).games@[gi].1;
            if !gameplay::has_player_id(g.players@, id) {
                r == Err::<(), errors::Attach>(errors::Attach::UnknownPlayer) && *final(st)
                    == *old(st)
            } else if g.players@[gameplay::index_of_id(g.players@, id)].mailbox.attached {
                r == Err::<(), errors::Attach>(errors::Attach::AlreadyAttached) && *final(st)
                    == *old(st)
            } else {
                &&& r == Ok::<(), errors::Attach>(())
                &&& final(st).lobbys@ == old(st).lobbys@
                &&& final(st).games@.len() == old(st).games@.len()
                &&& forall|k: int|
                    0 <= k < old(st).games@.len() && k != gi ==> final(st).games@[k]
                        == #[trigger] old(st).games@[k]
                &&& final(st).games@[gi].0 == old(st).games@[gi].0
                &&& attach_effect(final(st).games@[gi].1, g, id)
            }
        },
{
    let gi = match game_index(st, code) {
        None => {
            return Err(errors::Attach::UnknownRoom);
        },
        Some(gi) => gi,
    };
    let ghost pre = *st;
    proof {
        let ci = code_index(pre.games@, code@);
        assert(0 <= ci < pre.games@.len() && pre.games@[ci].0@ == code@);
        assert(ci == gi as int);
    }
    let pi = match st.games[gi].1.get_index(id) {
        None => {
            return Err(errors::Attach::UnknownPlayer);
        },
        Some(pi) => pi,
    };
    let ghost g0 = pre.games@[gi as int].1;
    proof {
        let ip = gameplay::index_of_id(g0.players@, id);
        assert(0 <= ip < g0.players@.len() && g0.players@[ip].id == id);
        assert(ip == pi as int);
    }
    if st.games[gi].1.players[pi].connected() {
        return Err(errors::Attach::AlreadyAttached);
    }
    let mut entry = st.games.remove(gi);
    let mut p = entry.1.players.remove(pi);
    let attached = p.mailbox.attach();
    entry.1.players.insert(pi, p);
    proof {
        assert(entry.1.players@ =~= g0.players@.update(pi as int, entry.1.players@[pi as int]));
    }
    let ghost g_att = entry.1;
    send_initialize(&mut entry.1, pi);
    let ghost g_init = entry.1;
    send_hand(&mut entry.1, pi);
    let ghost g_hand = entry.1;
    broadcast(&mut entry.1, &Message::Connect { player: id });
    st.games.insert(gi, entry);
    proof {
        let post = st.games@[gi as int].1;
        assert(st.games@ =~= pre.games@.update(gi as int, st.games@[gi as int]));
        lemma_update_entry(pre.games@, gi as int, st.games@[gi as int]);
        let q0 = g_init.players@[pi as int].mailbox.queue@;
        assert(q0.len() == 1);
        let q1 = g_hand.players@[pi as int].mailbox.queue@;
        assert(q1 == q0.push(q1.last()));
        assert(q1.len() == 2);
        assert(q1[0] == q0[0]);
        let q2 = post.players@[pi as int].mailbox.queue@;
        assert(q2 == q1.push(Message::Connect { player: id }));
        assert(q2[0] == q1[0] && q2[1] == q1[1]);
        assert(q0[0] == q0.last());
        assert(q1[1] == q1.last());
        assert forall|k: int| 0 <= k < g0.players@.len() && k != pi as int implies game_sent(
            #[trigger] post.players@[k],
            g0.players@[k],
            Message::Connect { player: id },
        ) by {
            assert(g_att.players@[k] == g0.players@[k]);
            assert(g_init.players@[k] == g_att.players@[k]);
            assert(g_hand.players@[k] == g_init.players@[k]);
            assert(game_sent(post.players@[k], g_hand.players@[k], Message::Connect { player: id }));
        }
        assert(attach_effect(post, g0, id));
        gameplay::lemma_roster_sums(post.players@, g0.players@, Team::Sherlock);
        gameplay::lemma_same_game_ids(post.players@, g0.players@);
        assert(post.wf());
    }
    Ok(())
}

/// Whether `post` is `pre` with player `id`'s stream detached: every
/// player, the leaver included, got the `Disconnect` announcement, and the
/// leaver's mailbox keeps its backlog but accepts a future attach.
pub open spec fn detach_effect(post: Game, pre: Game, id: u32) -> bool {
    let pi = gameplay::index_of_id(pre.players@, id);
    let p0 = pre.players@[pi];
    let p1 = post.players@[pi];
    let msg = Message::Disconnect { player: id };
    &&& post.name == pre.name
    &&& post.wire_cutters == pre.wire_cutters
    &&& post.defusing_remaining == pre.defusing_remaining
    &&& post.cutted_count == pre.cutted_count
    &&& post.players@.len() == pre.players@.len()
    &&& forall|k: int|
        0 <= k < pre.players@.len() && k != pi ==> game_sent(
            #[trigger] post.players@[k],
            pre.players@[k],
            msg,
        )
    &&& p1.id == p0.id
    &&& p1.name == p0.name
    &&& p1.team == p0.team
    &&& p1.cables == p0.cables
    &&& p1.revealed_cables == p0.revealed_cables
    &&& !p1.mailbox.attached
    &&& p1.mailbox.queue@ == p0.mailbox.queue@.push(msg)
}

/// Detaches player `id`'s stream from the game at `code`, announcing the
/// disconnect to every player first.  Returns whether the room is now fully
/// detached, in which case the caller schedules a deferred `sweep_game`.
/// A no-op (returning `false`) when the room or the player is unknown.
pub fn detach_stream(st: &mut GlobalState, code: &String, id: u32) -> (sweep: bool)
    requires
        old(st).inv(),
    ensures
        final(st).inv(),
        final(st).lobbys@ == old(st).lobbys@,
        !has_code(old(st).games@, code@) ==> *final(st) == *old(st) && !sweep,
        has_code(old(st).games@, code@) ==> {
            let gi = code_index(old(st).games@, code@);
            let g = old(st).games@[gi].1;
            if !gameplay::has_player_id(g.players@, id) {
                *final(st) == *old(st) && !sweep
            } else {
                &&& final(st).games@.len() == old(st).games@.len()
                &&& forall|k: int|
                    0 <= k < old(st).games@.len() && k != gi ==> final(st).games@[k]
                        == #[trigger] old(st).games@[k]
                &&& final(st).games@[gi].0 == old(st).games@[gi].0
                &&& detach_effect(final(st).games@[gi].1, g, id)
                &&& {
                    let ps = final(st).games@[gi].1.players@;
                    sweep == !(exists|k: int|
                        0 <= k < ps.len() && (#[trigger] ps[k]).mailbox.attached)
                }
            }
        },
{
    let gi = match game_index(st, code) {
        None => {
            return false;
        },
        Some(gi) => gi,
    };
    let ghost pre = *st;
    proof {
        let ci = code_index(pre.games@, code@);
        assert(0 <= ci < pre.games@.len() && pre.games@[ci].0@ == code@);
        assert(ci == gi as int);
    }
    let pi = match st.games[gi].1.get_index(id) {
        None => {
            return false;
        },
        Some(pi) => pi,
    };
    let ghost g0 = pre.games@[gi as int].1;
    proof {
        let ip = gameplay::index_of_id(g0.players@, id);
        assert(0 <= ip < g0.players@.len() && g0.players@[ip].id == id);
        assert(ip == pi as int);
    }
    let mut entry = st.games.remove(gi);
    broadcast(&mut entry.1, &Message::Disconnect { player: id });
    let ghost g_bc = entry.1;
    let mut p = entry.1.players.remove(pi);
    p.mailbox.detach();
    entry.1.players.insert(pi, p);
    proof {
        assert(entry.1.players@ =~= g_bc.players@.update(pi as int, entry.1.players@[pi as int]));
    }
    let sweep = !any_connected(&entry.1);
    st.games.insert(gi, entry);
    proof {
        let post = st.games@[gi as int].1;
        assert(st.games@ =~= pre.games@.update(gi as int, st.games@[gi as int]));
        lemma_update_entry(pre.games@, gi as int, st.games@[gi as int]);
        assert(detach_effect(post, g0, id));
        gameplay::lemma_roster_sums(post.players@, g0.players@, Team::Sherlock);
        gameplay::lemma_same_game_ids(post.players@, g0.players@);
        assert(post.wf());
    }
    sweep
}

/// Unregisters the game at `code` when no player is attached any more; the
/// deferred sweep scheduled after the last detach.  At fire time the
/// current attachment state is re-checked, not the state at scheduling
/// time, so a room that a reconnect has revived is left alone.
pub fn sweep_game(st: &mut GlobalState, code: &String)
    requires
        old(st).inv(),
    ensures
        final(st).inv(),
        final(st).lobbys@ == old(st).lobbys@,
        !has_code(old(st).games@, code@) ==> *final(st) == *old(st),
        has_code(old(st).games@, code@) ==> {
            let gi = code_index(old(st).games@, code@);
            let g = old(st).games@[gi].1;
            if exists|k: int|
                0 <= k < g.players@.len() && (#[trigger] g.players@[k]).mailbox.attached {
                *final(st) == *old(st)
            } else {
                final(st).games@ == old(st).games@.remove(gi) && !has_code(
                    final(st).games@,
                    code@,
                )
            }
        },
{
    let gi = match game_index(st, code) {
        None => {
            return ;
        },
        Some(gi) => gi,
    };
    let ghost pre = *st;
    proof {
        let ci = code_index(pre.games@, code@);
        assert(0 <= ci < pre.games@.len() && pre.games@[ci].0@ == code@);
        assert(ci == gi as int);
    }
    if any_connected(&st.games[gi].1) {
        return ;
    }
    st.games.remove(gi);
    proof {
        lemma_remove_entry(pre.games@, gi as int);
        assert forall|i: int, j: int|
            #![trigger st.lobbys@[i], st.games@[j]]
            0 <= i < st.lobbys@.len() && 0 <= j < st.games@.len() implies st.lobbys@[i].0@
            != st.games@[j].0@ by {
            let j0 = if j < gi as int { j } else { j + 1 };
            assert(st.games@[j] == pre.games@[j0]);
        }
    }
}

/// Whether `post` is `pre` with the `Cut` announcement for `target`/`c`
/// queued for every player.
pub open spec fn cut_broadcasted(post: Game, pre: Game, target: u32, c: Cable) -> bool {
    &&& post.name == pre.name
    &&& post.wire_cutters == pre.wire_cutters
    &&& post.defusing_remaining == pre.defusing_remaining
    &&& post.cutted_count == pre.cutted_count
    &&& post.players@.len() == pre.players@.len()
    &&& forall|k: int|
        0 <= k < pre.players@.len() ==> game_sent(
            #[trigger] post.players@[k],
            pre.players@[k],
            Message::Cut { player: target, cable: c },
        )
}

/// Whether `post` is `pre` with a `Win` event for `t` queued for every
/// player, carrying the ids of `t`'s members.
pub open spec fn win_broadcasted(post: Game, pre: Game, t: Team) -> bool {
    &&& post.name == pre.name
    &&& post.wire_cutters == pre.wire_cutters
    &&& post.defusing_remaining == pre.defusing_remaining
    &&& post.players@.len() == pre.players@.len()
    &&& forall|k: int|
        0 <= k < pre.players@.len() ==> win_sent(
            #[trigger] post.players@[k],
            pre.players@[k],
            t,
            team_ids(pre.players@, t),
        )
}

/// Whether `post` is `pre` after a non-terminal round close: counter reset
/// and every remaining cable pooled and dealt out evenly again.
pub open spec fn next_rounded(post: Game, pre: Game) -> bool {
    &&& post.cutted_count == 0
    &&& post.name == pre.name
    &&& post.wire_cutters == pre.wire_cutters
    &&& post.defusing_remaining == pre.defusing_remaining
    &&& post.players@.len() == pre.players@.len()
    &&& forall|k: int|
        0 <= k < pre.players@.len() ==> gameplay::hand_swapped(
            #[trigger] post.players@[k],
            pre.players@[k],
        )
    &&& gameplay::hands_multiset(post.players@) == gameplay::hands_multiset(pre.players@)
}

/// Whether `post` is `pre` with a `RoundStart` event queued for every
/// player, each carrying that player's own hand.
pub open spec fn round_broadcasted(post: Game, pre: Game) -> bool {
    &&& post.name == pre.name
    &&& post.wire_cutters == pre.wire_cutters
    &&& post.defusing_remaining == pre.defusing_remaining
    &&& post.cutted_count == pre.cutted_count
    &&& post.players@.len() == pre.players@.len()
    &&& forall|k: int|
        0 <= k < pre.players@.len() ==> round_sent(
            #[trigger] post.players@[k],
            pre.players@[k],
            pre.players@[k].cables@,
        )
}

/// How one resolved cut left the registry and the finished room, given the
/// immediate game-level effect `g1` of the cut itself.
pub open spec fn cut_resolved(
    pre: GlobalState,
    post: GlobalState,
    gi: int,
    g1: Game,
    target: u32,
    c: Cable,
    o: CutOutcome,
    fin: Option<Game>,
) -> bool {
    match o {
        CutOutcome::Win(t) => {
            &&& post.games@ == pre.games@.remove(gi)
            &&& fin matches Some(gf) && (exists|g2: Game| #[trigger]
            cut_broadcasted(g2, g1, target, c) && win_broadcasted(gf, g2, t))
        },
        CutOutcome::Nothing => {
            &&& fin is None
            &&& post.games@.len() == pre.games@.len()
            &&& (forall|k: int|
                0 <= k < pre.games@.len() && k != gi ==> post.games@[k] == #[trigger] pre.games@[k])
            &&& post.games@[gi].0 == pre.games@[gi].0
            &&& cut_broadcasted(post.games@[gi].1, g1, target, c)
        },
        CutOutcome::RoundEnd => {
            if gameplay::hands_multiset(g1.players@).len() == g1.players@.len() {
                // each player holds one last cable: the round is terminal and
                // resolves as a saboteur win by default
                &&& post.games@ == pre.games@.remove(gi)
                &&& fin matches Some(gf) && gf.cutted_count == 0 && (exists|g2: Game| #[trigger]
                cut_broadcasted(g2, g1, target, c) && win_broadcasted(gf, g2, Team::Moriarty))
            } else {
                &&& fin is None
                &&& post.games@.len() == pre.games@.len()
                &&& (forall|k: int|
                    0 <= k < pre.games@.len() && k != gi ==> post.games@[k] == #[trigger] pre.games@[k])
                &&& post.games@[gi].0 == pre.games@[gi].0
                &&& (exists|g2: Game, g3: Game|
                    #![trigger cut_broadcasted(g2, g1, target, c), next_rounded(g3, g2)]
                    cut_broadcasted(g2, g1, target, c) && next_rounded(g3, g2)
                        && round_broadcasted(post.games@[gi].1, g3))
            }
        },
    }
}

/// The full effect of one cut request on the registries: the error taxonomy
/// exactly, and on success the cut itself (`gameplay::cut_spec`) followed
/// by its resolution (`cut_resolved`).  A finished room is unregistered and
/// handed back for final delivery of the queued `Win` events.
pub open spec fn cut_request_spec(
    pre: GlobalState,
    post: GlobalState,
    code: Seq<char>,
    cutter: u32,
    target: u32,
    r: Result<(Cable, CutOutcome, Option<Game>), errors::CutRequest>,
) -> bool {
    if !has_code(pre.games@, code) {
        &&& r == Err::<(Cable, CutOutcome, Option<Game>), errors::CutRequest>(
            errors::CutRequest::UnknownRoom,
        )
        &&& post == pre
    } else {
        let gi = code_index(pre.games@, code);
        let g = pre.games@[gi].1;
        if !gameplay::has_player_id(g.players@, cutter) {
            &&& r == Err::<(Cable, CutOutcome, Option<Game>), errors::CutRequest>(
                errors::CutRequest::CutterNotInGame,
            )
            &&& post == pre
        } else if !gameplay::has_player_id(g.players@, target) {
            &&& r == Err::<(Cable, CutOutcome, Option<Game>), errors::CutRequest>(
                errors::CutRequest::TargetNotInGame,
            )
            &&& post == pre
        } else if cutter != g.wire_cutters {
            &&& r == Err::<(Cable, CutOutcome, Option<Game>), errors::CutRequest>(
                errors::CutRequest::DontHaveWireCutter,
            )
            &&& post == pre
        } else if target == cutter {
            &&& r == Err::<(Cable, CutOutcome, Option<Game>), errors::CutRequest>(
                errors::CutRequest::CannotSelfCut,
            )
            &&& post == pre
        } else {
            &&& post.lobbys == pre.lobbys
            &&& r matches Ok(out) && cut_ok_spec(
                pre,
                post,
                gi,
                g,
                cutter,
                target,
                out.0,
                out.1,
                out.2,
            )
        }
    }
}

/// The successful half of `cut_request_spec`: some immediate game-level
/// effect `g1` of the cut (`gameplay::cut_spec`) led to the observed
/// resolution (`cut_resolved`).
pub open spec fn cut_ok_spec(
    pre: GlobalState,
    post: GlobalState,
    gi: int,
    g: Game,
    cutter: u32,
    target: u32,
    c: Cable,
    o: CutOutcome,
    fin: Option<Game>,
) -> bool {
    exists|g1: Game| #[trigger]
        gameplay::cut_spec(g, g1, cutter, target, Ok::<(Cable, CutOutcome), errors::Cut>((c, o)))
            && cut_resolved(pre, post, gi, g1, target, c, o, fin)
}

/// Whether the hand a cut request would reach is non-empty.  The embedding
/// layer establishes this (through `hand_size`) before forwarding a cut; a
/// cut reaching an empty hand indicates a broken invariant, a
/// programming-error class distinct from the recoverable taxonomy.
pub open spec fn cut_target_armed(
    pre: GlobalState,
    code: Seq<char>,
    cutter: u32,
    target: u32,
) -> bool {
    has_code(pre.games@, code) ==> {
        let g = pre.games@[code_index(pre.games@, code)].1;
        (gameplay::has_player_id(g.players@, cutter) && gameplay::has_player_id(
            g.players@,
            target,
        ) && cutter == g.wire_cutters && target != cutter)
            ==> g.players@[gameplay::index_of_id(g.players@, target)].cables@.len() > 0
    }
}

/// The number of cables in the hand of player `id` of the game at `code`,
/// when both exist.
pub fn hand_size(st: &GlobalState, code: &String, id: u32) -> (r: Option<usize>)
    requires
        st.inv(),
    ensures
        match r {
            Some(nc) => has_code(st.games@, code@) && {
                let g = st.games@[code_index(st.games@, code@)].1;
                exists|k: int|
                    0 <= k < g.players@.len() && (#[trigger] g.players@[k]).id == id
                        && nc == g.players@[k].cables@.len()
            },
            None => !has_code(st.games@, code@) || !gameplay::has_player_id(
                st.games@[code_index(st.games@, code@)].1.players@,
                id,
            ),
        },
{
    let gi = match game_index(st, code) {
        None => {
            return None;
        },
        Some(gi) => gi,
    };
    proof {
        let ci = code_index(st.games@, code@);
        assert(0 <= ci < st.games@.len() && st.games@[ci].0@ == code@);
    }
    let pi = match st.games[gi].1.get_index(id) {
        None => {
            proof {
                let ci = code_index(st.games@, code@);
                assert(ci == gi as int);
            }
            return None;
        },
        Some(pi) => pi,
    };
    proof {
        let ci = code_index(st.games@, code@);
        assert(ci == gi as int);
    }
    Some(st.games[gi].1.players[pi].cables.len())
}

/// Resolves one cut request against the game at `code`: the cut itself,
/// the `Cut` announcement, and the outcome — nothing, a new round dealt and
/// announced, or a finished game unregistered with `Win` delivered to every
/// mailbox and the room handed back for final delivery.
pub fn cut(st: &mut GlobalState, code: &String, cutter: u32, target: u32) -> (r: Result<
    (Cable, CutOutcome, Option<Game>),
    errors::CutRequest,
>)
    requires
        old(st).inv(),
        cut_target_armed(*old(st), code@, cutter, target),
    ensures
        final(st).inv(),
        cut_request_spec(*old(st), *final(st), code@, cutter, target, r),
{
    let gi = match game_index(st, code) {
        None => {
            return Err(errors::CutRequest::UnknownRoom);
        },
        Some(gi) => gi,
    };
    let ghost pre = *st;
    proof {
        let ci = code_index(pre.games@, code@);
        assert(0 <= ci < pre.games@.len() && pre.games@[ci].0@ == code@);
        assert(ci == gi as int);
    }
    if st.games[gi].1.get_index(cutter).is_none() {
        return Err(errors::CutRequest::CutterNotInGame);
    }
    let tpi = match st.games[gi].1.get_index(target) {
        None => {
            return Err(errors::CutRequest::TargetNotInGame);
        },
        Some(tpi) => tpi,
    };
    if cutter != st.games[gi].1.wire_cutters {
        return Err(errors::CutRequest::DontHaveWireCutter);
    }
    if target == cutter {
        return Err(errors::CutRequest::CannotSelfCut);
    }
    let ghost g0 = pre.games@[gi as int].1;
    proof {
        let ip = gameplay::index_of_id(g0.players@, target);
        assert(0 <= ip < g0.players@.len() && g0.players@[ip].id == target);
        assert(ip == tpi as int);
    }
    let mut entry = st.games.remove(gi);
    let res = entry.1.cut(cutter, target);
    let (cable, outcome) = match res {
        Ok(x) => x,
        Err(_) => {
            proof {
                assert(false);
            }
            (Cable::Safe, CutOutcome::Nothing)
        },
    };
    let ghost g1 = entry.1;
    let ghost n = g0.players@.len() as int;
    proof {
        let j = gameplay::index_of_id(g0.players@, target);
        assert(g1.players@ =~= g0.players@.update(j, g1.players@[j]));
        gameplay::lemma_sums_update(g0.players@, j, g1.players@[j], Team::Sherlock);
        assert(gameplay::hands_multiset(g1.players@).len() == gameplay::hands_multiset(
            g0.players@,
        ).len() - 1);
    }
    broadcast(&mut entry.1, &Message::Cut { player: target, cable });
    let ghost g2 = entry.1;
    proof {
        gameplay::lemma_roster_sums(g2.players@, g1.players@, Team::Sherlock);
        gameplay::lemma_same_game_ids(g2.players@, g1.players@);
        assert(g2.wf());
    }
    match outcome {
        CutOutcome::Nothing => {
            st.games.insert(gi, entry);
            proof {
                assert(st.games@ =~= pre.games@.update(gi as int, st.games@[gi as int]));
                lemma_update_entry(pre.games@, gi as int, st.games@[gi as int]);
                assert(g2.cutted_count < n);
                assert((gameplay::hands_multiset(g2.players@).len() + g2.cutted_count) as int % (
                n as int) == 0);
                assert(gameplay::cut_spec(
                    g0,
                    g1,
                    cutter,
                    target,
                    Ok::<(Cable, CutOutcome), errors::Cut>((cable, outcome)),
                ) && cut_resolved(
                    pre,
                    *st,
                    gi as int,
                    g1,
                    target,
                    cable,
                    outcome,
                    None::<Game>,
                ));
            }
            Ok((cable, outcome, None))
        },
        CutOutcome::Win(t) => {
            let ids = winning_players(&entry.1, t);
            broadcast_win(&mut entry.1, t, &ids);
            proof {
                lemma_remove_entry(pre.games@, gi as int);
                assert forall|i: int, j: int|
                    #![trigger st.lobbys@[i], st.games@[j]]
                    0 <= i < st.lobbys@.len() && 0 <= j < st.games@.len() implies st.lobbys@[i].0@
                    != st.games@[j].0@ by {
                    let j0 = if j < gi as int { j } else { j + 1 };
                    assert(st.games@[j] == pre.games@[j0]);
                }
                assert(cut_broadcasted(g2, g1, target, cable) && win_broadcasted(
                    entry.1,
                    g2,
                    t,
                ));
                assert(gameplay::cut_spec(
                    g0,
                    g1,
                    cutter,
                    target,
                    Ok::<(Cable, CutOutcome), errors::Cut>((cable, outcome)),
                ) && cut_resolved(
                    pre,
                    *st,
                    gi as int,
                    g1,
                    target,
                    cable,
                    outcome,
                    Some(entry.1),
                ));
            }
            Ok((cable, outcome, Some(entry.1)))
        },
        CutOutcome::RoundEnd => {
            proof {
                assert(g1.cutted_count == n);
                assert((gameplay::hands_multiset(g0.players@).len() + g0.cutted_count) as int % (
                n as int) == 0);
                assert(gameplay::hands_multiset(g1.players@).len() + g1.cutted_count
                    == gameplay::hands_multiset(g0.players@).len() + g0.cutted_count);
                vstd::arithmetic::div_mod::lemma_mod_multiples_vanish(
                    1,
                    gameplay::hands_multiset(g1.players@).len() as int,
                    n as int,
                );
                assert(gameplay::hands_multiset(g2.players@).len() as int % (n as int) == 0);
            }
            if entry.1.next_round() {
                let ghost g3 = entry.1;
                let ids = winning_players(&entry.1, Team::Moriarty);
                broadcast_win(&mut entry.1, Team::Moriarty, &ids);
                proof {
                    lemma_remove_entry(pre.games@, gi as int);
                    assert forall|i: int, j: int|
                        #![trigger st.lobbys@[i], st.games@[j]]
                        0 <= i < st.lobbys@.len() && 0 <= j < st.games@.len() implies st.lobbys@[i].0@
                        != st.games@[j].0@ by {
                        let j0 = if j < gi as int { j } else { j + 1 };
                        assert(st.games@[j] == pre.games@[j0]);
                    }
                    assert(gameplay::hands_multiset(g1.players@).len() == n);
                    assert(g3.players@ == g2.players@);
                    assert(win_broadcasted(entry.1, g2, Team::Moriarty)) by {
                        assert forall|k: int| 0 <= k < g2.players@.len() implies win_sent(
                            #[trigger] entry.1.players@[k],
                            g2.players@[k],
                            Team::Moriarty,
                            team_ids(g2.players@, Team::Moriarty),
                        ) by {
                            assert(g3.players@[k] == g2.players@[k]);
                        }
                    }
                    assert(entry.1.cutted_count == 0);
                    assert(cut_broadcasted(g2, g1, target, cable));
                    assert(gameplay::cut_spec(
                        g0,
                        g1,
                        cutter,
                        target,
                        Ok::<(Cable, CutOutcome), errors::Cut>((cable, outcome)),
                    ) && cut_resolved(
                        pre,
                        *st,
                        gi as int,
                        g1,
                        target,
                        cable,
                        outcome,
                        Some(entry.1),
                    ));
                }
                Ok((cable, outcome, Some(entry.1)))
            } else {
                let ghost g3 = entry.1;
                send_round(&mut entry.1);
                st.games.insert(gi, entry);
                proof {
                    assert(st.games@ =~= pre.games@.update(gi as int, st.games@[gi as int]));
                    lemma_update_entry(pre.games@, gi as int, st.games@[gi as int]);
                    let post_g = st.games@[gi as int].1;
                    gameplay::lemma_roster_sums(post_g.players@, g3.players@, Team::Sherlock);
                    gameplay::lemma_same_game_ids(post_g.players@, g3.players@);
                    assert(post_g.wf());
                    assert(post_g.cutted_count == 0);
                    assert(gameplay::hands_multiset(post_g.players@).len()
                        == gameplay::hands_multiset(g2.players@).len());
                    assert((gameplay::hands_multiset(post_g.players@).len()
                        + post_g.cutted_count) as int % (n as int) == 0);
                    assert(next_rounded(g3, g2));
                    assert(round_broadcasted(post_g, g3));
                    assert(cut_broadcasted(g2, g1, target, cable));
                    assert(gameplay::cut_spec(
                        g0,
                        g1,
                        cutter,
                        target,
                        Ok::<(Cable, CutOutcome), errors::Cut>((cable, outcome)),
                    ) && cut_resolved(
                        pre,
                        *st,
                        gi as int,
                        g1,
                        target,
                        cable,
                        outcome,
                        None::<Game>,
                    ));
                }
                Ok((cable, outcome, None))
            }
        },
    }
}

} // verus!
