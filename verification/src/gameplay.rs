//! The phase-independent game rules: teams, cables, lobbies and games.

use vstd::prelude::*;

use vstd::multiset::Multiset;

use crate::errors;
use crate::game;
use crate::lobby;
use crate::rng;

verus! {

/// One of the two sides of a game.
#[derive(Debug, Clone, Copy, PartialEq, Eq, Structural)]
pub enum Team {
    /// The investigators, who win by cutting every defusing cable.
    Sherlock,
    /// The saboteurs, who win when the bomb cable is cut.
    Moriarty,
}

/// One cable of the pool.
#[derive(Debug, Clone, Copy, PartialEq, Eq, Structural)]
pub enum Cable {
    /// Cutting it has no effect beyond advancing the round.
    Safe,
    /// Cutting it brings the investigators closer to victory.
    Defusing,
    /// Cutting it ends the game with a saboteur win.
    Bomb,
}

/// What a successful cut means for the game.
#[derive(Debug, Clone, Copy, PartialEq, Eq, Structural)]
pub enum CutOutcome {
    /// The game is over; the given team has won.
    Win(Team),
    /// Every player has been cut once this round; cables must be pooled anew.
    RoundEnd,
    /// The game simply goes on.
    Nothing,
}

/// The shared identity contract of lobby and game players.
pub trait Player {
    /// The player's id, unique within one room.
    fn id(&self) -> u32;

    /// The player's display name.
    fn name(&self) -> &str;
}

/// A player waiting in a lobby.
pub trait WaitingPlayer: Player {
    /// Whether the player has marked themselves ready to start.
    fn ready(&self) -> bool;
}

/// A player taking part in a running game.
pub trait PlayingPlayer: Player {
    /// The player's hand, at the specification level.
    spec fn spec_cables(&self) -> Seq<Cable>;

    /// Whether a live stream is currently attached to the player.
    fn connected(&self) -> bool;

    /// The player's side.
    fn team(&self) -> Team;

    /// The cables currently in the player's hand.
    fn cables(&self) -> &[Cable];

    /// Replaces the player's hand.
    fn set_cables(&mut self, cables: Vec<Cable>);

    /// Removes one cable, picked at random, from the hand and records it in
    /// the revealed history.
    fn cut_cable(&mut self) -> Cable
        requires
            old(self).spec_cables().len() > 0,
    ;
}

/// What lobbies and games have in common: a code and a roster.
pub trait Room<P> {
    /// The room code.
    fn name(&self) -> &str;

    /// The players, in join order.
    fn players(&self) -> &Vec<P>;

    /// The player carrying the given id, if any.
    fn get_player(&self, id: u32) -> Option<&P>;
}

// ---------------------------------------------------------------------------
// Spec-level views of player collections.
// ---------------------------------------------------------------------------

/// Whether some lobby player carries the given id.
pub open spec fn lobby_has_player_id(ps: Seq<lobby::Player>, id: u32) -> bool {
    exists|i: int| 0 <= i < ps.len() && (#[trigger] ps[i]).id == id
}

/// The index of the lobby player carrying the given id; meaningful only when
/// `lobby_has_player_id` holds and ids are distinct.
pub open spec fn lobby_index_of_id(ps: Seq<lobby::Player>, id: u32) -> int {
    choose|i: int| 0 <= i < ps.len() && (#[trigger] ps[i]).id == id
}

/// Whether no two lobby players share an id.
pub open spec fn lobby_ids_distinct(ps: Seq<lobby::Player>) -> bool {
    forall|i: int, j: int|
        #![trigger ps[i], ps[j]]
        0 <= i < j < ps.len() ==> ps[i].id != ps[j].id
}

/// Whether some game player carries the given id.
pub open spec fn has_player_id(ps: Seq<game::Player>, id: u32) -> bool {
    exists|i: int| 0 <= i < ps.len() && (#[trigger] ps[i]).id == id
}

/// The index of the game player carrying the given id; meaningful only when
/// `has_player_id` holds and ids are distinct.
pub open spec fn index_of_id(ps: Seq<game::Player>, id: u32) -> int {
    choose|i: int| 0 <= i < ps.len() && (#[trigger] ps[i]).id == id
}

/// Whether no two game players share an id.
pub open spec fn ids_distinct(ps: Seq<game::Player>) -> bool {
    forall|i: int, j: int|
        #![trigger ps[i], ps[j]]
        0 <= i < j < ps.len() ==> ps[i].id != ps[j].id
}

/// All cables currently held in hands, as one multiset.
pub open spec fn hands_multiset(ps: Seq<game::Player>) -> Multiset<Cable>
    decreases ps.len(),
{
    if ps.len() == 0 {
        Multiset::empty()
    } else {
        hands_multiset(ps.drop_last()).add(ps.last().cables@.to_multiset())
    }
}

/// How many cables have been cut so far over the whole game.
pub open spec fn revealed_total(ps: Seq<game::Player>) -> int
    decreases ps.len(),
{
    if ps.len() == 0 {
        0
    } else {
        revealed_total(ps.drop_last()) + ps.last().revealed_cables@.len()
    }
}

/// How many players are on the given team.
pub open spec fn team_size(ps: Seq<game::Player>, t: Team) -> int
    decreases ps.len(),
{
    if ps.len() == 0 {
        0
    } else {
        team_size(ps.drop_last(), t) + if ps.last().team == t {
            1int
        } else {
            0int
        }
    }
}

/// Appending a player extends each aggregate by that player's contribution.
pub proof fn lemma_sums_push(ps: Seq<game::Player>, p: game::Player, t: Team)
    ensures
        hands_multiset(ps.push(p)) == hands_multiset(ps).add(p.cables@.to_multiset()),
        revealed_total(ps.push(p)) == revealed_total(ps) + p.revealed_cables@.len(),
        team_size(ps.push(p), t) == team_size(ps, t) + if p.team == t {
            1int
        } else {
            0int
        },
{
    assert(ps.push(p).drop_last() =~= ps);
    assert(ps.push(p).last() == p);
}

/// Replacing one player swaps that player's contribution in each aggregate.
pub proof fn lemma_sums_update(ps: Seq<game::Player>, j: int, q: game::Player, t: Team)
    requires
        0 <= j < ps.len(),
    ensures
        forall|c: Cable| #[trigger]
            hands_multiset(ps.update(j, q)).count(c) == hands_multiset(ps).count(c)
                - ps[j].cables@.to_multiset().count(c) + q.cables@.to_multiset().count(c),
        hands_multiset(ps.update(j, q)).len() == hands_multiset(ps).len() - ps[j].cables@.len()
            + q.cables@.len(),
        revealed_total(ps.update(j, q)) == revealed_total(ps) - ps[j].revealed_cables@.len()
            + q.revealed_cables@.len(),
        team_size(ps.update(j, q), t) == team_size(ps, t) - (if ps[j].team == t {
            1int
        } else {
            0int
        }) + (if q.team == t {
            1int
        } else {
            0int
        }),
    decreases ps.len(),
{
    broadcast use vstd::multiset::group_multiset_axioms;
    broadcast use vstd::seq_lib::group_to_multiset_ensures;

    let u = ps.update(j, q);
    if j == ps.len() - 1 {
        assert(u.drop_last() =~= ps.drop_last());
        assert(u.last() == q);
    } else {
        assert(u.drop_last() =~= ps.drop_last().update(j, q));
        assert(u.last() == ps.last());
        assert(ps.drop_last()[j] == ps[j]);
        lemma_sums_update(ps.drop_last(), j, q, t);
        assert forall|c: Cable| #[trigger]
            hands_multiset(u).count(c) == hands_multiset(ps).count(c)
                - ps[j].cables@.to_multiset().count(c) + q.cables@.to_multiset().count(c) by {
            assert(hands_multiset(u).count(c) == hands_multiset(ps.drop_last().update(j, q)).count(
                c,
            ) + ps.last().cables@.to_multiset().count(c));
            assert(hands_multiset(ps).count(c) == hands_multiset(ps.drop_last()).count(c)
                + ps.last().cables@.to_multiset().count(c));
        }
    }
}

/// One player's hand and history are bounded by the whole game's aggregates.
pub proof fn lemma_member_bounds(ps: Seq<game::Player>, j: int)
    requires
        0 <= j < ps.len(),
    ensures
        forall|c: Cable| #[trigger]
            ps[j].cables@.to_multiset().count(c) <= hands_multiset(ps).count(c),
        ps[j].cables@.len() <= hands_multiset(ps).len(),
        ps[j].revealed_cables@.len() <= revealed_total(ps),
    decreases ps.len(),
{
    broadcast use vstd::multiset::group_multiset_axioms;
    broadcast use vstd::seq_lib::group_to_multiset_ensures;

    lemma_aggregates_nonneg(ps.drop_last());
    if j == ps.len() - 1 {
        assert(ps.last() == ps[j]);
    } else {
        assert(ps.drop_last()[j] == ps[j]);
        lemma_member_bounds(ps.drop_last(), j);
    }
}

/// The aggregates are non-negative, and team sizes are bounded by the player
/// count.
pub proof fn lemma_aggregates_nonneg(ps: Seq<game::Player>)
    ensures
        revealed_total(ps) >= 0,
        forall|t: Team| 0 <= #[trigger] team_size(ps, t) <= ps.len(),
    decreases ps.len(),
{
    if ps.len() > 0 {
        lemma_aggregates_nonneg(ps.drop_last());
        assert forall|t: Team| 0 <= #[trigger] team_size(ps, t) <= ps.len() by {
            assert(0 <= team_size(ps.drop_last(), t) <= ps.drop_last().len());
        }
    }
}

/// Every player is on exactly one of the two teams, so the team sizes
/// partition the player count.
pub proof fn lemma_team_partition(ps: Seq<game::Player>)
    ensures
        team_size(ps, Team::Sherlock) + team_size(ps, Team::Moriarty) == ps.len(),
    decreases ps.len(),
{
    if ps.len() > 0 {
        lemma_team_partition(ps.drop_last());
    }
}


/// Aggregates over hands, histories and teams agree on rosters that are
/// pointwise equal in those fields, whatever happened to the mailboxes.
pub proof fn lemma_roster_sums(a: Seq<game::Player>, b: Seq<game::Player>, t: Team)
    requires
        a.len() == b.len(),
        forall|k: int|
            0 <= k < a.len() ==> (#[trigger] a[k]).cables@ == b[k].cables@
                && a[k].revealed_cables@ == b[k].revealed_cables@ && a[k].team == b[k].team,
    ensures
        hands_multiset(a) == hands_multiset(b),
        revealed_total(a) == revealed_total(b),
        team_size(a, t) == team_size(b, t),
    decreases a.len(),
{
    if a.len() > 0 {
        assert(a[a.len() - 1].cables@ == b[b.len() - 1].cables@);
        assert forall|k: int|
            0 <= k < a.len() - 1 implies (#[trigger] a.drop_last()[k]).cables@
            == b.drop_last()[k].cables@ && a.drop_last()[k].revealed_cables@
            == b.drop_last()[k].revealed_cables@ && a.drop_last()[k].team
            == b.drop_last()[k].team by {
            assert(a.drop_last()[k] == a[k]);
            assert(b.drop_last()[k] == b[k]);
        }
        lemma_roster_sums(a.drop_last(), b.drop_last(), t);
    }
}

/// Rosters with pointwise equal ids carry the same ids and the same
/// distinctness.
pub proof fn lemma_same_game_ids(a: Seq<game::Player>, b: Seq<game::Player>)
    requires
        a.len() == b.len(),
        forall|k: int| 0 <= k < a.len() ==> (#[trigger] a[k]).id == b[k].id,
    ensures
        ids_distinct(a) == ids_distinct(b),
        forall|id: u32| #[trigger] has_player_id(a, id) == has_player_id(b, id),
        forall|id: u32| #[trigger]
            has_player_id(a, id) && ids_distinct(a) ==> index_of_id(a, id) == index_of_id(b, id),
{
    assert(ids_distinct(a) == ids_distinct(b)) by {
        if ids_distinct(b) {
            assert forall|i: int, j: int|
                #![trigger a[i], a[j]]
                0 <= i < j < a.len() implies a[i].id != a[j].id by {
                assert(b[i].id != b[j].id);
            }
        }
        if ids_distinct(a) {
            assert forall|i: int, j: int|
                #![trigger b[i], b[j]]
                0 <= i < j < b.len() implies b[i].id != b[j].id by {
                assert(a[i].id != a[j].id);
            }
        }
    }
    assert forall|id: u32| #[trigger] has_player_id(a, id) == has_player_id(b, id) by {
        if has_player_id(a, id) {
            let k = choose|k: int| 0 <= k < a.len() && (#[trigger] a[k]).id == id;
            assert(b[k].id == id);
        }
        if has_player_id(b, id) {
            let k = choose|k: int| 0 <= k < b.len() && (#[trigger] b[k]).id == id;
            assert(a[k].id == id);
        }
    }
    assert forall|id: u32| #[trigger]
        has_player_id(a, id) && ids_distinct(a) implies index_of_id(a, id) == index_of_id(
        b,
        id,
    ) by {
        let ia = index_of_id(a, id);
        assert(0 <= ia < a.len() && a[ia].id == id);
        assert(b[ia].id == id);
        let ib = index_of_id(b, id);
        assert(0 <= ib < b.len() && b[ib].id == id);
        assert(a[ib].id == id);
    }
}


/// Cable conservation: in a well-formed game the cables still in hands and
/// the cables already revealed always add up to five per player, the size
/// of the original pool.  `Game::new`, `Game::cut` and `Game::next_round`
/// each preserve well-formedness, so this holds after any sequence of cuts
/// and redistributions.
pub proof fn lemma_cable_conservation(g: Game)
    requires
        g.wf(),
    ensures
        hands_multiset(g.players@).len() + revealed_total(g.players@) == 5 * g.players@.len(),
{
}

/// A cut by a player who does not hold the wire cutters always fails with
/// `DontHaveWireCutter` and leaves the game untouched, whatever the target.
pub proof fn lemma_cut_requires_token(
    pre: Game,
    post: Game,
    cutting: u32,
    cutted: u32,
    r: Result<(Cable, CutOutcome), errors::Cut>,
)
    requires
        cut_spec(pre, post, cutting, cutted, r),
        cutting != pre.wire_cutters,
    ensures
        r == Err::<(Cable, CutOutcome), errors::Cut>(errors::Cut::DontHaveWireCutter),
        post == pre,
{
}

/// A self-cut always fails and leaves the game untouched: with
/// `CannotSelfCut` when the cutter holds the wire cutters, and with
/// `DontHaveWireCutter` (which is checked first) when they do not.
pub proof fn lemma_no_self_cut(
    pre: Game,
    post: Game,
    x: u32,
    r: Result<(Cable, CutOutcome), errors::Cut>,
)
    requires
        cut_spec(pre, post, x, x, r),
    ensures
        r is Err,
        post == pre,
        x == pre.wire_cutters ==> r == Err::<(Cable, CutOutcome), errors::Cut>(
            errors::Cut::CannotSelfCut,
        ),
        x != pre.wire_cutters ==> r == Err::<(Cable, CutOutcome), errors::Cut>(
            errors::Cut::DontHaveWireCutter,
        ),
{
}

// ---------------------------------------------------------------------------
// The lobby.
// ---------------------------------------------------------------------------

/// Whether `post` is `pre` with one event queued and nothing else changed.
pub open spec fn lobby_sent(post: lobby::Player, pre: lobby::Player, m: lobby::Message) -> bool {
    &&& post.id == pre.id
    &&& post.name == pre.name
    &&& post.ready == pre.ready
    &&& post.mailbox.attached == pre.mailbox.attached
    &&& post.mailbox.queue@ == pre.mailbox.queue@.push(m)
}

/// A room in its waiting phase: a code and up to eight players.
pub struct Lobby {
    /// The room code under which the lobby is registered.
    pub name: String,
    /// The waiting players, in join order.
    pub players: Vec<lobby::Player>,
}

impl Lobby {
    /// The lobby's structural invariant: distinct player ids, at most eight
    /// players.
    pub open spec fn wf(self) -> bool {
        &&& lobby_ids_distinct(self.players@)
        &&& self.players@.len() <= 8
    }

    /// Whether the game may start: at least four players, all of them ready.
    pub open spec fn spec_may_start(self) -> bool {
        &&& self.players@.len() >= 4
        &&& forall|i: int| 0 <= i < self.players@.len() ==> (#[trigger] self.players@[i]).ready
    }

    /// An empty lobby under the given code.
    pub fn new(name: String) -> (l: Lobby)
        ensures
            l.name == name,
            l.players@ == Seq::<lobby::Player>::empty(),
            l.wf(),
    {
        Lobby { name, players: Vec::new() }
    }

    /// The room code.
    pub fn name(&self) -> (r: &str)
        ensures
            r@ == self.name@,
    {
        self.name.as_str()
    }

    /// The waiting players, in join order.
    pub fn players(&self) -> (r: &Vec<lobby::Player>)
        ensures
            r == &self.players,
    {
        &self.players
    }

    /// The position of the player carrying the given id, if any.
    fn get_index(&self, id: u32) -> (r: Option<usize>)
        ensures
            match r {
                Some(i) => i < self.players@.len() && self.players@[i as int].id == id,
                None => !lobby_has_player_id(self.players@, id),
            },
    {
        let n = self.players.len();
        let mut i: usize = 0;
        while i < n
            invariant
                i <= n,
                n == self.players@.len(),
                forall|k: int| 0 <= k < i ==> (#[trigger] self.players@[k]).id != id,
            decreases n - i,
        {
            if self.players[i].id == id {
                return Some(i);
            }
            i = i + 1;
        }
        None
    }

    /// The player carrying the given id, if any.
    pub fn get_player(&self, id: u32) -> (r: Option<&lobby::Player>)
        ensures
            match r {
                Some(p) => lobby_has_player_id(self.players@, id) && p.id == id
                    && exists|i: int|
                        0 <= i < self.players@.len() && *p == #[trigger] self.players@[i],
                None => !lobby_has_player_id(self.players@, id),
            },
    {
        match self.get_index(id) {
            Some(i) => Some(&self.players[i]),
            None => None,
        }
    }

    /// Admits a player: rejected when the lobby is full or the id is already
    /// present, appended otherwise.
    pub fn add_player(&mut self, player: lobby::Player) -> (r: Result<(), errors::Join>)
        requires
            old(self).wf(),
        ensures
            final(self).wf(),
            final(self).name == old(self).name,
            old(self).players@.len() >= 8 ==> r == Err::<(), errors::Join>(errors::Join::GameFull)
                && *final(self) == *old(self),
            old(self).players@.len() < 8 && lobby_has_player_id(old(self).players@, player.id)
                ==> r == Err::<(), errors::Join>(errors::Join::AlreadyConnected) && *final(self)
                == *old(self),
            old(self).players@.len() < 8 && !lobby_has_player_id(old(self).players@, player.id)
                ==> r == Ok::<(), errors::Join>(()) && final(self).players@ == old(
                self,
            ).players@.push(player),
    {
        if self.players.len() >= 8 {
            return Err(errors::Join::GameFull);
        }
        if self.get_index(player.id).is_some() {
            return Err(errors::Join::AlreadyConnected);
        }
        let ghost pre = self.players@;
        self.players.push(player);
        proof {
            assert forall|i: int, j: int|
                #![trigger self.players@[i], self.players@[j]]
                0 <= i < j < self.players@.len() implies self.players@[i].id
                != self.players@[j].id by {
                if j < pre.len() {
                    assert(pre[i].id != pre[j].id);
                } else {
                    assert(self.players@[j] == player);
                    assert(pre[i].id != player.id);
                }
            }
        }
        Ok(())
    }

    /// Removes the player carrying the given id; a no-op when absent.
    pub fn remove_player(&mut self, id: u32)
        requires
            old(self).wf(),
        ensures
            final(self).wf(),
            final(self).name == old(self).name,
            !lobby_has_player_id(old(self).players@, id) ==> *final(self) == *old(self),
            lobby_has_player_id(old(self).players@, id) ==> final(self).players@ == old(
                self,
            ).players@.remove(lobby_index_of_id(old(self).players@, id)),
    {
        let ghost pre = self.players@;
        match self.get_index(id) {
            None => {},
            Some(i) => {
                self.players.remove(i);
                proof {
                    let ci = lobby_index_of_id(pre, id);
                    assert(0 <= ci < pre.len() && pre[ci].id == id);
                    assert(ci == i);
                    pre.remove_ensures(i as int);
                    assert forall|a: int, b: int|
                        #![trigger self.players@[a], self.players@[b]]
                        0 <= a < b < self.players@.len() implies self.players@[a].id
                        != self.players@[b].id by {
                        let a0 = if a < i { a } else { a + 1 };
                        let b0 = if b < i { b } else { b + 1 };
                        assert(self.players@[a] == pre[a0]);
                        assert(self.players@[b] == pre[b0]);
                    }
                }
            },
        }
    }

    /// Whether the game may start: at least four players, all ready.  This is
    /// the sole start precondition; `start` itself does not re-check it, so a
    /// caller must hold the room for the whole check-then-start sequence.
    pub fn may_start(&self) -> (r: bool)
        ensures
            r == self.spec_may_start(),
    {
        let n = self.players.len();
        if n < 4 {
            return false;
        }
        let mut i: usize = 0;
        while i < n
            invariant
                i <= n,
                n == self.players@.len(),
                forall|k: int| 0 <= k < i ==> (#[trigger] self.players@[k]).ready,
            decreases n - i,
        {
            if !self.players[i].ready {
                return false;
            }
            i = i + 1;
        }
        true
    }

    /// Sets the readiness of the player carrying the given id; a no-op when
    /// absent.  Returns whether the player was found.
    pub fn set_ready(&mut self, id: u32, state: bool) -> (r: bool)
        requires
            old(self).wf(),
        ensures
            final(self).wf(),
            final(self).name == old(self).name,
            r == lobby_has_player_id(old(self).players@, id),
            !r ==> *final(self) == *old(self),
            r ==> final(self).players@.len() == old(self).players@.len(),
            r ==> forall|k: int|
                0 <= k < old(self).players@.len() && k != lobby_index_of_id(
                    old(self).players@,
                    id,
                ) ==> final(self).players@[k] == #[trigger] old(self).players@[k],
            r ==> {
                let k = lobby_index_of_id(old(self).players@, id);
                let pre = old(self).players@[k];
                let post = final(self).players@[k];
                post.id == pre.id && post.name == pre.name && post.mailbox == pre.mailbox
                    && post.ready == state
            },
    {
        let ghost pre = self.players@;
        match self.get_index(id) {
            None => false,
            Some(i) => {
                let mut p = self.players.remove(i);
                p.ready = state;
                self.players.insert(i, p);
                proof {
                    let ci = lobby_index_of_id(pre, id);
                    assert(0 <= ci < pre.len() && pre[ci].id == id);
                    assert(ci == i);
                    assert(self.players@ =~= pre.update(i as int, self.players@[i as int]));
                }
                true
            },
        }
    }


    /// Starts the game for this lobby's roster.  The lobby itself is
    /// consumed by the caller, which must move the room from the lobby
    /// registry to the game registry under the same code as one atomic step.
    pub fn start(&self) -> (g: Game)
        requires
            self.wf(),
            self.spec_may_start(),
        ensures
            g.wf(),
            g.name == self.name,
            g.players@.len() == self.players@.len(),
            forall|i: int|
                0 <= i < self.players@.len() ==> game_player_from(
                    #[trigger] g.players@[i],
                    self.players@[i],
                ),
            forall|i: int| 0 <= i < self.players@.len() ==> (#[trigger] g.players@[i]).cables@.len() == 5,
            team_size(g.players@, Team::Sherlock) + team_size(g.players@, Team::Moriarty)
                == self.players@.len(),
            team_size(g.players@, Team::Sherlock) <= sherlock_quota(self.players@.len() as int),
            team_size(g.players@, Team::Moriarty) <= moriarty_quota(self.players@.len() as int),
            hands_multiset(g.players@).count(Cable::Safe) == safe_quota(self.players@.len() as int),
            hands_multiset(g.players@).count(Cable::Defusing) == self.players@.len(),
            hands_multiset(g.players@).count(Cable::Bomb) == 1,
            revealed_total(g.players@) == 0,
            g.defusing_remaining == self.players@.len(),
            g.cutted_count == 0,
            has_player_id(g.players@, g.wire_cutters),
    {
        Game::new(self.name.clone(), &self.players)
    }

    /// Queues one event for the player at position `j`.
    pub(crate) fn push_msg(&mut self, j: usize, msg: lobby::Message)
        requires
            j < old(self).players@.len(),
        ensures
            final(self).name == old(self).name,
            final(self).players@.len() == old(self).players@.len(),
            forall|k: int|
                0 <= k < old(self).players@.len() && k != j ==> final(self).players@[k]
                    == #[trigger] old(self).players@[k],
            lobby_sent(final(self).players@[j as int], old(self).players@[j as int], msg),
    {
        let mut p = self.players.remove(j);
        p.mailbox.send(msg);
        self.players.insert(j, p);
    }
}

// ---------------------------------------------------------------------------
// The game.
// ---------------------------------------------------------------------------

/// Whether game player `gp` carries lobby player `lp`'s identity into a
/// fresh game: same id and name, nothing cut yet, a fresh detached mailbox.
pub open spec fn game_player_from(gp: game::Player, lp: lobby::Player) -> bool {
    &&& gp.id == lp.id
    &&& gp.name == lp.name
    &&& gp.revealed_cables@ == Seq::<Cable>::empty()
    &&& gp.mailbox.queue@ == Seq::<game::Message>::empty()
    &&& !gp.mailbox.attached
}

/// Whether `post` is `pre` with possibly another hand and nothing else
/// changed.
pub open spec fn hand_swapped(post: game::Player, pre: game::Player) -> bool {
    &&& post.id == pre.id
    &&& post.name == pre.name
    &&& post.team == pre.team
    &&& post.revealed_cables == pre.revealed_cables
    &&& post.mailbox == pre.mailbox
}

/// Aggregates that ignore hands agree on pointwise hand-swapped rosters.
pub proof fn lemma_pointwise_sums(a: Seq<game::Player>, b: Seq<game::Player>, t: Team)
    requires
        a.len() == b.len(),
        forall|k: int| 0 <= k < a.len() ==> hand_swapped(#[trigger] a[k], b[k]),
    ensures
        revealed_total(a) == revealed_total(b),
        team_size(a, t) == team_size(b, t),
    decreases a.len(),
{
    if a.len() > 0 {
        assert(hand_swapped(a[a.len() - 1], b[b.len() - 1]));
        assert forall|k: int| 0 <= k < a.len() - 1 implies hand_swapped(
            #[trigger] a.drop_last()[k],
            b.drop_last()[k],
        ) by {
            assert(a.drop_last()[k] == a[k]);
            assert(b.drop_last()[k] == b[k]);
        }
        lemma_pointwise_sums(a.drop_last(), b.drop_last(), t);
    }
}

/// When every hand is one chunk of a consecutive even split of `s`, the
/// hands together hold exactly the cables of `s`.
pub proof fn lemma_chunks(ps: Seq<game::Player>, s: Seq<Cable>, per: int)
    requires
        per >= 0,
        s.len() == ps.len() * per,
        forall|k: int|
            0 <= k < ps.len() ==> (#[trigger] ps[k]).cables@ == s.subrange(k * per, (k + 1) * per),
    ensures
        hands_multiset(ps) == s.to_multiset(),
    decreases ps.len(),
{
    broadcast use vstd::multiset::group_multiset_axioms;
    broadcast use vstd::seq_lib::group_to_multiset_ensures;

    if ps.len() == 0 {
        assert(ps.len() * per == 0) by (nonlinear_arith)
            requires
                ps.len() == 0,
        ;
        assert(s =~= Seq::<Cable>::empty());
        assert(s.to_multiset().len() == 0);
        assert(hands_multiset(ps) =~= s.to_multiset());
    } else {
        let m = ps.len() - 1;
        assert(m * per >= 0) by (nonlinear_arith)
            requires
                m >= 0,
                per >= 0,
        ;
        assert((m + 1) * per == m * per + per) by (nonlinear_arith);
        let s0 = s.subrange(0, m * per);
        assert forall|k: int| 0 <= k < m implies (#[trigger] ps.drop_last()[k]).cables@
            == s0.subrange(k * per, (k + 1) * per) by {
            assert(ps.drop_last()[k] == ps[k]);
            assert(k * per >= 0) by (nonlinear_arith)
                requires
                    k >= 0,
                    per >= 0,
            ;
            assert(k * per + per <= m * per) by (nonlinear_arith)
                requires
                    k + 1 <= m,
                    per >= 0,
            ;
            assert((k + 1) * per == k * per + per) by (nonlinear_arith);
            assert(s0.subrange(k * per, (k + 1) * per) =~= s.subrange(k * per, (k + 1) * per));
        }
        lemma_chunks(ps.drop_last(), s0, per);
        let tail = s.subrange(m * per, s.len() as int);
        assert(ps.last().cables@ == s.subrange(m * per, (m + 1) * per));
        assert(tail =~= s.subrange(m * per, (m + 1) * per));
        assert(s =~= s0 + tail);
        vstd::seq_lib::lemma_multiset_commutative(s0, tail);
        assert(hands_multiset(ps) == hands_multiset(ps.drop_last()).add(
            ps.last().cables@.to_multiset(),
        ));
        assert(hands_multiset(ps) =~= s.to_multiset());
    }
}

/// How many safe cables a game of `n` players starts with.
pub open spec fn safe_quota(n: int) -> int {
    5 * n - n - 1
}

/// How many investigators the team table assigns for `n` players.
pub open spec fn sherlock_quota(n: int) -> int {
    if n <= 5 {
        3
    } else if n == 6 {
        4
    } else {
        5
    }
}

/// How many saboteurs the team table assigns for `n` players.
pub open spec fn moriarty_quota(n: int) -> int {
    if n <= 5 {
        2
    } else if n == 6 {
        2
    } else {
        3
    }
}



/// All hands of the roster laid out one after another, in player order.
pub open spec fn hands_concat(ps: Seq<game::Player>) -> Seq<Cable>
    decreases ps.len(),
{
    if ps.len() == 0 {
        Seq::empty()
    } else {
        hands_concat(ps.drop_last()) + ps.last().cables@
    }
}

/// The concatenated hands hold exactly the cables of the hands' multiset.
pub proof fn lemma_hands_concat_multiset(ps: Seq<game::Player>)
    ensures
        hands_concat(ps).to_multiset() == hands_multiset(ps),
        hands_concat(ps).len() == hands_multiset(ps).len(),
    decreases ps.len(),
{
    broadcast use vstd::multiset::group_multiset_axioms;
    broadcast use vstd::seq_lib::group_to_multiset_ensures;

    if ps.len() == 0 {
        assert(hands_concat(ps).to_multiset().len() == 0);
        assert(hands_concat(ps).to_multiset() =~= hands_multiset(ps));
    } else {
        lemma_hands_concat_multiset(ps.drop_last());
        vstd::seq_lib::lemma_multiset_commutative(
            hands_concat(ps.drop_last()),
            ps.last().cables@,
        );
        assert(hands_concat(ps).to_multiset() =~= hands_multiset(ps));
    }
}

/// Whether `post` is `pre` after cable `c` fell from the hand into the
/// revealed history, with identity, team and mailbox untouched.
pub open spec fn cut_from(post: game::Player, pre: game::Player, c: Cable) -> bool {
    &&& post.id == pre.id
    &&& post.name == pre.name
    &&& post.team == pre.team
    &&& post.mailbox == pre.mailbox
    &&& pre.cables@.to_multiset().count(c) > 0
    &&& post.cables@.to_multiset() == pre.cables@.to_multiset().remove(c)
    &&& post.cables@.len() == pre.cables@.len() - 1
    &&& post.revealed_cables@ == pre.revealed_cables@.push(c)
}

/// The full effect of one `Game::cut` call: `post` and `r` against `pre`.
///
/// A non-holder is always refused with `DontHaveWireCutter`, whatever the
/// target; a self-cut by the holder is always refused with `CannotSelfCut`;
/// both leave the game untouched.  Otherwise one random cable `c` moves from
/// the target's hand to the target's history, the wire cutters pass to the
/// target, and the outcome is: a saboteur win on the bomb (with no counter
/// touched), an investigator win on the defusing cable that zeroes the
/// counter, a round end on the cut that completes the round, and nothing
/// otherwise.
pub open spec fn cut_spec(
    pre: Game,
    post: Game,
    cutting: u32,
    cutted: u32,
    r: Result<(Cable, CutOutcome), errors::Cut>,
) -> bool {
    if cutting != pre.wire_cutters {
        &&& r == Err::<(Cable, CutOutcome), errors::Cut>(errors::Cut::DontHaveWireCutter)
        &&& post == pre
    } else if cutted == cutting {
        &&& r == Err::<(Cable, CutOutcome), errors::Cut>(errors::Cut::CannotSelfCut)
        &&& post == pre
    } else {
        &&& has_player_id(pre.players@, cutted)
        &&& r matches Ok(co) && ({
            let c = co.0;
            let o = co.1;
            let j = index_of_id(pre.players@, cutted);
            &&& post.players@.len() == pre.players@.len()
            &&& forall|k: int|
                0 <= k < pre.players@.len() && k != j ==> post.players@[k] == #[trigger] pre.players@[k]
            &&& cut_from(post.players@[j], pre.players@[j], c)
            &&& post.name == pre.name
            &&& post.wire_cutters == cutted
            &&& (c == Cable::Bomb ==> post.defusing_remaining == pre.defusing_remaining
                && post.cutted_count == pre.cutted_count && o == CutOutcome::Win(Team::Moriarty))
            &&& (c == Cable::Safe ==> post.defusing_remaining == pre.defusing_remaining
                && post.cutted_count == pre.cutted_count + 1)
            &&& (c == Cable::Defusing ==> post.defusing_remaining == pre.defusing_remaining - 1
                && post.cutted_count == pre.cutted_count + 1)
            &&& (c != Cable::Bomb ==> o == (if post.defusing_remaining == 0 {
                CutOutcome::Win(Team::Sherlock)
            } else if post.cutted_count == pre.players@.len() {
                CutOutcome::RoundEnd
            } else {
                CutOutcome::Nothing
            }))
        })
    }
}

/// A room in its playing phase.
pub struct Game {
    /// The room code under which the game is registered; carried over from
    /// the lobby it was started from.
    pub name: String,
    /// The playing players, in the order they held in the lobby.
    pub players: Vec<game::Player>,
    /// The id of the player currently holding the wire cutters.
    pub wire_cutters: u32,
    /// How many defusing cables are still hidden in hands.  The
    /// investigators win when it reaches zero.
    pub defusing_remaining: usize,
    /// How many cables fell in the current round.
    pub cutted_count: usize,
}

impl Game {
    /// The game's structural invariant: distinct ids, four to eight players,
    /// a valid wire-cutter holder, cable conservation (hands plus revealed
    /// history always hold five cables per player), an accurate
    /// defusing counter, and a cut counter bounded by the cuts made.
    pub open spec fn wf(self) -> bool {
        &&& ids_distinct(self.players@)
        &&& 4 <= self.players@.len() <= 8
        &&& has_player_id(self.players@, self.wire_cutters)
        &&& hands_multiset(self.players@).len() + revealed_total(self.players@) == 5
            * self.players@.len()
        &&& self.defusing_remaining == hands_multiset(self.players@).count(Cable::Defusing)
        &&& self.cutted_count <= revealed_total(self.players@)
    }

    /// How many cables of each kind a game of `player_count` players starts
    /// with: `(safe, defusing, bomb)`.
    fn cables_count(player_count: usize) -> (r: (usize, usize, usize))
        requires
            4 <= player_count <= 8,
        ensures
            r.0 == safe_quota(player_count as int),
            r.1 == player_count,
            r.2 == 1,
    {
        let defusing: usize = player_count;
        let bomb: usize = 1;
        let safe: usize = player_count * 5 - defusing - bomb;

        (safe, defusing, bomb)
    }

    /// Starts a game from the given lobby roster.
    ///
    /// The team list is built from the team-size table (`3 vs 2` up to five
    /// players, `4 vs 2` for six, `5 vs 3` for seven or eight), shuffled
    /// uniformly and dealt one team per player; where the table's row is
    /// larger than the roster only a prefix of the shuffled list is dealt,
    /// so the stated sizes are upper bounds that are exact when the row sums
    /// to the player count.  The cable pool holds five cables per player:
    /// exactly one bomb, one defusing cable per player, and safe cables for
    /// the rest; it is shuffled and split evenly, five cables to each hand.
    /// The wire-cutter holder is drawn uniformly among the players.
    #[verifier::loop_isolation(false)]
    pub fn new(name: String, players: &Vec<crate::lobby::Player>) -> (g: Game)
        requires
            4 <= players@.len() <= 8,
            lobby_ids_distinct(players@),
        ensures
            g.wf(),
            g.name == name,
            g.players@.len() == players@.len(),
            forall|i: int|
                0 <= i < players@.len() ==> game_player_from(#[trigger] g.players@[i], players@[i]),
            forall|i: int| 0 <= i < players@.len() ==> (#[trigger] g.players@[i]).cables@.len() == 5,
            team_size(g.players@, Team::Sherlock) + team_size(g.players@, Team::Moriarty)
                == players@.len(),
            team_size(g.players@, Team::Sherlock) <= sherlock_quota(players@.len() as int),
            team_size(g.players@, Team::Moriarty) <= moriarty_quota(players@.len() as int),
            hands_multiset(g.players@).count(Cable::Safe) == safe_quota(players@.len() as int),
            hands_multiset(g.players@).count(Cable::Defusing) == players@.len(),
            hands_multiset(g.players@).count(Cable::Bomb) == 1,
            revealed_total(g.players@) == 0,
            g.defusing_remaining == players@.len(),
            g.cutted_count == 0,
            has_player_id(g.players@, g.wire_cutters),
    {
        broadcast use vstd::multiset::group_multiset_axioms;
        broadcast use vstd::seq_lib::group_to_multiset_ensures;

        let n = players.len();

        let (s_quota, m_quota): (usize, usize) = if n <= 5 {
            (3, 2)
        } else if n == 6 {
            (4, 2)
        } else {
            (5, 3)
        };
        let mut teams: Vec<Team> = Vec::new();
        let mut i: usize = 0;
        while i < s_quota
            invariant
                i <= s_quota,
                teams@.len() == i,
                teams@.to_multiset().count(Team::Sherlock) == i,
                teams@.to_multiset().count(Team::Moriarty) == 0,
            decreases s_quota - i,
        {
            teams.push(Team::Sherlock);
            i = i + 1;
        }
        let mut i: usize = 0;
        while i < m_quota
            invariant
                i <= m_quota,
                teams@.len() == s_quota + i,
                teams@.to_multiset().count(Team::Sherlock) == s_quota,
                teams@.to_multiset().count(Team::Moriarty) == i,
            decreases m_quota - i,
        {
            teams.push(Team::Moriarty);
            i = i + 1;
        }
        rng::shuffle(&mut teams);
        assert(teams@.to_multiset().count(Team::Sherlock) == s_quota);
        assert(teams@.to_multiset().count(Team::Moriarty) == m_quota);
        assert(teams@.len() == teams@.to_multiset().len());

        let mut gplayers: Vec<game::Player> = Vec::new();
        let mut i: usize = 0;
        while i < n
            invariant
                i <= n,
                n == players@.len(),
                4 <= n <= 8,
                s_quota + m_quota >= n,
                teams@.len() == s_quota + m_quota,
                teams@.to_multiset().count(Team::Sherlock) == s_quota,
                teams@.to_multiset().count(Team::Moriarty) == m_quota,
                gplayers@.len() == i,
                forall|k: int|
                    0 <= k < i ==> game_player_from(#[trigger] gplayers@[k], players@[k]),
                forall|k: int| 0 <= k < i ==> (#[trigger] gplayers@[k]).id == players@[k].id,
                hands_multiset(gplayers@) == Multiset::<Cable>::empty(),
                revealed_total(gplayers@) == 0,
                team_size(gplayers@, Team::Sherlock) == teams@.take(i as int).to_multiset().count(
                    Team::Sherlock,
                ),
                team_size(gplayers@, Team::Moriarty) == teams@.take(i as int).to_multiset().count(
                    Team::Moriarty,
                ),
            decreases n - i,
        {
            let p = game::Player::new(&players[i], teams[i]);
            let ghost prev = gplayers@;
            gplayers.push(p);
            proof {
                lemma_sums_push(prev, p, Team::Sherlock);
                lemma_sums_push(prev, p, Team::Moriarty);
                assert(p.cables@.to_multiset().len() == 0);
                assert(hands_multiset(gplayers@) =~= Multiset::<Cable>::empty());
                assert(teams@.take(i + 1) =~= teams@.take(i as int).push(teams@[i as int]));
            }
            i = i + 1;
        }
        proof {
            assert forall|a: int, b: int|
                #![trigger gplayers@[a], gplayers@[b]]
                0 <= a < b < gplayers@.len() implies gplayers@[a].id != gplayers@[b].id by {
                assert(players@[a].id != players@[b].id);
            }
            let tp = teams@.take(n as int);
            assert(teams@ =~= tp + teams@.skip(n as int));
            vstd::seq_lib::lemma_multiset_commutative(tp, teams@.skip(n as int));
            assert(team_size(gplayers@, Team::Sherlock) <= s_quota);
            assert(team_size(gplayers@, Team::Moriarty) <= m_quota);
            lemma_team_partition(gplayers@);
        }

        let (safe_cables, defusing_cables, bomb) = Self::cables_count(n);
        let mut cables: Vec<Cable> = Vec::new();
        let mut i: usize = 0;
        while i < safe_cables
            invariant
                i <= safe_cables,
                cables@.len() == i,
                cables@.to_multiset().count(Cable::Safe) == i,
                cables@.to_multiset().count(Cable::Defusing) == 0,
                cables@.to_multiset().count(Cable::Bomb) == 0,
            decreases safe_cables - i,
        {
            cables.push(Cable::Safe);
            i = i + 1;
        }
        let mut i: usize = 0;
        while i < defusing_cables
            invariant
                i <= defusing_cables,
                cables@.len() == safe_cables + i,
                cables@.to_multiset().count(Cable::Safe) == safe_cables,
                cables@.to_multiset().count(Cable::Defusing) == i,
                cables@.to_multiset().count(Cable::Bomb) == 0,
            decreases defusing_cables - i,
        {
            cables.push(Cable::Defusing);
            i = i + 1;
        }
        let mut i: usize = 0;
        while i < bomb
            invariant
                i <= bomb,
                cables@.len() == safe_cables + defusing_cables + i,
                cables@.to_multiset().count(Cable::Safe) == safe_cables,
                cables@.to_multiset().count(Cable::Defusing) == defusing_cables,
                cables@.to_multiset().count(Cable::Bomb) == i,
            decreases bomb - i,
        {
            cables.push(Cable::Bomb);
            i = i + 1;
        }
        assert(cables@.len() == 5 * n);

        let wi = rng::random_index(n);
        let wire_cutters = gplayers[wi].id;

        let mut new = Game {
            name,
            players: gplayers,
            wire_cutters,
            defusing_remaining: defusing_cables,
            cutted_count: 0,
        };
        proof {
            assert(has_player_id(new.players@, wire_cutters));
            assert((5 * (n as int)) % (n as int) == 0) by (nonlinear_arith)
                requires
                    n >= 4,
            ;
        }
        let ghost pre_distribute = new.players@;
        new.distribute_cables(cables);
        proof {
            assert((5 * (n as int)) / (n as int) == 5) by (nonlinear_arith)
                requires
                    n >= 4,
            ;
            lemma_pointwise_sums(new.players@, pre_distribute, Team::Sherlock);
            lemma_pointwise_sums(new.players@, pre_distribute, Team::Moriarty);
            assert forall|a: int, b: int|
                #![trigger new.players@[a], new.players@[b]]
                0 <= a < b < new.players@.len() implies new.players@[a].id
                != new.players@[b].id by {
                assert(hand_swapped(new.players@[a], pre_distribute[a]));
                assert(hand_swapped(new.players@[b], pre_distribute[b]));
            }
            assert forall|i2: int| 0 <= i2 < players@.len() implies game_player_from(
                #[trigger] new.players@[i2],
                players@[i2],
            ) by {
                assert(hand_swapped(new.players@[i2], pre_distribute[i2]));
                assert(game_player_from(pre_distribute[i2], players@[i2]));
            }
            assert(has_player_id(new.players@, new.wire_cutters)) by {
                assert(hand_swapped(new.players@[wi as int], pre_distribute[wi as int]));
            }
        }

        new
    }

    /// Shuffles the given pool and deals it out evenly, replacing every
    /// hand; everything else about every player is kept.
    #[verifier::loop_isolation(false)]
    fn distribute_cables(&mut self, cables: Vec<Cable>)
        requires
            old(self).players@.len() > 0,
            cables@.len() as int % (old(self).players@.len() as int) == 0,
        ensures
            final(self).players@.len() == old(self).players@.len(),
            forall|i: int|
                0 <= i < old(self).players@.len() ==> hand_swapped(
                    #[trigger] final(self).players@[i],
                    old(self).players@[i],
                ),
            forall|i: int|
                0 <= i < old(self).players@.len() ==> (#[trigger] final(self).players@[i]).cables@.len()
                    == cables@.len() as int / old(self).players@.len() as int,
            hands_multiset(final(self).players@) == cables@.to_multiset(),
            final(self).name == old(self).name,
            final(self).wire_cutters == old(self).wire_cutters,
            final(self).defusing_remaining == old(self).defusing_remaining,
            final(self).cutted_count == old(self).cutted_count,
    {
        let mut cables = cables;
        rng::shuffle(&mut cables);
        let ghost shuffled = cables@;

        let n = self.players.len();
        let cables_per_player = cables.len() / n;
        proof {
            vstd::arithmetic::div_mod::lemma_fundamental_div_mod(cables@.len() as int, n as int);
        }
        assert(n * cables_per_player == cables@.len());

        let mut j: usize = 0;
        while j < n
            invariant
                j <= n,
                n == self.players@.len(),
                n == old(self).players@.len(),
                cables@ == shuffled,
                cables_per_player == cables@.len() as int / n as int,
                n * cables_per_player == cables@.len(),
                forall|k: int| j <= k < n ==> self.players@[k] == #[trigger] old(self).players@[k],
                forall|k: int|
                    0 <= k < j ==> hand_swapped(
                        #[trigger] self.players@[k],
                        old(self).players@[k],
                    ),
                forall|k: int|
                    0 <= k < j ==> (#[trigger] self.players@[k]).cables@ == cables@.subrange(
                        k * (cables_per_player as int),
                        (k + 1) * (cables_per_player as int),
                    ),
                self.name == old(self).name,
                self.wire_cutters == old(self).wire_cutters,
                self.defusing_remaining == old(self).defusing_remaining,
                self.cutted_count == old(self).cutted_count,
            decreases n - j,
        {
            let ghost per = cables_per_player as int;
            proof {
                assert((j as int) * per >= 0) by (nonlinear_arith)
                    requires
                        j >= 0,
                        per >= 0,
                ;
                assert((j as int) * per + per <= (n as int) * per) by (nonlinear_arith)
                    requires
                        (j as int) + 1 <= n as int,
                        per >= 0,
                ;
                assert(((j as int) + 1) * per == (j as int) * per + per) by (nonlinear_arith);
            }
            let base = j * cables_per_player;
            let mut hand: Vec<Cable> = Vec::new();
            let mut k: usize = 0;
            while k < cables_per_player
                invariant
                    k <= cables_per_player,
                    base == (j as int) * (cables_per_player as int),
                    base + cables_per_player <= cables@.len(),
                    cables@ == shuffled,
                    hand@ == cables@.subrange(base as int, base as int + k as int),
                decreases cables_per_player - k,
            {
                hand.push(cables[base + k]);
                proof {
                    assert(hand@ =~= cables@.subrange(base as int, base as int + (k + 1)));
                }
                k = k + 1;
            }
            assert(hand@ == cables@.subrange(
                (j as int) * (cables_per_player as int),
                ((j as int) + 1) * (cables_per_player as int),
            ));

            let ghost before = self.players@;
            let mut p = self.players.remove(j);
            p.cables = hand;
            self.players.insert(j, p);
            proof {
                assert(self.players@ =~= before.update(j as int, self.players@[j as int]));
            }
            j = j + 1;
        }
        proof {
            lemma_chunks(self.players@, cables@, cables_per_player as int);
            let per = cables_per_player as int;
            assert forall|i2: int| 0 <= i2 < n as int implies (#[trigger] self.players@[i2]).cables@.len()
                == per by {
                assert(i2 * per >= 0) by (nonlinear_arith)
                    requires
                        i2 >= 0,
                        per >= 0,
                ;
                assert((i2 + 1) * per == i2 * per + per) by (nonlinear_arith);
                assert((i2 + 1) * per <= (n as int) * per) by (nonlinear_arith)
                    requires
                        i2 + 1 <= n as int,
                        per >= 0,
                ;
            }
        }
    }

    /// The position of the player carrying the given id, if any.
    pub(crate) fn get_index(&self, id: u32) -> (r: Option<usize>)
        ensures
            match r {
                Some(i) => i < self.players@.len() && self.players@[i as int].id == id,
                None => !has_player_id(self.players@, id),
            },
    {
        let n = self.players.len();
        let mut i: usize = 0;
        while i < n
            invariant
                i <= n,
                n == self.players@.len(),
                forall|k: int| 0 <= k < i ==> (#[trigger] self.players@[k]).id != id,
            decreases n - i,
        {
            if self.players[i].id == id {
                return Some(i);
            }
            i = i + 1;
        }
        None
    }

    /// The room code.
    pub fn name(&self) -> (r: &str)
        ensures
            r@ == self.name@,
    {
        self.name.as_str()
    }

    /// The playing players, in lobby order.
    pub fn players(&self) -> (r: &Vec<game::Player>)
        ensures
            r == &self.players,
    {
        &self.players
    }

    /// The player carrying the given id, if any.
    pub fn get_player(&self, id: u32) -> (r: Option<&game::Player>)
        ensures
            match r {
                Some(p) => has_player_id(self.players@, id) && p.id == id
                    && exists|i: int|
                        0 <= i < self.players@.len() && *p == #[trigger] self.players@[i],
                None => !has_player_id(self.players@, id),
            },
    {
        match self.get_index(id) {
            Some(i) => Some(&self.players[i]),
            None => None,
        }
    }

    /// Resolves one cut request: `cutting` asks for a random cable of
    /// `cutted`'s hand to fall.  See `cut_spec` for the full effect.
    pub fn cut(&mut self, cutting: u32, cutted: u32) -> (r: Result<
        (Cable, CutOutcome),
        errors::Cut,
    >)
        requires
            old(self).wf(),
            cutting == old(self).wire_cutters && cutted != cutting ==> has_player_id(
                old(self).players@,
                cutted,
            ) && old(self).players@[index_of_id(old(self).players@, cutted)].cables@.len() > 0,
        ensures
            final(self).wf(),
            cut_spec(*old(self), *final(self), cutting, cutted, r),
            final(self).players@.len() == old(self).players@.len(),
            hands_multiset(final(self).players@).len() + revealed_total(final(self).players@) == 5
                * final(self).players@.len(),
    {
        broadcast use vstd::multiset::group_multiset_axioms;

        if cutting != self.wire_cutters {
            return Err(errors::Cut::DontHaveWireCutter);
        }
        if cutted == cutting {
            return Err(errors::Cut::CannotSelfCut);
        }

        let ghost pre = *self;
        let j = self.get_index(cutted).unwrap();
        let ghost jj = j as int;
        proof {
            let ci = index_of_id(pre.players@, cutted);
            assert(0 <= ci < pre.players@.len() && pre.players@[ci].id == cutted);
            assert(ci == jj);
            lemma_member_bounds(pre.players@, jj);
        }
        let mut p = self.players.remove(j);
        let cable = p.cut_cable();
        self.players.insert(j, p);
        proof {
            assert(self.players@ =~= pre.players@.update(jj, self.players@[jj]));
            lemma_sums_update(pre.players@, jj, self.players@[jj], Team::Sherlock);
            assert(revealed_total(pre.players@) <= 5 * pre.players@.len());
        }
        self.wire_cutters = cutted;
        match cable {
            Cable::Safe => {
                self.cutted_count = self.cutted_count + 1;
            },
            Cable::Defusing => {
                proof {
                    assert(pre.players@[jj].cables@.to_multiset().count(Cable::Defusing) > 0);
                    assert(pre.defusing_remaining >= 1);
                }
                self.defusing_remaining = self.defusing_remaining - 1;
                self.cutted_count = self.cutted_count + 1;
            },
            Cable::Bomb => {
                return Ok((cable, CutOutcome::Win(Team::Moriarty)));
            },
        }
        if self.defusing_remaining == 0 {
            return Ok((cable, CutOutcome::Win(Team::Sherlock)));
        }

        if self.cutted_count == self.players.len() {
            Ok((cable, CutOutcome::RoundEnd))
        } else {
            Ok((cable, CutOutcome::Nothing))
        }
    }

    /// Closes a round: resets the round counter and pools every remaining
    /// hand.  When each player holds exactly one cable the pool cannot be
    /// dealt out meaningfully any more and the game is over by exhaustion
    /// (`true`; the caller resolves this as a saboteur win).  Otherwise the
    /// pool is reshuffled and dealt out evenly again (`false`).
    #[verifier::loop_isolation(false)]
    pub fn next_round(&mut self) -> (over: bool)
        requires
            old(self).wf(),
            hands_multiset(old(self).players@).len() as int % (old(self).players@.len() as int)
                == 0,
        ensures
            final(self).wf(),
            over == (hands_multiset(old(self).players@).len() == old(self).players@.len()),
            final(self).cutted_count == 0,
            final(self).name == old(self).name,
            final(self).wire_cutters == old(self).wire_cutters,
            final(self).defusing_remaining == old(self).defusing_remaining,
            final(self).players@.len() == old(self).players@.len(),
            forall|i: int|
                0 <= i < old(self).players@.len() ==> hand_swapped(
                    #[trigger] final(self).players@[i],
                    old(self).players@[i],
                ),
            hands_multiset(final(self).players@) == hands_multiset(old(self).players@),
            over ==> final(self).players@ == old(self).players@,
            !over ==> forall|i: int|
                0 <= i < old(self).players@.len() ==> (#[trigger] final(self).players@[i]).cables@.len()
                    == hands_multiset(old(self).players@).len() as int / (
                old(self).players@.len() as int),
    {
        broadcast use vstd::multiset::group_multiset_axioms;
        broadcast use vstd::seq_lib::group_to_multiset_ensures;

        self.cutted_count = 0;

        let n = self.players.len();
        let mut cables: Vec<Cable> = Vec::new();
        let mut j: usize = 0;
        while j < n
            invariant
                j <= n,
                self.players@ == old(self).players@,
                cables@ == hands_concat(self.players@.take(j as int)),
            decreases n - j,
        {
            let ghost outer = cables@;
            let hand_len = self.players[j].cables.len();
            let mut k: usize = 0;
            while k < hand_len
                invariant
                    k <= hand_len,
                    j < n,
                    hand_len == self.players@[j as int].cables@.len(),
                    self.players@ == old(self).players@,
                    cables@ == outer + self.players@[j as int].cables@.take(k as int),
                decreases hand_len - k,
            {
                cables.push(self.players[j].cables[k]);
                proof {
                    assert(cables@ =~= outer + self.players@[j as int].cables@.take(k + 1));
                }
                k = k + 1;
            }
            proof {
                let tj = self.players@.take(j + 1);
                assert(tj.drop_last() =~= self.players@.take(j as int));
                assert(self.players@[j as int].cables@.take(hand_len as int) =~= self.players@[j as int].cables@);
                assert(cables@ =~= hands_concat(tj.drop_last()) + tj.last().cables@);
            }
            j = j + 1;
        }
        proof {
            assert(self.players@.take(n as int) =~= self.players@);
            lemma_hands_concat_multiset(self.players@);
        }

        if cables.len() == self.players.len() {
            return true;
        }

        let ghost pre_distribute = self.players@;
        self.distribute_cables(cables);
        proof {
            lemma_pointwise_sums(self.players@, pre_distribute, Team::Sherlock);
            lemma_aggregates_nonneg(self.players@);
            assert forall|a: int, b: int|
                #![trigger self.players@[a], self.players@[b]]
                0 <= a < b < self.players@.len() implies self.players@[a].id
                != self.players@[b].id by {
                assert(hand_swapped(self.players@[a], pre_distribute[a]));
                assert(hand_swapped(self.players@[b], pre_distribute[b]));
            }
            let wi = index_of_id(pre_distribute, self.wire_cutters);
            assert(0 <= wi < pre_distribute.len() && pre_distribute[wi].id == self.wire_cutters);
            assert(hand_swapped(self.players@[wi], pre_distribute[wi]));
            assert(has_player_id(self.players@, self.wire_cutters));
        }
        false
    }
}

impl Room<lobby::Player> for Lobby {
    fn name(&self) -> &str {
        Lobby::name(self)
    }

    fn players(&self) -> &Vec<lobby::Player> {
        Lobby::players(self)
    }

    fn get_player(&self, id: u32) -> Option<&lobby::Player> {
        Lobby::get_player(self, id)
    }
}

impl Room<game::Player> for Game {
    fn name(&self) -> &str {
        Game::name(self)
    }

    fn players(&self) -> &Vec<game::Player> {
        Game::players(self)
    }

    fn get_player(&self, id: u32) -> Option<&game::Player> {
        Game::get_player(self, id)
    }
}

} // verus!


