//! The lobby phase: waiting players, their events, and the lobby-level
//! requests of the engine.

use vstd::prelude::*;

use crate::common::code_index;
use crate::common::game_index;
use crate::common::has_code;
use crate::common::lemma_push_entry;
use crate::common::lemma_remove_entry;
use crate::common::lemma_update_entry;
use crate::common::lobby_index;
use crate::common::GlobalState;
use crate::common::Mailbox;
use crate::errors;
use crate::gameplay;
use crate::gameplay::Lobby;

verus! {

/// A player waiting in a lobby.
pub struct Player {
    /// The player's id, unique within the lobby.
    pub id: u32,
    /// The player's display name.
    pub name: String,
    /// Whether the player has marked themselves ready.
    pub ready: bool,
    /// The player's outbound event queue.
    pub mailbox: Mailbox<Message>,
}

impl Player {
    /// A fresh, not-ready player with an empty mailbox.
    pub fn new(id: u32, name: String) -> (p: Player)
        ensures
            p.id == id,
            p.name == name,
            !p.ready,
            p.mailbox.queue@ == Seq::<Message>::empty(),
            !p.mailbox.attached,
    {
        Player { id, name, ready: false, mailbox: Mailbox::new() }
    }
}

impl gameplay::Player for Player {
    fn id(&self) -> u32 {
        self.id
    }

    fn name(&self) -> &str {
        self.name.as_str()
    }
}

impl gameplay::WaitingPlayer for Player {
    fn ready(&self) -> bool {
        self.ready
    }
}

/// The public face of a lobby player, as carried by lobby events.
pub struct PlayerData {
    /// The player's id.
    pub id: u32,
    /// The player's display name.
    pub name: String,
    /// Whether the player has marked themselves ready.
    pub ready: bool,
}

/// One event of a lobby's outbound stream.
#[allow(inconsistent_fields)]
pub enum Message {
    /// Control marker telling a player's own stream to end after a
    /// self-initiated leave; never delivered to a client.
    SelfLeave,
    /// A request failed; the reason is reported to the requester.
    Error {
        /// The failure, in words.
        reason: &'static str,
    },
    /// Snapshot of the lobby, sent only to a player that just joined.
    Initialize {
        /// The lobby's code.
        lobby: String,
        /// Every player currently present, the addressee included.
        players: Vec<PlayerData>,
    },
    /// A player joined the lobby.
    Join {
        /// The joining player.
        player: PlayerData,
    },
    /// A player left the lobby.
    Leave {
        /// The id of the leaving player.
        player: u32,
    },
    /// A player changed their readiness.
    Ready {
        /// The id of the player.
        player: u32,
        /// The new readiness.
        state: bool,
    },
    /// The lobby turned into a game under the same code.
    Start,
}

impl Message {
    /// The tag under which an event is delivered to clients.
    ///
    /// `SelfLeave` is a control marker that never reaches a client, so it
    /// carries no tag and is ruled out by the precondition.
    pub fn name(&self) -> (r: &'static str)
        requires
            !(*self is SelfLeave),
        ensures
            *self is Error ==> r@ == "error"@,
            *self is Initialize ==> r@ == "init"@,
            *self is Join ==> r@ == "join"@,
            *self is Leave ==> r@ == "leave"@,
            *self is Ready ==> r@ == "ready"@,
            *self is Start ==> r@ == "start"@,
    {
        match self {
            Message::SelfLeave => "",
            Message::Error { .. } => "error",
            Message::Initialize { .. } => "init",
            Message::Join { .. } => "join",
            Message::Leave { .. } => "leave",
            Message::Ready { .. } => "ready",
            Message::Start { .. } => "start",
        }
    }
}

/// Whether `d` is the public face of lobby player `p`.
pub open spec fn player_data_matches(d: PlayerData, p: Player) -> bool {
    &&& d.id == p.id
    &&& d.name@ == p.name@
    &&& d.ready == p.ready
}

/// The public face of a lobby player.
pub fn clone_data(p: &Player) -> (d: PlayerData)
    ensures
        player_data_matches(d, *p),
        d.name == p.name,
{
    PlayerData { id: p.id, name: p.name.clone(), ready: p.ready }
}

/// An equal copy of any event that carries no player list.
pub fn duplicate(m: &Message) -> (r: Message)
    requires
        !(*m is Initialize),
    ensures
        r == *m,
{
    match m {
        Message::SelfLeave => Message::SelfLeave,
        Message::Error { reason } => Message::Error { reason: *reason },
        Message::Initialize { .. } => Message::SelfLeave,
        Message::Join { player } => Message::Join {
            player: PlayerData { id: player.id, name: player.name.clone(), ready: player.ready },
        },
        Message::Leave { player } => Message::Leave { player: *player },
        Message::Ready { player, state } => Message::Ready { player: *player, state: *state },
        Message::Start => Message::Start,
    }
}

/// Queues the same event for every player of the lobby, the instigator
/// included.
#[verifier::loop_isolation(false)]
pub fn broadcast(l: &mut gameplay::Lobby, msg: &Message)
    requires
        !(*msg is Initialize),
    ensures
        final(l).name == old(l).name,
        final(l).players@.len() == old(l).players@.len(),
        forall|k: int|
            0 <= k < old(l).players@.len() ==> gameplay::lobby_sent(
                #[trigger] final(l).players@[k],
                old(l).players@[k],
                *msg,
            ),
{
    let n = l.players.len();
    let mut j: usize = 0;
    while j < n
        invariant
            j <= n,
            forall|k: int| j <= k < n ==> l.players@[k] == #[trigger] old(l).players@[k],
            forall|k: int|
                0 <= k < j ==> gameplay::lobby_sent(
                    #[trigger] l.players@[k],
                    old(l).players@[k],
                    *msg,
                ),
            l.name == old(l).name,
            l.players@.len() == n,
        decreases n - j,
    {
        let ghost prev = l.players@;
        let copy = duplicate(msg);
        l.push_msg(j, copy);
        proof {
            assert forall|k: int| 0 <= k < j + 1 implies gameplay::lobby_sent(
                #[trigger] l.players@[k],
                old(l).players@[k],
                *msg,
            ) by {
                if k < j {
                    assert(l.players@[k] == prev[k]);
                }
            }
        }
        j = j + 1;
    }
}

/// Whether `post` is `pre` with one `Initialize` snapshot of roster `ps`
/// queued and nothing else changed.
pub open spec fn init_sent(post: Player, pre: Player, code: Seq<char>, ps: Seq<Player>) -> bool {
    &&& post.id == pre.id
    &&& post.name == pre.name
    &&& post.ready == pre.ready
    &&& post.mailbox.attached == pre.mailbox.attached
    &&& post.mailbox.queue@.len() == pre.mailbox.queue@.len() + 1
    &&& post.mailbox.queue@.drop_last() == pre.mailbox.queue@
    &&& post.mailbox.queue@.last() matches Message::Initialize { lobby, players } && lobby@ == code
        && players@.len() == ps.len() && (forall|k: int|
        0 <= k < ps.len() ==> player_data_matches(#[trigger] players@[k], ps[k]))
}

/// Queues an `Initialize` snapshot of the whole lobby for the player at
/// position `j` alone.
#[verifier::loop_isolation(false)]
pub fn send_initialize(l: &mut gameplay::Lobby, j: usize)
    requires
        j < old(l).players@.len(),
    ensures
        final(l).name == old(l).name,
        final(l).players@.len() == old(l).players@.len(),
        forall|k: int|
            0 <= k < old(l).players@.len() && k != j ==> final(l).players@[k] == #[trigger] old(
                l,
            ).players@[k],
        init_sent(
            final(l).players@[j as int],
            old(l).players@[j as int],
            old(l).name@,
            old(l).players@,
        ),
{
    let n = l.players.len();
    let mut data: Vec<PlayerData> = Vec::new();
    let mut k: usize = 0;
    while k < n
        invariant
            k <= n,
            data@.len() == k,
            forall|i: int|
                0 <= i < k ==> player_data_matches(#[trigger] data@[i], l.players@[i]),
        decreases n - k,
    {
        data.push(clone_data(&l.players[k]));
        k = k + 1;
    }
    let msg = Message::Initialize { lobby: l.name.clone(), players: data };
    let ghost m = msg;
    let ghost q = l.players@[j as int].mailbox.queue@;
    l.push_msg(j, msg);
    proof {
        assert(l.players@[j as int].mailbox.queue@ == q.push(m));
        assert(q.push(m).drop_last() =~= q);
        assert(q.push(m).last() == m);
    }
}

/// Rosters with pointwise equal ids carry the same ids and the same
/// distinctness.
pub proof fn lemma_same_lobby_ids(a: Seq<Player>, b: Seq<Player>)
    requires
        a.len() == b.len(),
        forall|k: int| 0 <= k < a.len() ==> (#[trigger] a[k]).id == b[k].id,
    ensures
        gameplay::lobby_ids_distinct(a) == gameplay::lobby_ids_distinct(b),
        forall|id: u32| #[trigger]
            gameplay::lobby_has_player_id(a, id) == gameplay::lobby_has_player_id(b, id),
        forall|id: u32| #[trigger]
            gameplay::lobby_has_player_id(a, id) ==> gameplay::lobby_index_of_id(a, id)
                == gameplay::lobby_index_of_id(b, id) || !gameplay::lobby_ids_distinct(a),
{
    assert(gameplay::lobby_ids_distinct(a) == gameplay::lobby_ids_distinct(b)) by {
        if gameplay::lobby_ids_distinct(b) {
            assert forall|i: int, j: int|
                #![trigger a[i], a[j]]
                0 <= i < j < a.len() implies a[i].id != a[j].id by {
                assert(b[i].id != b[j].id);
            }
        }
        if gameplay::lobby_ids_distinct(a) {
            assert forall|i: int, j: int|
                #![trigger b[i], b[j]]
                0 <= i < j < b.len() implies b[i].id != b[j].id by {
                assert(a[i].id != a[j].id);
            }
        }
    }
    assert forall|id: u32| #[trigger]
        gameplay::lobby_has_player_id(a, id) == gameplay::lobby_has_player_id(b, id) by {
        if gameplay::lobby_has_player_id(a, id) {
            let k = choose|k: int| 0 <= k < a.len() && (#[trigger] a[k]).id == id;
            assert(b[k].id == id);
        }
        if gameplay::lobby_has_player_id(b, id) {
            let k = choose|k: int| 0 <= k < b.len() && (#[trigger] b[k]).id == id;
            assert(a[k].id == id);
        }
    }
    assert forall|id: u32| #[trigger]
        gameplay::lobby_has_player_id(a, id) && gameplay::lobby_ids_distinct(a) implies gameplay::lobby_index_of_id(
        a,
        id,
    ) == gameplay::lobby_index_of_id(b, id) by {
        let ia = gameplay::lobby_index_of_id(a, id);
        assert(0 <= ia < a.len() && a[ia].id == id);
        assert(b[ia].id == id);
        let ib = gameplay::lobby_index_of_id(b, id);
        assert(0 <= ib < b.len() && b[ib].id == id);
        assert(a[ib].id == id);
    }
}

/// Registers a fresh, empty lobby under the given code, unless the code is
/// already taken by a lobby or a game; room-code generation retries on a
/// collision.  Returns whether the lobby was created.
pub fn create(st: &mut GlobalState, code: String) -> (r: bool)
    requires
        old(st).inv(),
    ensures
        final(st).inv(),
        r == (!has_code(old(st).lobbys@, code@) && !has_code(old(st).games@, code@)),
        !r ==> *final(st) == *old(st),
        r ==> {
            &&& final(st).games@ == old(st).games@
            &&& final(st).lobbys@.len() == old(st).lobbys@.len() + 1
            &&& final(st).lobbys@.drop_last() == old(st).lobbys@
            &&& final(st).lobbys@.last().0 == code
            &&& final(st).lobbys@.last().1.name == code
            &&& final(st).lobbys@.last().1.players@ == Seq::<Player>::empty()
        },
{
    if lobby_index(st, &code).is_some() {
        return false;
    }
    if game_index(st, &code).is_some() {
        return false;
    }
    let l = Lobby::new(code.clone());
    let ghost pre = st.lobbys@;
    st.lobbys.push((code, l));
    proof {
        assert(st.lobbys@.drop_last() =~= pre);
        assert(st.lobbys@ =~= pre.push(st.lobbys@.last()));
        lemma_push_entry(pre, st.lobbys@.last());
        assert forall|i: int, j: int|
            #![trigger st.lobbys@[i], st.games@[j]]
            0 <= i < st.lobbys@.len() && 0 <= j < st.games@.len() implies st.lobbys@[i].0@
            != st.games@[j].0@ by {
            if i < pre.len() {
                assert(st.lobbys@[i] == pre[i]);
            } else {
                assert(st.lobbys@[i].0@ == code@);
                if st.games@[j].0@ == code@ {
                    assert(has_code(st.games@, code@));
                }
            }
        }
    }
    true
}

/// Whether `post` is `pre` with player `id`'s readiness set to `value` and
/// a `Ready` event queued for every player.
pub open spec fn ready_effect(post: Lobby, pre: Lobby, id: u32, value: bool) -> bool {
    let pi = gameplay::lobby_index_of_id(pre.players@, id);
    let msg = Message::Ready { player: id, state: value };
    &&& post.name == pre.name
    &&& post.players@.len() == pre.players@.len()
    &&& forall|k: int|
        0 <= k < pre.players@.len() && k != pi ==> gameplay::lobby_sent(
            #[trigger] post.players@[k],
            pre.players@[k],
            msg,
        )
    &&& {
        let p0 = pre.players@[pi];
        let p1 = post.players@[pi];
        &&& p1.id == p0.id
        &&& p1.name == p0.name
        &&& p1.ready == value
        &&& p1.mailbox.attached == p0.mailbox.attached
        &&& p1.mailbox.queue@ == p0.mailbox.queue@.push(msg)
    }
}

/// Sets the readiness of player `id` in the lobby at `code` and announces
/// the change to every player.  A no-op when the room or the player is
/// unknown.
pub fn ready(st: &mut GlobalState, code: &String, id: u32, value: bool)
    requires
        old(st).inv(),
    ensures
        final(st).inv(),
        !has_code(old(st).lobbys@, code@) ==> *final(st) == *old(st),
        has_code(old(st).lobbys@, code@) ==> {
            let li = code_index(old(st).lobbys@, code@);
            let l = old(st).lobbys@[li].1;
            if !gameplay::lobby_has_player_id(l.players@, id) {
                *final(st) == *old(st)
            } else {
                &&& final(st).games@ == old(st).games@
                &&& final(st).lobbys@.len() == old(st).lobbys@.len()
                &&& forall|k: int|
                    0 <= k < old(st).lobbys@.len() && k != li ==> final(st).lobbys@[k]
                        == #[trigger] old(st).lobbys@[k]
                &&& final(st).lobbys@[li].0 == old(st).lobbys@[li].0
                &&& ready_effect(final(st).lobbys@[li].1, l, id, value)
            }
        },
{
    let li = match lobby_index(st, code) {
        None => {
            return ;
        },
        Some(li) => li,
    };
    let ghost pre = *st;
    proof {
        let ci = code_index(pre.lobbys@, code@);
        assert(0 <= ci < pre.lobbys@.len() && pre.lobbys@[ci].0@ == code@);
        assert(ci == li as int);
    }
    if st.lobbys[li].1.get_player(id).is_none() {
        return ;
    }
    let mut entry = st.lobbys.remove(li);
    let _ = entry.1.set_ready(id, value);
    broadcast(&mut entry.1, &Message::Ready { player: id, state: value });
    st.lobbys.insert(li, entry);
    proof {
        let l = pre.lobbys@[li as int].1;
        let pi = gameplay::lobby_index_of_id(l.players@, id);
        assert(st.lobbys@ =~= pre.lobbys@.update(li as int, st.lobbys@[li as int]));
        lemma_update_entry(pre.lobbys@, li as int, st.lobbys@[li as int]);
        let post = st.lobbys@[li as int].1;
        lemma_same_lobby_ids(post.players@, l.players@);
        assert(ready_effect(post, l, id, value));
    }
}

/// Unregisters the lobby at `code` when it is still empty; the deferred
/// sweep for a room that nobody ever joined.  At fire time the current
/// state is re-checked: a lobby that has players by now is left alone.
pub fn sweep_lobby(st: &mut GlobalState, code: &String)
    requires
        old(st).inv(),
    ensures
        final(st).inv(),
        final(st).games@ == old(st).games@,
        !has_code(old(st).lobbys@, code@) ==> *final(st) == *old(st),
        has_code(old(st).lobbys@, code@) ==> {
            let li = code_index(old(st).lobbys@, code@);
            if old(st).lobbys@[li].1.players@.len() == 0 {
                final(st).lobbys@ == old(st).lobbys@.remove(li) && !has_code(
                    final(st).lobbys@,
                    code@,
                )
            } else {
                *final(st) == *old(st)
            }
        },
{
    let li = match lobby_index(st, code) {
        None => {
            return ;
        },
        Some(li) => li,
    };
    let ghost pre = *st;
    proof {
        let ci = code_index(pre.lobbys@, code@);
        assert(0 <= ci < pre.lobbys@.len() && pre.lobbys@[ci].0@ == code@);
        assert(ci == li as int);
    }
    if st.lobbys[li].1.players.len() == 0 {
        st.lobbys.remove(li);
        proof {
            lemma_remove_entry(pre.lobbys@, li as int);
            assert forall|i: int, j: int|
                #![trigger st.lobbys@[i], st.games@[j]]
                0 <= i < st.lobbys@.len() && 0 <= j < st.games@.len() implies st.lobbys@[i].0@
                != st.games@[j].0@ by {
                let i0 = if i < li as int { i } else { i + 1 };
                assert(st.lobbys@[i] == pre.lobbys@[i0]);
            }
        }
    }
}

/// Whether `post` is `pre` with a fresh player `id`/`name` admitted: every
/// prior player got a `Join` event, and the newcomer's mailbox holds the
/// `Initialize` snapshot followed by the same `Join` event.
pub open spec fn join_effect(post: Lobby, pre: Lobby, id: u32, name: String) -> bool {
    let n = pre.players@.len() as int;
    let msg = Message::Join { player: PlayerData { id, name, ready: false } };
    &&& post.name == pre.name
    &&& post.players@.len() == n + 1
    &&& forall|k: int|
        0 <= k < n ==> gameplay::lobby_sent(#[trigger] post.players@[k], pre.players@[k], msg)
    &&& {
        let p = post.players@[n];
        &&& p.id == id
        &&& p.name == name
        &&& !p.ready
        &&& !p.mailbox.attached
        &&& p.mailbox.queue@.len() == 2
        &&& (p.mailbox.queue@[0] matches Message::Initialize { lobby, players } && lobby@
            == pre.name@ && players@.len() == n + 1 && (forall|k: int|
            0 <= k < n ==> player_data_matches(#[trigger] players@[k], pre.players@[k]))
            && players@[n].id == id && players@[n].name@ == name@ && !players@[n].ready)
        &&& p.mailbox.queue@[1] == msg
    }
}

/// Admits player `id`/`name` to the lobby at `code`: rejected when the room
/// is unknown, full, or already holds the id; otherwise the newcomer gets
/// an `Initialize` snapshot and everyone a `Join` event.
pub fn join(st: &mut GlobalState, code: &String, id: u32, name: String) -> (r: Result<
    (),
    errors::JoinRequest,
>)
    requires
        old(st).inv(),
    ensures
        final(st).inv(),
        !has_code(old(st).lobbys@, code@) ==> r == Err::<(), errors::JoinRequest>(
            errors::JoinRequest::UnknownRoom,
        ) && *final(st) == *old(st),
        has_code(old(st).lobbys@, code@) ==> {
            let li = code_index(old(st).lobbys@, code@);
            let l = old(st).lobbys@[li].1;
            if l.players@.len() >= 8 {
                r == Err::<(), errors::JoinRequest>(errors::JoinRequest::GameFull) && *final(st)
                    == *old(st)
            } else if gameplay::lobby_has_player_id(l.players@, id) {
                r == Err::<(), errors::JoinRequest>(errors::JoinRequest::AlreadyConnected)
                    && *final(st) == *old(st)
            } else {
                &&& r == Ok::<(), errors::JoinRequest>(())
                &&& final(st).games@ == old(st).games@
                &&& final(st).lobbys@.len() == old(st).lobbys@.len()
                &&& forall|k: int|
                    0 <= k < old(st).lobbys@.len() && k != li ==> final(st).lobbys@[k]
                        == #[trigger] old(st).lobbys@[k]
                &&& final(st).lobbys@[li].0 == old(st).lobbys@[li].0
                &&& join_effect(final(st).lobbys@[li].1, l, id, name)
            }
        },
{
    let li = match lobby_index(st, code) {
        None => {
            return Err(errors::JoinRequest::UnknownRoom);
        },
        Some(li) => li,
    };
    let ghost pre = *st;
    proof {
        let ci = code_index(pre.lobbys@, code@);
        assert(0 <= ci < pre.lobbys@.len() && pre.lobbys@[ci].0@ == code@);
        assert(ci == li as int);
    }
    if st.lobbys[li].1.players.len() >= 8 {
        return Err(errors::JoinRequest::GameFull);
    }
    if st.lobbys[li].1.get_player(id).is_some() {
        return Err(errors::JoinRequest::AlreadyConnected);
    }
    let name_for_msg = name.clone();
    let mut entry = st.lobbys.remove(li);
    let p = Player::new(id, name);
    let ghost p0 = p;
    let ghost l = pre.lobbys@[li as int].1;
    let added = entry.1.add_player(p);
    proof {
        assert(added is Ok);
        assert(entry.1.players@ == l.players@.push(p0));
    }
    let idx = entry.1.players.len() - 1;
    send_initialize(&mut entry.1, idx);
    let ghost roster2 = entry.1.players@;
    broadcast(
        &mut entry.1,
        &Message::Join { player: PlayerData { id, name: name_for_msg, ready: false } },
    );
    st.lobbys.insert(li, entry);
    proof {
        let n = l.players@.len() as int;
        let post = st.lobbys@[li as int].1;
        let msg = Message::Join { player: PlayerData { id, name: name_for_msg, ready: false } };
        assert(msg == Message::Join { player: PlayerData { id, name, ready: false } });
        assert(st.lobbys@ =~= pre.lobbys@.update(li as int, st.lobbys@[li as int]));
        lemma_update_entry(pre.lobbys@, li as int, st.lobbys@[li as int]);
        assert forall|k: int| 0 <= k < n implies gameplay::lobby_sent(
            #[trigger] post.players@[k],
            l.players@[k],
            msg,
        ) by {
            assert(roster2[k] == l.players@.push(p0)[k]);
            assert(l.players@.push(p0)[k] == l.players@[k]);
        }
        let q1 = roster2[n].mailbox.queue@;
        assert(q1.len() == 1);
        assert(post.players@[n].mailbox.queue@ == q1.push(msg));
        assert(post.players@[n].mailbox.queue@[0] == q1[0]);
        assert(q1[0] == q1.last());
        assert(join_effect(post, l, id, name));
        lemma_same_lobby_ids(post.players@, l.players@.push(p0));
        assert(post.wf());
    }
    Ok(())
}

/// Whether `post` is `pre` with player `id` gone: every player, the leaver
/// included, got a `Leave` event, then the leaver's entry was removed.
pub open spec fn leave_effect(post: Lobby, pre: Lobby, id: u32) -> bool {
    let pi = gameplay::lobby_index_of_id(pre.players@, id);
    let msg = Message::Leave { player: id };
    &&& post.name == pre.name
    &&& post.players@.len() == pre.players@.len() - 1
    &&& forall|k: int|
        0 <= k < pi ==> gameplay::lobby_sent(#[trigger] post.players@[k], pre.players@[k], msg)
    &&& forall|k: int|
        pi <= k < pre.players@.len() - 1 ==> gameplay::lobby_sent(
            #[trigger] post.players@[k],
            pre.players@[k + 1],
            msg,
        )
}

/// Removes player `id` from the lobby at `code`, announcing the departure
/// to everyone first; a lobby left empty is unregistered.  A no-op when the
/// room or the player is unknown.
pub fn leave(st: &mut GlobalState, code: &String, id: u32)
    requires
        old(st).inv(),
    ensures
        final(st).inv(),
        final(st).games@ == old(st).games@,
        !has_code(old(st).lobbys@, code@) ==> *final(st) == *old(st),
        has_code(old(st).lobbys@, code@) ==> {
            let li = code_index(old(st).lobbys@, code@);
            let l = old(st).lobbys@[li].1;
            if !gameplay::lobby_has_player_id(l.players@, id) {
                *final(st) == *old(st)
            } else if l.players@.len() == 1 {
                final(st).lobbys@ == old(st).lobbys@.remove(li) && !has_code(
                    final(st).lobbys@,
                    code@,
                )
            } else {
                &&& final(st).lobbys@.len() == old(st).lobbys@.len()
                &&& forall|k: int|
                    0 <= k < old(st).lobbys@.len() && k != li ==> final(st).lobbys@[k]
                        == #[trigger] old(st).lobbys@[k]
                &&& final(st).lobbys@[li].0 == old(st).lobbys@[li].0
                &&& leave_effect(final(st).lobbys@[li].1, l, id)
            }
        },
{
    let li = match lobby_index(st, code) {
        None => {
            return ;
        },
        Some(li) => li,
    };
    let ghost pre = *st;
    proof {
        let ci = code_index(pre.lobbys@, code@);
        assert(0 <= ci < pre.lobbys@.len() && pre.lobbys@[ci].0@ == code@);
        assert(ci == li as int);
    }
    if st.lobbys[li].1.get_player(id).is_none() {
        return ;
    }
    let mut entry = st.lobbys.remove(li);
    let ghost l = pre.lobbys@[li as int].1;
    broadcast(&mut entry.1, &Message::Leave { player: id });
    let ghost roster2 = entry.1.players@;
    proof {
        lemma_same_lobby_ids(roster2, l.players@);
    }
    entry.1.remove_player(id);
    if entry.1.players.len() == 0 {
        proof {
            lemma_remove_entry(pre.lobbys@, li as int);
            assert(st.lobbys@ == pre.lobbys@.remove(li as int));
            assert forall|i: int, j: int|
                #![trigger st.lobbys@[i], st.games@[j]]
                0 <= i < st.lobbys@.len() && 0 <= j < st.games@.len() implies st.lobbys@[i].0@
                != st.games@[j].0@ by {
                let i0 = if i < li as int { i } else { i + 1 };
                assert(st.lobbys@[i] == pre.lobbys@[i0]);
            }
        }
        return ;
    }
    st.lobbys.insert(li, entry);
    proof {
        let post = st.lobbys@[li as int].1;
        let pi = gameplay::lobby_index_of_id(l.players@, id);
        let msg = Message::Leave { player: id };
        assert(st.lobbys@ =~= pre.lobbys@.update(li as int, st.lobbys@[li as int]));
        lemma_update_entry(pre.lobbys@, li as int, st.lobbys@[li as int]);
        assert(0 <= pi < l.players@.len() && l.players@[pi].id == id);
        assert(gameplay::lobby_index_of_id(roster2, id) == pi);
        roster2.remove_ensures(pi);
        assert forall|k: int| 0 <= k < pi implies gameplay::lobby_sent(
            #[trigger] post.players@[k],
            l.players@[k],
            msg,
        ) by {
            assert(post.players@[k] == roster2[k]);
        }
        assert forall|k: int| pi <= k < l.players@.len() - 1 implies gameplay::lobby_sent(
            #[trigger] post.players@[k],
            l.players@[k + 1],
            msg,
        ) by {
            assert(post.players@[k] == roster2[k + 1]);
        }
        assert(leave_effect(post, l, id));
    }
}

/// What the started game carries over from the retired lobby's roster:
/// identities in order, full fresh hands, the team table bounds, the exact
/// cable census, and a valid wire-cutter holder.
pub open spec fn started_from(g: gameplay::Game, l: Lobby) -> bool {
    let n = l.players@.len() as int;
    &&& g.wf()
    &&& g.name == l.name
    &&& g.players@.len() == n
    &&& forall|i: int|
        0 <= i < n ==> gameplay::game_player_from(#[trigger] g.players@[i], l.players@[i])
    &&& forall|i: int| 0 <= i < n ==> (#[trigger] g.players@[i]).cables@.len() == 5
    &&& gameplay::team_size(g.players@, gameplay::Team::Sherlock) + gameplay::team_size(
        g.players@,
        gameplay::Team::Moriarty,
    ) == n
    &&& gameplay::team_size(g.players@, gameplay::Team::Sherlock) <= gameplay::sherlock_quota(n)
    &&& gameplay::team_size(g.players@, gameplay::Team::Moriarty) <= gameplay::moriarty_quota(n)
    &&& gameplay::hands_multiset(g.players@).count(gameplay::Cable::Safe)
        == gameplay::safe_quota(n)
    &&& gameplay::hands_multiset(g.players@).count(gameplay::Cable::Defusing) == n
    &&& gameplay::hands_multiset(g.players@).count(gameplay::Cable::Bomb) == 1
    &&& g.defusing_remaining == n
    &&& g.cutted_count == 0
    &&& gameplay::has_player_id(g.players@, g.wire_cutters)
}

/// The full effect of one `start` call on the registries.
pub open spec fn start_spec(
    pre: GlobalState,
    post: GlobalState,
    code: Seq<char>,
    r: Result<Lobby, errors::Start>,
) -> bool {
    if !has_code(pre.lobbys@, code) {
        &&& r == Err::<Lobby, errors::Start>(errors::Start::UnknownRoom)
        &&& post == pre
    } else {
        let li = code_index(pre.lobbys@, code);
        let l = pre.lobbys@[li].1;
        if !l.spec_may_start() {
            &&& r == Err::<Lobby, errors::Start>(errors::Start::NotReady)
            &&& post == pre
        } else {
            &&& r matches Ok(retired) && ({
                &&& retired.name == l.name
                &&& retired.players@.len() == l.players@.len()
                &&& forall|k: int|
                    0 <= k < l.players@.len() ==> gameplay::lobby_sent(
                        #[trigger] retired.players@[k],
                        l.players@[k],
                        Message::Start,
                    )
            })
            &&& post.lobbys@ == pre.lobbys@.remove(li)
            &&& !has_code(post.lobbys@, code)
            &&& post.games@.len() == pre.games@.len() + 1
            &&& post.games@.drop_last() == pre.games@
            &&& post.games@.last().0@ == code
            &&& started_from(post.games@.last().1, l)
        }
    }
}

/// Atomically turns the lobby at `code` into a game registered under the
/// same code.  The start precondition is checked under the same critical
/// section that moves the room, so two concurrent starts cannot both
/// succeed (`lemma_start_exclusive`).  The retired lobby, every player
/// holding a queued `Start` event, is handed back for final delivery.
pub fn start(st: &mut GlobalState, code: &String) -> (r: Result<Lobby, errors::Start>)
    requires
        old(st).inv(),
    ensures
        final(st).inv(),
        start_spec(*old(st), *final(st), code@, r),
{
    let li = match lobby_index(st, code) {
        None => {
            return Err(errors::Start::UnknownRoom);
        },
        Some(li) => li,
    };
    let ghost pre = *st;
    proof {
        let ci = code_index(pre.lobbys@, code@);
        assert(0 <= ci < pre.lobbys@.len() && pre.lobbys@[ci].0@ == code@);
        assert(ci == li as int);
    }
    if !st.lobbys[li].1.may_start() {
        return Err(errors::Start::NotReady);
    }
    let entry = st.lobbys.remove(li);
    let (code_string, mut retired) = entry;
    let ghost l = pre.lobbys@[li as int].1;
    let game = retired.start();
    broadcast(&mut retired, &Message::Start);
    st.games.push((code_string, game));
    proof {
        let n = l.players@.len() as int;
        lemma_remove_entry(pre.lobbys@, li as int);
        assert(!has_code(pre.games@, code@));
        lemma_push_entry(pre.games@, st.games@.last());
        assert(st.games@.drop_last() =~= pre.games@);
        assert forall|i: int, j: int|
            #![trigger st.lobbys@[i], st.games@[j]]
            0 <= i < st.lobbys@.len() && 0 <= j < st.games@.len() implies st.lobbys@[i].0@
            != st.games@[j].0@ by {
            let i0 = if i < li as int { i } else { i + 1 };
            assert(st.lobbys@[i] == pre.lobbys@[i0]);
            if j < pre.games@.len() {
                assert(st.games@[j] == pre.games@[j]);
            } else {
                assert(st.games@[j].0@ == code@);
                assert(!has_code(st.lobbys@, code@));
            }
        }
        assert((5 * n + 0) % n == 0) by (nonlinear_arith)
            requires
                n >= 4,
        ;
        assert(gameplay::hands_multiset(game.players@).len() == 5 * n) by {
            broadcast use vstd::multiset::group_multiset_axioms;

        }
        assert(started_from(st.games@.last().1, l));
    }
    Ok(retired)
}

/// Two start requests for one room code cannot both succeed: a successful
/// start consumes the lobby, so the next start under the same code observes
/// `UnknownRoom` and changes nothing — never a duplicate game.
pub proof fn lemma_start_exclusive(
    s0: GlobalState,
    s1: GlobalState,
    s2: GlobalState,
    code: Seq<char>,
    r1: Result<Lobby, errors::Start>,
    r2: Result<Lobby, errors::Start>,
)
    requires
        start_spec(s0, s1, code, r1),
        start_spec(s1, s2, code, r2),
        r1 is Ok,
    ensures
        r2 == Err::<Lobby, errors::Start>(errors::Start::UnknownRoom),
        s2 == s1,
{
    assert(has_code(s0.lobbys@, code));
    assert(!has_code(s1.lobbys@, code));
}

} // verus!
