//! Shared infrastructure: the per-player mailbox and the global registries.

use vstd::prelude::*;

use crate::gameplay::{Game, Lobby};

verus! {

/// A per-player outbound queue plus an attachment slot enforcing at most one
/// live reader.
///
/// Events are queued unconditionally, whether or not a reader is attached.
/// Attaching discards everything queued while detached: catch-up is done by a
/// fresh snapshot, never by replaying history.
pub struct Mailbox<M> {
    /// The outbound events, oldest first.
    pub queue: Vec<M>,
    /// Whether a live stream currently consumes this mailbox.
    pub attached: bool,
}

impl<M> Mailbox<M> {
    /// An empty, detached mailbox.
    pub fn new() -> (m: Mailbox<M>)
        ensures
            m.queue@ == Seq::<M>::empty(),
            !m.attached,
    {
        Mailbox { queue: Vec::new(), attached: false }
    }

    /// Queues an event.  Never blocks and never fails, attached or not.
    pub fn send(&mut self, msg: M)
        ensures
            final(self).queue@ == old(self).queue@.push(msg),
            final(self).attached == old(self).attached,
    {
        self.queue.push(msg);
    }

    /// Takes the attachment slot.  On success the backlog accumulated while
    /// detached is discarded, so no stale event is ever delivered after a gap.
    pub fn attach(&mut self) -> (ok: bool)
        ensures
            ok == !old(self).attached,
            !ok ==> *final(self) == *old(self),
            ok ==> final(self).attached && final(self).queue@ == Seq::<M>::empty(),
    {
        if self.attached {
            false
        } else {
            self.attached = true;
            self.queue.clear();
            true
        }
    }

    /// Returns the attachment slot, re-enabling a future attach.  Queued
    /// events are kept; they are discarded by the next successful attach.
    pub fn detach(&mut self)
        ensures
            final(self).queue@ == old(self).queue@,
            !final(self).attached,
    {
        self.attached = false;
    }

    /// Hands the queued events to the attached consumer, oldest first,
    /// leaving the queue empty.
    pub fn drain(&mut self) -> (msgs: Vec<M>)
        requires
            old(self).attached,
        ensures
            msgs@ == old(self).queue@,
            final(self).queue@ == Seq::<M>::empty(),
            final(self).attached,
    {
        let mut msgs: Vec<M> = Vec::new();
        core::mem::swap(&mut msgs, &mut self.queue);
        msgs
    }
}

/// Whether some entry of the registry carries the given code.
pub open spec fn has_code<T>(entries: Seq<(String, T)>, code: Seq<char>) -> bool {
    exists|i: int| 0 <= i < entries.len() && (#[trigger] entries[i]).0@ == code
}

/// The index of the entry carrying the given code; meaningful only when
/// `has_code` holds and codes are distinct.
pub open spec fn code_index<T>(entries: Seq<(String, T)>, code: Seq<char>) -> int {
    choose|i: int| 0 <= i < entries.len() && (#[trigger] entries[i]).0@ == code
}

/// Whether no two entries of the registry share a code.
pub open spec fn codes_distinct<T>(entries: Seq<(String, T)>) -> bool {
    forall|i: int, j: int|
        #![trigger entries[i], entries[j]]
        0 <= i < j < entries.len() ==> entries[i].0@ != entries[j].0@
}

/// The process-wide room registries: one for lobby-phase rooms and one for
/// game-phase rooms, each mapping a room code to the room.  A code is
/// registered in at most one of the two.
///
/// The embedding application guards the whole state by one lock and holds it
/// for every complete check-and-mutate sequence, so each operation here is
/// one atomic critical section.
pub struct GlobalState {
    /// The lobby-phase rooms, keyed by code.
    pub lobbys: Vec<(String, Lobby)>,
    /// The game-phase rooms, keyed by code.
    pub games: Vec<(String, Game)>,
}

impl GlobalState {
    /// The registries' invariant: codes are distinct within and across the
    /// two registries; every room is well-formed and registered under its
    /// own code; and every registered game sits between protocol steps: its
    /// round counter is below the player count and its hands hold a number
    /// of cables that the next redistribution can split evenly.
    pub open spec fn inv(self) -> bool {
        &&& codes_distinct(self.lobbys@)
        &&& codes_distinct(self.games@)
        &&& forall|i: int, j: int|
            #![trigger self.lobbys@[i], self.games@[j]]
            0 <= i < self.lobbys@.len() && 0 <= j < self.games@.len() ==> self.lobbys@[i].0@
                != self.games@[j].0@
        &&& forall|i: int|
            0 <= i < self.lobbys@.len() ==> (#[trigger] self.lobbys@[i]).1.wf()
                && self.lobbys@[i].1.name@ == self.lobbys@[i].0@
        &&& forall|i: int|
            0 <= i < self.games@.len() ==> {
                let g = (#[trigger] self.games@[i]).1;
                &&& g.wf()
                &&& g.name@ == self.games@[i].0@
                &&& g.cutted_count < g.players@.len()
                &&& (crate::gameplay::hands_multiset(g.players@).len() + g.cutted_count) as int % (
                g.players@.len() as int) == 0
            }
    }

    /// Empty registries.
    pub fn new() -> (s: GlobalState)
        ensures
            s.inv(),
            s.lobbys@ == Seq::<(String, Lobby)>::empty(),
            s.games@ == Seq::<(String, Game)>::empty(),
    {
        GlobalState { lobbys: Vec::new(), games: Vec::new() }
    }
}

/// The position of the lobby registered under the given code, if any.
pub fn lobby_index(s: &GlobalState, code: &String) -> (r: Option<usize>)
    ensures
        match r {
            Some(i) => i < s.lobbys@.len() && s.lobbys@[i as int].0@ == code@,
            None => !has_code(s.lobbys@, code@),
        },
{
    let n = s.lobbys.len();
    let mut i: usize = 0;
    while i < n
        invariant
            i <= n,
            n == s.lobbys@.len(),
            forall|k: int| 0 <= k < i ==> (#[trigger] s.lobbys@[k]).0@ != code@,
        decreases n - i,
    {
        if s.lobbys[i].0.eq(code) {
            return Some(i);
        }
        i = i + 1;
    }
    None
}

/// The position of the game registered under the given code, if any.
pub fn game_index(s: &GlobalState, code: &String) -> (r: Option<usize>)
    ensures
        match r {
            Some(i) => i < s.games@.len() && s.games@[i as int].0@ == code@,
            None => !has_code(s.games@, code@),
        },
{
    let n = s.games.len();
    let mut i: usize = 0;
    while i < n
        invariant
            i <= n,
            n == s.games@.len(),
            forall|k: int| 0 <= k < i ==> (#[trigger] s.games@[k]).0@ != code@,
        decreases n - i,
    {
        if s.games[i].0.eq(code) {
            return Some(i);
        }
        i = i + 1;
    }
    None
}

/// Removing an entry keeps the remaining codes distinct; no code appears
/// that was not there, and the removed entry's code is gone.
pub proof fn lemma_remove_entry<T>(entries: Seq<(String, T)>, i: int)
    requires
        codes_distinct(entries),
        0 <= i < entries.len(),
    ensures
        codes_distinct(entries.remove(i)),
        forall|c: Seq<char>| #[trigger] has_code(entries.remove(i), c) ==> has_code(entries, c),
        !has_code(entries.remove(i), entries[i].0@),
        forall|c: Seq<char>| #[trigger]
            has_code(entries, c) && c != entries[i].0@ ==> has_code(entries.remove(i), c),
{
    let r = entries.remove(i);
    entries.remove_ensures(i);
    assert forall|a: int, b: int|
        #![trigger r[a], r[b]]
        0 <= a < b < r.len() implies r[a].0@ != r[b].0@ by {
        let a0 = if a < i { a } else { a + 1 };
        let b0 = if b < i { b } else { b + 1 };
        assert(r[a] == entries[a0]);
        assert(r[b] == entries[b0]);
    }
    assert forall|c: Seq<char>| #[trigger] has_code(r, c) implies has_code(entries, c) by {
        let k = choose|k: int| 0 <= k < r.len() && (#[trigger] r[k]).0@ == c;
        let k0 = if k < i { k } else { k + 1 };
        assert(r[k] == entries[k0]);
        assert(entries[k0].0@ == c);
    }
    assert(!has_code(r, entries[i].0@)) by {
        if has_code(r, entries[i].0@) {
            let k = choose|k: int| 0 <= k < r.len() && (#[trigger] r[k]).0@ == entries[i].0@;
            let k0 = if k < i { k } else { k + 1 };
            assert(r[k] == entries[k0]);
            assert(k0 != i);
            assert(entries[k0].0@ != entries[i].0@);
        }
    }
    assert forall|c: Seq<char>| #[trigger]
        has_code(entries, c) && c != entries[i].0@ implies has_code(r, c) by {
        let k0 = choose|k: int| 0 <= k < entries.len() && (#[trigger] entries[k]).0@ == c;
        assert(k0 != i);
        let k = if k0 < i { k0 } else { k0 - 1 };
        assert(r[k] == entries[k0]);
    }
}

/// Replacing an entry by one under the same code keeps the codes distinct
/// and registers exactly the same codes.
pub proof fn lemma_update_entry<T>(entries: Seq<(String, T)>, i: int, e: (String, T))
    requires
        codes_distinct(entries),
        0 <= i < entries.len(),
        e.0@ == entries[i].0@,
    ensures
        codes_distinct(entries.update(i, e)),
        forall|c: Seq<char>| #[trigger]
            has_code(entries.update(i, e), c) == has_code(entries, c),
{
    let u = entries.update(i, e);
    assert forall|c: Seq<char>| #[trigger] has_code(u, c) == has_code(entries, c) by {
        if has_code(u, c) {
            let k = choose|k: int| 0 <= k < u.len() && (#[trigger] u[k]).0@ == c;
            assert(entries[k].0@ == c);
        }
        if has_code(entries, c) {
            let k = choose|k: int| 0 <= k < entries.len() && (#[trigger] entries[k]).0@ == c;
            assert(u[k].0@ == c);
        }
    }
}

/// Appending an entry under a fresh code keeps the codes distinct and
/// registers exactly the old codes plus the new one.
pub proof fn lemma_push_entry<T>(entries: Seq<(String, T)>, e: (String, T))
    requires
        codes_distinct(entries),
        !has_code(entries, e.0@),
    ensures
        codes_distinct(entries.push(e)),
        forall|c: Seq<char>| #[trigger]
            has_code(entries.push(e), c) == (has_code(entries, c) || c == e.0@),
{
    let u = entries.push(e);
    assert forall|a: int, b: int|
        #![trigger u[a], u[b]]
        0 <= a < b < u.len() implies u[a].0@ != u[b].0@ by {
        if b < entries.len() {
            assert(entries[a].0@ != entries[b].0@);
        } else {
            assert(u[b] == e);
            assert(entries[a].0@ != e.0@);
        }
    }
    assert forall|c: Seq<char>| #[trigger]
        has_code(u, c) == (has_code(entries, c) || c == e.0@) by {
        if has_code(u, c) {
            let k = choose|k: int| 0 <= k < u.len() && (#[trigger] u[k]).0@ == c;
            if k < entries.len() {
                assert(entries[k].0@ == c);
            }
        }
        if has_code(entries, c) {
            let k = choose|k: int| 0 <= k < entries.len() && (#[trigger] entries[k]).0@ == c;
            assert(u[k].0@ == c);
        }
        if c == e.0@ {
            assert(u[entries.len() as int].0@ == c);
        }
    }
}

} // verus!
