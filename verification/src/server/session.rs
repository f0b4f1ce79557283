use vstd::prelude::*;

use crate::server::actor::Player;

verus! {

/// The life cycle of a session.
#[derive(Clone, Copy, Debug, PartialEq, Eq, Structural)]
pub enum SessionState {
    /// one player is missing
    PENDING,
    /// the game is being played
    RUNNING,
    /// the game is over
    CLOSED,
}

/// A game session.
#[derive(Debug, Clone)]
pub struct Session {
    pub id: u16,
    pub hash: String,
    pub state: SessionState,
    pub players: Vec<Player>,
}

/// Whether a session with these players takes another player: exactly when it has one.
pub open spec fn joinable(players: Seq<Player>) -> bool {
    players.len() == 1
}

impl Session {
    /// A pending session with `player` as its only player.
    pub fn new(id: u16, hash: String, player: Player) -> (s: Session)
        ensures
            s.id == id,
            s.hash == hash,
            s.state == SessionState::PENDING,
            s.players@ == seq![player],
    {
        Session { players: vec![player], id, hash, state: SessionState::PENDING }
    }

    pub fn can_be_joined(&self) -> (r: bool)
        ensures
            r == joinable(self.players@),
    {
        self.players.len() == 1
    }

    /// Adds `player` if the session can be joined; says whether it did.
    pub fn join(&mut self, player: Player) -> (r: bool)
        ensures
            r == joinable(old(self).players@),
            r ==> final(self).players@ == old(self).players@.push(player),
            !r ==> final(self).players@ == old(self).players@,
            final(self).id == old(self).id,
            final(self).hash == old(self).hash,
            final(self).state == old(self).state,
    {
        if !self.can_be_joined() {
            return false;
        }
        self.players.push(player);
        return true;
    }

    /// A copy with the same field values.
    pub fn duplicate(&self) -> (s: Session)
        ensures
            s.id == self.id,
            s.hash == self.hash,
            s.state == self.state,
            s.players@ == self.players@,
    {
        let mut players: Vec<Player> = Vec::new();
        let mut k: usize = 0;
        while k < self.players.len()
            invariant
                0 <= k <= self.players@.len(),
                players@ == self.players@.take(k as int),
            decreases self.players@.len() - k,
        {
            players.push(self.players[k].duplicate());
            assert(self.players@.take(k + 1) == self.players@.take(k as int).push(self.players@[k as int]));
            k = k + 1;
        }
        assert(self.players@.take(k as int) == self.players@);
        Session { id: self.id, hash: self.hash.clone(), state: self.state, players }
    }
}

/// A session with one player takes exactly one more: once joined, it cannot be joined again.
pub proof fn lemma_session_joined_at_most_once(players: Seq<Player>, first: Player, second: Player)
    requires
        joinable(players),
    ensures
        !joinable(players.push(first)),
        !joinable(players.push(first).push(second)),
{
}

} // verus!
