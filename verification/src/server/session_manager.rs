use vstd::prelude::*;

use crate::pong::event::EventWrapper;
use crate::server::actor::Player;
use crate::server::event::{SessionEvent, SessionEventPayload};
use crate::server::hash::{session_hash, Hasher};
use crate::server::kafka::KafkaTopicManager;
use crate::server::session::{Session, SessionState};
use crate::search::{first_match, lemma_first_match, lemma_first_match_at};
use crate::text::{decimal, decimal_string, str_eq};

verus! {

/// A session as a value: its id, hash, state and players.
pub struct SessionView {
    pub id: u16,
    pub hash: Seq<char>,
    pub state: SessionState,
    pub players: Seq<Player>,
}

impl View for Session {
    type V = SessionView;

    open spec fn view(&self) -> SessionView {
        SessionView { id: self.id, hash: self.hash@, state: self.state, players: self.players@ }
    }
}

/// The views of a sequence of sessions.
pub open spec fn session_views(s: Seq<Session>) -> Seq<SessionView>
    decreases s.len(),
{
    if s.len() == 0 {
        Seq::empty()
    } else {
        session_views(s.drop_last()).push(s.last()@)
    }
}

/// Whether a session has the hash `id`.
pub open spec fn has_hash(id: Seq<char>) -> spec_fn(SessionView) -> bool {
    |v: SessionView| v.hash == id
}

/// The index of the first session with hash `id`, if any.
pub open spec fn find_index(sessions: Seq<SessionView>, id: Seq<char>) -> Option<int> {
    first_match(sessions, has_hash(id))
}

/// Why a player could not join a session.
#[derive(Debug, Clone, Copy, PartialEq, Eq, Structural)]
pub enum JoinSessionError {
    /// there is no session with the id
    NotFound,
    /// the session is not pending
    NotPending,
    /// the session already has more than one player
    Full,
    /// the player is already the session's player
    AlreadyJoined,
}

/// The first check, in the order the session manager makes them, that refuses `player`
/// joining the session `id`; `None` when the player may join.
pub open spec fn join_refusal(sessions: Seq<SessionView>, id: Seq<char>, player: Player) -> Option<
    JoinSessionError,
> {
    match find_index(sessions, id) {
        None => Some(JoinSessionError::NotFound),
        Some(i) => if sessions[i].state != SessionState::PENDING {
            Some(JoinSessionError::NotPending)
        } else if sessions[i].players.len() > 1 {
            Some(JoinSessionError::Full)
        } else if sessions[i].players[0].same_as(&player) {
            Some(JoinSessionError::AlreadyJoined)
        } else {
            None
        },
    }
}

/// The message that tells why a join of session `session_id` was refused; `player` is how
/// the refused player is written out.
pub open spec fn join_refusal_text(err: JoinSessionError, session_id: Seq<char>, player: Seq<char>) -> Seq<
    char,
> {
    match err {
        JoinSessionError::NotFound => "Can't join session that does not exist: "@ + session_id,
        JoinSessionError::NotPending => "Can't join session that is not PENDING: "@ + session_id,
        JoinSessionError::Full => "Can't join session with more than 1 player: "@ + session_id,
        JoinSessionError::AlreadyJoined => "Can't join session, because player "@ + player
            + " is already in session: "@ + session_id,
    }
}

/// Writes the message for a refused join of session `session_id`; `player` is how the
/// refused player is written out.
pub fn join_refusal_message(err: JoinSessionError, session_id: &str, player: &str) -> (m: String)
    ensures
        m@ == join_refusal_text(err, session_id@, player@),
{
    let mut m = String::new();
    match err {
        JoinSessionError::NotFound => {
            m.append("Can't join session that does not exist: ");
        },
        JoinSessionError::NotPending => {
            m.append("Can't join session that is not PENDING: ");
        },
        JoinSessionError::Full => {
            m.append("Can't join session with more than 1 player: ");
        },
        JoinSessionError::AlreadyJoined => {
            m.append("Can't join session, because player ");
            m.append(player);
            m.append(" is already in session: ");
        },
    }
    m.append(session_id);
    m
}

/// The sessions after `player` joined session `i`: the player is added and the game runs.
pub open spec fn joined(sessions: Seq<SessionView>, i: int, player: Player) -> Seq<SessionView> {
    sessions.update(
        i,
        SessionView {
            id: sessions[i].id,
            hash: sessions[i].hash,
            state: SessionState::RUNNING,
            players: sessions[i].players.push(player),
        },
    )
}

/// The session created for partition `p` by `player`: pending, with the partition's hash
/// as its id and the creator as its only player.
pub open spec fn created_session(p: u16, player: Player) -> SessionView {
    SessionView { id: p, hash: session_hash(p), state: SessionState::PENDING, players: seq![player] }
}

/// The sessions once it is known whether the `Created` event of the session with id `hash`
/// was written: unchanged when it was; otherwise without the first session with that id.
pub open spec fn settled(sessions: Seq<SessionView>, hash: Seq<char>, written: bool) -> Seq<
    SessionView,
> {
    if written {
        sessions
    } else {
        match find_index(sessions, hash) {
            Some(i) => sessions.remove(i),
            None => sessions,
        }
    }
}

/// Every session has at least one player.
pub open spec fn sessions_well_formed(sessions: Seq<SessionView>) -> bool {
    forall|i: int| 0 <= i < sessions.len() ==> #[trigger] sessions[i].players.len() >= 1
}

/// Keeps the sessions of this server and hands out their event readers and writers.
pub struct SessionManager {
    kafka_host: String,
    sessions: Vec<Session>,
    topic_manager: KafkaTopicManager,
}

proof fn lemma_session_views(s: Seq<Session>)
    ensures
        session_views(s).len() == s.len(),
        forall|i: int| 0 <= i < s.len() ==> #[trigger] session_views(s)[i] == s[i]@,
    decreases s.len(),
{
    if s.len() > 0 {
        lemma_session_views(s.drop_last());
    }
}

proof fn lemma_find_index(sessions: Seq<SessionView>, id: Seq<char>)
    ensures
        find_index(sessions, id) matches Some(i) ==> 0 <= i < sessions.len() && sessions[i].hash
            == id && forall|j: int| 0 <= j < i ==> (#[trigger] sessions[j]).hash != id,
        find_index(sessions, id) is None ==> forall|j: int|
            0 <= j < sessions.len() ==> (#[trigger] sessions[j]).hash != id,
{
    lemma_first_match(sessions, has_hash(id));
}

/// A sequence whose first `id` is at `i`, as `find_index` says.
proof fn lemma_find_index_at(sessions: Seq<SessionView>, id: Seq<char>, i: int)
    requires
        0 <= i < sessions.len(),
        sessions[i].hash == id,
        forall|j: int| 0 <= j < i ==> (#[trigger] sessions[j]).hash != id,
    ensures
        find_index(sessions, id) == Some(i),
{
    lemma_first_match_at(sessions, has_hash(id), i);
}

/// The events that a session writer produces for `messages` on `topic`: one per message, in
/// order, keyed by the session's partition id in decimal.
pub open spec fn session_messages(id: u16, topic: Seq<char>, messages: Seq<&str>) -> Seq<
    (Seq<char>, Option<Seq<char>>, Seq<char>),
>
    decreases messages.len(),
{
    if messages.len() == 0 {
        Seq::empty()
    } else {
        session_messages(id, topic, messages.drop_last()).push(
            (topic, Some(decimal(id as nat)), messages.last()@),
        )
    }
}

/// The views of a sequence of events: topic, key and payload.
pub open spec fn event_views(events: Seq<EventWrapper>) -> Seq<(Seq<char>, Option<Seq<char>>, Seq<char>)>
    decreases events.len(),
{
    if events.len() == 0 {
        Seq::empty()
    } else {
        event_views(events.drop_last()).push(
            (
                events.last().topic@,
                match events.last().key {
                    Some(k) => Some(k@),
                    None => None,
                },
                events.last().event@,
            ),
        )
    }
}

/// The events that the session writer of `session` writes for `messages` on `topic`.
pub fn session_event_wrappers(session: &Session, topic: &str, messages: &Vec<&str>) -> (r: Vec<
    EventWrapper,
>)
    ensures
        event_views(r@) == session_messages(session.id, topic@, messages@),
{
    let mut r: Vec<EventWrapper> = Vec::new();
    let mut k: usize = 0;
    while k < messages.len()
        invariant
            0 <= k <= messages@.len(),
            event_views(r@) == session_messages(session.id, topic@, messages@.take(k as int)),
        decreases messages@.len() - k,
    {
        let ghost before = r@;
        r.push(
            EventWrapper {
                event: messages[k].to_owned(),
                key: Some(decimal_string(session.id as u32)),
                topic: topic.to_owned(),
            },
        );
        proof {
            assert(r@.drop_last() == before);
            assert(messages@.take(k + 1).drop_last() == messages@.take(k as int));
        }
        k = k + 1;
    }
    proof {
        assert(messages@.take(k as int) == messages@);
    }
    r
}

impl SessionManager {
    /// Every session of the manager has a player: a session is created with its creator and
    /// players are only ever added.
    #[verifier::type_invariant]
    spec fn every_session_has_a_player(self) -> bool {
        sessions_well_formed(session_views(self.sessions@))
    }

    /// The sessions, in the order they were created.
    pub closed spec fn sessions(&self) -> Seq<SessionView> {
        session_views(self.sessions@)
    }

    pub closed spec fn host(&self) -> Seq<char> {
        self.kafka_host@
    }

    pub closed spec fn topic_endpoint(&self) -> Seq<char> {
        self.topic_manager.endpoint()
    }

    pub fn new(kafka_host: &str, kafka_topic_manager_host: &str) -> (m: SessionManager)
        ensures
            m.sessions().len() == 0,
            m.host() == kafka_host@,
            m.topic_endpoint() == "http://"@ + kafka_topic_manager_host@ + "/add_partition"@,
    {
        SessionManager {
            kafka_host: kafka_host.to_owned(),
            sessions: Vec::new(),
            topic_manager: KafkaTopicManager::from(kafka_topic_manager_host),
        }
    }

    /// The Kafka host that session readers and writers connect to.
    pub fn kafka_host(&self) -> (r: &str)
        ensures
            r@ == self.host(),
    {
        self.kafka_host.as_str()
    }

    /// The manager of the Kafka partitions.
    pub fn topic_manager(&self) -> (r: &KafkaTopicManager)
        ensures
            r.endpoint() == self.topic_endpoint(),
    {
        &self.topic_manager
    }

    fn position(&self, session_id: &str) -> (r: Option<usize>)
        ensures
            r matches Some(i) ==> i < self.sessions@.len() && Some(i as int) == find_index(
                self.sessions(),
                session_id@,
            ),
            r is None ==> find_index(self.sessions(), session_id@) is None,
    {
        proof {
            lemma_session_views(self.sessions@);
        }
        let mut k: usize = 0;
        while k < self.sessions.len()
            invariant
                0 <= k <= self.sessions@.len(),
                session_views(self.sessions@).len() == self.sessions@.len(),
                forall|i: int|
                    0 <= i < self.sessions@.len() ==> #[trigger] session_views(self.sessions@)[i]
                        == self.sessions@[i]@,
                forall|j: int| 0 <= j < k ==> (#[trigger] self.sessions@[j]).hash@ != session_id@,
            decreases self.sessions@.len() - k,
        {
            if str_eq(self.sessions[k].hash.as_str(), session_id) {
                proof {
                    let v = session_views(self.sessions@);
                    assert forall|j: int| 0 <= j < k implies (#[trigger] v[j]).hash != session_id@ by {
                        assert(v[j] == self.sessions@[j]@);
                    }
                    lemma_find_index_at(v, session_id@, k as int);
                }
                return Some(k);
            }
            k = k + 1;
        }
        proof {
            let v = session_views(self.sessions@);
            lemma_find_index(v, session_id@);
            if find_index(v, session_id@) is Some {
                let i = find_index(v, session_id@).unwrap();
                assert(v[i] == self.sessions@[i]@);
            }
        }
        None
    }

    fn find_session(&self, session_id: &str) -> (r: Option<Session>)
        ensures
            match find_index(self.sessions(), session_id@) {
                Some(i) => r matches Some(s) && s@ == self.sessions()[i],
                None => r is None,
            },
    {
        proof {
            lemma_session_views(self.sessions@);
        }
        match self.position(session_id) {
            Some(i) => Some(self.sessions[i].duplicate()),
            None => None,
        }
    }

    /// A copy of the first session with the id (hash) `session_id`, if any.
    pub fn get_session(&self, session_id: &str) -> (r: Option<Session>)
        ensures
            match find_index(self.sessions(), session_id@) {
                Some(i) => r matches Some(s) && s@ == self.sessions()[i],
                None => r is None,
            },
    {
        self.find_session(session_id)
    }
}

impl SessionManager {
    /// Records the session for a newly added partition. `add_partition_res` is what the
    /// topic manager answered: its error is passed on and nothing changes; for partition `p`
    /// a pending session with id `p`, hash `Hasher::hash(p)` and `player` is added, and the
    /// `Created` event for it is returned.
    pub fn create_session(&mut self, add_partition_res: Result<u16, String>, player: Player) -> (r:
        Result<SessionEvent, String>)
        ensures
            match add_partition_res {
                Err(e) => r == Err::<SessionEvent, String>(e) && final(self).sessions()
                    == old(self).sessions(),
                Ok(p) => {
                    let created = created_session(p, player);
                    &&& final(self).sessions() == old(self).sessions().push(created)
                    &&& r matches Ok(SessionEvent::Created(payload)) && payload.session@ == created
                        && payload.actor == player && payload.reason@ == "session created"@
                },
            },
            final(self).host() == old(self).host(),
            final(self).topic_endpoint() == old(self).topic_endpoint(),
    {
        let session_partition_id = match add_partition_res {
            Err(e) => {
                return Err(e);
            },
            Ok(p) => p,
        };
        let session_id = Hasher::hash(session_partition_id);
        let session = Session::new(session_partition_id, session_id, player.duplicate());
        proof {
            use_type_invariant(&*self);
        }
        let ghost before = self.sessions@;
        let mut sessions: Vec<Session> = Vec::new();
        std::mem::swap(&mut sessions, &mut self.sessions);
        sessions.push(session.duplicate());
        proof {
            assert(sessions@.drop_last() == before);
            lemma_session_views(before);
            lemma_session_views(sessions@);
            assert(session_views(sessions@) =~= session_views(before).push(sessions@.last()@));
        }
        self.sessions = sessions;
        let mut reason = String::new();
        reason.append("session created");
        Ok(SessionEvent::Created(SessionEventPayload { session, actor: player, reason }))
    }

    /// Removes the first session with the id `session_id`, if there is one (used when the
    /// event that announces a new session could not be written).
    pub fn discard_session(&mut self, session_id: &str)
        ensures
            match find_index(old(self).sessions(), session_id@) {
                Some(i) => final(self).sessions() == old(self).sessions().remove(i),
                None => final(self).sessions() == old(self).sessions(),
            },
            final(self).host() == old(self).host(),
            final(self).topic_endpoint() == old(self).topic_endpoint(),
    {
        match self.position(session_id) {
            Some(i) => {
                proof {
                    use_type_invariant(&*self);
                }
                let ghost before = self.sessions@;
                let mut sessions: Vec<Session> = Vec::new();
                std::mem::swap(&mut sessions, &mut self.sessions);
                sessions.remove(i);
                proof {
                    lemma_session_views(before);
                    lemma_session_views(sessions@);
                    assert(session_views(sessions@) =~= session_views(before).remove(i as int));
                }
                self.sessions = sessions;
            },
            None => {},
        }
    }

    /// Settles a session that `create_session` has just added, once the write of its
    /// `Created` event (`created`) is known: when the write failed, the session is removed
    /// again, so that the manager keeps no session whose creation was not recorded.
    pub fn settle_created_session(&mut self, created: &SessionEvent, write_res: &Result<(), String>)
        ensures
            final(self).sessions() == settled(
                old(self).sessions(),
                created.payload().session.hash@,
                write_res is Ok,
            ),
            final(self).host() == old(self).host(),
            final(self).topic_endpoint() == old(self).topic_endpoint(),
    {
        match write_res {
            Ok(_) => {},
            Err(_) => {
                self.discard_session(created.session_id());
            },
        }
    }

    /// Lets `player` join the session with the id `session_id`. The join is refused when
    /// there is no such session, when it is not pending, when it has more than one player, or
    /// when its first player is `player` (checked in that order); the sessions are then
    /// unchanged. Otherwise the player is added, the session runs, and the `Joined` event
    /// carries the updated session.
    pub fn join_session(&mut self, session_id: String, player: Player) -> (r: Result<
        SessionEvent,
        JoinSessionError,
    >)
        ensures
            final(self).host() == old(self).host(),
            final(self).topic_endpoint() == old(self).topic_endpoint(),
            match join_refusal(old(self).sessions(), session_id@, player) {
                Some(err) => r == Err::<SessionEvent, JoinSessionError>(err) && final(self).sessions()
                    == old(self).sessions(),
                None => {
                    let i = find_index(old(self).sessions(), session_id@).unwrap();
                    &&& final(self).sessions() == joined(old(self).sessions(), i, player)
                    &&& final(self).sessions()[i].id == old(self).sessions()[i].id
                    &&& final(self).sessions()[i].hash == old(self).sessions()[i].hash
                    &&& final(self).sessions()[i].players == old(self).sessions()[i].players.push(player)
                    &&& r matches Ok(SessionEvent::Joined(payload)) && payload.session@
                        == final(self).sessions()[i] && payload.actor == player && payload.reason@
                        == "session joined"@
                    &&& r matches Ok(SessionEvent::Joined(payload)) && payload.session.id == old(
                        self,
                    ).sessions()[i].id
                },
            },
    {
        proof {
            use_type_invariant(&*self);
            lemma_session_views(self.sessions@);
        }
        let i = match self.position(session_id.as_str()) {
            None => {
                return Err(JoinSessionError::NotFound);
            },
            Some(i) => i,
        };
        if self.sessions[i].state != SessionState::PENDING {
            return Err(JoinSessionError::NotPending);
        }
        if self.sessions[i].players.len() > 1 {
            return Err(JoinSessionError::Full);
        }
        proof {
            assert(self.sessions()[i as int] == self.sessions@[i as int]@);
        }
        if self.sessions[i].players[0].equals(&player) {
            return Err(JoinSessionError::AlreadyJoined);
        }
        let ghost before = self.sessions@;
        let mut session = self.sessions[i].duplicate();
        session.players.push(player.duplicate());
        session.state = SessionState::RUNNING;
        let updated = session.duplicate();
        let mut sessions: Vec<Session> = Vec::new();
        std::mem::swap(&mut sessions, &mut self.sessions);
        sessions.set(i, session);
        proof {
            lemma_session_views(sessions@);
            assert(session_views(sessions@) =~= joined(session_views(before), i as int, player));
        }
        self.sessions = sessions;
        let mut reason = String::new();
        reason.append("session joined");
        Ok(SessionEvent::Joined(SessionEventPayload { session: updated, reason, actor: player }))
    }
}

/// Once a player has joined a session, the session runs, so any further join of that
/// session is refused as not pending.
pub proof fn lemma_joined_session_refuses_joins(
    sessions: Seq<SessionView>,
    id: Seq<char>,
    player: Player,
    other: Player,
)
    requires
        join_refusal(sessions, id, player) is None,
    ensures
        join_refusal(joined(sessions, find_index(sessions, id).unwrap(), player), id, other)
            == Some(JoinSessionError::NotPending),
{
    let i = find_index(sessions, id).unwrap();
    let after = joined(sessions, i, player);
    lemma_find_index(sessions, id);
    assert forall|j: int| 0 <= j < i implies (#[trigger] after[j]).hash != id by {
        assert(after[j] == sessions[j]);
    }
    lemma_find_index_at(after, id, i);
}

/// A session just created for a hash that no other session has can be joined by any
/// player other than its creator.
pub proof fn lemma_created_session_can_be_joined(
    sessions: Seq<SessionView>,
    p: u16,
    creator: Player,
    other: Player,
)
    requires
        find_index(sessions, session_hash(p)) is None,
        !creator.same_as(&other),
    ensures
        join_refusal(sessions.push(created_session(p, creator)), session_hash(p), other) is None,
{
    let after = sessions.push(created_session(p, creator));
    assert(after.drop_last() == sessions);
}

/// A session created for a new partition stays in the manager exactly when its `Created`
/// event was written: after the creation and the settling of the write, the sessions are
/// those from before with the new session appended when the event was written, and those
/// from before when it was not.
pub proof fn lemma_created_session_stays_iff_written(
    sessions: Seq<SessionView>,
    p: u16,
    player: Player,
    written: bool,
)
    requires
        find_index(sessions, session_hash(p)) is None,
    ensures
        settled(sessions.push(created_session(p, player)), session_hash(p), written) == if written {
            sessions.push(created_session(p, player))
        } else {
            sessions
        },
{
    let after = sessions.push(created_session(p, player));
    lemma_find_index(sessions, session_hash(p));
    assert forall|j: int| 0 <= j < sessions.len() implies (#[trigger] after[j]).hash != session_hash(
        p,
    ) by {
        assert(after[j] == sessions[j]);
    }
    lemma_find_index_at(after, session_hash(p), sessions.len() as int);
    assert(after.remove(sessions.len() as int) =~= sessions);
}

/// A join changes the joined session only by adding the player as its last player and
/// setting it running: the session keeps its partition id and its hash, and every other
/// session stays as it was.
pub proof fn lemma_join_keeps_the_session_identity(
    sessions: Seq<SessionView>,
    id: Seq<char>,
    player: Player,
)
    requires
        join_refusal(sessions, id, player) is None,
    ensures
        ({
            let i = find_index(sessions, id).unwrap();
            let after = joined(sessions, i, player);
            &&& 0 <= i < sessions.len()
            &&& after.len() == sessions.len()
            &&& after[i].id == sessions[i].id
            &&& after[i].hash == sessions[i].hash
            &&& after[i].hash == id
            &&& after[i].players == sessions[i].players.push(player)
            &&& after[i].state == SessionState::RUNNING
            &&& forall|j: int| 0 <= j < sessions.len() && j != i ==> #[trigger] after[j] == sessions[j]
        }),
{
    lemma_find_index(sessions, id);
}

} // verus!
