use vstd::prelude::*;

use crate::server::actor::Player;
use crate::server::session::Session;
use crate::text::{lowercased, str_eq, to_lowercase};

verus! {

/// What a session event reports: the session, who caused the event and why.
#[derive(Debug)]
pub struct SessionEventPayload {
    pub session: Session,
    pub actor: Player,
    pub reason: String,
}

/// Something that happened to a session.
#[derive(Debug)]
pub enum SessionEvent {
    Created(SessionEventPayload),
    Joined(SessionEventPayload),
    Closed(SessionEventPayload),
}

impl SessionEvent {
    pub open spec fn payload(&self) -> &SessionEventPayload {
        match self {
            SessionEvent::Created(p) => p,
            SessionEvent::Joined(p) => p,
            SessionEvent::Closed(p) => p,
        }
    }

    /// The id (hash) of the session the event belongs to.
    pub fn session_id(&self) -> (r: &str)
        ensures
            r@ == self.payload().session.hash@,
    {
        match self {
            SessionEvent::Created(p) => p.session.hash.as_str(),
            SessionEvent::Joined(p) => p.session.hash.as_str(),
            SessionEvent::Closed(p) => p.session.hash.as_str(),
        }
    }
}

/// The kinds of session events.
#[derive(Debug, Clone, Copy, PartialEq, Eq)]
pub enum SessionEventType {
    Created,
    Joined,
    Closed,
}

impl SessionEventType {
    /// The kind named by `s`, compared after lower-casing.
    pub fn from_str(s: &str) -> (r: Result<SessionEventType, ()>)
        ensures
            lowercased(s@) == "created"@ ==> r == Ok::<SessionEventType, ()>(SessionEventType::Created),
            lowercased(s@) == "joined"@ ==> r == Ok::<SessionEventType, ()>(SessionEventType::Joined),
            lowercased(s@) == "closed"@ ==> r == Ok::<SessionEventType, ()>(SessionEventType::Closed),
            lowercased(s@) != "created"@ && lowercased(s@) != "joined"@ && lowercased(s@)
                != "closed"@ ==> r == Err::<SessionEventType, ()>(()),
    {
        proof {
            reveal_strlit("created");
            reveal_strlit("joined");
            reveal_strlit("closed");
            assert("created"@[0] != "joined"@[0]);
            assert("created"@[1] != "closed"@[1]);
        }
        let lower = to_lowercase(s);
        if str_eq(lower.as_str(), "created") {
            Ok(SessionEventType::Created)
        } else if str_eq(lower.as_str(), "joined") {
            Ok(SessionEventType::Joined)
        } else if str_eq(lower.as_str(), "closed") {
            Ok(SessionEventType::Closed)
        } else {
            Err(())
        }
    }
}

/// The kinds of payload that events carry.
#[derive(Debug, Clone, Copy, PartialEq, Eq, Structural)]
pub enum PongEventKind {
    Move,
    Input,
    Status,
    HeartBeat,
    Session,
}

/// The kind of payload an event on `topic` carries, if the topic is known.
pub open spec fn kind_of_topic(topic: Seq<char>) -> Option<PongEventKind> {
    if topic == "move"@ {
        Some(PongEventKind::Move)
    } else if topic == "input"@ {
        Some(PongEventKind::Input)
    } else if topic == "status"@ {
        Some(PongEventKind::Status)
    } else if topic == "heart_beat"@ {
        Some(PongEventKind::HeartBeat)
    } else if topic == "session"@ {
        Some(PongEventKind::Session)
    } else {
        None
    }
}

/// Which payload to read an event on `topic` as, when deserializing events.
pub fn event_kind(topic: &str) -> (r: Option<PongEventKind>)
    ensures
        r == kind_of_topic(topic@),
{
    if str_eq(topic, "move") {
        Some(PongEventKind::Move)
    } else if str_eq(topic, "input") {
        Some(PongEventKind::Input)
    } else if str_eq(topic, "status") {
        Some(PongEventKind::Status)
    } else if str_eq(topic, "heart_beat") {
        Some(PongEventKind::HeartBeat)
    } else if str_eq(topic, "session") {
        Some(PongEventKind::Session)
    } else {
        None
    }
}

} // verus!
