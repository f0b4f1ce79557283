use vstd::prelude::*;

use crate::pong::event::EventWrapper;
use crate::server::actor::Player;
use crate::server::event::{SessionEvent, SessionEventPayload};
use crate::server::session::{Session, SessionState};
use crate::server::session_manager::{event_views, session_messages};
use crate::text::{lowercased, str_eq, to_lowercase};

verus! {

/// How a client takes part in a session over its websocket.
#[derive(Debug, Clone, Copy, PartialEq, Eq)]
pub enum WebSocketConnectionType {
    HOST,
    PEER,
    OBSERVER,
}

/// The views of a list of topic names.
pub open spec fn topic_names(topics: Seq<&str>) -> Seq<Seq<char>> {
    topics.map_values(|t: &str| t@)
}

impl WebSocketConnectionType {
    /// The connection type named by `s`, compared after lower-casing.
    pub fn from_str(s: &str) -> (r: Result<WebSocketConnectionType, ()>)
        ensures
            lowercased(s@) == "host"@ ==> r == Ok::<WebSocketConnectionType, ()>(
                WebSocketConnectionType::HOST,
            ),
            lowercased(s@) == "peer"@ ==> r == Ok::<WebSocketConnectionType, ()>(
                WebSocketConnectionType::PEER,
            ),
            lowercased(s@) == "observer"@ ==> r == Ok::<WebSocketConnectionType, ()>(
                WebSocketConnectionType::OBSERVER,
            ),
            lowercased(s@) != "host"@ && lowercased(s@) != "peer"@ && lowercased(s@)
                != "observer"@ ==> r == Err::<WebSocketConnectionType, ()>(()),
    {
        proof {
            reveal_strlit("host");
            reveal_strlit("peer");
            reveal_strlit("observer");
            assert("host"@[0] != "peer"@[0]);
            assert("host"@[0] != "observer"@[0]);
            assert("peer"@[0] != "observer"@[0]);
        }
        let lower = to_lowercase(s);
        if str_eq(lower.as_str(), "host") {
            Ok(WebSocketConnectionType::HOST)
        } else if str_eq(lower.as_str(), "peer") {
            Ok(WebSocketConnectionType::PEER)
        } else if str_eq(lower.as_str(), "observer") {
            Ok(WebSocketConnectionType::OBSERVER)
        } else {
            Err(())
        }
    }

    /// The topics a client of this type reads: the host reads the peer's ticks, the others
    /// read the host's ticks; everybody reads session events.
    pub fn get_topics(&self) -> (r: &[&str])
        ensures
            *self == WebSocketConnectionType::HOST ==> topic_names(r@) == seq!["peer_tick"@, "session"@],
            *self != WebSocketConnectionType::HOST ==> topic_names(r@) == seq!["host_tick"@, "session"@],
    {
        match self {
            WebSocketConnectionType::HOST => {
                let topics: &[&str] = &["peer_tick", "session"];
                proof {
                    assert(topic_names(topics@) =~= seq!["peer_tick"@, "session"@]);
                }
                topics
            },
            WebSocketConnectionType::PEER | WebSocketConnectionType::OBSERVER => {
                let topics: &[&str] = &["host_tick", "session"];
                proof {
                    assert(topic_names(topics@) =~= seq!["host_tick"@, "session"@]);
                }
                topics
            },
        }
    }

    /// The topic whose events reach a client of this type as ticks.
    pub open spec fn tick_source(self) -> Seq<char> {
        if self == WebSocketConnectionType::HOST {
            "peer_tick"@
        } else {
            "host_tick"@
        }
    }
}

/// An event as it is sent to a websocket client.
#[derive(Debug)]
pub struct WebsocketEventDTO {
    pub topic: String,
    pub event: String,
}

/// The payloads of the events of `events` on topic `from`, in order, each labelled `to`.
pub open spec fn relabelled(events: Seq<EventWrapper>, from: Seq<char>, to: Seq<char>) -> Seq<
    (Seq<char>, Seq<char>),
>
    decreases events.len(),
{
    if events.len() == 0 {
        Seq::empty()
    } else {
        let rest = relabelled(events.drop_last(), from, to);
        if events.last().topic@ == from {
            rest.push((to, events.last().event@))
        } else {
            rest
        }
    }
}

/// The views of a sequence of client events.
pub open spec fn dto_views(v: Seq<WebsocketEventDTO>) -> Seq<(Seq<char>, Seq<char>)>
    decreases v.len(),
{
    if v.len() == 0 {
        Seq::empty()
    } else {
        dto_views(v.drop_last()).push((v.last().topic@, v.last().event@))
    }
}

proof fn lemma_dto_views_append(a: Seq<WebsocketEventDTO>, b: Seq<WebsocketEventDTO>)
    ensures
        dto_views(a + b) == dto_views(a) + dto_views(b),
    decreases b.len(),
{
    if b.len() == 0 {
        assert(a + b == a);
    } else {
        lemma_dto_views_append(a, b.drop_last());
        assert((a + b).drop_last() == a + b.drop_last());
    }
}

/// Appends the events of `events` on topic `from`, labelled `to`, to `out`.
fn relabel_into(events: &Vec<EventWrapper>, from: &str, to: &str, out: &mut Vec<WebsocketEventDTO>)
    ensures
        dto_views(final(out)@) == dto_views(old(out)@) + relabelled(events@, from@, to@),
{
    let mut k: usize = 0;
    while k < events.len()
        invariant
            0 <= k <= events@.len(),
            dto_views(out@) == dto_views(old(out)@) + relabelled(events@.take(k as int), from@, to@),
        decreases events@.len() - k,
    {
        let e = &events[k];
        proof {
            assert(events@.take(k + 1).drop_last() == events@.take(k as int));
        }
        if str_eq(e.topic.as_str(), from) {
            let ghost before = out@;
            out.push(WebsocketEventDTO { topic: to.to_owned(), event: e.event.clone() });
            proof {
                assert(out@.drop_last() == before);
            }
        }
        k = k + 1;
    }
    proof {
        assert(events@.take(k as int) == events@);
    }
}

/// The batch that a client of type `connection_type` receives for events read from the
/// session's topics: the session events first, then the ticks of the other side, each with
/// its payload and labelled `session` or `tick`.
pub fn select_client_events(events: &Vec<EventWrapper>, connection_type: &WebSocketConnectionType) -> (r:
    Vec<WebsocketEventDTO>)
    ensures
        dto_views(r@) == relabelled(events@, "session"@, "session"@) + relabelled(
            events@,
            connection_type.tick_source(),
            "tick"@,
        ),
{
    let mut r: Vec<WebsocketEventDTO> = Vec::new();
    relabel_into(events, "session", "session", &mut r);
    let source = match connection_type {
        WebSocketConnectionType::HOST => "peer_tick",
        _ => "host_tick",
    };
    relabel_into(events, source, "tick", &mut r);
    r
}

/// The event that closes the session of a websocket: the session, now `CLOSED`, the player
/// of the connection, and the reason prefixed with `ws closed: `.
pub fn session_closed_event(session: &Session, actor: &Player, close_reason: &str) -> (e: SessionEvent)
    ensures
        e matches SessionEvent::Closed(p) && p.session.id == session.id && p.session.hash
            == session.hash && p.session.players@ == session.players@ && p.session.state
            == SessionState::CLOSED && p.actor == *actor && p.reason@ == "ws closed: "@
            + close_reason@,
{
    let mut updated_session = session.duplicate();
    updated_session.state = SessionState::CLOSED;
    let mut reason = String::new();
    reason.append("ws closed: ");
    reason.append(close_reason);
    SessionEvent::Closed(SessionEventPayload { actor: actor.duplicate(), session: updated_session, reason })
}

/// The topic that the snapshots of a client of this type are written to.
pub open spec fn snapshot_topic_of(connection_type: WebSocketConnectionType) -> Option<Seq<char>> {
    match connection_type {
        WebSocketConnectionType::HOST => Some("host_tick"@),
        WebSocketConnectionType::PEER => Some("peer_tick"@),
        WebSocketConnectionType::OBSERVER => None,
    }
}

/// The topic a client's session snapshot is written to: the host's to `host_tick`, a peer's
/// to `peer_tick`; an observer's snapshot is not written.
pub fn snapshot_topic(connection_type: &WebSocketConnectionType) -> (r: Option<&'static str>)
    ensures
        match snapshot_topic_of(*connection_type) {
            Some(t) => r matches Some(s) && s@ == t,
            None => r is None,
        },
{
    match connection_type {
        WebSocketConnectionType::HOST => Some("host_tick"),
        WebSocketConnectionType::PEER => Some("peer_tick"),
        WebSocketConnectionType::OBSERVER => None,
    }
}

/// The kinds of frame a client sends over its websocket.
#[derive(Debug, Clone, Copy, PartialEq, Eq)]
pub enum ClientFrame {
    /// a snapshot of the client's view of the game
    Snapshot,
    /// a sign of life of the client's player
    HeartBeat,
}

/// What the websocket reader does with a client frame.
#[derive(Debug)]
pub enum FrameDecision {
    /// the frame names another session than the connection's and is skipped
    OtherSession,
    /// the frame's payload is written to this topic of the session
    Write(&'static str),
    /// nothing is written
    Nothing,
}

/// Decides what becomes of a frame that names the session `frame_session` and reaches a
/// connection of type `connection_type` to the session `own_session`. A frame for another
/// session is skipped. A heart beat is written to `heart_beat`; a snapshot is written to the
/// topic of the connection type's snapshots, and an observer's snapshot is not written.
pub fn frame_decision(
    own_session: &str,
    frame_session: &str,
    frame: ClientFrame,
    connection_type: &WebSocketConnectionType,
) -> (r: FrameDecision)
    ensures
        own_session@ != frame_session@ ==> r is OtherSession,
        own_session@ == frame_session@ ==> match frame {
            ClientFrame::HeartBeat => r matches FrameDecision::Write(t) && t@ == "heart_beat"@,
            ClientFrame::Snapshot => match snapshot_topic_of(*connection_type) {
                Some(topic) => r matches FrameDecision::Write(t) && t@ == topic,
                None => r is Nothing,
            },
        },
{
    if !str_eq(own_session, frame_session) {
        return FrameDecision::OtherSession;
    }
    match frame {
        ClientFrame::HeartBeat => FrameDecision::Write("heart_beat"),
        ClientFrame::Snapshot => match snapshot_topic(connection_type) {
            Some(t) => FrameDecision::Write(t),
            None => FrameDecision::Nothing,
        },
    }
}

/// The host's snapshots reach the peer and observers as ticks, and the peer's reach the host:
/// each side reads as ticks the topic the other side writes its snapshots to.
pub proof fn lemma_ticks_cross_over()
    ensures
        snapshot_topic_of(WebSocketConnectionType::HOST) == Some(
            WebSocketConnectionType::PEER.tick_source(),
        ),
        snapshot_topic_of(WebSocketConnectionType::HOST) == Some(
            WebSocketConnectionType::OBSERVER.tick_source(),
        ),
        snapshot_topic_of(WebSocketConnectionType::PEER) == Some(
            WebSocketConnectionType::HOST.tick_source(),
        ),
{
}

/// Messages paired with a topic label, in order.
pub open spec fn labelled(messages: Seq<&str>, label: Seq<char>) -> Seq<(Seq<char>, Seq<char>)>
    decreases messages.len(),
{
    if messages.len() == 0 {
        Seq::empty()
    } else {
        labelled(messages.drop_last(), label).push((label, messages.last()@))
    }
}

/// What a session writer writes as session events reaches every client as session events,
/// with the same payloads in the same order, and never as ticks.
pub proof fn lemma_session_messages_reach_clients(
    events: Seq<EventWrapper>,
    id: u16,
    messages: Seq<&str>,
    connection_type: WebSocketConnectionType,
)
    requires
        event_views(events) == session_messages(id, "session"@, messages),
    ensures
        relabelled(events, "session"@, "session"@) == labelled(messages, "session"@),
        relabelled(events, connection_type.tick_source(), "tick"@) == Seq::<(Seq<char>, Seq<char>)>::empty(),
    decreases messages.len(),
{
    reveal_strlit("session");
    reveal_strlit("host_tick");
    reveal_strlit("peer_tick");
    lemma_event_views_len(events);
    lemma_session_messages_len(id, "session"@, messages);
    if messages.len() > 0 {
        assert(event_views(events.drop_last()) == event_views(events).drop_last());
        assert(session_messages(id, "session"@, messages).drop_last() == session_messages(
            id,
            "session"@,
            messages.drop_last(),
        ));
        lemma_session_messages_reach_clients(events.drop_last(), id, messages.drop_last(), connection_type);
        let ev = event_views(events);
        let sm = session_messages(id, "session"@, messages);
        assert(ev.last().0 == events.last().topic@);
        assert(ev.last().2 == events.last().event@);
        assert(sm.last().0 == "session"@);
        assert(sm.last().2 == messages.last()@);
        assert(ev[ev.len() - 1] == sm[sm.len() - 1]);
        assert(events.last().topic@ == "session"@);
        assert("session"@[0] != connection_type.tick_source()[0]);
    }
}

proof fn lemma_event_views_len(events: Seq<EventWrapper>)
    ensures
        event_views(events).len() == events.len(),
    decreases events.len(),
{
    if events.len() > 0 {
        lemma_event_views_len(events.drop_last());
    }
}

proof fn lemma_session_messages_len(id: u16, topic: Seq<char>, messages: Seq<&str>)
    ensures
        session_messages(id, topic, messages).len() == messages.len(),
    decreases messages.len(),
{
    if messages.len() > 0 {
        lemma_session_messages_len(id, topic, messages.drop_last());
    }
}

} // verus!
