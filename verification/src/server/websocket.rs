use vstd::prelude::*;

use crate::text::{lowercased, str_eq, to_lowercase};

verus! {

/// How a client takes part in a session over its websocket.
#[derive(Debug, Clone, Copy, PartialEq, Eq)]
pub enum WebSocketConnectionType {
    HOST,
    PEER,
    OBSERVER,
}

/// The views of a list of topic names.
pub open spec fn topic_names(topics: Seq<&str>) -> Seq<Seq<char>> {
    topics.map_values(|t: &str| t@)
}

impl WebSocketConnectionType {
    /// The connection type named by `s`, compared after lower-casing.
    pub fn from_str(s: &str) -> (r: Result<WebSocketConnectionType, ()>)
        ensures
            lowercased(s@) == "host"@ ==> r == Ok::<WebSocketConnectionType, ()>(
                WebSocketConnectionType::HOST,
            ),
            lowercased(s@) == "peer"@ ==> r == Ok::<WebSocketConnectionType, ()>(
                WebSocketConnectionType::PEER,
            ),
            lowercased(s@) == "observer"@ ==> r == Ok::<WebSocketConnectionType, ()>(
                WebSocketConnectionType::OBSERVER,
            ),
            lowercased(s@) != "host"@ && lowercased(s@) != "peer"@ && lowercased(s@)
                != "observer"@ ==> r == Err::<WebSocketConnectionType, ()>(()),
    {
        proof {
            reveal_strlit("host");
            reveal_strlit("peer");
            reveal_strlit("observer");
            assert("host"@[0] != "peer"@[0]);
            assert("host"@[0] != "observer"@[0]);
            assert("peer"@[0] != "observer"@[0]);
        }
        let lower = to_lowercase(s);
        if str_eq(lower.as_str(), "host") {
            Ok(WebSocketConnectionType::HOST)
        } else if str_eq(lower.as_str(), "peer") {
            Ok(WebSocketConnectionType::PEER)
        } else if str_eq(lower.as_str(), "observer") {
            Ok(WebSocketConnectionType::OBSERVER)
        } else {
            Err(())
        }
    }

    /// The topics a client of this type reads: the host reads inputs and session events,
    /// the others read moves, inputs, status and session events.
    pub fn get_topics(&self) -> (r: &[&str])
        ensures
            *self == WebSocketConnectionType::HOST ==> topic_names(r@) == seq!["input"@, "session"@],
            *self != WebSocketConnectionType::HOST ==> topic_names(r@) == seq![
                "move"@,
                "input"@,
                "status"@,
                "session"@,
            ],
    {
        match self {
            WebSocketConnectionType::HOST => {
                let topics: &[&str] = &["input", "session"];
                proof {
                    assert(topic_names(topics@) =~= seq!["input"@, "session"@]);
                }
                topics
            },
            WebSocketConnectionType::PEER | WebSocketConnectionType::OBSERVER => {
                let topics: &[&str] = &["move", "input", "status", "session"];
                proof {
                    assert(topic_names(topics@) =~= seq!["move"@, "input"@, "status"@, "session"@]);
                }
                topics
            },
        }
    }
}

} // verus!
