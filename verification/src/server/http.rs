use vstd::prelude::*;

use crate::server::actor::Player;
use crate::server::session::Session;
use crate::server::session_manager::{find_index, has_hash, SessionManager, SessionView};
use crate::server::websocket_handler::WebSocketConnectionType;
use crate::search::{first_match, lemma_first_match, lemma_first_match_at};
use crate::text::{ascii_lowercase, is_ascii_chars, lowercased, str_eq};

verus! {

/// A websocket connection that was accepted: its session, its type and its player.
#[derive(Debug)]
pub struct WebSocketSession {
    pub connection_type: WebSocketConnectionType,
    pub session: Session,
    pub player: Player,
}

/// The value of the last pair with key `key`, if any (what a map built from the pairs in
/// order holds for `key`).
pub open spec fn param_value(params: Seq<(String, String)>, key: Seq<char>) -> Option<Seq<char>>
    decreases params.len(),
{
    if params.len() == 0 {
        None
    } else if params.last().0@ == key {
        Some(params.last().1@)
    } else {
        param_value(params.drop_last(), key)
    }
}

/// The value of the request parameter `key`: that of its last occurrence.
pub fn param<'a>(params: &'a Vec<(String, String)>, key: &str) -> (r: Option<&'a String>)
    ensures
        match param_value(params@, key@) {
            Some(v) => r matches Some(s) && s@ == v,
            None => r is None,
        },
{
    let mut k: usize = params.len();
    proof {
        assert(params@.take(k as int) == params@);
    }
    while k > 0
        invariant
            k <= params@.len(),
            param_value(params@, key@) == param_value(
                params@.take(k as int),
                key@,
            ),
        decreases k,
    {
        proof {
            assert(params@.take(k as int).drop_last() == params@.take(k - 1));
        }
        if str_eq(params[k - 1].0.as_str(), key) {
            return Some(&params[k - 1].1);
        }
        k = k - 1;
    }
    proof {
        assert(params@.take(0) == Seq::<(String, String)>::empty());
    }
    None
}

/// Whether a player has the id `id`.
pub open spec fn has_id(id: Seq<char>) -> spec_fn(Player) -> bool {
    |p: Player| p.id@ == id
}

/// The index of the first player with id `id`, if any.
pub open spec fn player_index(players: Seq<Player>, id: Seq<char>) -> Option<int> {
    first_match(players, has_id(id))
}

/// The connection type named by `raw`, compared after lower-casing.
pub open spec fn connection_type_named(raw: Seq<char>) -> Option<WebSocketConnectionType> {
    if lowercased(raw) == "host"@ {
        Some(WebSocketConnectionType::HOST)
    } else if lowercased(raw) == "peer"@ {
        Some(WebSocketConnectionType::PEER)
    } else if lowercased(raw) == "observer"@ {
        Some(WebSocketConnectionType::OBSERVER)
    } else {
        None
    }
}

/// On ASCII text the connection type is read without regard to case: two names that differ
/// only in the case of their letters name the same type (so `HOST`, `Host` and `host` all
/// name the host).
pub proof fn lemma_connection_type_ignores_ascii_case(a: Seq<char>, b: Seq<char>)
    requires
        is_ascii_chars(a),
        is_ascii_chars(b),
        ascii_lowercase(a) == ascii_lowercase(b),
    ensures
        connection_type_named(a) == connection_type_named(b),
{
}

/// The answer to a request to open a websocket for a session: the refusal (status code and
/// message) of the first check that fails, or the connection to open.
pub open spec fn upgrade_decision(
    sessions: Seq<SessionView>,
    params: Seq<(String, String)>,
    remote_ip: Seq<char>,
) -> Result<(SessionView, WebSocketConnectionType, Player), (u16, Seq<char>)> {
    if param_value(params, "session_id"@) is None {
        Err((400, "Missing request param: "@ + "session_id"@))
    } else if param_value(params, "player_id"@) is None {
        Err((400, "Missing request param: "@ + "player_id"@))
    } else if param_value(params, "connection_type"@) is None {
        Err((400, "Missing request param: "@ + "connection_type"@))
    } else {
        let session_id = param_value(params, "session_id"@).unwrap();
        let player_id = param_value(params, "player_id"@).unwrap();
        let raw_type = param_value(params, "connection_type"@).unwrap();
        match find_index(sessions, session_id) {
            None => Err((404, "Session does not exist: "@ + session_id)),
            Some(i) => match player_index(sessions[i].players, player_id) {
                None => Err((403, "Player is not registered in session: "@ + player_id)),
                Some(p) => {
                    let player = sessions[i].players[p];
                    if player.ip@ != remote_ip {
                        Err(
                            (
                                403,
                                "Player with wrong ip tried to join session: "@ + player.ip@
                                    + " (expected) vs "@ + remote_ip + " (actual)"@,
                            ),
                        )
                    } else {
                        match connection_type_named(raw_type) {
                            None => Err((400, "Invalid connection type: "@ + raw_type)),
                            Some(t) => Ok((sessions[i], t, player)),
                        }
                    }
                },
            },
        }
    }
}

/// Decides a request to turn an HTTP connection from `remote_ip` into a websocket for a
/// session. The request parameters must name the session, the player and the connection
/// type; the session must exist, the player must belong to it and connect from the address
/// the player registered with, and the connection type must be known. The first check that
/// fails gives the status code and message of the refusal.
pub fn check_ws_upgrade(manager: &SessionManager, params: &Vec<(String, String)>, remote_ip: &str) -> (r:
    Result<WebSocketSession, (u16, String)>)
    ensures
        match upgrade_decision(manager.sessions(), params@, remote_ip@) {
            Err((status, message)) => r matches Err((s, m)) && s == status && m@ == message,
            Ok((session, connection_type, player)) => r matches Ok(w) && w.session@ == session
                && w.connection_type == connection_type && w.player == player,
        },
        r matches Ok(w) ==> {
            &&& param_value(params@, "player_id"@) matches Some(pid) && w.player.id@ == pid
            &&& w.player.ip@ == remote_ip@
            &&& w.session.players@.contains(w.player)
        },
{
    proof {
        lemma_upgrade_admits_the_named_player(manager.sessions(), params@, remote_ip@);
    }
    let session_id = match param(params, "session_id") {
        None => {
            return Err((400, missing_param("session_id")));
        },
        Some(v) => v,
    };
    let player_id = match param(params, "player_id") {
        None => {
            return Err((400, missing_param("player_id")));
        },
        Some(v) => v,
    };
    let raw_type = match param(params, "connection_type") {
        None => {
            return Err((400, missing_param("connection_type")));
        },
        Some(v) => v,
    };
    let session = match manager.get_session(session_id.as_str()) {
        None => {
            let mut message = String::new();
            message.append("Session does not exist: ");
            message.append(session_id.as_str());
            return Err((404, message));
        },
        Some(s) => s,
    };
    let mut k: usize = 0;
    let mut found: Option<usize> = None;
    proof {
        lemma_first_match(session.players@, has_id(player_id@));
    }
    while k < session.players.len()
        invariant_except_break
            found is None,
        invariant
            0 <= k <= session.players@.len(),
            forall|j: int| 0 <= j < k ==> (#[trigger] session.players@[j]).id@ != player_id@,
            player_index(session.players@, player_id@) matches Some(i) ==> 0 <= i
                < session.players@.len() && session.players@[i].id@ == player_id@,
        ensures
            found is None ==> player_index(session.players@, player_id@) is None,
            found matches Some(p) ==> p < session.players@.len() && player_index(
                session.players@,
                player_id@,
            ) == Some(p as int),
        decreases session.players@.len() - k,
    {
        if str_eq(session.players[k].id.as_str(), player_id.as_str()) {
            found = Some(k);
            proof {
                lemma_first_match_at(session.players@, has_id(player_id@), k as int);
            }
            break;
        }
        k = k + 1;
    }
    let p = match found {
        None => {
            let mut message = String::new();
            message.append("Player is not registered in session: ");
            message.append(player_id.as_str());
            return Err((403, message));
        },
        Some(p) => p,
    };
    let player = session.players[p].duplicate();
    if !str_eq(player.ip.as_str(), remote_ip) {
        let mut message = String::new();
        message.append("Player with wrong ip tried to join session: ");
        message.append(player.ip.as_str());
        message.append(" (expected) vs ");
        message.append(remote_ip);
        message.append(" (actual)");
        return Err((403, message));
    }
    let connection_type = match WebSocketConnectionType::from_str(raw_type.as_str()) {
        Err(_) => {
            let mut message = String::new();
            message.append("Invalid connection type: ");
            message.append(raw_type.as_str());
            return Err((400, message));
        },
        Ok(t) => t,
    };
    Ok(WebSocketSession { session, connection_type, player })
}

fn missing_param(name: &str) -> (r: String)
    ensures
        r@ == "Missing request param: "@ + name@,
{
    let mut message = String::new();
    message.append("Missing request param: ");
    message.append(name);
    message
}

/// A websocket is opened only for the player that the request names, in a session that the
/// manager holds under the requested id, and only from the address that player registered
/// with: the admitted player is a player of the admitted session, its id is the `player_id`
/// parameter and its address is the remote address.
pub proof fn lemma_upgrade_admits_the_named_player(
    sessions: Seq<SessionView>,
    params: Seq<(String, String)>,
    remote_ip: Seq<char>,
)
    ensures
        upgrade_decision(sessions, params, remote_ip) matches Ok((s, t, p)) ==> {
            &&& param_value(params, "session_id"@) matches Some(sid) && s.hash == sid
            &&& param_value(params, "player_id"@) matches Some(pid) && p.id@ == pid
            &&& p.ip@ == remote_ip
            &&& sessions.contains(s)
            &&& s.players.contains(p)
        },
{
    if upgrade_decision(sessions, params, remote_ip) is Ok {
        let sid = param_value(params, "session_id"@).unwrap();
        let pid = param_value(params, "player_id"@).unwrap();
        lemma_first_match(sessions, has_hash(sid));
        let i = find_index(sessions, sid).unwrap();
        lemma_first_match(sessions[i].players, has_id(pid));
        let k = player_index(sessions[i].players, pid).unwrap();
        assert(sessions[i].players[k].id@ == pid);
    }
}

/// The first player of the session with the requested id decides the admission: when it
/// connects from the address it registered with and the connection type is known, the
/// websocket is opened for that player; the refusal for a wrong address comes only when the
/// address of that player differs from the remote address.
pub proof fn lemma_upgrade_checks_the_named_players_address(
    sessions: Seq<SessionView>,
    params: Seq<(String, String)>,
    remote_ip: Seq<char>,
    i: int,
    k: int,
)
    requires
        param_value(params, "session_id"@) is Some,
        param_value(params, "player_id"@) is Some,
        param_value(params, "connection_type"@) is Some,
        0 <= i < sessions.len(),
        sessions[i].hash == param_value(params, "session_id"@).unwrap(),
        forall|j: int| 0 <= j < i ==> (#[trigger] sessions[j]).hash != sessions[i].hash,
        0 <= k < sessions[i].players.len(),
        sessions[i].players[k].id@ == param_value(params, "player_id"@).unwrap(),
        forall|j: int|
            0 <= j < k ==> (#[trigger] sessions[i].players[j]).id@ != sessions[i].players[k].id@,
    ensures
        sessions[i].players[k].ip@ == remote_ip ==> match connection_type_named(
            param_value(params, "connection_type"@).unwrap(),
        ) {
            Some(t) => upgrade_decision(sessions, params, remote_ip) == Ok::<
                (SessionView, WebSocketConnectionType, Player),
                (u16, Seq<char>),
            >((sessions[i], t, sessions[i].players[k])),
            None => upgrade_decision(sessions, params, remote_ip) matches Err((status, _)) && status
                == 400,
        },
        sessions[i].players[k].ip@ != remote_ip ==> upgrade_decision(sessions, params, remote_ip)
            == Err::<(SessionView, WebSocketConnectionType, Player), (u16, Seq<char>)>(
            (
                403,
                "Player with wrong ip tried to join session: "@ + sessions[i].players[k].ip@
                    + " (expected) vs "@ + remote_ip + " (actual)"@,
            ),
        ),
{
    lemma_first_match_at(sessions, has_hash(sessions[i].hash), i);
    lemma_first_match_at(sessions[i].players, has_id(sessions[i].players[k].id@), k);
}

} // verus!
