use vstd::prelude::*;

use crate::server::http::{param, param_value};
use crate::server::session::Session;
use crate::server::session_manager::{find_index, SessionManager};
use crate::text::str_eq;

verus! {

/// The HTTP endpoints of the server.
#[derive(Debug, Clone, Copy, PartialEq, Eq, Structural)]
pub enum Route {
    GetSession,
    CreateSession,
    JoinSession,
    WatchSession,
    Unknown,
}

/// The endpoint for a request method and path.
pub open spec fn route_of(method: Seq<char>, path: Seq<char>) -> Route {
    if method == "GET"@ && path == "/session"@ {
        Route::GetSession
    } else if method == "POST"@ && path == "/create_session"@ {
        Route::CreateSession
    } else if method == "POST"@ && path == "/join_session"@ {
        Route::JoinSession
    } else if method == "POST"@ && path == "/watch_session"@ {
        Route::WatchSession
    } else {
        Route::Unknown
    }
}

/// Picks the endpoint for a request.
pub fn route(method: &str, path: &str) -> (r: Route)
    ensures
        r == route_of(method@, path@),
{
    if str_eq(method, "GET") && str_eq(path, "/session") {
        Route::GetSession
    } else if str_eq(method, "POST") && str_eq(path, "/create_session") {
        Route::CreateSession
    } else if str_eq(method, "POST") && str_eq(path, "/join_session") {
        Route::JoinSession
    } else if str_eq(method, "POST") && str_eq(path, "/watch_session") {
        Route::WatchSession
    } else {
        Route::Unknown
    }
}

/// Answers a request for a session: the session named by the `session_id` parameter, or
/// the refusal (status code and message) when the parameter is missing or names no session.
pub fn lookup_requested_session(manager: &SessionManager, params: &Vec<(String, String)>) -> (r: Result<
    Session,
    (u16, String),
>)
    ensures
        match param_value(params@, "session_id"@) {
            None => r matches Err((s, m)) && s == 400 && m@ == "Please provide a valid session id"@,
            Some(id) => match find_index(manager.sessions(), id) {
                None => r matches Err((s, m)) && s == 404 && m@
                    == "Unable to find session for given id"@,
                Some(i) => r matches Ok(session) && session@ == manager.sessions()[i],
            },
        },
{
    let session_id = match param(params, "session_id") {
        None => {
            return Err((400, "Please provide a valid session id".to_owned()));
        },
        Some(id) => id,
    };
    match manager.get_session(session_id.as_str()) {
        None => Err((404, "Unable to find session for given id".to_owned())),
        Some(session) => Ok(session),
    }
}

} // verus!
