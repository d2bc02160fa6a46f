//! The attach client's handle: the session URL to connect to and the key
//! sequence that detaches. The connection loop itself runs outside; its
//! decisions — frame encoding and parsing, URL assembly — live in
//! [`crate::frames`] and [`crate::text`].

use vstd::prelude::*;
use crate::error::RwShellError;

verus! {

/// A terminal attach client for one session.
#[derive(Debug, Clone)]
pub struct TtyClient {
    /// The session page URL, as given on the command line.
    pub session_url: String,
    /// The key sequence that detaches the client.
    pub detach_keys: String,
}

impl TtyClient {
    /// A client for the session at `session_url`.
    pub fn new(session_url: String, detach_keys: String) -> (r: Result<TtyClient, RwShellError>)
        ensures
            r matches Ok(c) && c.session_url@ == session_url@ && c.detach_keys@ == detach_keys@,
    {
        Ok(TtyClient { session_url, detach_keys })
    }
}

} // verus!
