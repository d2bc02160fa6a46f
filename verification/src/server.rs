//! The serving side's handle: the configuration and the session identifier,
//! which is either the literal `local` or a freshly drawn 128-bit random
//! identifier in its canonical textual form.

use vstd::prelude::*;
use crate::args::Args;

verus! {

/// Relies on `uuid::Uuid::new_v4` and its `Display`: the hyphenated textual
/// form of a (random) UUID is always 36 characters.
#[verifier::external_body]
fn uuid_v4_string() -> (r: String)
    ensures
        r@.len() == 36,
{
    uuid::Uuid::new_v4().to_string()
}

/// The session identifier: the literal `local`, or a random identifier when
/// `use_uuid` is set. Nothing more is promised of the random form than its
/// canonical 36-character length.
pub fn new_session_id(use_uuid: bool) -> (r: String)
    ensures
        !use_uuid ==> r@ == "local"@,
        use_uuid ==> r@.len() == 36,
{
    if use_uuid {
        uuid_v4_string()
    } else {
        String::from_str("local")
    }
}

/// One session-sharing server.
#[derive(Debug)]
pub struct RwShellServer {
    /// The configuration the process started with.
    pub args: Args,
    /// The session identifier all paths are built from.
    pub session_id: String,
}

impl RwShellServer {
    /// A server for one fresh session under the given configuration.
    pub fn new(args: Args) -> (r: RwShellServer)
        ensures
            r.args == args,
            !args.uuid ==> r.session_id@ == "local"@,
            args.uuid ==> r.session_id@.len() == 36,
    {
        let session_id = new_session_id(args.uuid);
        RwShellServer { args, session_id }
    }
}

} // verus!
