//! Which webhook requests are let in.

use vstd::prelude::*;
use vstd::string::{StrSliceExecFns, StringExecFns};

verus! {

#[derive(Debug, Clone, Copy, PartialEq, Eq, Structural)]
pub enum RequestVerdict {
    /// Answer 404 with an empty body.
    NotFound,
    /// Read the update in the body.
    Accepted,
}

/// Relies on secstr's `SecStr` equality, which compares lengths and then
/// every byte in constant time: true exactly when the byte strings are equal.
#[verifier::external_body]
fn secrets_equal(a: &Vec<u8>, b: &Vec<u8>) -> (r: bool)
    ensures
        r == (a@ == b@),
{
    secstr::SecStr::new(a.clone()) == secstr::SecStr::new(b.clone())
}

/// A webhook request is accepted only as a POST whose secret-token header
/// equals the configured secret; anything else is answered as not found.
pub fn authorize_request(is_post: bool, secret_header: Option<&Vec<u8>>, secret: &Vec<u8>) -> (r:
    RequestVerdict)
    ensures
        (r == RequestVerdict::Accepted) <==> (is_post && match secret_header {
            Some(h) => h@ == secret@,
            None => false,
        }),
{
    if !is_post {
        return RequestVerdict::NotFound;
    }
    match secret_header {
        None => RequestVerdict::NotFound,
        Some(h) => if secrets_equal(h, secret) {
            RequestVerdict::Accepted
        } else {
            RequestVerdict::NotFound
        },
    }
}

/// How a duplicate-suggestions query names its tournament.
#[derive(Debug, Clone, PartialEq, Eq)]
pub enum TournamentRef {
    /// By the tournament's id.
    Id(String),
    /// By the username of its chat (the latest tournament there that was not
    /// aborted).
    ChatUsername(String),
}

/// Reads a tournament reference: `@name` names a chat, anything else is an id.
pub fn parse_tournament_ref(input: &str) -> (r: TournamentRef)
    ensures
        input@.len() > 0 && input@[0] == '@' ==> (r matches TournamentRef::ChatUsername(name)
            && name@ == input@.subrange(1, input@.len() as int)),
        !(input@.len() > 0 && input@[0] == '@') ==> (r matches TournamentRef::Id(id) && id@ == input@),
{
    let n = input.unicode_len();
    if n > 0 && input.get_char(0) == '@' {
        TournamentRef::ChatUsername(String::from_str(input.substring_char(1, n)))
    } else {
        TournamentRef::Id(String::from_str(input))
    }
}

} // verus!
