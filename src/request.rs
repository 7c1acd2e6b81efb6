//! The request a client sends and the decisions on what to answer.
use vstd::prelude::*;
use vstd::string::StringExecFns;
use crate::encode::SqlResult;

verus! {

/// A batch of statements. `distributed` is accepted and has no effect.
pub struct SqlRequest {
    pub distributed: bool,
    pub stmts: Vec<String>,
}

/// What an invocation answers.
pub enum Reply {
    /// The batch ran; status 200.
    Success(SqlResult),
    /// The route is not the SQL endpoint; status 404.
    NotFound,
    /// The body could not be decoded, or a statement failed; status 400.
    BadRequest(String),
}

pub open spec fn sql_route() -> Seq<char> {
    seq!['/', 'a', 'p', 'i', '/', 's', 'q', 'l']
}

pub open spec fn not_found_text() -> Seq<char> {
    seq!['N', 'o', 't', ' ', 'F', 'o', 'u', 'n', 'd']
}

pub open spec fn invalid_json_prefix() -> Seq<char> {
    seq!['I', 'n', 'v', 'a', 'l', 'i', 'd', ' ', 'J', 'S', 'O', 'N', ':', ' ']
}

pub open spec fn status_of(r: Reply) -> u16 {
    match r {
        Reply::Success(_) => 200,
        Reply::NotFound => 404,
        Reply::BadRequest(_) => 400,
    }
}

pub open spec fn message_of(r: Reply) -> Option<Seq<char>> {
    match r {
        Reply::Success(_) => None,
        Reply::NotFound => Some(not_found_text()),
        Reply::BadRequest(m) => Some(m@),
    }
}

/// Whether a request path is the SQL endpoint.
pub fn is_sql_route(path: &str) -> (r: bool)
    ensures
        r == (path@ == sql_route()),
{
    let want = "/api/sql";
    proof {
        reveal_strlit("/api/sql");
    }
    let w = want.to_owned();
    let p = path.to_owned();
    let b = p == w;
    assert(w@ =~= sql_route());
    b
}

/// The answer to a body that could not be decoded, given the decoder's
/// account of what went wrong.
pub fn invalid_json(detail: &str) -> (r: Reply)
    ensures
        r matches Reply::BadRequest(m) && m@ == invalid_json_prefix() + detail@,
{
    let prefix = "Invalid JSON: ";
    proof {
        reveal_strlit("Invalid JSON: ");
    }
    let mut m = prefix.to_owned();
    assert(m@ =~= invalid_json_prefix());
    m.append(detail);
    Reply::BadRequest(m)
}

impl Reply {
    /// The answer for a path: `None` where the path is the SQL endpoint and
    /// the request goes on, the not-found answer otherwise.
    pub fn for_path(path: &str) -> (r: Option<Reply>)
        ensures
            path@ == sql_route() <==> r is None,
            r is Some ==> r->0 is NotFound,
    {
        if is_sql_route(path) {
            None
        } else {
            Some(Reply::NotFound)
        }
    }

    /// The answer once the batch ran, or failed with the engine's message.
    pub fn for_outcome(outcome: Result<SqlResult, String>) -> (r: Reply)
        ensures
            match outcome {
                Ok(res) => r == Reply::Success(res),
                Err(m) => r == Reply::BadRequest(m),
            },
    {
        match outcome {
            Ok(res) => Reply::Success(res),
            Err(m) => Reply::BadRequest(m),
        }
    }

    /// The HTTP status of the answer.
    pub fn status(&self) -> (r: u16)
        ensures
            r == status_of(*self),
    {
        match self {
            Reply::Success(_) => 200,
            Reply::NotFound => 404,
            Reply::BadRequest(_) => 400,
        }
    }

    /// The text of the `message` field of an error answer.
    pub fn message(&self) -> (r: Option<String>)
        ensures
            match r {
                Some(m) => message_of(*self) == Some(m@),
                None => message_of(*self) is None,
            },
    {
        match self {
            Reply::Success(_) => None,
            Reply::NotFound => {
                let t = "Not Found";
                proof {
                    reveal_strlit("Not Found");
                }
                let m = t.to_owned();
                assert(m@ =~= not_found_text());
                Some(m)
            },
            Reply::BadRequest(m) => Some(m.clone()),
        }
    }
}

} // verus!
