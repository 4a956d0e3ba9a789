use vstd::prelude::*;

use crate::errors::KVStoreError;

verus! {

/// A client request: read, write or delete one key.
#[derive(Clone, Debug, PartialEq, Eq)]
pub enum Request {
    GET(String),
    SET(String, String),
    RM(String),
}

/// The server's answer to one request.
#[derive(Clone, Debug, PartialEq, Eq)]
pub enum Response {
    /// The request succeeded; a read carries the value it found, if any.
    Success(Option<String>),
    /// The request failed, with a message for the client.
    Failure(String),
}

/// The storage engine that a server is started with.
#[derive(Clone, Copy, Debug, PartialEq, Eq)]
pub enum EngineType {
    KvStore,
    SledKvStore,
}

impl EngineType {
    /// The short name of the engine, also the name of its data directory.
    pub open spec fn spec_name(&self) -> Seq<char> {
        match self {
            EngineType::KvStore => seq!['k', 'v', 's'],
            EngineType::SledKvStore => seq!['s', 'l', 'e', 'd'],
        }
    }

    pub fn name(&self) -> (r: String)
        ensures
            r@ == self.spec_name(),
    {
        match self {
            EngineType::KvStore => {
                proof {
                    reveal_strlit("kvs");
                }
                let r = "kvs".to_owned();
                assert(r@ =~= self.spec_name());
                r
            },
            EngineType::SledKvStore => {
                proof {
                    reveal_strlit("sled");
                }
                let r = "sled".to_owned();
                assert(r@ =~= self.spec_name());
                r
            },
        }
    }
}

/// The view of an optional string.
pub open spec fn opt_view(o: Option<String>) -> Option<Seq<char>> {
    match o {
        Some(s) => Some(s@),
        None => None,
    }
}

/// The response that reports an engine's result: its value, or its error's
/// message.
pub open spec fn response_for(r: std::result::Result<Option<String>, KVStoreError>) -> (
    bool,
    Option<Seq<char>>,
) {
    match r {
        Ok(v) => (true, opt_view(v)),
        Err(e) => (false, Some(e.spec_message())),
    }
}

impl Response {
    /// A response as a success flag and its payload: the value of an `Ok`,
    /// the message of an `Err`.
    pub open spec fn spec_parts(&self) -> (bool, Option<Seq<char>>) {
        match self {
            Response::Success(v) => (true, opt_view(*v)),
            Response::Failure(m) => (false, Some(m@)),
        }
    }
}

/// Turns the result of an engine call into the response sent to the client.
pub fn respond(r: &std::result::Result<Option<String>, KVStoreError>) -> (resp: Response)
    ensures
        resp.spec_parts() == response_for(*r),
{
    match r {
        Ok(Some(v)) => Response::Success(Some(v.clone())),
        Ok(None) => Response::Success(None),
        Err(e) => Response::Failure(e.message()),
    }
}

/// What a client makes of the server's reply: the value of a success, the
/// message of a failure as a `ServerError`, and nothing where the server
/// closed the connection without a reply.
pub fn reply_result(reply: Option<Response>) -> (r: std::result::Result<Option<String>, KVStoreError>)
    ensures
        reply is None ==> (r matches Ok(None)),
        reply matches Some(Response::Success(v)) ==> (r matches Ok(w) && w == v),
        reply matches Some(Response::Failure(m)) ==> (r matches Err(KVStoreError::ServerError(
            n,
        )) && n == m),
{
    match reply {
        None => Ok(None),
        Some(Response::Success(v)) => Ok(v),
        Some(Response::Failure(m)) => Err(KVStoreError::ServerError(m)),
    }
}

/// The message of a job whose completion signal never came.
pub open spec fn dispatch_failure_text() -> Seq<char> {
    seq!['w', 'o', 'r', 'k', 'e', 'r', ' ', 'd', 'i', 's', 'p', 'a', 't', 'c', 'h', ' ', 'f', 'a', 'i', 'l', 'e', 'd']
}

/// The response for a job handed to a worker: the one it signalled, or, where
/// the channel closed without a signal, a server-side error.
pub fn completion_response(signal: Option<Response>) -> (resp: Response)
    ensures
        signal matches Some(r) ==> resp == r,
        signal is None ==> resp.spec_parts() == (false, Some(dispatch_failure_text())),
{
    match signal {
        Some(r) => r,
        None => {
            proof {
                reveal_strlit("worker dispatch failed");
            }
            let m = "worker dispatch failed".to_owned();
            assert(m@ =~= dispatch_failure_text());
            respond(&Err(KVStoreError::ServerError(m)))
        },
    }
}

} // verus!
