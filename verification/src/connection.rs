//! Where the remote key-value store lives: building its address and
//! opening a client for it. No connection is made here.

use vstd::prelude::*;
use vstd::string::StringExecFns;

verus! {

/// `redis::Client`: the parsed address of a store. It is carried through as it is.
#[verifier::external_type_specification]
#[verifier::external_body]
pub struct ExClient(redis::Client);

/// `redis::RedisError`: why the client library refused. It is read only as text.
#[verifier::external_type_specification]
#[verifier::external_body]
pub struct ExRedisError(redis::RedisError);

/// Whether `redis::Client::open` accepts a URL. The decision is made by the
/// URL parser behind it and depends on the text alone.
pub uninterp spec fn redis_accepts(url: Seq<char>) -> bool;

/// The address of a store as a URL: `redis://<address>:<port>/`.
pub open spec fn redis_url_spec(address: Seq<char>, port: Seq<char>) -> Seq<char> {
    "redis://"@ + address + ":"@ + port + "/"@
}

/// Why no client could be made for a store address.
#[derive(Debug)]
pub struct ConnectError {
    /// The URL that was refused.
    pub url: String,
    /// What the client library said of it.
    pub reason: String,
}

/// Calls `redis::Client::open` on a URL. That function parses the URL and
/// checks it without touching the network; it succeeds exactly on the URLs
/// that `redis_accepts` names.
#[verifier::external_body]
fn open_client(url: &str) -> (result: Result<redis::Client, redis::RedisError>)
    ensures
        result.is_ok() == redis_accepts(url@),
{
    redis::Client::open(url)
}

/// Calls `to_string` on a `redis::RedisError`: its message as text.
#[verifier::external_body]
fn error_text(error: &redis::RedisError) -> (text: String) {
    error.to_string()
}

/// Builds the URL of the store at `address` and `port`.
pub fn redis_url(address: &str, port: &str) -> (url: String)
    ensures
        url@ == redis_url_spec(address@, port@),
{
    let mut url = String::from_str("redis://");
    url.append(address);
    url.append(":");
    url.append(port);
    url.append("/");
    url
}

/// Turns the outcome of opening a client for `url` into the library's own
/// result: the client as it is, or the refused URL with the reason.
pub fn client_or_refusal(url: String, opened: Result<redis::Client, redis::RedisError>) -> (result:
    Result<redis::Client, ConnectError>)
    ensures
        result.is_ok() == opened.is_ok(),
        opened matches Ok(c) ==> result == Ok::<redis::Client, ConnectError>(c),
        result matches Err(e) ==> e.url@ == url@,
{
    match opened {
        Ok(client) => Ok(client),
        Err(error) => {
            let reason = error_text(&error);
            Err(ConnectError { url, reason })
        },
    }
}

/// Makes a client for the store at `address` and `port`. It succeeds
/// exactly when the client library accepts the URL built from them.
pub fn redis_client(address: &str, port: &str) -> (result: Result<redis::Client, ConnectError>)
    ensures
        result.is_ok() == redis_accepts(redis_url_spec(address@, port@)),
        result matches Err(e) ==> e.url@ == redis_url_spec(address@, port@),
{
    let url = redis_url(address, port);
    let opened = open_client(url.as_str());
    client_or_refusal(url, opened)
}

} // verus!
