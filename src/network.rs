//! Types and decisions shared with the HTTP clients that submit signed
//! objects to network nodes: configuration, responses, errors, and the rules
//! the clients follow (required endpoints, URL shape, timeouts, and reading a
//! "not found" status lookup as "no pending record").

use vstd::prelude::*;
use vstd::string::StringExecFns;

verus! {

broadcast use vstd::string::group_string_axioms;

/// Seconds a request may take when the configuration names no timeout.
pub const DEFAULT_TIMEOUT: u64 = 30;

/// Where the network's nodes are, and how long a request may take.
#[derive(Clone, Debug, Default)]
pub struct NetworkConfig {
    /// Currency L1 endpoint, such as `http://localhost:9010`.
    pub l1_url: Option<String>,
    /// Data L1 endpoint, such as `http://localhost:8080`.
    pub data_l1_url: Option<String>,
    /// Request timeout in seconds.
    pub timeout: Option<u64>,
}

/// Options of a single request.
#[derive(Clone, Debug, Default)]
pub struct RequestOptions {
    /// Request timeout in seconds.
    pub timeout: Option<u64>,
}

/// Where a submitted transaction stands.
#[derive(Clone, Copy, Debug, PartialEq, Eq)]
pub enum TransactionStatus {
    Waiting,
    InProgress,
    Accepted,
}

impl TransactionStatus {
    /// The status's name as nodes write it.
    pub fn name(&self) -> (r: &'static str)
        ensures
            r@ == match self {
                TransactionStatus::Waiting => "Waiting"@,
                TransactionStatus::InProgress => "InProgress"@,
                TransactionStatus::Accepted => "Accepted"@,
            },
    {
        match self {
            TransactionStatus::Waiting => "Waiting",
            TransactionStatus::InProgress => "InProgress",
            TransactionStatus::Accepted => "Accepted",
        }
    }
}

/// A transaction that a node holds but has not yet settled.
#[derive(Clone, Debug)]
pub struct PendingTransaction {
    pub hash: String,
    pub status: TransactionStatus,
    /// The transaction as the node returned it.
    pub transaction: serde_json::Value,
}

/// A node's answer to a posted transaction.
#[derive(Clone, Debug)]
pub struct PostTransactionResponse {
    pub hash: String,
}

/// A node's fee estimate for posting data.
#[derive(Clone, Debug)]
pub struct EstimateFeeResponse {
    /// Fee in the smallest unit.
    pub fee: i64,
    /// Address the fee goes to.
    pub address: String,
}

/// A node's answer to posted data.
#[derive(Clone, Debug)]
pub struct PostDataResponse {
    pub hash: String,
}

/// Failures of a request to a node.
#[derive(Clone, Debug)]
pub enum NetworkError {
    HttpError { message: String, status_code: Option<u16>, response: Option<String> },
    Timeout,
    ConfigError(String),
    SerializationError(String),
}

/// The text an error is shown with.
pub open spec fn error_text(e: NetworkError) -> Seq<char> {
    match e {
        NetworkError::HttpError { message, .. } => "HTTP error: "@ + message@,
        NetworkError::Timeout => "Request timeout"@,
        NetworkError::ConfigError(m) => "Configuration error: "@ + m@,
        NetworkError::SerializationError(m) => "Serialization error: "@ + m@,
    }
}

impl NetworkError {
    /// An HTTP error with its message, status code and response body.
    pub fn http(message: &str, status_code: Option<u16>, response: Option<String>) -> (r: Self)
        ensures
            r matches NetworkError::HttpError { message: m, status_code: c, response: b } && m@
                == message@ && c == status_code && b == response,
    {
        NetworkError::HttpError { message: message.to_owned(), status_code, response }
    }

    /// The HTTP status code, for an HTTP error that has one.
    pub fn status_code(&self) -> (r: Option<u16>)
        ensures
            r == match self {
                NetworkError::HttpError { status_code, .. } => *status_code,
                _ => None,
            },
    {
        match self {
            NetworkError::HttpError { status_code, .. } => *status_code,
            _ => None,
        }
    }

    /// The text this error is shown with.
    pub fn message(&self) -> (r: String)
        ensures
            r@ == error_text(*self),
    {
        let (head, tail): (&str, &str) = match self {
            NetworkError::HttpError { message, .. } => ("HTTP error: ", message.as_str()),
            NetworkError::Timeout => ("Request timeout", ""),
            NetworkError::ConfigError(m) => ("Configuration error: ", m.as_str()),
            NetworkError::SerializationError(m) => ("Serialization error: ", m.as_str()),
        };
        let mut r = head.to_owned();
        r.append(tail);
        proof {
            reveal_strlit("");
            assert(r@ =~= error_text(*self));
        }
        r
    }
}

/// The timeout a client uses, in seconds.
pub fn effective_timeout(timeout: Option<u64>) -> (r: u64)
    ensures
        r == match timeout {
            Some(t) => t,
            None => DEFAULT_TIMEOUT,
        },
{
    match timeout {
        Some(t) => t,
        None => DEFAULT_TIMEOUT,
    }
}

/// A URL without the slashes at its end.
pub open spec fn trimmed(url: Seq<char>) -> Seq<char>
    decreases url.len(),
{
    if url.len() > 0 && url.last() == '/' {
        trimmed(url.drop_last())
    } else {
        url
    }
}

/// The base URL a client puts request paths after: the given URL without
/// trailing slashes.
pub fn base_url(url: &str) -> (r: String)
    ensures
        r@ == trimmed(url@),
{
    let mut end = url.unicode_len();
    assert(url@.subrange(0, end as int) =~= url@);
    while end > 0 && url.get_char(end - 1) == '/'
        invariant
            end <= url@.len(),
            trimmed(url@) == trimmed(url@.subrange(0, end as int)),
        decreases end,
    {
        assert(url@.subrange(0, end as int).drop_last() =~= url@.subrange(0, end - 1));
        end = end - 1;
    }
    url.substring_char(0, end).to_owned()
}

/// The currency L1 endpoint that a currency client needs.
pub fn currency_l1_url(config: &NetworkConfig) -> (r: Result<String, NetworkError>)
    ensures
        config.l1_url matches Some(u) ==> (r matches Ok(s) && s@ == u@),
        config.l1_url is None ==> (r matches Err(NetworkError::ConfigError(m)) && m@
            == "l1_url is required for CurrencyL1Client"@),
{
    match &config.l1_url {
        Some(u) => Ok(u.clone()),
        None => Err(
            NetworkError::ConfigError("l1_url is required for CurrencyL1Client".to_owned()),
        ),
    }
}

/// The data L1 endpoint that a data client needs.
pub fn data_l1_url(config: &NetworkConfig) -> (r: Result<String, NetworkError>)
    ensures
        config.data_l1_url matches Some(u) ==> (r matches Ok(s) && s@ == u@),
        config.data_l1_url is None ==> (r matches Err(NetworkError::ConfigError(m)) && m@
            == "data_l1_url is required for DataL1Client"@),
{
    match &config.data_l1_url {
        Some(u) => Ok(u.clone()),
        None => Err(
            NetworkError::ConfigError("data_l1_url is required for DataL1Client".to_owned()),
        ),
    }
}

/// A status lookup's outcome, with an HTTP 404 read as "no pending record"
/// rather than as an error.
pub fn absent_when_not_found<T>(result: Result<T, NetworkError>) -> (r: Result<
    Option<T>,
    NetworkError,
>)
    ensures
        result matches Ok(t) ==> r == Ok::<Option<T>, NetworkError>(Some(t)),
        result matches Err(e) ==> (if e matches NetworkError::HttpError {
            status_code: Some(c),
            ..
        } && c == 404 {
            r == Ok::<Option<T>, NetworkError>(None)
        } else {
            r == Err::<Option<T>, NetworkError>(e)
        }),
{
    match result {
        Ok(t) => Ok(Some(t)),
        Err(e) => {
            if e.status_code() == Some(404u16) {
                Ok(None)
            } else {
                Err(e)
            }
        },
    }
}

} // verus!
