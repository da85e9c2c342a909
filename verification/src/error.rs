//! The errors that the proxy answers with.

use crate::codec::{parse, parsed_json};
use crate::json::{object, Json, JsonValue};
use crate::text::{concat, concat3, is_blank, trim, trimmed};
use vstd::prelude::*;
use vstd::string::*;

verus! {

/// What went wrong with a request.
#[derive(Debug, PartialEq)]
pub enum ProxyError {
    BadRequest(String),
    Unauthorized,
    InvalidConfig(String),
    Upstream { status: u16, message: String },
    Transport(String),
    Timeout(String),
    Internal(String),
}

/// What a [`ProxyError`] stands for.
#[verifier::ext_equal]
pub enum Failure {
    BadRequest(Seq<char>),
    Unauthorized,
    InvalidConfig(Seq<char>),
    Upstream { status: u16, message: Seq<char> },
    Transport(Seq<char>),
    Timeout(Seq<char>),
    Internal(Seq<char>),
}

impl View for ProxyError {
    type V = Failure;

    open spec fn view(&self) -> Failure {
        match *self {
            ProxyError::BadRequest(m) => Failure::BadRequest(m@),
            ProxyError::Unauthorized => Failure::Unauthorized,
            ProxyError::InvalidConfig(m) => Failure::InvalidConfig(m@),
            ProxyError::Upstream { status, message } => Failure::Upstream {
                status,
                message: message@,
            },
            ProxyError::Transport(m) => Failure::Transport(m@),
            ProxyError::Timeout(m) => Failure::Timeout(m@),
            ProxyError::Internal(m) => Failure::Internal(m@),
        }
    }
}

/// The outcome of a fallible computation, over what its values stand for.
pub open spec fn outcome<T: View>(r: Result<T, ProxyError>) -> Result<T::V, Failure> {
    match r {
        Ok(v) => Ok(v@),
        Err(e) => Err(e@),
    }
}

/// Whether `status` is an HTTP status code: three digits, the first of them not zero.
pub open spec fn is_status(status: u16) -> bool {
    100 <= status < 1000
}

/// The text of an HTTP status, such as `404 Not Found`.
pub uninterp spec fn status_text(status: u16) -> Seq<char>;

/// `http::StatusCode::from_u16` and its `Display`: the code followed by its canonical
/// reason. The conversion takes every code from 100 to 999.
#[verifier::external_body]
pub(crate) fn show_status(status: u16) -> (s: String)
    requires
        is_status(status),
    ensures
        s@ == status_text(status),
{
    http::StatusCode::from_u16(status).map(|s| s.to_string()).unwrap_or_default()
}

/// The message that an upstream error body carries.
pub open spec fn body_message(body: Json) -> Option<Seq<char>> {
    let nested = match body.get("error"@) {
        Some(error) => error.text_at("message"@),
        None => None,
    };
    if nested is Some {
        nested
    } else {
        body.text_at("message"@)
    }
}

/// The message of an upstream error: what its body carries, or the body itself, or the
/// status where the body is blank.
pub open spec fn upstream_message(status: u16, body: Seq<char>) -> Seq<char> {
    let carried = match parsed_json(body) {
        Ok(v) => body_message(v),
        Err(_) => None,
    };
    match carried {
        Some(m) => m,
        None => if trimmed(body).len() == 0 {
            "upstream returned HTTP "@ + status_text(status)
        } else {
            trimmed(body)
        },
    }
}

/// The message that an upstream error body carries.
pub fn message_in_body(body: &JsonValue) -> (m: Option<String>)
    ensures
        m.deep_view() == body_message(body@),
{
    let nested = match body.get("error") {
        Some(error) => error.text_at("message"),
        None => None,
    };
    match nested {
        Some(m) => Some(m.to_owned()),
        None => match body.text_at("message") {
            Some(m) => Some(m.to_owned()),
            None => None,
        },
    }
}

impl Failure {
    /// The status code that the proxy answers with.
    pub open spec fn status_code(self) -> u16 {
        match self {
            Failure::BadRequest(_) => 400,
            Failure::Unauthorized => 401,
            Failure::InvalidConfig(_) => 500,
            Failure::Upstream { status, .. } => status,
            Failure::Transport(_) => 502,
            Failure::Timeout(_) => 504,
            Failure::Internal(_) => 500,
        }
    }

    /// The type under which the answer names the error.
    pub open spec fn error_type(self) -> Seq<char> {
        match self {
            Failure::BadRequest(_) => "invalid_request_error"@,
            Failure::Unauthorized => "authentication_error"@,
            Failure::InvalidConfig(_) => "server_error"@,
            Failure::Upstream { .. } => "upstream_error"@,
            Failure::Transport(_) => "api_connection_error"@,
            Failure::Timeout(_) => "api_connection_error"@,
            Failure::Internal(_) => "server_error"@,
        }
    }

    /// The code under which the answer names the error.
    pub open spec fn code(self) -> Seq<char> {
        match self {
            Failure::BadRequest(_) => "bad_request"@,
            Failure::Unauthorized => "invalid_api_key"@,
            Failure::InvalidConfig(_) => "invalid_config"@,
            Failure::Upstream { .. } => "upstream_error"@,
            Failure::Transport(_) => "upstream_transport_error"@,
            Failure::Timeout(_) => "upstream_timeout"@,
            Failure::Internal(_) => "internal_error"@,
        }
    }

    /// The message of the error.
    pub open spec fn message(self) -> Seq<char> {
        match self {
            Failure::BadRequest(m) => m,
            Failure::Unauthorized => "invalid proxy API key"@,
            Failure::InvalidConfig(m) => m,
            Failure::Upstream { status, message } => "upstream returned "@ + status_text(status)
                + ": "@ + message,
            Failure::Transport(m) => "request to upstream failed: "@ + m,
            Failure::Timeout(m) => "request to upstream timed out: "@ + m,
            Failure::Internal(m) => "internal error: "@ + m,
        }
    }

    /// The body of the answer.
    pub open spec fn body(self) -> Json {
        Json::Object(
            map!["error"@ => Json::Object(
                map![
                    "message"@ => Json::Text(self.message()),
                    "type"@ => Json::Text(self.error_type()),
                    "code"@ => Json::Text(self.code()),
                ],
            )],
        )
    }

    /// Whether the status of an upstream error is an HTTP status.
    pub open spec fn has_status(self) -> bool {
        is_status(self.status_code())
    }
}

/// How loudly an error is logged when it is answered.
#[derive(Debug, Clone, Copy, PartialEq, Eq, Structural)]
pub enum Severity {
    Quiet,
    RequestError,
    ServerError,
}

impl ProxyError {
    pub fn bad_request(message: &str) -> (e: ProxyError)
        ensures
            e@ == Failure::BadRequest(message@),
    {
        ProxyError::BadRequest(message.to_owned())
    }

    pub fn invalid_config(message: &str) -> (e: ProxyError)
        ensures
            e@ == Failure::InvalidConfig(message@),
    {
        ProxyError::InvalidConfig(message.to_owned())
    }

    /// The error for an upstream answer that is not a success.
    pub fn from_upstream_body(status: u16, body: String) -> (e: ProxyError)
        requires
            is_status(status),
        ensures
            e@ == (Failure::Upstream { status, message: upstream_message(status, body@) }),
    {
        let carried = match parse(body.as_str()) {
            Ok(value) => message_in_body(&value),
            Err(_) => None,
        };
        let message = match carried {
            Some(m) => m,
            None => if is_blank(body.as_str()) {
                concat("upstream returned HTTP ", show_status(status).as_str())
            } else {
                trim(body.as_str())
            },
        };
        ProxyError::Upstream { status, message }
    }

    pub fn status_code(&self) -> (status: u16)
        ensures
            status == self@.status_code(),
    {
        match self {
            ProxyError::BadRequest(_) => 400,
            ProxyError::Unauthorized => 401,
            ProxyError::InvalidConfig(_) => 500,
            ProxyError::Upstream { status, .. } => *status,
            ProxyError::Transport(_) => 502,
            ProxyError::Timeout(_) => 504,
            ProxyError::Internal(_) => 500,
        }
    }

    pub fn error_type(&self) -> (t: &'static str)
        ensures
            t@ == self@.error_type(),
    {
        match self {
            ProxyError::BadRequest(_) => "invalid_request_error",
            ProxyError::Unauthorized => "authentication_error",
            ProxyError::InvalidConfig(_) => "server_error",
            ProxyError::Upstream { .. } => "upstream_error",
            ProxyError::Transport(_) => "api_connection_error",
            ProxyError::Timeout(_) => "api_connection_error",
            ProxyError::Internal(_) => "server_error",
        }
    }

    pub fn code(&self) -> (c: &'static str)
        ensures
            c@ == self@.code(),
    {
        match self {
            ProxyError::BadRequest(_) => "bad_request",
            ProxyError::Unauthorized => "invalid_api_key",
            ProxyError::InvalidConfig(_) => "invalid_config",
            ProxyError::Upstream { .. } => "upstream_error",
            ProxyError::Transport(_) => "upstream_transport_error",
            ProxyError::Timeout(_) => "upstream_timeout",
            ProxyError::Internal(_) => "internal_error",
        }
    }

    /// The message of the error.
    pub fn message(&self) -> (m: String)
        requires
            self@.has_status(),
        ensures
            m@ == self@.message(),
    {
        match self {
            ProxyError::BadRequest(m) => m.clone(),
            ProxyError::Unauthorized => "invalid proxy API key".to_owned(),
            ProxyError::InvalidConfig(m) => m.clone(),
            ProxyError::Upstream { status, message } => {
                let head = concat3("upstream returned ", show_status(*status).as_str(), ": ");
                concat(head.as_str(), message.as_str())
            },
            ProxyError::Transport(m) => concat("request to upstream failed: ", m.as_str()),
            ProxyError::Timeout(m) => concat("request to upstream timed out: ", m.as_str()),
            ProxyError::Internal(m) => concat("internal error: ", m.as_str()),
        }
    }

    /// The body of the answer.
    pub fn body(&self) -> (v: JsonValue)
        requires
            self@.has_status(),
        ensures
            v@ == self@.body(),
    {
        let message = JsonValue::Text(self.message());
        let error = object().with("message", message).with(
            "type",
            JsonValue::text(self.error_type()),
        ).with("code", JsonValue::text(self.code()));
        JsonValue::Object(object().with("error", JsonValue::Object(error)))
    }

    /// How loudly the error is logged when it is answered.
    pub fn severity(&self) -> (s: Severity)
        ensures
            s == (if 400 <= self@.status_code() < 500 && !(self@ is BadRequest) {
                Severity::RequestError
            } else if 500 <= self@.status_code() < 600 {
                Severity::ServerError
            } else {
                Severity::Quiet
            }),
    {
        let status = self.status_code();
        let bad_request = match self {
            ProxyError::BadRequest(_) => true,
            _ => false,
        };
        if 400 <= status && status < 500 && !bad_request {
            Severity::RequestError
        } else if 500 <= status && status < 600 {
            Severity::ServerError
        } else {
            Severity::Quiet
        }
    }
}

/// An upstream's complaint is passed on in its own words: those under `error.message`, or
/// else those under `message`, or else the whole body. A body without words is told by
/// its status.
pub proof fn law_upstream_complaints_are_passed_on(status: u16, body: Seq<char>, m: Seq<char>)
    ensures
        parsed_json(body) matches Ok(v) ==> {
            &&& (v.get("error"@) matches Some(e) && e.get("message"@) == Some(Json::Text(m)))
                ==> upstream_message(status, body) == m
            &&& !(v.get("error"@) matches Some(e) && e.get("message"@) matches Some(Json::Text(_)))
                && v.get("message"@) == Some(Json::Text(m)) ==> upstream_message(status, body) == m
        },
        parsed_json(body) is Err && trimmed(body).len() > 0 ==> upstream_message(status, body)
            == trimmed(body),
        parsed_json(body) is Err && trimmed(body).len() == 0 ==> upstream_message(status, body)
            == "upstream returned HTTP "@ + status_text(status),
{
}

/// An error is answered with its message, its type and its code. The mistakes of a client
/// are told from those of the upstream and of the proxy by the status, and the status of
/// an upstream's answer is passed on.
pub proof fn law_errors_are_told(f: Failure)
    ensures
        f.body().get("error"@) matches Some(e) && {
            &&& e.get("message"@) == Some(Json::Text(f.message()))
            &&& e.get("type"@) == Some(Json::Text(f.error_type()))
            &&& e.get("code"@) == Some(Json::Text(f.code()))
        },
        f matches Failure::BadRequest(m) ==> f.status_code() == 400 && f.message() == m
            && f.error_type() == "invalid_request_error"@ && f.code() == "bad_request"@,
        f is Unauthorized ==> f.status_code() == 401 && f.error_type() == "authentication_error"@
            && f.code() == "invalid_api_key"@ && f.message() == "invalid proxy API key"@,
        f matches Failure::InvalidConfig(m) ==> f.status_code() == 500 && f.message() == m
            && f.error_type() == "server_error"@ && f.code() == "invalid_config"@,
        f matches Failure::Upstream { status, message } ==> f.status_code() == status
            && f.message() == "upstream returned "@ + status_text(status) + ": "@ + message
            && f.error_type() == "upstream_error"@ && f.code() == "upstream_error"@,
        f matches Failure::Transport(m) ==> f.status_code() == 502 && f.message()
            == "request to upstream failed: "@ + m && f.error_type() == "api_connection_error"@
            && f.code() == "upstream_transport_error"@,
        f matches Failure::Timeout(m) ==> f.status_code() == 504 && f.message()
            == "request to upstream timed out: "@ + m && f.error_type() == "api_connection_error"@
            && f.code() == "upstream_timeout"@,
        f matches Failure::Internal(m) ==> f.status_code() == 500 && f.message()
            == "internal error: "@ + m && f.error_type() == "server_error"@ && f.code()
            == "internal_error"@,
{
    reveal_strlit("message");
    reveal_strlit("type");
    reveal_strlit("code");
    assert("message"@.len() == 7);
    assert("type"@.len() == 4);
    assert("code"@.len() == 4);
    assert("type"@[0] == 't');
    assert("code"@[0] == 'c');
}

} // verus!
