//! The rate-limit key of a request, and the bodies of the two responses that
//! turn a request away.

use crate::json::{decimal, lemma_escaped_plain, push_decimal, push_quoted, quoted};
use crate::text::{strip_prefix, trimmed};
use vstd::prelude::*;
use vstd::string::StringExecFns;

verus! {

/// What an [`ErrorMessage`] holds, as mathematical values.
pub struct ErrorMessageView {
    pub code: nat,
    pub msg: Seq<char>,
    pub wait_time_ms: nat,
}

/// The body of a response that turns a request away.
#[derive(Debug, PartialEq)]
pub struct ErrorMessage {
    pub code: u64,
    pub msg: String,
    pub wait_time_ms: u128,
}

impl View for ErrorMessage {
    type V = ErrorMessageView;

    open spec fn view(&self) -> ErrorMessageView {
        ErrorMessageView {
            code: self.code as nat,
            msg: self.msg@,
            wait_time_ms: self.wait_time_ms as nat,
        }
    }
}

/// The message of a request without a usable credential.
pub open spec fn unauthenticated_message() -> ErrorMessageView {
    ErrorMessageView { code: 401, msg: "Invalid authorization token"@, wait_time_ms: 0 }
}

/// The message of a request that came too early by `wait_time_ms` milliseconds.
pub open spec fn rate_limited_message(wait_time_ms: nat) -> ErrorMessageView {
    ErrorMessageView { code: 429, msg: "too many retries"@, wait_time_ms }
}

/// The JSON object that carries `m`: `code` always, `msg` unless it is empty,
/// `wait_time_ms` unless it is zero, in this order and without white space.
pub open spec fn json_body(m: ErrorMessageView) -> Seq<char> {
    "{\"code\":"@ + decimal(m.code) + (if m.msg.len() > 0 {
        ",\"msg\":"@ + quoted(m.msg)
    } else {
        Seq::empty()
    }) + (if m.wait_time_ms > 0 {
        ",\"wait_time_ms\":"@ + decimal(m.wait_time_ms)
    } else {
        Seq::empty()
    }) + "}"@
}

/// Whether `t` is the default value of its type, as `==` tells it.
pub fn is_default<T: Default + PartialEq>(t: &T) -> (r: bool)
    ensures
        exists|d: T| #[trigger] call_ensures(T::default, (), d) && call_ensures(T::eq, (t, &d), r),
{
    let d = T::default();
    *t == d
}

impl Default for ErrorMessage {
    fn default() -> (r: Self)
        ensures
            r@ == (ErrorMessageView { code: 0, msg: Seq::empty(), wait_time_ms: 0 }),
    {
        ErrorMessage { code: 0, msg: String::new(), wait_time_ms: 0 }
    }
}

impl ErrorMessage {
    /// The message for a request without a usable credential.
    pub fn unauthenticated() -> (r: Self)
        ensures
            r@ == unauthenticated_message(),
    {
        ErrorMessage {
            code: 401,
            msg: String::from_str("Invalid authorization token"),
            wait_time_ms: 0,
        }
    }

    /// The message for a request that has to wait `wait_time_ms` milliseconds.
    pub fn rate_limited(wait_time_ms: u128) -> (r: Self)
        ensures
            r@ == rate_limited_message(wait_time_ms as nat),
    {
        ErrorMessage { code: 429, msg: String::from_str("too many retries"), wait_time_ms }
    }

    /// The message as the JSON text of a response body.
    pub fn to_json(&self) -> (r: String)
        ensures
            r@ == json_body(self@),
    {
        let mut out = String::from_str("{\"code\":");
        push_decimal(&mut out, self.code as u128);
        if !is_default(&self.msg) {
            out.append(",\"msg\":");
            push_quoted(&mut out, self.msg.as_str());
        }
        if !is_default(&self.wait_time_ms) {
            out.append(",\"wait_time_ms\":");
            push_decimal(&mut out, self.wait_time_ms);
        }
        out.append("}");
        proof {
            assert(self.msg@.len() == 0 <==> self.msg@ =~= Seq::<char>::empty());
            assert(out@ =~= json_body(self@));
        }
        out
    }
}

/// The media type of a response body.
#[derive(Clone, Copy, Debug, PartialEq, Eq, Structural)]
pub enum ContentType {
    PlainText,
    Json,
}

impl ContentType {
    /// `application/json`.
    pub fn json() -> (r: Self)
        ensures
            r == ContentType::Json,
    {
        ContentType::Json
    }

    /// The value of the `Content-Type` header.
    pub fn header_value(&self) -> (r: &'static str)
        ensures
            r@ == match *self {
                ContentType::Json => "application/json"@,
                ContentType::PlainText => "text/plain; charset=utf-8"@,
            },
    {
        match self {
            ContentType::Json => "application/json",
            ContentType::PlainText => "text/plain; charset=utf-8",
        }
    }
}

/// What an [`ErrorResponse`] holds, as mathematical values.
pub struct ErrorResponseView {
    pub status_code: nat,
    pub content_type: ContentType,
    pub body: ErrorMessageView,
}

/// A response that ends a request before its handler runs.
#[derive(Debug, PartialEq)]
pub struct ErrorResponse {
    pub body: ErrorMessage,
    pub status_code: u16,
    pub content_type: ContentType,
}

impl View for ErrorResponse {
    type V = ErrorResponseView;

    open spec fn view(&self) -> ErrorResponseView {
        ErrorResponseView {
            status_code: self.status_code as nat,
            content_type: self.content_type,
            body: self.body@,
        }
    }
}

/// The response to a request without a usable credential: status 401 with
/// the JSON body of [`unauthenticated_message`].
pub open spec fn unauthenticated_response() -> ErrorResponseView {
    ErrorResponseView {
        status_code: 401,
        content_type: ContentType::Json,
        body: unauthenticated_message(),
    }
}

/// The response to a request that came too early: status 429 with the JSON
/// body of [`rate_limited_message`].
pub open spec fn rate_limited_response(wait_time_ms: nat) -> ErrorResponseView {
    ErrorResponseView {
        status_code: 429,
        content_type: ContentType::Json,
        body: rate_limited_message(wait_time_ms),
    }
}

/// The credential that an `Authorization` cookie carries: what follows the
/// prefix `"Bearer "`, without the white space around it. There is none
/// where the cookie is missing or does not start with that prefix.
pub open spec fn credential_of(cookie: Option<Seq<char>>) -> Option<Seq<char>> {
    match cookie {
        Some(value) => if "Bearer "@.is_prefix_of(value) {
            Some(trimmed(value.skip("Bearer "@.len() as int)))
        } else {
            None
        },
        None => None,
    }
}

/// The view of an optional string slice.
pub open spec fn cookie_view(cookie: Option<&str>) -> Option<Seq<char>> {
    match cookie {
        Some(value) => Some(value@),
        None => None,
    }
}

/// The body of the response to a request without a usable credential is
/// this text, letter for letter.
pub proof fn lemma_unauthenticated_body()
    ensures
        json_body(unauthenticated_message())
            == "{\"code\":401,\"msg\":\"Invalid authorization token\"}"@,
{
    reveal_strlit("{\"code\":");
    reveal_strlit(",\"msg\":");
    reveal_strlit("}");
    reveal_strlit("Invalid authorization token");
    reveal_strlit("{\"code\":401,\"msg\":\"Invalid authorization token\"}");
    let msg = "Invalid authorization token"@;
    lemma_escaped_plain(msg);
    assert(decimal(4) =~= seq!['4']);
    assert(decimal(40) =~= seq!['4', '0']);
    assert(decimal(401) =~= seq!['4', '0', '1']);
    assert(json_body(unauthenticated_message())
        =~= "{\"code\":401,\"msg\":\"Invalid authorization token\"}"@);
}

/// The body of the response to a request that came too early: with the
/// time to wait where it is not zero, and without that field where it is.
pub proof fn law_rate_limited_body(wait_time_ms: nat)
    ensures
        json_body(rate_limited_message(wait_time_ms)) == if wait_time_ms > 0 {
            "{\"code\":429,\"msg\":\"too many retries\",\"wait_time_ms\":"@ + decimal(
                wait_time_ms,
            ) + "}"@
        } else {
            "{\"code\":429,\"msg\":\"too many retries\"}"@
        },
{
    reveal_strlit("{\"code\":");
    reveal_strlit(",\"msg\":");
    reveal_strlit(",\"wait_time_ms\":");
    reveal_strlit("}");
    reveal_strlit("too many retries");
    reveal_strlit("{\"code\":429,\"msg\":\"too many retries\",\"wait_time_ms\":");
    reveal_strlit("{\"code\":429,\"msg\":\"too many retries\"}");
    let msg = "too many retries"@;
    lemma_escaped_plain(msg);
    assert(decimal(4) =~= seq!['4']);
    assert(decimal(42) =~= seq!['4', '2']);
    assert(decimal(429) =~= seq!['4', '2', '9']);
    let head = "{\"code\":"@ + decimal(429) + (",\"msg\":"@ + quoted(msg));
    if wait_time_ms > 0 {
        assert(head =~= "{\"code\":429,\"msg\":\"too many retries\",\"wait_time_ms\":"@.take(
            head.len() as int,
        ));
        assert(json_body(rate_limited_message(wait_time_ms))
            =~= "{\"code\":429,\"msg\":\"too many retries\",\"wait_time_ms\":"@ + decimal(
            wait_time_ms,
        ) + "}"@);
    } else {
        assert(json_body(rate_limited_message(wait_time_ms))
            =~= "{\"code\":429,\"msg\":\"too many retries\"}"@);
    }
}

/// A request whose `Authorization` cookie is missing, or does not start
/// with `"Bearer "`, has no credential, and is answered with status 401 and
/// this body.
pub proof fn law_unauthenticated(cookie: Option<Seq<char>>)
    requires
        cookie matches Some(value) ==> !"Bearer "@.is_prefix_of(value),
    ensures
        credential_of(cookie) is None,
        unauthenticated_response().status_code == 401,
        json_body(unauthenticated_response().body)
            == "{\"code\":401,\"msg\":\"Invalid authorization token\"}"@,
{
    lemma_unauthenticated_body();
}

/// Derives the rate-limit key of a request from its route and the bearer
/// token in its `Authorization` cookie, so that each pair of route and token
/// is limited on its own.
#[derive(Clone, Copy, Debug)]
pub struct PerPathBearerTokenKeyExtractor;

impl PerPathBearerTokenKeyExtractor {
    /// The name of the cookie that carries the credential.
    pub fn cookie_name(&self) -> (r: &'static str)
        ensures
            r@ == "Authorization"@,
    {
        "Authorization"
    }

    /// The key `(route, credential)` of a request, given the value of its
    /// `Authorization` cookie, if it has one. The request is turned away
    /// where the cookie is missing or does not start with `"Bearer "`.
    pub fn extract(&self, cookie: Option<&str>, route: &str) -> (r: Result<
        (String, String),
        ErrorResponse,
    >)
        ensures
            match credential_of(cookie_view(cookie)) {
                Some(credential) => r matches Ok(key) && key.0@ == route@ && key.1@ == credential,
                None => r matches Err(e) && e@ == unauthenticated_response(),
            },
    {
        let token = match cookie {
            Some(value) => strip_prefix(value, "Bearer "),
            None => None,
        };
        match token {
            Some(rest) => {
                proof {
                    let value = cookie.unwrap()@;
                    assert(value.skip("Bearer "@.len() as int) =~= rest@);
                    assert("Bearer "@.is_prefix_of(value));
                }
                Ok((route.to_owned(), rest.trim().to_owned()))
            },
            None => Err(
                ErrorResponse {
                    body: ErrorMessage::unauthenticated(),
                    status_code: 401,
                    content_type: ContentType::json(),
                },
            ),
        }
    }

    /// The response to a request that has to wait `wait_time_ms`
    /// milliseconds for its next token.
    pub fn exceed_rate_limit_response(&self, wait_time_ms: u128) -> (r: ErrorResponse)
        ensures
            r@ == rate_limited_response(wait_time_ms as nat),
    {
        ErrorResponse {
            body: ErrorMessage::rate_limited(wait_time_ms),
            status_code: 429,
            content_type: ContentType::json(),
        }
    }
}

} // verus!
