use vstd::prelude::*;

use crate::token::{EdgeToken, TokenType, TokenValidationStatus};

verus! {

/// What the middleware does with a request.
#[derive(Clone, Copy, Debug, PartialEq, Eq, Structural)]
pub enum AccessDecision {
    /// Pass the request on to the handler.
    Forward,
    /// Answer 403.
    Forbidden,
    /// Answer 401.
    Unauthorized,
}

/// What is known of the token a request carries.
#[derive(Clone, Debug)]
pub enum KnownToken {
    /// The record that the token validator settled on.
    Registered(EdgeToken),
    /// No validator runs: whether the feature source knows the token.
    Stored(bool),
}

/// `needle` occurs somewhere in `hay`.
pub open spec fn occurs_in(hay: Seq<char>, needle: Seq<char>) -> bool {
    exists|i: int| 0 <= i && i + needle.len() <= hay.len() && #[trigger] hay.subrange(i, i + needle.len()) == needle
}

/// Relies on `str::contains` with a `&str` pattern: true exactly when the
/// pattern occurs in the string.
#[verifier::external_body]
fn path_contains(path: &str, needle: &str) -> (r: bool)
    ensures
        r == occurs_in(path@, needle@),
{
    path.contains(needle)
}

/// The decision for a request on `path` by a token whose record is `t`.
pub open spec fn decision_for(t: EdgeToken, path: Seq<char>) -> AccessDecision {
    match t.status {
        TokenValidationStatus::Validated => match t.token_type {
            Some(TokenType::Frontend) => if occurs_in(path, "/api/frontend"@) || occurs_in(
                path,
                "/api/proxy"@,
            ) {
                AccessDecision::Forward
            } else {
                AccessDecision::Forbidden
            },
            Some(TokenType::Client) => if occurs_in(path, "/api/client"@) {
                AccessDecision::Forward
            } else {
                AccessDecision::Forbidden
            },
            _ => AccessDecision::Forbidden,
        },
        TokenValidationStatus::Unknown => AccessDecision::Unauthorized,
        TokenValidationStatus::Invalid => AccessDecision::Forbidden,
    }
}

/// Decides whether a request on `path` may go on: a validated frontend token
/// reaches the frontend and proxy APIs, a validated client token the client
/// API; an undecided token is unauthorised, anything else forbidden. Without
/// a validator, a token that the feature source knows goes on.
pub fn validate_token(token: &KnownToken, path: &str) -> (r: AccessDecision)
    ensures
        r == match token {
            KnownToken::Registered(t) => decision_for(*t, path@),
            KnownToken::Stored(found) => if *found {
                AccessDecision::Forward
            } else {
                AccessDecision::Forbidden
            },
        },
{
    match token {
        KnownToken::Registered(t) => match t.status {
            TokenValidationStatus::Validated => match t.token_type {
                Some(TokenType::Frontend) => {
                    if path_contains(path, "/api/frontend") || path_contains(path, "/api/proxy") {
                        AccessDecision::Forward
                    } else {
                        AccessDecision::Forbidden
                    }
                },
                Some(TokenType::Client) => {
                    if path_contains(path, "/api/client") {
                        AccessDecision::Forward
                    } else {
                        AccessDecision::Forbidden
                    }
                },
                _ => AccessDecision::Forbidden,
            },
            TokenValidationStatus::Unknown => AccessDecision::Unauthorized,
            TokenValidationStatus::Invalid => AccessDecision::Forbidden,
        },
        KnownToken::Stored(found) => {
            if *found {
                AccessDecision::Forward
            } else {
                AccessDecision::Forbidden
            }
        },
    }
}

} // verus!
