//! Which requests the HTTP API lets through.
//!
//! A request carries a bearer token; the token's claims (once their
//! signature and session were checked by the caller) name a role.  Read-only
//! routes admit any role, mutating routes need an operator or admin, and
//! account and configuration routes an admin.

use vstd::prelude::*;
use crate::control::users::Claims;
use crate::text::{starts_with_chars, str_equal};
use vstd::string::StrSliceExecFns;

verus! {

/// The verified claims of the request's token, handed to a route.
pub struct AuthUser(pub Claims);

/// The raw token of the request, handed to the logout route so that it can
/// revoke the caller's own token.
pub struct RawToken(pub String);

/// The least role a route requires.
#[derive(Debug, Clone, Copy, PartialEq, Eq, Structural)]
pub enum RequiredRole {
    Viewer,
    Operator,
    Admin,
}

/// Whether a token of `role` may use a route that requires `required`.
pub open spec fn role_satisfies(role: Seq<char>, required: RequiredRole) -> bool {
    match required {
        RequiredRole::Viewer => true,
        RequiredRole::Operator => role == "admin"@ || role == "operator"@,
        RequiredRole::Admin => role == "admin"@,
    }
}

/// Why a request was turned away: the HTTP status and the response text.
#[derive(Debug, Clone, Copy)]
pub struct AccessDenied {
    pub status: u16,
    pub message: &'static str,
}

pub open spec fn bearer_prefix() -> Seq<char> {
    seq!['B', 'e', 'a', 'r', 'e', 'r', ' ']
}

/// The token of an `Authorization: Bearer <token>` header value.
pub fn bearer_token(authorization: &str) -> (r: Option<&str>)
    ensures
        r is Some <==> (authorization@.len() >= 7 && authorization@.subrange(0, 7) == bearer_prefix()),
        r matches Some(t) ==> t@ == authorization@.subrange(7, authorization@.len() as int),
{
    let prefix: [char; 7] = ['B', 'e', 'a', 'r', 'e', 'r', ' '];
    proof {
        assert(prefix@ =~= bearer_prefix());
    }
    if !starts_with_chars(authorization, &prefix) {
        return None;
    }
    let n = authorization.unicode_len();
    Some(authorization.substring_char(7, n))
}

/// Decides a request for a route that requires `required`, given the claims
/// of its token, or `None` when the token is missing or invalid.
pub fn authorize(claims: Option<&Claims>, required: RequiredRole) -> (r: Result<(), AccessDenied>)
    ensures
        match claims {
            None => r matches Err(d) && d.status == 401 && d.message@ == "missing or invalid token"@,
            Some(c) => if role_satisfies(c.role@, required) {
                r is Ok
            } else {
                r matches Err(d) && d.status == 403 && d.message@ == (if required is Admin {
                    "admin role required"@
                } else {
                    "operator or admin role required"@
                })
            },
        },
{
    match claims {
        None => Err(AccessDenied { status: 401, message: "missing or invalid token" }),
        Some(c) => {
            let admin = str_equal(c.role.as_str(), "admin");
            let operator = str_equal(c.role.as_str(), "operator");
            match required {
                RequiredRole::Viewer => Ok(()),
                RequiredRole::Operator => if admin || operator {
                    Ok(())
                } else {
                    Err(AccessDenied { status: 403, message: "operator or admin role required" })
                },
                RequiredRole::Admin => if admin {
                    Ok(())
                } else {
                    Err(AccessDenied { status: 403, message: "admin role required" })
                },
            }
        },
    }
}

/// The gates are nested: whatever passes the admin gate passes the operator
/// gate, and whatever passes that passes the viewer gate.
pub proof fn lemma_gates_are_nested(role: Seq<char>)
    ensures
        role_satisfies(role, RequiredRole::Admin) ==> role_satisfies(role, RequiredRole::Operator),
        role_satisfies(role, RequiredRole::Operator) ==> role_satisfies(role, RequiredRole::Viewer),
{
}

} // verus!
