//! The authorization gate: every request is judged here, before any
//! storage or crypto work. One of two policies applies: a signed bearer
//! token whose claims supply the namespace, or a static API key compared
//! in constant time with the namespace supplied by the caller.

use vstd::prelude::*;

use crate::jwt::{generate_token, jwt_claims_of, jwt_token_of, validate_token, Claims,
    TOKEN_LIFETIME};
use vstd::string::StrSliceExecFns;

verus! {

/// Why authorization refused a request.
#[derive(Clone, Copy, Debug, PartialEq, Eq, Structural)]
pub enum AuthError {
    /// The credential is missing, malformed, forged or expired.
    Unauthorized,
    /// The request itself is malformed: an empty field, or a namespace
    /// with characters outside the allowed class.
    ValidationError,
}

/// Whether `c` may appear in a namespace: ASCII alphanumeric or hyphen,
/// so a namespace can never act as an injection vector into storage
/// paths or identifiers.
pub open spec fn is_namespace_char(c: char) -> bool {
    ||| (48 <= c as u32 && c as u32 <= 57)
    ||| (65 <= c as u32 && c as u32 <= 90)
    ||| (97 <= c as u32 && c as u32 <= 122)
    ||| c == '-'
}

/// A well-formed namespace: nonempty, all characters allowed.
pub open spec fn spec_namespace_ok(s: Seq<char>) -> bool {
    s.len() > 0 && (forall|i: int| 0 <= i < s.len() ==> is_namespace_char(#[trigger] s[i]))
}

/// Judge a namespace against the allowed character class.
pub fn namespace_valid(namespace: &str) -> (r: bool)
    ensures
        r == spec_namespace_ok(namespace@),
{
    let n = namespace.unicode_len();
    if n == 0 {
        return false;
    }
    for i in 0..n
        invariant
            n == namespace@.len(),
            forall|j: int| 0 <= j < i ==> is_namespace_char(#[trigger] namespace@[j]),
    {
        let c = namespace.get_char(i);
        let u = c as u32;
        let ok = (48 <= u && u <= 57) || (65 <= u && u <= 90) || (97 <= u && u <= 122) || c
            == '-';
        if !ok {
            return false;
        }
    }
    true
}

/// The token carried by an `Authorization: Bearer <token>` header
/// value, if the value has that shape.
pub open spec fn spec_bearer_token(h: Seq<char>) -> Option<Seq<char>> {
    if h.len() >= 7 && h.subrange(0, 7) == "Bearer "@ {
        Some(h.subrange(7, h.len() as int))
    } else {
        None
    }
}

/// Strip the `Bearer ` scheme off a header value.
pub fn bearer_token(header: &str) -> (r: Option<String>)
    ensures
        r is Some <==> spec_bearer_token(header@) is Some,
        r is Some ==> spec_bearer_token(header@) == Some(r->Some_0@),
{
    let n = header.unicode_len();
    proof {
        reveal_strlit("Bearer ");
    }
    if n < 7 {
        return None;
    }
    if header.get_char(0) != 'B' || header.get_char(1) != 'e' || header.get_char(2) != 'a'
        || header.get_char(3) != 'r' || header.get_char(4) != 'e' || header.get_char(5) != 'r'
        || header.get_char(6) != ' ' {
        proof {
            assert("Bearer "@[0] == 'B' && "Bearer "@[1] == 'e' && "Bearer "@[2] == 'a'
                && "Bearer "@[3] == 'r' && "Bearer "@[4] == 'e' && "Bearer "@[5] == 'r'
                && "Bearer "@[6] == ' ');
            let sub = header@.subrange(0, 7);
            if sub == "Bearer "@ {
                assert(sub[0] == header@[0] && sub[1] == header@[1] && sub[2] == header@[2]
                    && sub[3] == header@[3] && sub[4] == header@[4] && sub[5] == header@[5]
                    && sub[6] == header@[6]);
                assert(false);
            }
        }
        return None;
    }
    let tail = header.substring_char(7, n);
    proof {
        assert(header@.subrange(0, 7) =~= "Bearer "@);
    }
    Some(tail.to_owned())
}

/// What the bearer policy decides for a header under a secret at time
/// `now`: the claims of a correctly signed, unexpired token carried in
/// a well-formed header, or nothing.
pub open spec fn spec_authorize(
    secret: Seq<char>,
    header: Option<Seq<char>>,
    now: u64,
) -> Option<(Seq<char>, Seq<char>, u64)> {
    match header {
        Some(h) => match spec_bearer_token(h) {
            Some(tok) => match jwt_claims_of(secret, tok) {
                Some(c) => if c.2 > now {
                    Some(c)
                } else {
                    None
                },
                None => None,
            },
            None => None,
        },
        None => None,
    }
}

/// The bearer policy: extract the credential from the header, check its
/// signature and expiry, and hand back the claims. A missing header, a
/// value without the scheme, a forged signature or a stale expiry are
/// all refused, before any storage or crypto work can happen.
pub fn authorize_bearer(header: Option<&String>, secret: &str, now: u64) -> (r: Result<
    Claims,
    AuthError,
>)
    ensures
        match r {
            Ok(c) => spec_authorize(
                secret@,
                match header {
                    Some(h) => Some(h@),
                    None => None,
                },
                now,
            ) == Some((c.sub@, c.namespace@, c.exp)),
            Err(e) => e == AuthError::Unauthorized && spec_authorize(
                secret@,
                match header {
                    Some(h) => Some(h@),
                    None => None,
                },
                now,
            ) is None,
        },
{
    let h = match header {
        Some(h) => h,
        None => {
            return Err(AuthError::Unauthorized);
        },
    };
    let token = match bearer_token(h.as_str()) {
        Some(t) => t,
        None => {
            return Err(AuthError::Unauthorized);
        },
    };
    validate_token(token.as_str(), secret, now)
}

/// Relies on `ring::constant_time::verify_slices_are_equal`: it returns
/// `Ok` exactly when the two byte strings are equal, in time independent
/// of where they differ.
#[verifier::external_body]
fn ct_bytes_equal(a: &[u8], b: &[u8]) -> (r: bool)
    ensures
        r == (a@ == b@),
{
    ring::constant_time::verify_slices_are_equal(a, b).is_ok()
}

/// The static-key policy: compare the caller-supplied header value
/// against the configured key in constant time. A missing header is
/// refused.
pub fn check_api_key(provided: Option<&String>, expected: &String) -> (r: bool)
    ensures
        r == match provided {
            Some(p) => p@ == expected@,
            None => false,
        },
{
    match provided {
        Some(p) => {
            let eq = ct_bytes_equal(p.as_str().as_bytes(), expected.as_str().as_bytes());
            proof {
                vstd::utf8::encode_utf8_decode_utf8(p@);
                vstd::utf8::encode_utf8_decode_utf8(expected@);
            }
            eq
        },
        None => false,
    }
}

/// Token issuance: judge the request fields, then mint a credential
/// expiring one hour past `now`. An empty user id or an ill-formed
/// namespace is refused before anything is signed.
pub fn create_token(user_id: &String, namespace: &String, secret: &str, now: u64) -> (r: Result<
    String,
    AuthError,
>)
    requires
        now <= u64::MAX - TOKEN_LIFETIME,
    ensures
        match r {
            Ok(t) => {
                &&& user_id@.len() > 0
                &&& spec_namespace_ok(namespace@)
                &&& t@ == jwt_token_of(secret@, user_id@, namespace@, (now + TOKEN_LIFETIME) as u64)
                &&& jwt_claims_of(secret@, t@) == Some(
                    (user_id@, namespace@, (now + TOKEN_LIFETIME) as u64),
                )
            },
            Err(e) => {
                &&& e == AuthError::ValidationError
                &&& (user_id@.len() == 0 || !spec_namespace_ok(namespace@))
            },
        },
{
    if user_id.as_str().is_empty() {
        return Err(AuthError::ValidationError);
    }
    if !namespace_valid(namespace.as_str()) {
        return Err(AuthError::ValidationError);
    }
    Ok(generate_token(user_id, namespace, secret, now))
}

} // verus!
