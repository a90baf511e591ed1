//! The session codec: issues and verifies signed, time-bounded session
//! tokens. The token is the sole carrier of authorization state; there is
//! no server-side session record and no revocation. Signing and signature
//! checking are done by the `jsonwebtoken` crate behind two trusted
//! wrappers; expiry and claim shape are checked by verified code.
use vstd::prelude::*;
use vstd::string::StringExecFns;
use jsonwebtoken::DecodingKey;
use jsonwebtoken::EncodingKey;
use jsonwebtoken::Header;
use jsonwebtoken::Validation;
use jsonwebtoken::decode;
use jsonwebtoken::encode;
use serde_json::Value;
use crate::strutil::str_eq;
use crate::types::AccessLevel;
use crate::types::ApiError;
use crate::types::is_unauthorized;
use crate::types::Principal;
use crate::types::UserRole;

verus! {

/// The signed token that `jsonwebtoken::encode` produces for these claims
/// under this secret. Deterministic: HS256 over a canonical claim object.
pub uninterp spec fn token_of(
    sub: u64,
    role: Seq<char>,
    client_id: Option<u64>,
    access_level: Seq<char>,
    exp: i64,
    secret: Seq<char>,
) -> Seq<char>;

/// The claims that `jsonwebtoken::decode` recovers from a token under a
/// secret: `None` when the signature or the structure is bad. Deterministic
/// in the token and the secret.
pub uninterp spec fn token_claims_of(token: Seq<char>, secret: Seq<char>) -> Option<
    (u64, Seq<char>, Option<u64>, Seq<char>, i64),
>;

/// Relies on `jsonwebtoken::encode` with HS256: signs the claim object and
/// returns the compact token. Per its source, HS256 signing of a plain
/// claim object never fails. The token decodes back to the same claims
/// under the same secret.
#[verifier::external_body]
fn encode_claims(
    sub: u64,
    role: &str,
    client_id: Option<u64>,
    access_level: &str,
    exp: i64,
    secret: &str,
) -> (r: String)
    ensures
        r@ == token_of(sub, role@, client_id, access_level@, exp, secret@),
        token_claims_of(r@, secret@) == Some(
            (sub, role@, client_id, access_level@, exp),
        ),
{
    let client = client_id.map(Value::from).unwrap_or(Value::Null);
    let pairs = [
        ("sub", Value::from(sub)),
        ("role", Value::from(role)),
        ("client_id", client),
        ("access_level", Value::from(access_level)),
        ("exp", Value::from(exp)),
    ];
    let claims = pairs.into_iter().map(|(k, v)| (k.to_string(), v)).collect();
    let key = EncodingKey::from_secret(secret.as_bytes());
    encode(&Header::default(), &Value::Object(claims), &key).unwrap()
}

/// Relies on `jsonwebtoken::decode` with HS256: checks the signature and
/// the claim structure and returns the embedded claims; `None` on any bad
/// signature, unknown algorithm or malformed claim. Expiry is *not*
/// checked here; verified code checks it against the caller's clock.
#[verifier::external_body]
fn decode_claims(token: &str, secret: &str) -> (r: Option<(u64, String, Option<u64>, String, i64)>)
    ensures
        match r {
            Some(c) => token_claims_of(token@, secret@) == Some((c.0, c.1@, c.2, c.3@, c.4)),
            None => token_claims_of(token@, secret@) is None,
        },
{
    let mut validation = Validation::default();
    validation.validate_exp = false;
    validation.required_spec_claims.clear();
    let key = DecodingKey::from_secret(secret.as_bytes());
    let c = decode::<Value>(token, &key, &validation).ok()?.claims;
    let client_id = match c.get("client_id") {
        Some(v) if !v.is_null() => Some(v.as_u64()?),
        _ => None,
    };
    let sub = c.get("sub")?.as_u64()?;
    let role = c.get("role")?.as_str()?.to_string();
    let access = c.get("access_level")?.as_str()?.to_string();
    Some((sub, role, client_id, access, c.get("exp")?.as_i64()?))
}

/// The role a wire name denotes, if any.
pub open spec fn spec_role_from(s: Seq<char>) -> Option<UserRole> {
    if s == "root"@ {
        Some(UserRole::Root)
    } else if s == "company_admin"@ {
        Some(UserRole::CompanyAdmin)
    } else if s == "user"@ {
        Some(UserRole::User)
    } else {
        None
    }
}

/// Parse a role wire name.
pub fn role_from_str(s: &str) -> (r: Option<UserRole>)
    ensures
        r == spec_role_from(s@),
{
    if str_eq(s, "root") {
        Some(UserRole::Root)
    } else if str_eq(s, "company_admin") {
        Some(UserRole::CompanyAdmin)
    } else if str_eq(s, "user") {
        Some(UserRole::User)
    } else {
        None
    }
}

/// The access level a wire name denotes: anything but `read_write` is
/// read-only.
pub open spec fn spec_access_from(s: Seq<char>) -> AccessLevel {
    if s == "read_write"@ {
        AccessLevel::ReadWrite
    } else {
        AccessLevel::ReadOnly
    }
}

/// Parse an access-level wire name.
pub fn access_from_str(s: &str) -> (r: AccessLevel)
    ensures
        r == spec_access_from(s@),
{
    if str_eq(s, "read_write") {
        AccessLevel::ReadWrite
    } else {
        AccessLevel::ReadOnly
    }
}

/// How long an issued token stays valid, in seconds: 24 hours.
pub const TOKEN_TTL_SECONDS: i64 = 86400;

/// What verification decides, given the claims the codec recovered (or
/// failed to recover) and the current time: the resolved principal, or the
/// rejection message. A token whose signature or structure is bad, whose
/// role is unknown, or whose expiry is not in the future is rejected.
pub open spec fn spec_verify_token(
    claims: Option<(u64, Seq<char>, Option<u64>, Seq<char>, i64)>,
    now: i64,
) -> Result<Principal, Seq<char>> {
    match claims {
        None => Err("Token invalido"@),
        Some(c) => {
            match spec_role_from(c.1) {
                None => Err("Token invalido"@),
                Some(role) => {
                    if c.4 <= now {
                        Err("Token invalido"@)
                    } else {
                        Ok(
                            (Principal {
                                id: c.0,
                                role,
                                client_id: c.2,
                                access_level: spec_access_from(c.3),
                            }),
                        )
                    }
                },
            }
        },
    }
}

/// Issue a session token for a principal: the claims carry identity, role,
/// tenant binding and access level, and expire 24 hours from `now`.
pub fn issue_token(p: &Principal, secret: &str, now: i64) -> (r: String)
    requires
        now <= i64::MAX - TOKEN_TTL_SECONDS,
    ensures
        r@ == token_of(
            p.id,
            p.role.spec_str(),
            p.client_id,
            p.access_level.spec_str(),
            (now + TOKEN_TTL_SECONDS) as i64,
            secret@,
        ),
        token_claims_of(r@, secret@) == Some(
            (
                p.id,
                p.role.spec_str(),
                p.client_id,
                p.access_level.spec_str(),
                (now + TOKEN_TTL_SECONDS) as i64,
            ),
        ),
{
    encode_claims(p.id, p.role.as_str(), p.client_id, p.access_level.as_str(), now + TOKEN_TTL_SECONDS, secret)
}

/// Verify a session token: signature and structure per the codec, then
/// expiry strictly in the future, then the claim shape. Returns the
/// resolved principal, or `Unauthorized`.
pub fn verify_token(token: &str, secret: &str, now: i64) -> (r: Result<Principal, ApiError>)
    ensures
        match r {
            Ok(p) => spec_verify_token(token_claims_of(token@, secret@), now) == Ok::<
                Principal,
                Seq<char>,
            >(p),
            Err(e) => {
                &&& spec_verify_token(token_claims_of(token@, secret@), now) matches Err(m)
                &&& is_unauthorized(e, m)
            },
        },
{
    match decode_claims(token, secret) {
        None => Err(ApiError::Unauthorized(String::from_str("Token invalido"))),
        Some((sub, role_name, client_id, access_name, exp)) => {
            match role_from_str(role_name.as_str()) {
                None => Err(ApiError::Unauthorized(String::from_str("Token invalido"))),
                Some(role) => {
                    if exp <= now {
                        Err(ApiError::Unauthorized(String::from_str("Token invalido")))
                    } else {
                        Ok(
                            Principal {
                                id: sub,
                                role,
                                client_id,
                                access_level: access_from_str(access_name.as_str()),
                            },
                        )
                    }
                },
            }
        },
    }
}

/// A token whose embedded expiry is not in the future is always rejected,
/// whatever else its claims hold.
pub proof fn lemma_expired_token_rejected(
    claims: Option<(u64, Seq<char>, Option<u64>, Seq<char>, i64)>,
    now: i64,
)
    requires
        claims matches Some(c) && c.4 <= now,
    ensures
        spec_verify_token(claims, now) is Err,
{
}

/// A token the codec cannot authenticate — bad signature or malformed
/// structure — is always rejected.
pub proof fn lemma_unauthentic_token_rejected(now: i64)
    ensures
        spec_verify_token(None, now) is Err,
{
}

/// Round trip: a token issued for a principal verifies back to that same
/// principal at any time before its expiry.
pub proof fn lemma_issued_token_verifies(p: Principal, exp: i64, now: i64)
    requires
        now < exp,
    ensures
        spec_verify_token(
            Some((p.id, p.role.spec_str(), p.client_id, p.access_level.spec_str(), exp)),
            now,
        ) == Ok::<Principal, Seq<char>>(p),
{
    reveal_strlit("root");
    reveal_strlit("company_admin");
    reveal_strlit("user");
    reveal_strlit("read_write");
    reveal_strlit("read_only");
    assert(spec_role_from(p.role.spec_str()) == Some(p.role)) by {
        assert("root"@.len() == 4);
        assert("company_admin"@.len() == 13);
        assert("user"@.len() == 4);
        assert("root"@[0] == 'r' && "user"@[0] == 'u');
    }
    assert(spec_access_from(p.access_level.spec_str()) == p.access_level) by {
        assert("read_write"@.len() == 10);
        assert("read_only"@.len() == 9);
    }
}

} // verus!
