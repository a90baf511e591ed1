//! Authentication: credential checking against stored hashes and the login
//! flow. Password hashing and verification are done by the `argon2` crate
//! behind two trusted wrappers; the decision logic around them is verified.
use vstd::prelude::*;
use vstd::string::StringExecFns;
use argon2::Argon2;
use argon2::PasswordHash;
use argon2::PasswordHasher;
use argon2::PasswordVerifier;
use argon2::password_hash::SaltString;
use argon2::password_hash::rand_core::OsRng;
use crate::store::Store;
use crate::store::UserAccount;
use crate::token::TOKEN_TTL_SECONDS;
use crate::token::issue_token;
use crate::token::token_of;
use crate::types::AccountStatus;
use crate::types::ApiError;
use crate::types::Principal;
use crate::types::UserResponse;
use crate::types::is_auth_error;
use crate::users::spec_user_response;
use crate::users::user_response_of;

verus! {

/// Whether this password verifies against this PHC-format hash string.
/// Deterministic in the two arguments.
pub uninterp spec fn password_matches(password: Seq<char>, hash: Seq<char>) -> bool;

/// Whether this string parses as a PHC-format password hash. Deterministic
/// in the string.
pub uninterp spec fn phc_parses(hash: Seq<char>) -> bool;

/// Relies on argon2's `PasswordHash::new` (parsing the stored PHC hash
/// string) and `Argon2::verify_password` (the deterministic check of the
/// password against it). `Err` exactly when the stored hash does not parse.
#[verifier::external_body]
pub fn check_password(password: &str, hash: &str) -> (r: Result<bool, ()>)
    ensures
        r is Ok <==> phc_parses(hash@),
        r matches Ok(b) ==> b == password_matches(password@, hash@),
{
    match PasswordHash::new(hash) {
        Ok(parsed) => Ok(
            Argon2::default().verify_password(password.as_bytes(), &parsed).is_ok(),
        ),
        Err(_) => Err(()),
    }
}

/// Relies on argon2's `Argon2::hash_password` with a salt drawn fresh from
/// the OS RNG: the returned PHC hash string parses back and verifies
/// against the hashed password. The result is salted, so nothing more is
/// promised of it.
#[verifier::external_body]
pub fn hash_password(password: &str) -> (r: Option<String>)
    ensures
        r matches Some(h) ==> phc_parses(h@) && password_matches(password@, h@),
{
    let salt = SaltString::generate(&mut OsRng);
    Argon2::default().hash_password(password.as_bytes(), &salt).ok().map(|h| h.to_string())
}

/// What login decides for a found account: reject it for being disabled,
/// for an unreadable stored hash, or for a credential mismatch — or accept
/// it. The disabled check comes first: a disabled account is rejected
/// whatever credential is presented.
#[derive(Debug, Clone, Copy, PartialEq, Eq, Structural)]
pub enum LoginDecision {
    RejectDisabled,
    RejectBadHash,
    RejectBadCredentials,
    Accept,
}

/// The login decision for an account and a presented password.
pub open spec fn spec_login_decision(u: UserAccount, password: Seq<char>) -> LoginDecision {
    if u.status == AccountStatus::Disabled {
        LoginDecision::RejectDisabled
    } else if !phc_parses(u.password_hash@) {
        LoginDecision::RejectBadHash
    } else if !password_matches(password, u.password_hash@) {
        LoginDecision::RejectBadCredentials
    } else {
        LoginDecision::Accept
    }
}

/// A successful login: the session token and the account profile.
#[derive(Debug)]
pub struct LoginResponse {
    pub token: String,
    pub user: UserResponse,
}

/// Does `r` report the login decision for account `u` faithfully? On
/// acceptance the token carries the account's identity, role, tenant and
/// access level, expiring 24 hours from `now`.
pub open spec fn spec_login_result(
    u: UserAccount,
    password: Seq<char>,
    secret: Seq<char>,
    now: i64,
    r: Result<LoginResponse, ApiError>,
) -> bool {
    match spec_login_decision(u, password) {
        LoginDecision::RejectDisabled => r matches Err(e) && is_auth_error(
            e,
            "Usuario deshabilitado por administracion."@,
        ),
        LoginDecision::RejectBadHash => r matches Err(ApiError::InternalError),
        LoginDecision::RejectBadCredentials => r matches Err(e) && is_auth_error(
            e,
            "Credenciales invalidas"@,
        ),
        LoginDecision::Accept => r matches Ok(resp) && resp.token@ == token_of(
            u.id,
            u.role.spec_str(),
            u.client_id,
            u.access_level.spec_str(),
            (now + TOKEN_TTL_SECONDS) as i64,
            secret,
        ) && resp.user == spec_user_response(u),
    }
}

/// Log a principal in by email and password. An unknown email and a
/// credential mismatch are rejected with one and the same generic message;
/// a disabled account is rejected with a distinct message; both are the
/// same kind of authentication error.
pub fn login(store: &Store, email: &str, password: &str, secret: &str, now: i64) -> (r: Result<
    LoginResponse,
    ApiError,
>)
    requires
        store.wf(),
        now <= i64::MAX - TOKEN_TTL_SECONDS,
    ensures
        !store.spec_has_email(email@) ==> (r matches Err(e) && is_auth_error(
            e,
            "Credenciales invalidas"@,
        )),
        forall|i: int|
            0 <= i < store.users@.len() && (#[trigger] store.users@[i]).email@ == email@
                ==> spec_login_result(store.users@[i], password@, secret@, now, r),
{
    match store.find_user_by_email(email) {
        None => Err(ApiError::AuthError(String::from_str("Credenciales invalidas"))),
        Some(i) => {
            proof {
                assert forall|j: int|
                    0 <= j < store.users@.len() && (#[trigger] store.users@[j]).email@ == email@
                        implies j == i as int by {
                    if j != i as int {
                        assert(store.users@[j].email@ != store.users@[i as int].email@);
                    }
                }
            }
            let u = &store.users[i];
            if matches!(u.status, AccountStatus::Disabled) {
                return Err(
                    ApiError::AuthError(
                        String::from_str("Usuario deshabilitado por administracion."),
                    ),
                );
            }
            match check_password(password, u.password_hash.as_str()) {
                Err(()) => Err(ApiError::InternalError),
                Ok(false) => Err(ApiError::AuthError(String::from_str("Credenciales invalidas"))),
                Ok(true) => {
                    let principal = Principal {
                        id: u.id,
                        role: u.role,
                        client_id: u.client_id,
                        access_level: u.access_level,
                    };
                    let token = issue_token(&principal, secret, now);
                    Ok(LoginResponse { token, user: user_response_of(u) })
                },
            }
        },
    }
}

/// A disabled account is rejected for being disabled whatever credential
/// is presented, and that decision differs from the one for a credential
/// mismatch on an active account — yet login reports both through the same
/// error variant, with equal status, so a caller cannot tell a disabled
/// account from a wrong password by the kind of failure alone.
pub proof fn lemma_disabled_rejection_distinct(
    u1: UserAccount,
    pw1: Seq<char>,
    u2: UserAccount,
    pw2: Seq<char>,
)
    requires
        u1.status == AccountStatus::Disabled,
        u2.status == AccountStatus::Active,
        phc_parses(u2.password_hash@),
        !password_matches(pw2, u2.password_hash@),
    ensures
        spec_login_decision(u1, pw1) == LoginDecision::RejectDisabled,
        spec_login_decision(u2, pw2) == LoginDecision::RejectBadCredentials,
        spec_login_decision(u1, pw1) != spec_login_decision(u2, pw2),
{
}

/// Both login rejections surface as `AuthError` with the same status code,
/// though their messages differ.
pub proof fn lemma_login_rejections_same_status(e1: ApiError, e2: ApiError)
    requires
        is_auth_error(e1, "Usuario deshabilitado por administracion."@),
        is_auth_error(e2, "Credenciales invalidas"@),
    ensures
        e1.spec_status_code() == e2.spec_status_code(),
        e1.spec_client_message() != e2.spec_client_message(),
{
    reveal_strlit("Usuario deshabilitado por administracion.");
    reveal_strlit("Credenciales invalidas");
    assert("Usuario deshabilitado por administracion."@.len() == 41);
    assert("Credenciales invalidas"@.len() == 22);
}

} // verus!
