//! Core data model: roles, access levels, principals, request payloads and
//! the canonical error taxonomy.
use vstd::prelude::*;

verus! {

/// A principal's role. The set is closed: the policy engine matches on it
/// exhaustively.
#[derive(Debug, Clone, Copy, PartialEq, Eq, Structural)]
pub enum UserRole {
    Root,
    CompanyAdmin,
    User,
}

impl UserRole {
    /// The wire name of the role, as carried in session tokens.
    pub fn as_str(&self) -> (r: &'static str)
        ensures
            r@ == self.spec_str(),
    {
        match self {
            UserRole::Root => "root",
            UserRole::CompanyAdmin => "company_admin",
            UserRole::User => "user",
        }
    }

    /// The wire name of the role as a sequence of characters.
    pub open spec fn spec_str(self) -> Seq<char> {
        match self {
            UserRole::Root => "root"@,
            UserRole::CompanyAdmin => "company_admin"@,
            UserRole::User => "user"@,
        }
    }
}

/// Whether an account may perform write-capable actions. Orthogonal to the
/// role; any wire value other than `read_write` is treated as read-only.
#[derive(Debug, Clone, Copy, PartialEq, Eq, Structural)]
pub enum AccessLevel {
    ReadOnly,
    ReadWrite,
}

impl AccessLevel {
    /// The wire name of the access level.
    pub fn as_str(&self) -> (r: &'static str)
        ensures
            r@ == self.spec_str(),
    {
        match self {
            AccessLevel::ReadOnly => "read_only",
            AccessLevel::ReadWrite => "read_write",
        }
    }

    /// The wire name of the access level as a sequence of characters.
    pub open spec fn spec_str(self) -> Seq<char> {
        match self {
            AccessLevel::ReadOnly => "read_only"@,
            AccessLevel::ReadWrite => "read_write"@,
        }
    }
}

/// Whether an account may log in. A disabled account fails authentication
/// distinctly from a bad credential.
#[derive(Debug, Clone, Copy, PartialEq, Eq, Structural)]
pub enum AccountStatus {
    Active,
    Disabled,
}

/// The kind of a tenant. A natural person's contract expires; a company's
/// does not.
#[derive(Debug, Clone, Copy, PartialEq, Eq, Structural)]
pub enum ClientType {
    Company,
    NaturalPerson,
}

/// The authenticated identity resolved from a session token: identity,
/// role, tenant binding and access level.
#[derive(Debug, Clone)]
pub struct Principal {
    pub id: u64,
    pub role: UserRole,
    pub client_id: Option<u64>,
    pub access_level: AccessLevel,
}

/// Canonical error taxonomy. Every failure of the library is one of these;
/// storage detail is down-leveled before it reaches a client.
#[derive(Debug)]
pub enum ApiError {
    /// Malformed input, file or format; the message is safe to show.
    BadRequest(String),
    /// Login failure: credential mismatch or disabled account.
    AuthError(String),
    /// Missing, malformed or expired session token.
    Unauthorized(String),
    /// Authenticated but not permitted.
    Forbidden(String),
    /// Backing-store failure; the client sees only a generic message.
    StorageFailure(String),
    /// Unexpected failure; the client sees only a generic message.
    InternalError,
}

/// Does `e` carry this exact `BadRequest` message?
pub open spec fn is_bad_request(e: ApiError, msg: Seq<char>) -> bool {
    &&& e matches ApiError::BadRequest(m)
    &&& m@ == msg
}

/// Does `e` carry this exact `AuthError` message?
pub open spec fn is_auth_error(e: ApiError, msg: Seq<char>) -> bool {
    &&& e matches ApiError::AuthError(m)
    &&& m@ == msg
}

/// Does `e` carry this exact `Forbidden` message?
pub open spec fn is_forbidden(e: ApiError, msg: Seq<char>) -> bool {
    &&& e matches ApiError::Forbidden(m)
    &&& m@ == msg
}

/// Does `e` carry this exact `Unauthorized` message?
pub open spec fn is_unauthorized(e: ApiError, msg: Seq<char>) -> bool {
    &&& e matches ApiError::Unauthorized(m)
    &&& m@ == msg
}

impl ApiError {
    /// The HTTP status code this error is reported with.
    pub fn status_code(&self) -> (r: u16)
        ensures
            r == self.spec_status_code(),
    {
        match self {
            ApiError::BadRequest(_) => 400,
            ApiError::AuthError(_) => 401,
            ApiError::Unauthorized(_) => 401,
            ApiError::Forbidden(_) => 403,
            ApiError::StorageFailure(_) => 500,
            ApiError::InternalError => 500,
        }
    }

    /// The status code as a spec-level value.
    pub open spec fn spec_status_code(self) -> u16 {
        match self {
            ApiError::BadRequest(_) => 400,
            ApiError::AuthError(_) => 401,
            ApiError::Unauthorized(_) => 401,
            ApiError::Forbidden(_) => 403,
            ApiError::StorageFailure(_) => 500,
            ApiError::InternalError => 500,
        }
    }

    /// The message a client is shown. Storage and internal failures are
    /// down-leveled to a generic message; their detail stays server-side.
    pub fn client_message(self) -> (r: String)
        ensures
            r@ == self.spec_client_message(),
    {
        match self {
            ApiError::BadRequest(m) => m,
            ApiError::AuthError(m) => m,
            ApiError::Unauthorized(m) => m,
            ApiError::Forbidden(m) => m,
            ApiError::StorageFailure(_) => String::from_str("Error interno"),
            ApiError::InternalError => String::from_str("Error interno"),
        }
    }

    /// The client-visible message as a spec-level value.
    pub open spec fn spec_client_message(self) -> Seq<char> {
        match self {
            ApiError::BadRequest(m) => m@,
            ApiError::AuthError(m) => m@,
            ApiError::Unauthorized(m) => m@,
            ApiError::Forbidden(m) => m@,
            ApiError::StorageFailure(_) => "Error interno"@,
            ApiError::InternalError => "Error interno"@,
        }
    }
}

/// Request payload for creating a tenant. Only Root may submit it; a
/// natural person must come with a contract duration in days.
#[derive(Debug)]
pub struct CreateClientPayload {
    pub name: String,
    pub client_type: ClientType,
    pub contract_duration_days: Option<i64>,
}

/// Request payload for creating a user account.
#[derive(Debug)]
pub struct CreateUserPayload {
    pub email: String,
    pub password: String,
    pub role: UserRole,
    pub client_id: Option<u64>,
    pub status: Option<AccountStatus>,
    pub access_level: Option<AccessLevel>,
}

/// The client-safe projection of a stored user account: everything but the
/// credential hash.
#[derive(Debug)]
pub struct UserResponse {
    pub id: u64,
    pub email: String,
    pub role: UserRole,
    pub client_id: Option<u64>,
    pub status: AccountStatus,
    pub access_level: AccessLevel,
}

} // verus!
