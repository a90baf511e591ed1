//! Access-control and data-ingestion core of a multi-tenant data platform.
//!
//! The library authenticates principals, enforces tenant- and role-scoped
//! authorization, parses tabular uploads into one schema model, and commits
//! rows atomically to a schema-tracked, tenant-isolated row store.
pub mod authn;
pub mod csvparse;
pub mod pipeline;
pub mod policy;
pub mod queries;
pub mod sheet;
pub mod store;
pub mod token;
pub mod users;
pub mod strutil;
pub mod types;

pub use types::AccessLevel;
pub use types::AccountStatus;
pub use types::ApiError;
pub use types::ClientType;
pub use types::CreateClientPayload;
pub use types::CreateUserPayload;
pub use types::Principal;
pub use types::UserResponse;
pub use types::UserRole;
