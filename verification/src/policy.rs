//! The authorization policy: pure decision functions, one per guarded
//! action. Evaluation order per request: role eligibility, tenant-scope
//! resolution or forcing, then the access-level gate where applicable.
use vstd::prelude::*;
use vstd::string::StringExecFns;
use crate::types::AccessLevel;
use crate::types::ApiError;
use crate::types::is_forbidden;
use crate::types::Principal;
use crate::types::UserRole;

verus! {

/// The reason the upload gate rejects a principal, if it does: a principal
/// without a tenant cannot upload unless Root, and a read-only account
/// cannot upload unless Root.
pub open spec fn spec_upload_gate(p: Principal) -> Option<Seq<char>> {
    if p.client_id is None && p.role != UserRole::Root {
        Some("Usuario sin permisos de empresa."@)
    } else if p.access_level != AccessLevel::ReadWrite && p.role != UserRole::Root {
        Some("Cuenta de solo lectura."@)
    } else {
        None
    }
}

/// Gate an upload: general permission and access-level check.
pub fn upload_gate(p: &Principal) -> (r: Result<(), ApiError>)
    ensures
        match r {
            Ok(()) => spec_upload_gate(*p) is None,
            Err(e) => {
                &&& spec_upload_gate(*p) matches Some(m)
                &&& is_forbidden(e, m)
            },
        },
{
    if p.client_id.is_none() && !matches!(p.role, UserRole::Root) {
        return Err(ApiError::Forbidden(String::from_str("Usuario sin permisos de empresa.")));
    }
    if !matches!(p.access_level, AccessLevel::ReadWrite) && !matches!(p.role, UserRole::Root) {
        return Err(ApiError::Forbidden(String::from_str("Cuenta de solo lectura.")));
    }
    Ok(())
}

/// The destination tenant of an upload: Root may pick one explicitly; any
/// other principal always lands in its own tenant, whatever it requested.
pub open spec fn spec_resolve_upload_target(p: Principal, requested: Option<u64>) -> Option<
    u64,
> {
    if p.role == UserRole::Root {
        if requested is Some {
            requested
        } else {
            p.client_id
        }
    } else {
        p.client_id
    }
}

/// Resolve the destination tenant of an upload.
pub fn resolve_upload_target(p: &Principal, requested: Option<u64>) -> (r: Option<u64>)
    ensures
        r == spec_resolve_upload_target(*p, requested),
{
    if matches!(p.role, UserRole::Root) {
        match requested {
            Some(t) => Some(t),
            None => p.client_id,
        }
    } else {
        p.client_id
    }
}

/// Non-Root principals can never write outside their own tenant: whatever
/// destination they request, the upload resolves to their own tenant.
pub proof fn lemma_upload_target_isolated(p: Principal, requested: Option<u64>)
    requires
        p.role != UserRole::Root,
    ensures
        spec_resolve_upload_target(p, requested) == p.client_id,
{
}

/// What user creation decides: the tenant the new account is bound to, or
/// the refusal. Root may bind any tenant; a company admin's choice is
/// forced to its own tenant and may not mint Root accounts; plain users may
/// not manage accounts.
pub open spec fn spec_create_user_decision(
    p: Principal,
    new_role: UserRole,
    requested_client: Option<u64>,
) -> Result<Option<u64>, Seq<char>> {
    match p.role {
        UserRole::Root => Ok(requested_client),
        UserRole::CompanyAdmin => {
            if p.client_id is None {
                Err("Admin sin empresa"@)
            } else if new_role == UserRole::Root {
                Err("No puedes crear Super Usuarios"@)
            } else {
                Ok(p.client_id)
            }
        },
        UserRole::User => Err("No tienes permiso para gestionar usuarios"@),
    }
}

/// Decide user creation: the forced tenant binding, or the refusal.
pub fn create_user_decision(p: &Principal, new_role: UserRole, requested_client: Option<u64>)
    -> (r: Result<Option<u64>, ApiError>)
    ensures
        match r {
            Ok(c) => spec_create_user_decision(*p, new_role, requested_client) == Ok::<
                Option<u64>,
                Seq<char>,
            >(c),
            Err(e) => {
                &&& spec_create_user_decision(*p, new_role, requested_client) matches Err(m)
                &&& is_forbidden(e, m)
            },
        },
{
    match p.role {
        UserRole::Root => Ok(requested_client),
        UserRole::CompanyAdmin => {
            match p.client_id {
                None => Err(ApiError::Forbidden(String::from_str("Admin sin empresa"))),
                Some(c) => {
                    if matches!(new_role, UserRole::Root) {
                        Err(ApiError::Forbidden(String::from_str("No puedes crear Super Usuarios")))
                    } else {
                        Ok(Some(c))
                    }
                },
            }
        },
        UserRole::User => Err(
            ApiError::Forbidden(String::from_str("No tienes permiso para gestionar usuarios")),
        ),
    }
}

/// A company-admin-created account is always bound to the admin's own
/// tenant, whatever tenant the request asked for.
pub proof fn lemma_admin_creation_tenant_forced(
    p: Principal,
    new_role: UserRole,
    requested_client: Option<u64>,
)
    requires
        p.role == UserRole::CompanyAdmin,
        spec_create_user_decision(p, new_role, requested_client) is Ok,
    ensures
        spec_create_user_decision(p, new_role, requested_client) == Ok::<
            Option<u64>,
            Seq<char>,
        >(p.client_id),
        new_role != UserRole::Root,
{
}

/// The scope a principal may list users in: everything for Root, the own
/// tenant for a company admin, nothing for a plain user.
pub open spec fn spec_list_users_scope(p: Principal) -> Result<Option<u64>, Seq<char>> {
    match p.role {
        UserRole::Root => Ok(None),
        UserRole::CompanyAdmin => {
            if p.client_id is None {
                Err("Admin sin empresa"@)
            } else {
                Ok(p.client_id)
            }
        },
        UserRole::User => Err("Acceso denegado"@),
    }
}

/// Resolve the user-listing scope: `None` for global (Root), a tenant id
/// for a company admin.
pub fn list_users_scope(p: &Principal) -> (r: Result<Option<u64>, ApiError>)
    ensures
        match r {
            Ok(scope) => spec_list_users_scope(*p) == Ok::<Option<u64>, Seq<char>>(scope),
            Err(e) => {
                &&& spec_list_users_scope(*p) matches Err(m)
                &&& is_forbidden(e, m)
            },
        },
{
    match p.role {
        UserRole::Root => Ok(None),
        UserRole::CompanyAdmin => {
            match p.client_id {
                None => Err(ApiError::Forbidden(String::from_str("Admin sin empresa"))),
                Some(c) => Ok(Some(c)),
            }
        },
        UserRole::User => Err(ApiError::Forbidden(String::from_str("Acceso denegado"))),
    }
}

/// Non-Root principals can never list accounts outside their own tenant:
/// when the policy grants them a listing scope at all, it is exactly their
/// own tenant.
pub proof fn lemma_list_scope_isolated(p: Principal)
    requires
        p.role != UserRole::Root,
        spec_list_users_scope(p) is Ok,
    ensures
        spec_list_users_scope(p) == Ok::<Option<u64>, Seq<char>>(p.client_id),
        p.client_id is Some,
{
}

/// Non-Root principals can never read analytics outside their own tenant:
/// when the policy grants them a scope at all, it is exactly their own
/// tenant.
pub proof fn lemma_analytics_scope_isolated(p: Principal)
    requires
        p.role != UserRole::Root,
        spec_analytics_scope(p) is Ok,
    ensures
        spec_analytics_scope(p) == Ok::<Option<u64>, Seq<char>>(p.client_id),
        p.client_id is Some,
{
}

/// May the principal run the authenticated, global tenant search? Root
/// only.
pub fn global_search_gate(p: &Principal) -> (r: Result<(), ApiError>)
    ensures
        p.role == UserRole::Root <==> r is Ok,
        r matches Err(e) ==> is_forbidden(e, "Solo Root puede buscar clientes globales"@),
{
    if matches!(p.role, UserRole::Root) {
        Ok(())
    } else {
        Err(ApiError::Forbidden(String::from_str("Solo Root puede buscar clientes globales")))
    }
}

/// May the principal create a tenant? Root only.
pub fn create_client_gate(p: &Principal) -> (r: Result<(), ApiError>)
    ensures
        p.role == UserRole::Root <==> r is Ok,
        r matches Err(e) ==> is_forbidden(e, "No tienes permiso"@),
{
    if matches!(p.role, UserRole::Root) {
        Ok(())
    } else {
        Err(ApiError::Forbidden(String::from_str("No tienes permiso")))
    }
}

/// May the principal invoke training? Gated on the access level alone; the
/// role is not consulted.
pub fn train_gate(p: &Principal) -> (r: Result<(), ApiError>)
    ensures
        p.access_level == AccessLevel::ReadWrite <==> r is Ok,
        r matches Err(e) ==> is_forbidden(e, "Necesitas permisos de escritura para entrenar modelos"@),
{
    if matches!(p.access_level, AccessLevel::ReadWrite) {
        Ok(())
    } else {
        Err(
            ApiError::Forbidden(
                String::from_str("Necesitas permisos de escritura para entrenar modelos"),
            ),
        )
    }
}

/// The tenant scope of analytics and dataset counting: global for Root,
/// the own tenant otherwise; a tenant-less non-Root principal is refused.
pub open spec fn spec_analytics_scope(p: Principal) -> Result<Option<u64>, Seq<char>> {
    if p.role == UserRole::Root {
        Ok(None)
    } else if p.client_id is None {
        Err("Usuario sin empresa"@)
    } else {
        Ok(p.client_id)
    }
}

/// Resolve the analytics scope: `None` for global (Root), a tenant id
/// otherwise.
pub fn analytics_scope(p: &Principal) -> (r: Result<Option<u64>, ApiError>)
    ensures
        match r {
            Ok(scope) => spec_analytics_scope(*p) == Ok::<Option<u64>, Seq<char>>(scope),
            Err(e) => {
                &&& spec_analytics_scope(*p) matches Err(m)
                &&& is_forbidden(e, m)
            },
        },
{
    if matches!(p.role, UserRole::Root) {
        Ok(None)
    } else {
        match p.client_id {
            None => Err(ApiError::Forbidden(String::from_str("Usuario sin empresa"))),
            Some(c) => Ok(Some(c)),
        }
    }
}

} // verus!
