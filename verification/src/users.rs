//! User management: account creation under the policy's forced tenant
//! binding, and the scoped user listing.
use vstd::prelude::*;
use vstd::string::StringExecFns;
use crate::authn::hash_password;
use crate::authn::password_matches;
use crate::authn::phc_parses;
use crate::policy::create_user_decision;
use crate::policy::list_users_scope;
use crate::policy::spec_create_user_decision;
use crate::policy::spec_list_users_scope;
use crate::store::Store;
use crate::store::UserAccount;
use crate::types::AccessLevel;
use crate::types::AccountStatus;
use crate::types::ApiError;
use crate::types::CreateUserPayload;
use crate::types::Principal;
use crate::types::UserResponse;
use crate::types::UserRole;
use crate::types::is_bad_request;
use crate::types::is_forbidden;

verus! {

/// The client-safe projection of a stored account.
pub open spec fn spec_user_response(u: UserAccount) -> UserResponse {
    UserResponse {
        id: u.id,
        email: u.email,
        role: u.role,
        client_id: u.client_id,
        status: u.status,
        access_level: u.access_level,
    }
}

/// Project a stored account to its client-safe form.
pub fn user_response_of(u: &UserAccount) -> (r: UserResponse)
    ensures
        r == spec_user_response(*u),
{
    UserResponse {
        id: u.id,
        email: u.email.clone(),
        role: u.role,
        client_id: u.client_id,
        status: u.status,
        access_level: u.access_level,
    }
}

/// Does the account fall in the listing scope? `None` is the global scope.
pub open spec fn spec_matches_scope(u: UserAccount, scope: Option<u64>) -> bool {
    match scope {
        None => true,
        Some(c) => u.client_id == Some(c),
    }
}

/// The first `take_n` entries of `order`, projected to responses.
pub open spec fn spec_project(users: Seq<UserAccount>, order: Seq<usize>, take_n: int) -> Seq<
    UserResponse,
> {
    order.take(take_n).map_values(|i: usize| spec_user_response(users[i as int]))
}

/// A correct listing: some ordering `order` of exactly the in-scope account
/// indices, non-increasing in creation time, of which the first `cap` (all,
/// if there is no cap) were projected.
pub open spec fn spec_user_listing(
    users: Seq<UserAccount>,
    scope: Option<u64>,
    cap: Option<int>,
    list: Seq<UserResponse>,
) -> bool {
    exists|order: Seq<usize>|
        {
            &&& #[trigger] order.no_duplicates()
            &&& forall|k: int|
                0 <= k < order.len() ==> (#[trigger] order[k]) < users.len() && spec_matches_scope(
                    users[order[k] as int],
                    scope,
                )
            &&& forall|j: int|
                0 <= j < users.len() && spec_matches_scope(#[trigger] users[j], scope)
                    ==> order.contains(j as usize)
            &&& forall|a: int, b: int|
                #![trigger order[a], order[b]]
                0 <= a < b < order.len() ==> users[order[a] as int].created_at
                    >= users[order[b] as int].created_at
            &&& {
                let take_n = match cap {
                    Some(c) => if order.len() > c {
                        c
                    } else {
                        order.len() as int
                    },
                    None => order.len() as int,
                };
                list == spec_project(users, order, take_n)
            }
        }
}

/// The indices of the accounts in scope, in store order.
fn collect_scope_indices(users: &Vec<UserAccount>, scope: Option<u64>) -> (r: Vec<usize>)
    ensures
        forall|k: int|
            0 <= k < r@.len() ==> (#[trigger] r@[k]) < users@.len() && spec_matches_scope(
                users@[r@[k] as int],
                scope,
            ),
        forall|a: int, b: int| 0 <= a < b < r@.len() ==> r@[a] < r@[b],
        forall|j: int|
            0 <= j < users@.len() && spec_matches_scope(#[trigger] users@[j], scope)
                ==> r@.contains(j as usize),
{
    let mut r: Vec<usize> = Vec::new();
    let mut i: usize = 0;
    while i < users.len()
        invariant
            0 <= i <= users@.len(),
            forall|k: int|
                0 <= k < r@.len() ==> (#[trigger] r@[k]) < i && spec_matches_scope(
                    users@[r@[k] as int],
                    scope,
                ),
            forall|a: int, b: int| 0 <= a < b < r@.len() ==> r@[a] < r@[b],
            forall|j: int|
                0 <= j < i && spec_matches_scope(#[trigger] users@[j], scope) ==> r@.contains(
                    j as usize,
                ),
        decreases users@.len() - i,
    {
        let in_scope = match scope {
            None => true,
            Some(c) => match users[i].client_id {
                Some(uc) => uc == c,
                None => false,
            },
        };
        let ghost old_r = r@;
        if in_scope {
            r.push(i);
            proof {
                assert(r@[r@.len() - 1] == i);
            }
        }
        proof {
            assert forall|j: int|
                0 <= j < i + 1 && spec_matches_scope(#[trigger] users@[j], scope)
                    implies r@.contains(j as usize) by {
                if j < i {
                    assert(old_r.contains(j as usize));
                    let w = choose|w: int| 0 <= w < old_r.len() && old_r[w] == j as usize;
                    assert(r@[w] == j as usize);
                } else {
                    assert(in_scope);
                    assert(r@[r@.len() - 1] == i);
                }
            }
        }
        i += 1;
    }
    r
}

/// Sort account indices by creation time, newest first. The result is a
/// permutation of the input.
fn sort_indices_by_created_desc(users: &Vec<UserAccount>, idx: Vec<usize>) -> (r: Vec<usize>)
    requires
        forall|k: int| 0 <= k < idx@.len() ==> (#[trigger] idx@[k]) < users@.len(),
    ensures
        r@.to_multiset() == idx@.to_multiset(),
        r@.len() == idx@.len(),
        forall|k: int| 0 <= k < r@.len() ==> (#[trigger] r@[k]) < users@.len(),
        forall|a: int, b: int|
            #![trigger r@[a], r@[b]]
            0 <= a < b < r@.len() ==> users@[r@[a] as int].created_at >= users@[r@[b]
                as int].created_at,
{
    broadcast use vstd::seq_lib::group_to_multiset_ensures;
    broadcast use vstd::multiset::group_multiset_axioms;

    let mut input = idx;
    let mut out: Vec<usize> = Vec::new();
    while input.len() > 0
        invariant
            forall|k: int| 0 <= k < input@.len() ==> (#[trigger] input@[k]) < users@.len(),
            forall|k: int| 0 <= k < out@.len() ==> (#[trigger] out@[k]) < users@.len(),
            out@.to_multiset().add(input@.to_multiset()) =~= idx@.to_multiset(),
            out@.len() + input@.len() == idx@.len(),
            forall|a: int, b: int|
                #![trigger out@[a], out@[b]]
                0 <= a < b < out@.len() ==> users@[out@[a] as int].created_at >= users@[out@[b]
                    as int].created_at,
            forall|k: int, j: int|
                #![trigger out@[k], input@[j]]
                0 <= k < out@.len() && 0 <= j < input@.len() ==> users@[out@[k]
                    as int].created_at >= users@[input@[j] as int].created_at,
        decreases input@.len(),
    {
        let mut m: usize = 0;
        let mut t: usize = 1;
        while t < input.len()
            invariant
                0 < input@.len(),
                0 <= m < t <= input@.len() || (t <= input@.len() && m < input@.len()),
                m < input@.len(),
                forall|k: int| 0 <= k < input@.len() ==> (#[trigger] input@[k]) < users@.len(),
                forall|j: int|
                    0 <= j < t ==> users@[input@[m as int] as int].created_at >= users@[(
                    #[trigger] input@[j]) as int].created_at,
            decreases input@.len() - t,
        {
            if users[input[t]].created_at > users[input[m]].created_at {
                m = t;
            }
            t += 1;
        }
        let ghost old_input = input@;
        let ghost old_out = out@;
        let x = input.remove(m);
        out.push(x);
        proof {
            old_out.to_multiset_ensures();
            old_input.to_multiset_ensures();
            assert(input@ == old_input.remove(m as int));
            assert(out@ == old_out.push(x));
            assert(old_out.push(x).to_multiset() =~= old_out.to_multiset().insert(x));
            assert(old_input.remove(m as int).to_multiset() =~= old_input.to_multiset().remove(
                old_input[m as int],
            ));
            assert(old_input.to_multiset().count(x) > 0) by {
                assert(old_input[m as int] == x);
                assert(old_input.contains(x));
            }
            assert(out@.to_multiset().add(input@.to_multiset()) =~= old_out.to_multiset().add(
                old_input.to_multiset(),
            ));
            assert forall|k: int, j: int|
                #![trigger out@[k], input@[j]]
                0 <= k < out@.len() && 0 <= j < input@.len() implies users@[out@[k]
                as int].created_at >= users@[input@[j] as int].created_at by {
                if k < out@.len() - 1 {
                    assert(out@[k] == old_out[k]);
                }
                if j < m as int {
                    assert(input@[j] == old_input[j]);
                } else {
                    assert(input@[j] == old_input[j + 1]);
                }
            }
        }
    }
    out
}

/// Project the first `cap` (or all, if `cap` is `None`) sorted indices to
/// responses.
fn project_users(users: &Vec<UserAccount>, order: &Vec<usize>, cap: Option<usize>) -> (r: Vec<
    UserResponse,
>)
    requires
        forall|k: int| 0 <= k < order@.len() ==> (#[trigger] order@[k]) < users@.len(),
    ensures
        ({
            let take_n = match cap {
                Some(c) => if order@.len() > c {
                    c as int
                } else {
                    order@.len() as int
                },
                None => order@.len() as int,
            };
            r@ == spec_project(users@, order@, take_n)
        }),
{
    let n = match cap {
        Some(c) => if order.len() > c {
            c
        } else {
            order.len()
        },
        None => order.len(),
    };
    let mut r: Vec<UserResponse> = Vec::new();
    let mut k: usize = 0;
    while k < n
        invariant
            0 <= k <= n <= order@.len(),
            forall|t: int| 0 <= t < order@.len() ==> (#[trigger] order@[t]) < users@.len(),
            r@ == spec_project(users@, order@, k as int),
        decreases n - k,
    {
        r.push(user_response_of(&users[order[k]]));
        proof {
            assert(r@ =~= spec_project(users@, order@, k + 1 as int));
        }
        k += 1;
    }
    r
}

/// List the accounts the principal may see: all of them (capped at the 50
/// most recent) for Root, the own tenant's for a company admin, none for a
/// plain user. Newest first.
pub fn get_company_users(store: &Store, p: &Principal) -> (r: Result<Vec<UserResponse>, ApiError>)
    ensures
        match r {
            Ok(list) => {
                &&& spec_list_users_scope(*p) matches Ok(scope) && spec_user_listing(
                    store.users@,
                    scope,
                    if scope is None {
                        Some(50int)
                    } else {
                        None
                    },
                    list@,
                )
                &&& p.role == UserRole::CompanyAdmin ==> forall|k: int|
                    0 <= k < list@.len() ==> (#[trigger] list@[k]).client_id == p.client_id
            },
            Err(e) => {
                &&& spec_list_users_scope(*p) matches Err(m)
                &&& is_forbidden(e, m)
            },
        },
{
    broadcast use vstd::seq_lib::group_to_multiset_ensures;

    let scope = match list_users_scope(p) {
        Err(e) => {
            return Err(e);
        },
        Ok(scope) => scope,
    };
    let cap = match scope {
        None => Some(50usize),
        Some(_) => None,
    };
    let unsorted = collect_scope_indices(&store.users, scope);
    let ghost unsorted_view = unsorted@;
    proof {
        assert(unsorted_view.no_duplicates()) by {
            assert forall|a: int, b: int|
                0 <= a < unsorted_view.len() && 0 <= b < unsorted_view.len() && a != b
                    implies unsorted_view[a] != unsorted_view[b] by {
                if a < b {
                    assert(unsorted_view[a] < unsorted_view[b]);
                } else {
                    assert(unsorted_view[b] < unsorted_view[a]);
                }
            }
        }
        unsorted_view.lemma_multiset_has_no_duplicates();
    }
    let order = sort_indices_by_created_desc(&store.users, unsorted);
    proof {
        assert forall|x: usize| order@.to_multiset().contains(x) implies order@.to_multiset().count(
            x,
        ) == 1 by {
            assert(unsorted_view.to_multiset().contains(x));
        }
        order@.lemma_multiset_has_no_duplicates_conv();
    }
    let list = project_users(&store.users, &order, cap);
    proof {
        assert forall|j: int|
            0 <= j < store.users@.len() && spec_matches_scope(#[trigger] store.users@[j], scope)
                implies order@.contains(j as usize) by {
            unsorted_view.to_multiset_ensures();
            order@.to_multiset_ensures();
            assert(unsorted_view.contains(j as usize));
            assert(unsorted_view.to_multiset().count(j as usize) > 0);
            assert(order@.to_multiset().count(j as usize) > 0);
            assert(order@.contains(j as usize));
        }
        assert forall|k: int| 0 <= k < order@.len() implies ((#[trigger] order@[k])
            < store.users@.len() && spec_matches_scope(
            store.users@[order@[k] as int],
            scope,
        )) by {
            unsorted_view.to_multiset_ensures();
            order@.to_multiset_ensures();
            assert(order@.contains(order@[k]));
            assert(order@.to_multiset().count(order@[k]) > 0);
            assert(unsorted_view.to_multiset().count(order@[k]) > 0);
            assert(unsorted_view.contains(order@[k]));
            let w = choose|w: int|
                0 <= w < unsorted_view.len() && unsorted_view[w] == order@[k];
            assert(spec_matches_scope(store.users@[unsorted_view[w] as int], scope));
        }
        assert(order@.no_duplicates());
        assert(spec_user_listing(
            store.users@,
            scope,
            match cap {
                Some(c) => Some(c as int),
                None => None,
            },
            list@,
        ));
        if p.role == UserRole::CompanyAdmin {
            let take_n = match cap {
                Some(c) => if order@.len() > c {
                    c as int
                } else {
                    order@.len() as int
                },
                None => order@.len() as int,
            };
            assert forall|k: int| 0 <= k < list@.len() implies (#[trigger] list@[k]).client_id
                == p.client_id by {
                assert(list@[k] == spec_user_response(
                    store.users@[order@.take(take_n)[k] as int],
                ));
            }
        }
    }
    Ok(list)
}

/// Create a user account from an already-computed credential hash, under
/// the policy's decision: Root binds any tenant; a company admin's new
/// account is forced into the admin's own tenant and may not be Root;
/// plain users are refused. A taken email is refused with the friendly
/// message, and with a free email success is owed: the account is
/// appended with a fresh id, carrying exactly the given hash.
pub fn register_user_with_hash(
    store: &mut Store,
    p: &Principal,
    payload: CreateUserPayload,
    password_hash: String,
    now: i64,
) -> (r: Result<UserResponse, ApiError>)
    requires
        old(store).wf(),
        old(store).next_id < u64::MAX,
    ensures
        final(store).wf(),
        match spec_create_user_decision(*p, payload.role, payload.client_id) {
            Err(m) => {
                &&& r matches Err(e)
                &&& is_forbidden(e, m)
                &&& *final(store) == *old(store)
            },
            Ok(forced) => {
                if old(store).spec_has_email(payload.email@) {
                    &&& r matches Err(e)
                    &&& is_bad_request(e, "El email ya esta registrado"@)
                    &&& *final(store) == *old(store)
                } else {
                    &&& r matches Ok(resp)
                    &&& final(store).users@ == old(store).users@.push(
                        final(store).users@.last(),
                    )
                    &&& {
                        let u = final(store).users@.last();
                        &&& u.id == old(store).next_id
                        &&& u.email == payload.email
                        &&& u.role == payload.role
                        &&& u.client_id == forced
                        &&& u.status == (match payload.status {
                            Some(s) => s,
                            None => AccountStatus::Active,
                        })
                        &&& u.access_level == (match payload.access_level {
                            Some(a) => a,
                            None => AccessLevel::ReadWrite,
                        })
                        &&& u.created_at == now
                        &&& u.password_hash == password_hash
                        &&& resp == spec_user_response(u)
                    }
                    &&& final(store).clients@ == old(store).clients@
                    &&& final(store).schemas@ == old(store).schemas@
                    &&& final(store).rows@ == old(store).rows@
                    &&& final(store).next_id == old(store).next_id + 1
                }
            },
        },
{
    let forced_client = match create_user_decision(p, payload.role, payload.client_id) {
        Err(e) => {
            return Err(e);
        },
        Ok(c) => c,
    };
    if store.find_user_by_email(payload.email.as_str()).is_some() {
        return Err(ApiError::BadRequest(String::from_str("El email ya esta registrado")));
    }
    let id = store.next_id;
    let account = UserAccount {
        id,
        client_id: forced_client,
        email: payload.email,
        password_hash,
        role: payload.role,
        status: match payload.status {
            Some(s) => s,
            None => AccountStatus::Active,
        },
        access_level: match payload.access_level {
            Some(a) => a,
            None => AccessLevel::ReadWrite,
        },
        created_at: now,
    };
    let resp = user_response_of(&account);
    store.users.push(account);
    store.next_id = id + 1;
    Ok(resp)
}

/// Create a user account: the policy's decision, then the credential hash
/// (the one step whose outside call may fail, reported as an internal
/// error), then `register_user_with_hash`. On success the stored hash
/// verifies against the given password.
pub fn register_user(store: &mut Store, p: &Principal, payload: CreateUserPayload, now: i64) -> (r:
    Result<UserResponse, ApiError>)
    requires
        old(store).wf(),
        old(store).next_id < u64::MAX,
    ensures
        final(store).wf(),
        match spec_create_user_decision(*p, payload.role, payload.client_id) {
            Err(m) => {
                &&& r matches Err(e)
                &&& is_forbidden(e, m)
                &&& *final(store) == *old(store)
            },
            Ok(forced) => match r {
                Err(e) => {
                    &&& *final(store) == *old(store)
                    &&& (e is InternalError || (is_bad_request(e, "El email ya esta registrado"@)
                        && old(store).spec_has_email(payload.email@)))
                    &&& (!old(store).spec_has_email(payload.email@) ==> e is InternalError)
                },
                Ok(resp) => {
                    &&& !old(store).spec_has_email(payload.email@)
                    &&& final(store).users@ == old(store).users@.push(
                        final(store).users@.last(),
                    )
                    &&& {
                        let u = final(store).users@.last();
                        &&& u.id == old(store).next_id
                        &&& u.email == payload.email
                        &&& u.role == payload.role
                        &&& u.client_id == forced
                        &&& u.status == (match payload.status {
                            Some(s) => s,
                            None => AccountStatus::Active,
                        })
                        &&& u.access_level == (match payload.access_level {
                            Some(a) => a,
                            None => AccessLevel::ReadWrite,
                        })
                        &&& u.created_at == now
                        &&& password_matches(payload.password@, u.password_hash@)
                        &&& phc_parses(u.password_hash@)
                        &&& resp == spec_user_response(u)
                    }
                    &&& final(store).clients@ == old(store).clients@
                    &&& final(store).schemas@ == old(store).schemas@
                    &&& final(store).rows@ == old(store).rows@
                    &&& final(store).next_id == old(store).next_id + 1
                },
            },
        },
{
    if let Err(e) = create_user_decision(p, payload.role, payload.client_id) {
        return Err(e);
    }
    let hash = match hash_password(payload.password.as_str()) {
        None => {
            return Err(ApiError::InternalError);
        },
        Some(h) => h,
    };
    register_user_with_hash(store, p, payload, hash, now)
}

} // verus!
