//! Read-side queries and tenant creation: the public and Root-only tenant
//! searches, the dashboard counters, the tenant-scoped analytics
//! projection, and the training-service gate.
use vstd::prelude::*;
use vstd::string::StringExecFns;
use crate::policy::analytics_scope;
use crate::policy::create_client_gate;
use crate::policy::global_search_gate;
use crate::policy::spec_analytics_scope;
use crate::store::Client;
use crate::store::SchemaRecord;
use crate::store::Store;
use crate::store::UserAccount;
use crate::strutil::lower_chars;
use crate::strutil::spec_lower;
use crate::strutil::str_to_chars;
use crate::types::AccountStatus;
use crate::types::ApiError;
use crate::types::ClientType;
use crate::types::CreateClientPayload;
use crate::types::Principal;
use crate::types::UserRole;
use crate::types::is_bad_request;
use crate::types::is_forbidden;

verus! {

/// Case-insensitive (ASCII) substring match, the way the store's `ILIKE
/// '%q%'` pattern reads.
pub open spec fn spec_contains_ci(hay: Seq<char>, needle: Seq<char>) -> bool {
    exists|i: int|
        0 <= i && i + needle.len() <= hay.len() && spec_lower(
            #[trigger] hay.subrange(i, i + needle.len()),
        ) == spec_lower(needle)
}

/// Do the characters at offset `i` match the lowered needle,
/// case-insensitively?
fn match_at(hay: &Vec<char>, i: usize, lneedle: &Vec<char>) -> (r: bool)
    requires
        i + lneedle@.len() <= hay@.len(),
    ensures
        r == (spec_lower(hay@.subrange(i as int, i + lneedle@.len())) == lneedle@),
{
    let ghost sub = hay@.subrange(i as int, i + lneedle@.len());
    let hl = hay.len();
    let n = lneedle.len();
    let mut j: usize = 0;
    while j < n
        invariant
            0 <= j <= n,
            n == lneedle@.len(),
            hl == hay@.len(),
            i + n <= hay@.len(),
            sub == hay@.subrange(i as int, i + lneedle@.len()),
            forall|y: int| 0 <= y < j ==> spec_lower(sub)[y] == lneedle@[y],
        decreases n - j,
    {
        proof {
            assert(i + j < hl);
            assert(sub[j as int] == hay@[i + j]);
            assert(spec_lower(sub)[j as int] == crate::strutil::spec_lower_char(hay@[i + j]));
        }
        let hc = crate::strutil::lower_char(hay[i + j]);
        if hc != lneedle[j] {
            proof {
                assert(spec_lower(sub)[j as int] != lneedle@[j as int]);
            }
            return false;
        }
        j += 1;
    }
    proof {
        assert(spec_lower(sub) =~= lneedle@);
    }
    true
}

/// Does `hay` contain `needle`, ignoring ASCII case?
pub fn chars_contains_ci(hay: &Vec<char>, needle: &Vec<char>) -> (r: bool)
    ensures
        r == spec_contains_ci(hay@, needle@),
{
    let n = needle.len();
    if n > hay.len() {
        proof {
            assert(!spec_contains_ci(hay@, needle@));
        }
        return false;
    }
    let lneedle = lower_chars(needle);
    let stop = hay.len() - n;
    let mut i: usize = 0;
    loop
        invariant
            0 <= i <= stop,
            stop == hay@.len() - needle@.len(),
            n == needle@.len(),
            lneedle@ == spec_lower(needle@),
            forall|x: int|
                0 <= x < i ==> spec_lower(#[trigger] hay@.subrange(x, x + needle@.len()))
                    != spec_lower(needle@),
        ensures
            forall|x: int|
                0 <= x <= stop ==> spec_lower(#[trigger] hay@.subrange(x, x + needle@.len()))
                    != spec_lower(needle@),
        decreases stop - i,
    {
        if match_at(hay, i, &lneedle) {
            return true;
        }
        if i == stop {
            break;
        }
        i += 1;
    }
    proof {
        assert forall|x: int| 0 <= x && x + needle@.len() <= hay@.len() implies spec_lower(
            #[trigger] hay@.subrange(x, x + needle@.len()),
        ) != spec_lower(needle@) by {
            assert(x <= stop);
        }
    }
    false
}

/// A search hit: the tenant's id and display name, nothing more.
#[derive(Debug)]
pub struct ClientOption {
    pub id: u64,
    pub name: String,
}

/// Does the tenant's name match the query, case-insensitively?
pub open spec fn spec_client_matches(c: Client, q: Seq<char>) -> bool {
    spec_contains_ci(c.name@, q)
}

/// The first `limit` matching tenants, in store order, projected to id and
/// name.
pub open spec fn spec_search(clients: Seq<Client>, q: Seq<char>, limit: int) -> Seq<ClientOption>
    decreases clients.len(),
{
    if clients.len() == 0 || limit <= 0 {
        Seq::empty()
    } else if spec_client_matches(clients[0], q) {
        seq![
            (ClientOption { id: clients[0].id, name: clients[0].name }),
        ] + spec_search(clients.drop_first(), q, limit - 1)
    } else {
        spec_search(clients.drop_first(), q, limit)
    }
}

/// A search returns at most `limit` hits.
pub proof fn lemma_search_len(clients: Seq<Client>, q: Seq<char>, limit: int)
    ensures
        spec_search(clients, q, limit).len() <= (if limit >= 0 {
            limit
        } else {
            0
        }),
    decreases clients.len(),
{
    if clients.len() == 0 || limit <= 0 {
    } else if spec_client_matches(clients[0], q) {
        lemma_search_len(clients.drop_first(), q, limit - 1);
    } else {
        lemma_search_len(clients.drop_first(), q, limit);
    }
}

/// Search the tenants by name, case-insensitively, returning at most
/// `limit` hits in store order.
fn search_clients_raw(clients: &Vec<Client>, q: &Vec<char>, limit: usize) -> (r: Vec<ClientOption>)
    ensures
        r@ == spec_search(clients@, q@, limit as int),
        r@.len() <= limit,
{
    let ghost full = clients@;
    let mut r: Vec<ClientOption> = Vec::new();
    let mut i: usize = 0;
    proof {
        assert(full.skip(0) =~= full);
        assert(r@ + spec_search(full.skip(0), q@, limit as int) =~= spec_search(
            full,
            q@,
            limit as int,
        ));
    }
    while i < clients.len() && r.len() < limit
        invariant
            0 <= i <= full.len(),
            clients@ == full,
            r@.len() <= limit,
            spec_search(full, q@, limit as int) == r@ + spec_search(
                full.skip(i as int),
                q@,
                limit - r@.len(),
            ),
        decreases full.len() - i,
    {
        proof {
            assert(full.skip(i as int).drop_first() =~= full.skip(i + 1 as int));
            assert(full.skip(i as int)[0] == full[i as int]);
        }
        let name_chars = str_to_chars(clients[i].name.as_str());
        let ghost old_r = r@;
        if chars_contains_ci(&name_chars, q) {
            r.push(ClientOption { id: clients[i].id, name: clients[i].name.clone() });
            proof {
                assert(spec_search(full.skip(i as int), q@, limit - old_r.len()) == seq![
                    (ClientOption { id: full[i as int].id, name: full[i as int].name }),
                ] + spec_search(full.skip(i + 1 as int), q@, limit - old_r.len() - 1));
                assert(r@ =~= old_r + seq![
                    (ClientOption { id: full[i as int].id, name: full[i as int].name }),
                ]);
                assert(old_r + (seq![
                    (ClientOption { id: full[i as int].id, name: full[i as int].name }),
                ] + spec_search(full.skip(i + 1 as int), q@, limit - r@.len())) =~= r@
                    + spec_search(full.skip(i + 1 as int), q@, limit - r@.len()));
            }
        } else {
            proof {
                assert(spec_search(full.skip(i as int), q@, limit - r@.len()) == spec_search(
                    full.skip(i + 1 as int),
                    q@,
                    limit - r@.len(),
                ));
            }
        }
        i += 1;
    }
    proof {
        if i == full.len() {
            assert(full.skip(full.len() as int) =~= Seq::<Client>::empty());
            assert(spec_search(Seq::<Client>::empty(), q@, limit - r@.len()) == Seq::<
                ClientOption,
            >::empty());
        } else {
            assert(r@.len() == limit);
            assert(spec_search(full.skip(i as int), q@, 0) == Seq::<ClientOption>::empty());
        }
        assert(r@ + Seq::<ClientOption>::empty() =~= r@);
    }
    r
}

/// The Root-only global tenant search: at most ten hits.
pub fn search_clients(store: &Store, p: &Principal, q: &str) -> (r: Result<
    Vec<ClientOption>,
    ApiError,
>)
    ensures
        match r {
            Ok(list) => p.role == UserRole::Root && list@ == spec_search(
                store.clients@,
                q@,
                10,
            ) && list@.len() <= 10,
            Err(e) => p.role != UserRole::Root && is_forbidden(
                e,
                "Solo Root puede buscar clientes globales"@,
            ),
        },
{
    if let Err(e) = global_search_gate(p) {
        return Err(e);
    }
    let qc = str_to_chars(q);
    Ok(search_clients_raw(&store.clients, &qc, 10))
}

/// The unauthenticated public tenant search: at most five hits, id and
/// name only.
pub fn search_clients_public(store: &Store, q: &str) -> (r: Vec<ClientOption>)
    ensures
        r@ == spec_search(store.clients@, q@, 5),
        r@.len() <= 5,
{
    let qc = str_to_chars(q);
    search_clients_raw(&store.clients, &qc, 5)
}

/// Is the account in the counting scope, and active if only active ones
/// count?
pub open spec fn spec_user_counted(u: UserAccount, scope: Option<u64>, only_active: bool) -> bool {
    &&& (match scope {
        None => true,
        Some(c) => u.client_id == Some(c),
    })
    &&& (!only_active || u.status == AccountStatus::Active)
}

/// How many accounts the scope counts.
pub open spec fn spec_count_users(users: Seq<UserAccount>, scope: Option<u64>, only_active: bool)
    -> int
    decreases users.len(),
{
    if users.len() == 0 {
        0
    } else {
        spec_count_users(users.drop_last(), scope, only_active) + (if spec_user_counted(
            users.last(),
            scope,
            only_active,
        ) {
            1int
        } else {
            0int
        })
    }
}

/// Is the schema in the counting scope?
pub open spec fn spec_schema_counted(s: SchemaRecord, scope: Option<u64>) -> bool {
    match scope {
        None => true,
        Some(c) => s.client_id == c,
    }
}

/// How many schemas the scope counts. Schema names are unique, so this is
/// also the distinct-name count.
pub open spec fn spec_count_schemas(schemas: Seq<SchemaRecord>, scope: Option<u64>) -> int
    decreases schemas.len(),
{
    if schemas.len() == 0 {
        0
    } else {
        spec_count_schemas(schemas.drop_last(), scope) + (if spec_schema_counted(
            schemas.last(),
            scope,
        ) {
            1int
        } else {
            0int
        })
    }
}

/// Count the accounts in scope.
fn count_users(users: &Vec<UserAccount>, scope: Option<u64>, only_active: bool) -> (r: usize)
    ensures
        r as int == spec_count_users(users@, scope, only_active),
{
    let mut count: usize = 0;
    let mut i: usize = 0;
    proof {
        assert(users@.take(0) =~= Seq::<UserAccount>::empty());
    }
    while i < users.len()
        invariant
            0 <= i <= users@.len(),
            count <= i,
            count as int == spec_count_users(users@.take(i as int), scope, only_active),
        decreases users@.len() - i,
    {
        proof {
            assert(users@.take(i + 1 as int).drop_last() =~= users@.take(i as int));
            assert(users@.take(i + 1 as int).last() == users@[i as int]);
        }
        let in_scope = match scope {
            None => true,
            Some(c) => match users[i].client_id {
                Some(uc) => uc == c,
                None => false,
            },
        };
        if in_scope && (!only_active || matches!(users[i].status, AccountStatus::Active)) {
            count += 1;
        }
        i += 1;
    }
    proof {
        assert(users@.take(users@.len() as int) =~= users@);
    }
    count
}

/// Count the schemas in scope.
fn count_schemas(schemas: &Vec<SchemaRecord>, scope: Option<u64>) -> (r: usize)
    ensures
        r as int == spec_count_schemas(schemas@, scope),
{
    let mut count: usize = 0;
    let mut i: usize = 0;
    proof {
        assert(schemas@.take(0) =~= Seq::<SchemaRecord>::empty());
    }
    while i < schemas.len()
        invariant
            0 <= i <= schemas@.len(),
            count <= i,
            count as int == spec_count_schemas(schemas@.take(i as int), scope),
        decreases schemas@.len() - i,
    {
        proof {
            assert(schemas@.take(i + 1 as int).drop_last() =~= schemas@.take(i as int));
            assert(schemas@.take(i + 1 as int).last() == schemas@[i as int]);
        }
        let in_scope = match scope {
            None => true,
            Some(c) => schemas[i].client_id == c,
        };
        if in_scope {
            count += 1;
        }
        i += 1;
    }
    proof {
        assert(schemas@.take(schemas@.len() as int) =~= schemas@);
    }
    count
}

/// The dashboard counters.
#[derive(Debug)]
pub struct DashboardStats {
    pub total_clients: u64,
    pub total_users: u64,
    pub active_users: u64,
    pub total_datasets: u64,
}

/// The dashboard counters, scoped by role: platform-wide for Root, the own
/// tenant for a company admin, a degenerate self-scope for a plain user.
pub fn get_stats(store: &Store, p: &Principal) -> (r: Result<DashboardStats, ApiError>)
    ensures
        match r {
            Ok(s) => match p.role {
                UserRole::Root => {
                    &&& s.total_clients == store.clients@.len()
                    &&& s.total_users as int == spec_count_users(store.users@, None, false)
                    &&& s.active_users as int == spec_count_users(store.users@, None, true)
                    &&& s.total_datasets as int == spec_count_schemas(store.schemas@, None)
                },
                UserRole::CompanyAdmin => {
                    &&& p.client_id matches Some(c)
                    &&& s.total_clients == 1
                    &&& s.total_users as int == spec_count_users(store.users@, Some(c), false)
                    &&& s.active_users as int == spec_count_users(store.users@, Some(c), true)
                    &&& s.total_datasets as int == spec_count_schemas(store.schemas@, Some(c))
                },
                UserRole::User => {
                    &&& p.client_id matches Some(c)
                    &&& s.total_clients == 1
                    &&& s.total_users == 1
                    &&& s.active_users == 1
                    &&& s.total_datasets as int == spec_count_schemas(store.schemas@, Some(c))
                },
            },
            Err(e) => {
                &&& p.role != UserRole::Root && p.client_id is None
                &&& (p.role == UserRole::CompanyAdmin ==> is_forbidden(e, "Admin sin empresa"@))
                &&& (p.role == UserRole::User ==> is_forbidden(e, "Usuario sin empresa"@))
            },
        },
{
    match p.role {
        UserRole::Root => {
            Ok(
                DashboardStats {
                    total_clients: store.clients.len() as u64,
                    total_users: count_users(&store.users, None, false) as u64,
                    active_users: count_users(&store.users, None, true) as u64,
                    total_datasets: count_schemas(&store.schemas, None) as u64,
                },
            )
        },
        UserRole::CompanyAdmin => {
            match p.client_id {
                None => Err(ApiError::Forbidden(String::from_str("Admin sin empresa"))),
                Some(c) => Ok(
                    DashboardStats {
                        total_clients: 1,
                        total_users: count_users(&store.users, Some(c), false) as u64,
                        active_users: count_users(&store.users, Some(c), true) as u64,
                        total_datasets: count_schemas(&store.schemas, Some(c)) as u64,
                    },
                ),
            }
        },
        UserRole::User => {
            match p.client_id {
                None => Err(ApiError::Forbidden(String::from_str("Usuario sin empresa"))),
                Some(c) => Ok(
                    DashboardStats {
                        total_clients: 1,
                        total_users: 1,
                        active_users: 1,
                        total_datasets: count_schemas(&store.schemas, Some(c)) as u64,
                    },
                ),
            }
        },
    }
}

/// Create a tenant: Root only. A natural person's contract expiry is
/// computed from the duration in days; a company has none. A duration
/// whose expiry does not fit the timestamp range is rejected as malformed.
pub fn create_client(store: &mut Store, p: &Principal, payload: CreateClientPayload, now: i64)
    -> (r: Result<Client, ApiError>)
    requires
        old(store).wf(),
        old(store).next_id < u64::MAX,
    ensures
        final(store).wf(),
        r is Err ==> *final(store) == *old(store),
        p.role != UserRole::Root ==> (r matches Err(e) && is_forbidden(e, "No tienes permiso"@)),
        (r matches Err(e) && p.role == UserRole::Root) ==> {
            let e = r->Err_0;
            ||| (payload.client_type == ClientType::NaturalPerson
                && payload.contract_duration_days is None && is_bad_request(
                e,
                "Duracion requerida para persona natural"@,
            ))
            ||| (payload.client_type == ClientType::NaturalPerson
                && (payload.contract_duration_days matches Some(d) && !(i64::MIN <= now + d * 86400
                <= i64::MAX)) && is_bad_request(e, "Duracion invalida"@))
        },
        r matches Ok(c) ==> {
            &&& p.role == UserRole::Root
            &&& final(store).clients@ == old(store).clients@.push(
                final(store).clients@.last(),
            )
            &&& {
                let rec = final(store).clients@.last();
                &&& rec.id == old(store).next_id
                &&& rec.name == payload.name
                &&& rec.client_type == payload.client_type
                &&& rec.created_at == now
                &&& (match payload.client_type {
                    ClientType::Company => rec.contract_expires_at is None,
                    ClientType::NaturalPerson => payload.contract_duration_days matches Some(d)
                        && rec.contract_expires_at == Some((now + d * 86400) as i64),
                })
                &&& c.id == rec.id
                &&& c.name@ == rec.name@
                &&& c.client_type == rec.client_type
                &&& c.contract_expires_at == rec.contract_expires_at
                &&& c.created_at == rec.created_at
            }
            &&& final(store).users@ == old(store).users@
            &&& final(store).schemas@ == old(store).schemas@
            &&& final(store).rows@ == old(store).rows@
            &&& final(store).next_id == old(store).next_id + 1
        },
{
    if let Err(e) = create_client_gate(p) {
        return Err(e);
    }
    let contract_expires_at: Option<i64> = match payload.client_type {
        ClientType::NaturalPerson => {
            match payload.contract_duration_days {
                None => {
                    return Err(
                        ApiError::BadRequest(
                            String::from_str("Duracion requerida para persona natural"),
                        ),
                    );
                },
                Some(days) => {
                    let wide: i128 = (now as i128) + (days as i128) * 86400;
                    if wide < i64::MIN as i128 || wide > i64::MAX as i128 {
                        return Err(ApiError::BadRequest(String::from_str("Duracion invalida")));
                    }
                    Some(wide as i64)
                },
            }
        },
        ClientType::Company => None,
    };
    let id = store.next_id;
    let rec = Client {
        id,
        name: payload.name,
        client_type: payload.client_type,
        contract_expires_at,
        created_at: now,
    };
    let response = Client {
        id,
        name: rec.name.clone(),
        client_type: rec.client_type,
        contract_expires_at,
        created_at: now,
    };
    store.clients.push(rec);
    store.next_id = id + 1;
    Ok(response)
}

/// Interpret the training service's reply: a success body is relayed
/// verbatim; any other reply surfaces as malformed input carrying the
/// remote error text.
pub fn interpret_train_response(success: bool, body: String) -> (r: Result<String, ApiError>)
    ensures
        success ==> (r matches Ok(b) && b == body),
        !success ==> (r matches Err(e) && is_bad_request(e, "ML Service error: "@ + body@)),
{
    if success {
        Ok(body)
    } else {
        let msg = String::from_str("ML Service error: ").concat(body.as_str());
        Err(ApiError::BadRequest(msg))
    }
}


/// A dataset summary, as the analytics view reports one schema.
#[derive(Debug)]
pub struct DatasetSummary {
    pub schema_id: u64,
    pub schema_name: String,
    pub row_count: u64,
    pub created_at: i64,
}

/// The analytics projection of one schema record.
pub open spec fn spec_dataset_summary(s: SchemaRecord) -> DatasetSummary {
    DatasetSummary {
        schema_id: s.id,
        schema_name: s.schema_name,
        row_count: s.row_count,
        created_at: s.created_at,
    }
}

/// The first `take_n` entries of `order`, projected to summaries.
pub open spec fn spec_project_schemas(
    schemas: Seq<SchemaRecord>,
    order: Seq<usize>,
    take_n: int,
) -> Seq<DatasetSummary> {
    order.take(take_n).map_values(|i: usize| spec_dataset_summary(schemas[i as int]))
}

/// A correct recent-uploads listing: some ordering `order` of exactly the
/// in-scope schema indices, non-increasing in creation time, of which the
/// first `cap` were projected.
pub open spec fn spec_schema_listing(
    schemas: Seq<SchemaRecord>,
    scope: Option<u64>,
    cap: int,
    list: Seq<DatasetSummary>,
) -> bool {
    exists|order: Seq<usize>|
        {
            &&& #[trigger] order.no_duplicates()
            &&& forall|k: int|
                0 <= k < order.len() ==> (#[trigger] order[k]) < schemas.len()
                    && spec_schema_counted(schemas[order[k] as int], scope)
            &&& forall|j: int|
                0 <= j < schemas.len() && spec_schema_counted(#[trigger] schemas[j], scope)
                    ==> order.contains(j as usize)
            &&& forall|a: int, b: int|
                #![trigger order[a], order[b]]
                0 <= a < b < order.len() ==> schemas[order[a] as int].created_at
                    >= schemas[order[b] as int].created_at
            &&& list == spec_project_schemas(
                schemas,
                order,
                if order.len() > cap {
                    cap
                } else {
                    order.len() as int
                },
            )
        }
}

/// The indices of the schemas in scope, in store order.
fn collect_schema_indices(schemas: &Vec<SchemaRecord>, scope: Option<u64>) -> (r: Vec<usize>)
    ensures
        forall|k: int|
            0 <= k < r@.len() ==> (#[trigger] r@[k]) < schemas@.len() && spec_schema_counted(
                schemas@[r@[k] as int],
                scope,
            ),
        forall|a: int, b: int| 0 <= a < b < r@.len() ==> r@[a] < r@[b],
        forall|j: int|
            0 <= j < schemas@.len() && spec_schema_counted(#[trigger] schemas@[j], scope)
                ==> r@.contains(j as usize),
{
    let mut r: Vec<usize> = Vec::new();
    let mut i: usize = 0;
    while i < schemas.len()
        invariant
            0 <= i <= schemas@.len(),
            forall|k: int|
                0 <= k < r@.len() ==> (#[trigger] r@[k]) < i && spec_schema_counted(
                    schemas@[r@[k] as int],
                    scope,
                ),
            forall|a: int, b: int| 0 <= a < b < r@.len() ==> r@[a] < r@[b],
            forall|j: int|
                0 <= j < i && spec_schema_counted(#[trigger] schemas@[j], scope) ==> r@.contains(
                    j as usize,
                ),
        decreases schemas@.len() - i,
    {
        let in_scope = match scope {
            None => true,
            Some(c) => schemas[i].client_id == c,
        };
        let ghost old_r = r@;
        if in_scope {
            r.push(i);
            proof {
                assert(r@[r@.len() - 1] == i);
            }
        }
        proof {
            assert forall|j: int|
                0 <= j < i + 1 && spec_schema_counted(#[trigger] schemas@[j], scope)
                    implies r@.contains(j as usize) by {
                if j < i {
                    assert(old_r.contains(j as usize));
                    let w = choose|w: int| 0 <= w < old_r.len() && old_r[w] == j as usize;
                    assert(r@[w] == j as usize);
                } else {
                    assert(in_scope);
                    assert(r@[r@.len() - 1] == i);
                }
            }
        }
        i += 1;
    }
    r
}

/// Sort schema indices by creation time, newest first. The result is a
/// permutation of the input.
fn sort_schema_indices_desc(schemas: &Vec<SchemaRecord>, idx: Vec<usize>) -> (r: Vec<usize>)
    requires
        forall|k: int| 0 <= k < idx@.len() ==> (#[trigger] idx@[k]) < schemas@.len(),
    ensures
        r@.to_multiset() == idx@.to_multiset(),
        r@.len() == idx@.len(),
        forall|k: int| 0 <= k < r@.len() ==> (#[trigger] r@[k]) < schemas@.len(),
        forall|a: int, b: int|
            #![trigger r@[a], r@[b]]
            0 <= a < b < r@.len() ==> schemas@[r@[a] as int].created_at >= schemas@[r@[b]
                as int].created_at,
{
    broadcast use vstd::seq_lib::group_to_multiset_ensures;
    broadcast use vstd::multiset::group_multiset_axioms;

    let mut input = idx;
    let mut out: Vec<usize> = Vec::new();
    while input.len() > 0
        invariant
            forall|k: int| 0 <= k < input@.len() ==> (#[trigger] input@[k]) < schemas@.len(),
            forall|k: int| 0 <= k < out@.len() ==> (#[trigger] out@[k]) < schemas@.len(),
            out@.to_multiset().add(input@.to_multiset()) =~= idx@.to_multiset(),
            out@.len() + input@.len() == idx@.len(),
            forall|a: int, b: int|
                #![trigger out@[a], out@[b]]
                0 <= a < b < out@.len() ==> schemas@[out@[a] as int].created_at >= schemas@[out@[b]
                    as int].created_at,
            forall|k: int, j: int|
                #![trigger out@[k], input@[j]]
                0 <= k < out@.len() && 0 <= j < input@.len() ==> schemas@[out@[k]
                    as int].created_at >= schemas@[input@[j] as int].created_at,
        decreases input@.len(),
    {
        let mut m: usize = 0;
        let mut t: usize = 1;
        while t < input.len()
            invariant
                0 < input@.len(),
                t <= input@.len(),
                m < input@.len(),
                forall|k: int| 0 <= k < input@.len() ==> (#[trigger] input@[k]) < schemas@.len(),
                forall|j: int|
                    0 <= j < t ==> schemas@[input@[m as int] as int].created_at >= schemas@[(
                    #[trigger] input@[j]) as int].created_at,
            decreases input@.len() - t,
        {
            if schemas[input[t]].created_at > schemas[input[m]].created_at {
                m = t;
            }
            t += 1;
        }
        let ghost old_input = input@;
        let ghost old_out = out@;
        let x = input.remove(m);
        out.push(x);
        proof {
            old_out.to_multiset_ensures();
            old_input.to_multiset_ensures();
            assert(input@ == old_input.remove(m as int));
            assert(out@ == old_out.push(x));
            assert(old_out.push(x).to_multiset() =~= old_out.to_multiset().insert(x));
            assert(old_input.remove(m as int).to_multiset() =~= old_input.to_multiset().remove(
                old_input[m as int],
            ));
            assert(old_input.to_multiset().count(x) > 0) by {
                assert(old_input[m as int] == x);
                assert(old_input.contains(x));
            }
            assert(out@.to_multiset().add(input@.to_multiset()) =~= old_out.to_multiset().add(
                old_input.to_multiset(),
            ));
            assert forall|k: int, j: int|
                #![trigger out@[k], input@[j]]
                0 <= k < out@.len() && 0 <= j < input@.len() implies schemas@[out@[k]
                as int].created_at >= schemas@[input@[j] as int].created_at by {
                if k < out@.len() - 1 {
                    assert(out@[k] == old_out[k]);
                }
                if j < m as int {
                    assert(input@[j] == old_input[j]);
                } else {
                    assert(input@[j] == old_input[j + 1]);
                }
            }
        }
    }
    out
}

/// The total row count of the schemas in scope.
pub open spec fn spec_sum_rows(schemas: Seq<SchemaRecord>, scope: Option<u64>) -> int
    decreases schemas.len(),
{
    if schemas.len() == 0 {
        0
    } else {
        spec_sum_rows(schemas.drop_last(), scope) + (if spec_schema_counted(
            schemas.last(),
            scope,
        ) {
            schemas.last().row_count as int
        } else {
            0int
        })
    }
}

/// Multiplying a larger factor by a nonnegative value gives no less.
proof fn lemma_mul_mono(a: int, b: int, m: int)
    by (nonlinear_arith)
    requires
        0 <= a <= b,
        0 <= m,
    ensures
        a * m <= b * m,
{
}

/// One more summand of at most `m` stays within one more multiple of `m`.
proof fn lemma_mul_step(i: int, m: int)
    by (nonlinear_arith)
    requires
        0 <= i,
        0 <= m,
    ensures
        i * m + m == (i + 1) * m,
{
}

/// Fewer than 2^64 summands of at most 2^64 - 1 fit in a u128.
proof fn lemma_u128_capacity(a: int)
    by (nonlinear_arith)
    requires
        0 <= a < 0x1_0000_0000_0000_0000,
    ensures
        a * 0xffff_ffff_ffff_ffff <= 0xffff_ffff_ffff_ffff_ffff_ffff_ffff_ffff,
{
}

/// Sum the row counts of the schemas in scope.
fn sum_rows(schemas: &Vec<SchemaRecord>, scope: Option<u64>) -> (r: u128)
    ensures
        r as int == spec_sum_rows(schemas@, scope),
{
    let total = schemas.len();
    let mut acc: u128 = 0;
    let mut i: usize = 0;
    proof {
        assert(schemas@.take(0) =~= Seq::<SchemaRecord>::empty());
    }
    while i < total
        invariant
            0 <= i <= total,
            total == schemas@.len(),
            acc as int == spec_sum_rows(schemas@.take(i as int), scope),
            acc as int <= (i as int) * 0xffff_ffff_ffff_ffff,
        decreases total - i,
    {
        proof {
            assert(schemas@.take(i + 1 as int).drop_last() =~= schemas@.take(i as int));
            assert(schemas@.take(i + 1 as int).last() == schemas@[i as int]);
            lemma_mul_step(i as int, 0xffff_ffff_ffff_ffff);
            lemma_mul_mono(i + 1, total as int, 0xffff_ffff_ffff_ffff);
            lemma_u128_capacity(total as int);
        }
        let in_scope = match scope {
            None => true,
            Some(c) => schemas[i].client_id == c,
        };
        if in_scope {
            acc = acc + schemas[i].row_count as u128;
        }
        i += 1;
    }
    proof {
        assert(schemas@.take(schemas@.len() as int) =~= schemas@);
    }
    acc
}

/// The analytics view: the ten most recent schemas in scope and the total
/// row count across the scope.
#[derive(Debug)]
pub struct AnalyticsResponse {
    pub recent_uploads: Vec<DatasetSummary>,
    pub total_rows: u128,
}

/// The tenant-scoped analytics projection: the ten most recently created
/// schemas in scope, newest first, and the scope's total row count.
pub fn get_analytics(store: &Store, p: &Principal) -> (r: Result<AnalyticsResponse, ApiError>)
    ensures
        match r {
            Ok(a) => spec_analytics_scope(*p) matches Ok(scope) && spec_schema_listing(
                store.schemas@,
                scope,
                10,
                a.recent_uploads@,
            ) && a.total_rows as int == spec_sum_rows(store.schemas@, scope),
            Err(e) => {
                &&& spec_analytics_scope(*p) matches Err(m)
                &&& is_forbidden(e, m)
            },
        },
{
    broadcast use vstd::seq_lib::group_to_multiset_ensures;

    let scope = match analytics_scope(p) {
        Err(e) => {
            return Err(e);
        },
        Ok(s) => s,
    };
    let unsorted = collect_schema_indices(&store.schemas, scope);
    let ghost unsorted_view = unsorted@;
    proof {
        assert(unsorted_view.no_duplicates()) by {
            assert forall|a: int, b: int|
                0 <= a < unsorted_view.len() && 0 <= b < unsorted_view.len() && a != b
                    implies unsorted_view[a] != unsorted_view[b] by {
                if a < b {
                    assert(unsorted_view[a] < unsorted_view[b]);
                } else {
                    assert(unsorted_view[b] < unsorted_view[a]);
                }
            }
        }
        unsorted_view.lemma_multiset_has_no_duplicates();
    }
    let order = sort_schema_indices_desc(&store.schemas, unsorted);
    proof {
        assert forall|x: usize| order@.to_multiset().contains(x) implies order@.to_multiset().count(
            x,
        ) == 1 by {
            assert(unsorted_view.to_multiset().contains(x));
        }
        order@.lemma_multiset_has_no_duplicates_conv();
    }
    let take_n = if order.len() > 10 {
        10
    } else {
        order.len()
    };
    let mut list: Vec<DatasetSummary> = Vec::new();
    let mut k: usize = 0;
    proof {
        assert(list@ =~= spec_project_schemas(store.schemas@, order@, 0));
    }
    while k < take_n
        invariant
            0 <= k <= take_n <= order@.len(),
            forall|t: int| 0 <= t < order@.len() ==> (#[trigger] order@[t]) < store.schemas@.len(),
            list@.len() == k,
            list@ == spec_project_schemas(store.schemas@, order@, k as int),
        decreases take_n - k,
    {
        let idx = order[k];
        let srec = &store.schemas[idx];
        list.push(
            DatasetSummary {
                schema_id: srec.id,
                schema_name: srec.schema_name.clone(),
                row_count: srec.row_count,
                created_at: srec.created_at,
            },
        );
        proof {
            assert(list@ =~= spec_project_schemas(store.schemas@, order@, k + 1 as int));
        }
        k += 1;
    }
    let total = sum_rows(&store.schemas, scope);
    proof {
        assert forall|j: int|
            0 <= j < store.schemas@.len() && spec_schema_counted(#[trigger] store.schemas@[j], scope)
                implies order@.contains(j as usize) by {
            unsorted_view.to_multiset_ensures();
            order@.to_multiset_ensures();
            assert(unsorted_view.contains(j as usize));
            assert(unsorted_view.to_multiset().count(j as usize) > 0);
            assert(order@.to_multiset().count(j as usize) > 0);
            assert(order@.contains(j as usize));
        }
        assert forall|k2: int| 0 <= k2 < order@.len() implies ((#[trigger] order@[k2])
            < store.schemas@.len() && spec_schema_counted(
            store.schemas@[order@[k2] as int],
            scope,
        )) by {
            unsorted_view.to_multiset_ensures();
            order@.to_multiset_ensures();
            assert(order@.contains(order@[k2]));
            assert(order@.to_multiset().count(order@[k2]) > 0);
            assert(unsorted_view.to_multiset().count(order@[k2]) > 0);
            assert(unsorted_view.contains(order@[k2]));
            let w = choose|w: int|
                0 <= w < unsorted_view.len() && unsorted_view[w] == order@[k2];
            assert(spec_schema_counted(store.schemas@[unsorted_view[w] as int], scope));
        }
        assert(order@.no_duplicates());
        assert(spec_schema_listing(store.schemas@, scope, 10, list@));
    }
    Ok(AnalyticsResponse { recent_uploads: list, total_rows: total })
}

} // verus!
