//! The logical row store: tenants, user accounts, registered schemas and
//! ingested rows, with the uniqueness invariants the backing store's schema
//! guarantees (unique emails, unique schema names, unique ids).
use vstd::prelude::*;
use crate::types::AccessLevel;
use crate::types::AccountStatus;
use crate::types::ClientType;
use crate::types::UserRole;
use crate::strutil::str_eq;
use vstd::string::StringExecFns;

verus! {

/// A tenant: an isolated customer account owning users, schemas and rows.
#[derive(Debug)]
pub struct Client {
    pub id: u64,
    pub name: String,
    pub client_type: ClientType,
    /// Unix seconds; present exactly for natural persons.
    pub contract_expires_at: Option<i64>,
    pub created_at: i64,
}

/// A stored user account. `client_id` is `None` only for Root.
#[derive(Debug)]
pub struct UserAccount {
    pub id: u64,
    pub client_id: Option<u64>,
    pub email: String,
    pub password_hash: String,
    pub role: UserRole,
    pub status: AccountStatus,
    pub access_level: AccessLevel,
    pub created_at: i64,
}

/// The registered shape of one ingested dataset, with its running row count.
#[derive(Debug)]
pub struct SchemaRecord {
    pub id: u64,
    pub client_id: u64,
    pub schema_name: String,
    pub columns: Vec<String>,
    pub row_count: u64,
    pub created_at: i64,
    pub updated_at: i64,
}

/// One ingested row: a string-keyed record owned by exactly one schema and
/// one tenant.
#[derive(Debug)]
pub struct DataRow {
    pub schema_id: u64,
    pub client_id: u64,
    pub data: Vec<(String, String)>,
}

/// The whole store. `next_id` feeds fresh record ids.
#[derive(Debug)]
pub struct Store {
    pub clients: Vec<Client>,
    pub users: Vec<UserAccount>,
    pub schemas: Vec<SchemaRecord>,
    pub rows: Vec<DataRow>,
    pub next_id: u64,
}

/// No two accounts share an email.
pub open spec fn emails_unique(users: Seq<UserAccount>) -> bool {
    forall|i: int, j: int| 0 <= i < j < users.len() ==> users[i].email@ != users[j].email@
}

/// No two schemas share a name.
pub open spec fn schema_names_unique(schemas: Seq<SchemaRecord>) -> bool {
    forall|i: int, j: int|
        0 <= i < j < schemas.len() ==> schemas[i].schema_name@ != schemas[j].schema_name@
}

/// Does some schema in `schemas` own this row? (On a schema-name merge
/// the row's tenant may diverge from the schema's original tenant, so only
/// the schema id is tied.)
pub open spec fn row_has_schema(row: DataRow, schemas: Seq<SchemaRecord>) -> bool {
    exists|k: int| 0 <= k < schemas.len() && (#[trigger] schemas[k]).id == row.schema_id
}

/// Every row belongs to a registered schema.
pub open spec fn rows_linked(rows: Seq<DataRow>, schemas: Seq<SchemaRecord>) -> bool {
    forall|i: int| 0 <= i < rows.len() ==> row_has_schema(#[trigger] rows[i], schemas)
}

impl Store {
    /// The store's invariant: unique emails, unique schema names, ids below
    /// the id counter and unique per table, rows linked to their schema.
    pub open spec fn wf(self) -> bool {
        &&& emails_unique(self.users@)
        &&& schema_names_unique(self.schemas@)
        &&& rows_linked(self.rows@, self.schemas@)
        &&& forall|i: int| 0 <= i < self.users@.len() ==> self.users@[i].id < self.next_id
        &&& forall|i: int| 0 <= i < self.clients@.len() ==> self.clients@[i].id < self.next_id
        &&& forall|i: int| 0 <= i < self.schemas@.len() ==> self.schemas@[i].id < self.next_id
        &&& forall|i: int, j: int|
            0 <= i < j < self.users@.len() ==> self.users@[i].id != self.users@[j].id
        &&& forall|i: int, j: int|
            0 <= i < j < self.clients@.len() ==> self.clients@[i].id != self.clients@[j].id
        &&& forall|i: int, j: int|
            0 <= i < j < self.schemas@.len() ==> self.schemas@[i].id != self.schemas@[j].id
    }

    /// An empty store.
    pub fn new() -> (r: Store)
        ensures
            r.wf(),
            r.clients@.len() == 0,
            r.users@.len() == 0,
            r.schemas@.len() == 0,
            r.rows@.len() == 0,
            r.next_id == 0,
    {
        Store { clients: Vec::new(), users: Vec::new(), schemas: Vec::new(), rows: Vec::new(), next_id: 0 }
    }

    /// Is some account registered under this email?
    pub open spec fn spec_has_email(self, email: Seq<char>) -> bool {
        exists|i: int| 0 <= i < self.users@.len() && self.users@[i].email@ == email
    }

    /// Is some schema registered under this name?
    pub open spec fn spec_has_schema_name(self, name: Seq<char>) -> bool {
        exists|i: int| 0 <= i < self.schemas@.len() && self.schemas@[i].schema_name@ == name
    }

    /// Find the account with this email, if any.
    pub fn find_user_by_email(&self, email: &str) -> (r: Option<usize>)
        ensures
            match r {
                Some(i) => i < self.users@.len() && self.users@[i as int].email@ == email@,
                None => !self.spec_has_email(email@),
            },
    {
        let mut i: usize = 0;
        while i < self.users.len()
            invariant
                0 <= i <= self.users@.len(),
                forall|j: int| 0 <= j < i ==> self.users@[j].email@ != email@,
            decreases self.users@.len() - i,
        {
            if str_eq(self.users[i].email.as_str(), email) {
                return Some(i);
            }
            i += 1;
        }
        None
    }

    /// Find the schema with this name, if any.
    pub fn find_schema_by_name(&self, name: &str) -> (r: Option<usize>)
        ensures
            match r {
                Some(i) => i < self.schemas@.len() && self.schemas@[i as int].schema_name@
                    == name@,
                None => !self.spec_has_schema_name(name@),
            },
    {
        let mut i: usize = 0;
        while i < self.schemas.len()
            invariant
                0 <= i <= self.schemas@.len(),
                forall|j: int| 0 <= j < i ==> self.schemas@[j].schema_name@ != name@,
            decreases self.schemas@.len() - i,
        {
            if str_eq(self.schemas[i].schema_name.as_str(), name) {
                return Some(i);
            }
            i += 1;
        }
        None
    }
}

/// Make sure a Root account exists: if no account is registered under the
/// bootstrap email, append one with the given credential hash; otherwise
/// leave the store unchanged.
pub fn ensure_root_user(store: &mut Store, password_hash: String, now: i64)
    requires
        old(store).wf(),
        old(store).next_id < u64::MAX,
    ensures
        final(store).wf(),
        old(store).spec_has_email("root@ccb.com"@) ==> *final(store) == *old(store),
        !old(store).spec_has_email("root@ccb.com"@) ==> {
            &&& final(store).users@ == old(store).users@.push(
                final(store).users@.last(),
            )
            &&& final(store).users@.last().email@ == "root@ccb.com"@
            &&& final(store).users@.last().role == UserRole::Root
            &&& final(store).users@.last().client_id is None
            &&& final(store).users@.last().status == AccountStatus::Active
            &&& final(store).users@.last().access_level == AccessLevel::ReadWrite
            &&& final(store).users@.last().password_hash == password_hash
            &&& final(store).users@.last().created_at == now
            &&& final(store).clients@ == old(store).clients@
            &&& final(store).schemas@ == old(store).schemas@
            &&& final(store).rows@ == old(store).rows@
            &&& final(store).next_id == old(store).next_id + 1
        },
{
    let root_email = "root@ccb.com";
    match store.find_user_by_email(root_email) {
        Some(_) => {
        },
        None => {
            let id = store.next_id;
            let account = UserAccount {
                id,
                client_id: None,
                email: String::from_str(root_email),
                password_hash,
                role: UserRole::Root,
                status: AccountStatus::Active,
                access_level: AccessLevel::ReadWrite,
                created_at: now,
            };
            store.users.push(account);
            store.next_id = id + 1;
        },
    }
}

} // verus!
