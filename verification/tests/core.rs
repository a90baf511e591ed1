use ccb_core::authn::hash_password;
use ccb_core::authn::login;
use ccb_core::csvparse::parse_csv;
use ccb_core::pipeline::upload_dataset;
use ccb_core::pipeline::UploadField;
use ccb_core::policy::resolve_upload_target;
use ccb_core::policy::upload_gate;
use ccb_core::queries::create_client;
use ccb_core::queries::get_analytics;
use ccb_core::queries::get_stats;
use ccb_core::queries::interpret_train_response;
use ccb_core::queries::search_clients;
use ccb_core::queries::search_clients_public;
use ccb_core::sheet::parse_sheet;
use ccb_core::store::ensure_root_user;
use ccb_core::store::Store;
use ccb_core::store::UserAccount;
use ccb_core::strutil::lower_chars;
use ccb_core::strutil::parse_u64;
use ccb_core::strutil::str_eq;
use ccb_core::strutil::trim_chars;
use ccb_core::token::access_from_str;
use ccb_core::token::issue_token;
use ccb_core::token::role_from_str;
use ccb_core::token::verify_token;
use ccb_core::token::TOKEN_TTL_SECONDS;
use ccb_core::types::AccessLevel;
use ccb_core::types::AccountStatus;
use ccb_core::types::ApiError;
use ccb_core::types::ClientType;
use ccb_core::types::CreateClientPayload;
use ccb_core::types::CreateUserPayload;
use ccb_core::types::Principal;
use ccb_core::types::UserRole;
use ccb_core::users::get_company_users;
use ccb_core::users::register_user;
use ccb_core::users::register_user_with_hash;

fn principal(id: u64, role: UserRole, client_id: Option<u64>, access: AccessLevel) -> Principal {
    Principal { id, role, client_id, access_level: access }
}

fn root() -> Principal {
    principal(1, UserRole::Root, None, AccessLevel::ReadWrite)
}

fn admin(tenant: u64) -> Principal {
    principal(2, UserRole::CompanyAdmin, Some(tenant), AccessLevel::ReadWrite)
}

fn plain_user(tenant: u64, access: AccessLevel) -> Principal {
    principal(3, UserRole::User, Some(tenant), access)
}

fn store_with_tenant(name: &str) -> (Store, u64) {
    let mut store = Store::new();
    let payload = CreateClientPayload {
        name: name.to_string(),
        client_type: ClientType::Company,
        contract_duration_days: None,
    };
    let rec = create_client(&mut store, &root(), payload, 100).unwrap();
    let id = rec.id;
    (store, id)
}

fn account(
    store: &mut Store,
    email: &str,
    password: &str,
    role: UserRole,
    client_id: Option<u64>,
    status: AccountStatus,
    access: AccessLevel,
    created_at: i64,
) -> u64 {
    let id = store.next_id;
    store.users.push(UserAccount {
        id,
        client_id,
        email: email.to_string(),
        password_hash: hash_password(password).unwrap(),
        role,
        status,
        access_level: access,
        created_at,
    });
    store.next_id += 1;
    id
}

fn text_field(name: &str, value: &str) -> UploadField {
    UploadField { name: name.to_string(), filename: None, bytes: value.as_bytes().to_vec() }
}

fn file_field(filename: &str, bytes: &[u8]) -> UploadField {
    UploadField {
        name: "file".to_string(),
        filename: Some(filename.to_string()),
        bytes: bytes.to_vec(),
    }
}

fn chars(s: &str) -> Vec<char> {
    s.chars().collect()
}

// --- string helpers ---

#[test]
fn parse_u64_exact_values() {
    assert_eq!(parse_u64(&chars("42")), Some(42));
    assert_eq!(parse_u64(&chars("0")), Some(0));
    assert_eq!(parse_u64(&chars("007")), Some(7));
    assert_eq!(parse_u64(&chars("18446744073709551615")), Some(u64::MAX));
    assert_eq!(parse_u64(&chars("18446744073709551616")), None);
    assert_eq!(parse_u64(&chars("")), None);
    assert_eq!(parse_u64(&chars("12a")), None);
    assert_eq!(parse_u64(&chars("-3")), None);
}

#[test]
fn trim_and_lower_chars() {
    assert_eq!(trim_chars(&chars(" \t a b \r\n")), chars("a b"));
    assert_eq!(trim_chars(&chars("abc")), chars("abc"));
    assert_eq!(trim_chars(&chars("   ")), Vec::<char>::new());
    assert_eq!(lower_chars(&chars("AbZ9;")), chars("abz9;"));
}

#[test]
fn str_eq_compares_characters() {
    assert!(str_eq("hola", "hola"));
    assert!(!str_eq("hola", "holá"));
    assert!(!str_eq("a", "ab"));
    assert!(str_eq("", ""));
}

// --- error model ---

#[test]
fn error_status_codes_and_messages() {
    assert_eq!(ApiError::BadRequest("x".to_string()).status_code(), 400);
    assert_eq!(ApiError::AuthError("x".to_string()).status_code(), 401);
    assert_eq!(ApiError::Unauthorized("x".to_string()).status_code(), 401);
    assert_eq!(ApiError::Forbidden("x".to_string()).status_code(), 403);
    assert_eq!(ApiError::StorageFailure("detail".to_string()).status_code(), 500);
    assert_eq!(ApiError::InternalError.status_code(), 500);
    assert_eq!(ApiError::BadRequest("x".to_string()).client_message(), "x");
    // storage detail is down-leveled before it reaches a client
    assert_eq!(ApiError::StorageFailure("secret detail".to_string()).client_message(), "Error interno");
    assert_eq!(ApiError::InternalError.client_message(), "Error interno");
}

#[test]
fn role_and_access_wire_names() {
    assert_eq!(role_from_str(UserRole::Root.as_str()), Some(UserRole::Root));
    assert_eq!(role_from_str(UserRole::CompanyAdmin.as_str()), Some(UserRole::CompanyAdmin));
    assert_eq!(role_from_str(UserRole::User.as_str()), Some(UserRole::User));
    assert_eq!(role_from_str("admin"), None);
    assert_eq!(access_from_str("read_write"), AccessLevel::ReadWrite);
    assert_eq!(access_from_str("read_only"), AccessLevel::ReadOnly);
    assert_eq!(access_from_str("anything else"), AccessLevel::ReadOnly);
}

// --- session codec ---

#[test]
fn token_roundtrip_verifies() {
    let p = principal(7, UserRole::CompanyAdmin, Some(9), AccessLevel::ReadWrite);
    let token = issue_token(&p, "secret", 1_000_000);
    let got = verify_token(&token, "secret", 1_000_010).unwrap();
    assert_eq!(got.id, 7);
    assert_eq!(got.role, UserRole::CompanyAdmin);
    assert_eq!(got.client_id, Some(9));
    assert_eq!(got.access_level, AccessLevel::ReadWrite);
}

#[test]
fn token_expired_rejected() {
    let p = root();
    let now = 1_000_000;
    let token = issue_token(&p, "secret", now);
    // the embedded expiry is now + 24h; exactly at expiry the token is dead
    let r = verify_token(&token, "secret", now + TOKEN_TTL_SECONDS);
    assert!(matches!(r, Err(ApiError::Unauthorized(_))));
    // one second before expiry it still verifies
    assert!(verify_token(&token, "secret", now + TOKEN_TTL_SECONDS - 1).is_ok());
}

#[test]
fn token_tampered_signature_rejected() {
    let p = root();
    let token = issue_token(&p, "secret", 1_000_000);
    let mut tampered = token.clone();
    let last = tampered.pop().unwrap();
    tampered.push(if last == 'A' { 'B' } else { 'A' });
    assert!(matches!(verify_token(&tampered, "secret", 1_000_010), Err(ApiError::Unauthorized(_))));
}

#[test]
fn token_wrong_secret_rejected() {
    let token = issue_token(&root(), "secret", 1_000_000);
    assert!(matches!(verify_token(&token, "other", 1_000_010), Err(ApiError::Unauthorized(_))));
}

#[test]
fn token_garbage_rejected() {
    assert!(matches!(verify_token("not.a.token", "secret", 0), Err(ApiError::Unauthorized(_))));
    assert!(matches!(verify_token("", "secret", 0), Err(ApiError::Unauthorized(_))));
}

// --- authentication ---

#[test]
fn login_unknown_email_generic_message() {
    let store = Store::new();
    let r = login(&store, "nobody@x.com", "pw", "secret", 0);
    match r {
        Err(ApiError::AuthError(m)) => assert_eq!(m, "Credenciales invalidas"),
        other => panic!("unexpected: {:?}", other.is_ok()),
    }
}

#[test]
fn login_wrong_password_generic_message() {
    let mut store = Store::new();
    account(
        &mut store, "u@x.com", "right", UserRole::User, Some(1), AccountStatus::Active,
        AccessLevel::ReadWrite, 10,
    );
    match login(&store, "u@x.com", "wrong", "secret", 0) {
        Err(ApiError::AuthError(m)) => assert_eq!(m, "Credenciales invalidas"),
        _ => panic!("expected auth error"),
    }
}

#[test]
fn login_disabled_distinct_reason_same_kind() {
    let mut store = Store::new();
    account(
        &mut store, "off@x.com", "pw", UserRole::User, Some(1), AccountStatus::Disabled,
        AccessLevel::ReadWrite, 10,
    );
    account(
        &mut store, "on@x.com", "pw", UserRole::User, Some(1), AccountStatus::Active,
        AccessLevel::ReadWrite, 10,
    );
    // disabled accounts are rejected even with the correct password
    let disabled = login(&store, "off@x.com", "pw", "secret", 0);
    let mismatch = login(&store, "on@x.com", "bad", "secret", 0);
    match (disabled, mismatch) {
        (Err(e1), Err(e2)) => {
            // both are the same kind of failure, with the same status
            assert_eq!(e1.status_code(), 401);
            assert_eq!(e2.status_code(), 401);
            assert!(matches!(e1, ApiError::AuthError(_)));
            assert!(matches!(e2, ApiError::AuthError(_)));
            // yet the reasons are distinct
            match (e1, e2) {
                (ApiError::AuthError(m1), ApiError::AuthError(m2)) => {
                    assert_eq!(m1, "Usuario deshabilitado por administracion.");
                    assert_eq!(m2, "Credenciales invalidas");
                    assert_ne!(m1, m2);
                }
                _ => unreachable!(),
            }
        }
        _ => panic!("both logins must fail"),
    }
}

#[test]
fn login_success_issues_verifiable_token() {
    let mut store = Store::new();
    let uid = account(
        &mut store, "u@x.com", "pw", UserRole::CompanyAdmin, Some(5), AccountStatus::Active,
        AccessLevel::ReadWrite, 10,
    );
    let resp = login(&store, "u@x.com", "pw", "secret", 1000).unwrap();
    assert_eq!(resp.user.id, uid);
    assert_eq!(resp.user.email, "u@x.com");
    assert_eq!(resp.user.client_id, Some(5));
    let p = verify_token(&resp.token, "secret", 2000).unwrap();
    assert_eq!(p.id, uid);
    assert_eq!(p.role, UserRole::CompanyAdmin);
    assert_eq!(p.client_id, Some(5));
}

#[test]
fn login_unreadable_stored_hash_is_internal() {
    let mut store = Store::new();
    let id = store.next_id;
    store.users.push(UserAccount {
        id,
        client_id: Some(1),
        email: "broken@x.com".to_string(),
        password_hash: "not a phc hash".to_string(),
        role: UserRole::User,
        status: AccountStatus::Active,
        access_level: AccessLevel::ReadWrite,
        created_at: 0,
    });
    store.next_id += 1;
    assert!(matches!(login(&store, "broken@x.com", "pw", "secret", 0), Err(ApiError::InternalError)));
}

// --- store bootstrap ---

#[test]
fn ensure_root_user_idempotent() {
    let mut store = Store::new();
    let hash = hash_password("admin").unwrap();
    ensure_root_user(&mut store, hash, 50);
    assert_eq!(store.users.len(), 1);
    assert_eq!(store.users[0].email, "root@ccb.com");
    assert_eq!(store.users[0].role, UserRole::Root);
    assert!(store.users[0].client_id.is_none());
    let hash2 = hash_password("other").unwrap();
    ensure_root_user(&mut store, hash2, 60);
    assert_eq!(store.users.len(), 1);
    // bootstrapped root can log in
    assert!(login(&store, "root@ccb.com", "admin", "secret", 0).is_ok());
}

// --- user management ---

#[test]
fn admin_created_user_tenant_forced() {
    let mut store = Store::new();
    let payload = CreateUserPayload {
        email: "new@x.com".to_string(),
        password: "pw".to_string(),
        role: UserRole::User,
        client_id: Some(99),  // the admin asks for another tenant
        status: None,
        access_level: None,
    };
    let resp = register_user(&mut store, &admin(7), payload, 10).unwrap();
    assert_eq!(resp.client_id, Some(7));
    assert_eq!(resp.role, UserRole::User);
    assert_eq!(resp.status, AccountStatus::Active);
    assert_eq!(resp.access_level, AccessLevel::ReadWrite);
    assert_eq!(store.users.len(), 1);
    assert_eq!(store.users[0].client_id, Some(7));
}

#[test]
fn admin_cannot_create_root() {
    let mut store = Store::new();
    let payload = CreateUserPayload {
        email: "boss@x.com".to_string(),
        password: "pw".to_string(),
        role: UserRole::Root,
        client_id: None,
        status: None,
        access_level: None,
    };
    match register_user(&mut store, &admin(7), payload, 10) {
        Err(ApiError::Forbidden(m)) => assert_eq!(m, "No puedes crear Super Usuarios"),
        _ => panic!("expected forbidden"),
    }
    assert!(store.users.is_empty());
}

#[test]
fn plain_user_cannot_create_users() {
    let mut store = Store::new();
    let payload = CreateUserPayload {
        email: "n@x.com".to_string(),
        password: "pw".to_string(),
        role: UserRole::User,
        client_id: None,
        status: None,
        access_level: None,
    };
    match register_user(&mut store, &plain_user(7, AccessLevel::ReadWrite), payload, 10) {
        Err(ApiError::Forbidden(m)) => assert_eq!(m, "No tienes permiso para gestionar usuarios"),
        _ => panic!("expected forbidden"),
    }
}

#[test]
fn duplicate_email_friendly_message() {
    let mut store = Store::new();
    account(
        &mut store, "dup@x.com", "pw", UserRole::User, Some(1), AccountStatus::Active,
        AccessLevel::ReadWrite, 10,
    );
    let payload = CreateUserPayload {
        email: "dup@x.com".to_string(),
        password: "pw2".to_string(),
        role: UserRole::User,
        client_id: Some(1),
        status: None,
        access_level: None,
    };
    match register_user(&mut store, &root(), payload, 20) {
        Err(ApiError::BadRequest(m)) => assert_eq!(m, "El email ya esta registrado"),
        _ => panic!("expected bad request"),
    }
    assert_eq!(store.users.len(), 1);
}

#[test]
fn company_users_scoped_to_admins_tenant() {
    let mut store = Store::new();
    account(&mut store, "a@x.com", "pw", UserRole::User, Some(7), AccountStatus::Active, AccessLevel::ReadWrite, 10);
    account(&mut store, "b@x.com", "pw", UserRole::User, Some(8), AccountStatus::Active, AccessLevel::ReadWrite, 20);
    account(&mut store, "c@x.com", "pw", UserRole::User, Some(7), AccountStatus::Active, AccessLevel::ReadWrite, 30);
    let list = get_company_users(&store, &admin(7)).unwrap();
    assert_eq!(list.len(), 2);
    // newest first, and only tenant 7
    assert_eq!(list[0].email, "c@x.com");
    assert_eq!(list[1].email, "a@x.com");
    assert!(list.iter().all(|u| u.client_id == Some(7)));
}

#[test]
fn company_users_root_sees_all_newest_first() {
    let mut store = Store::new();
    account(&mut store, "a@x.com", "pw", UserRole::User, Some(7), AccountStatus::Active, AccessLevel::ReadWrite, 10);
    account(&mut store, "b@x.com", "pw", UserRole::User, Some(8), AccountStatus::Active, AccessLevel::ReadWrite, 30);
    account(&mut store, "c@x.com", "pw", UserRole::User, None, AccountStatus::Active, AccessLevel::ReadWrite, 20);
    let list = get_company_users(&store, &root()).unwrap();
    assert_eq!(list.len(), 3);
    assert_eq!(list[0].email, "b@x.com");
    assert_eq!(list[1].email, "c@x.com");
    assert_eq!(list[2].email, "a@x.com");
}

#[test]
fn company_users_plain_user_denied() {
    let store = Store::new();
    match get_company_users(&store, &plain_user(7, AccessLevel::ReadWrite)) {
        Err(ApiError::Forbidden(m)) => assert_eq!(m, "Acceso denegado"),
        _ => panic!("expected forbidden"),
    }
}

#[test]
fn register_with_hash_success_owed_and_duplicate_refused() {
    let mut store = Store::new();
    let payload = CreateUserPayload {
        email: "h@x.com".to_string(),
        password: "unused-here".to_string(),
        role: UserRole::User,
        client_id: Some(4),
        status: None,
        access_level: None,
    };
    let resp = register_user_with_hash(&mut store, &root(), payload, "stored-hash".to_string(), 5)
        .unwrap();
    assert_eq!(resp.email, "h@x.com");
    assert_eq!(store.users[0].password_hash, "stored-hash");
    let again = CreateUserPayload {
        email: "h@x.com".to_string(),
        password: "pw".to_string(),
        role: UserRole::User,
        client_id: Some(4),
        status: None,
        access_level: None,
    };
    match register_user_with_hash(&mut store, &root(), again, "other-hash".to_string(), 6) {
        Err(ApiError::BadRequest(m)) => assert_eq!(m, "El email ya esta registrado"),
        _ => panic!("expected the friendly duplicate message"),
    }
    assert_eq!(store.users.len(), 1);
}

// --- policy ---

#[test]
fn upload_gate_rules() {
    assert!(upload_gate(&root()).is_ok());
    // root is exempt from both the tenant and the access-level checks
    assert!(upload_gate(&principal(1, UserRole::Root, None, AccessLevel::ReadOnly)).is_ok());
    match upload_gate(&plain_user(7, AccessLevel::ReadOnly)) {
        Err(ApiError::Forbidden(m)) => assert_eq!(m, "Cuenta de solo lectura."),
        _ => panic!("expected forbidden"),
    }
    match upload_gate(&principal(3, UserRole::User, None, AccessLevel::ReadWrite)) {
        Err(ApiError::Forbidden(m)) => assert_eq!(m, "Usuario sin permisos de empresa."),
        _ => panic!("expected forbidden"),
    }
}

#[test]
fn upload_target_isolation() {
    // a non-root principal always lands in its own tenant, whatever it asks for
    assert_eq!(resolve_upload_target(&admin(7), Some(42)), Some(7));
    assert_eq!(resolve_upload_target(&plain_user(7, AccessLevel::ReadWrite), Some(42)), Some(7));
    // root picks explicitly, or has no destination
    assert_eq!(resolve_upload_target(&root(), Some(42)), Some(42));
    assert_eq!(resolve_upload_target(&root(), None), None);
}

// --- CSV parser ---

#[test]
fn csv_semicolon_trimmed_headers() {
    let data = b" a ; b ;c\n1;2;3\n4;5;6".to_vec();
    let (headers, rows) = parse_csv(&data).unwrap();
    assert_eq!(headers, vec!["a".to_string(), "b".to_string(), "c".to_string()]);
    assert_eq!(rows.len(), 2);
    assert_eq!(
        rows[0],
        vec![
            ("a".to_string(), "1".to_string()),
            ("b".to_string(), "2".to_string()),
            ("c".to_string(), "3".to_string()),
        ]
    );
    assert_eq!(
        rows[1],
        vec![
            ("a".to_string(), "4".to_string()),
            ("b".to_string(), "5".to_string()),
            ("c".to_string(), "6".to_string()),
        ]
    );
}

#[test]
fn csv_comma_flexible_field_counts() {
    let data = b"h1,h2\nv1\nx1,x2,x3".to_vec();
    let (headers, rows) = parse_csv(&data).unwrap();
    assert_eq!(headers, vec!["h1".to_string(), "h2".to_string()]);
    assert_eq!(rows.len(), 2);
    // a short row yields fewer populated columns
    assert_eq!(rows[0], vec![("h1".to_string(), "v1".to_string())]);
    // values beyond the header count are dropped
    assert_eq!(
        rows[1],
        vec![("h1".to_string(), "x1".to_string()), ("h2".to_string(), "x2".to_string())]
    );
}

#[test]
fn csv_crlf_and_blank_lines_skipped() {
    let data = b"a,b\r\n\r\n1,2\r\n".to_vec();
    let (headers, rows) = parse_csv(&data).unwrap();
    assert_eq!(headers, vec!["a".to_string(), "b".to_string()]);
    assert_eq!(rows.len(), 1);
    assert_eq!(rows[0], vec![("a".to_string(), "1".to_string()), ("b".to_string(), "2".to_string())]);
}

#[test]
fn csv_invalid_bytes_name_failing_stage() {
    // corruption after the header line: the row stage is named
    let mut data = b"a,b\n1,".to_vec();
    data.push(0xff);
    match parse_csv(&data) {
        Err(ApiError::BadRequest(m)) => assert_eq!(m, "CSV Invalido: Error parseando fila"),
        _ => panic!("expected bad request"),
    }
    // corruption in the header line itself
    let mut data2 = vec![0xffu8];
    data2.extend_from_slice(b"a,b\n1,2");
    match parse_csv(&data2) {
        Err(ApiError::BadRequest(m)) => assert_eq!(m, "CSV Invalido: Error leyendo headers"),
        _ => panic!("expected bad request"),
    }
}

#[test]
fn csv_empty_input_yields_empty_table() {
    let (headers, rows) = parse_csv(&Vec::new()).unwrap();
    assert!(headers.is_empty());
    assert!(rows.is_empty());
}

// --- spreadsheets ---

#[test]
fn sheet_garbage_bytes_rejected() {
    let junk = b"this is not a workbook".to_vec();
    match parse_sheet(&junk, true) {
        Err(ApiError::BadRequest(m)) => assert_eq!(m, "Error abriendo XLSX"),
        _ => panic!("expected bad request"),
    }
    match parse_sheet(&junk, false) {
        Err(ApiError::BadRequest(m)) => assert_eq!(m, "Error abriendo XLS"),
        _ => panic!("expected bad request"),
    }
}

// --- ingestion pipeline ---

#[test]
fn upload_root_scenario_sales_csv() {
    let (mut store, tenant) = store_with_tenant("Tenant X");
    let fields = vec![
        text_field("target_client_id", &tenant.to_string()),
        file_field("sales.csv", b"id,amount\n1,10\n2,20\n3,30"),
    ];
    let resp = upload_dataset(&mut store, &root(), fields, 0, true).unwrap();
    assert_eq!(resp.rows_processed, 3);
    assert_eq!(resp.schema_name, "sales_csv_19700101_000000");
    assert_eq!(resp.message, "Archivo procesado exitosamente");
    assert_eq!(store.schemas.len(), 1);
    assert_eq!(store.schemas[0].client_id, tenant);
    assert_eq!(store.schemas[0].row_count, 3);
    assert_eq!(store.schemas[0].schema_name, "sales_csv_19700101_000000");
    assert_eq!(store.schemas[0].columns, vec!["id".to_string(), "amount".to_string()]);
    assert_eq!(store.rows.len(), 3);
    assert!(store.rows.iter().all(|r| r.client_id == tenant && r.schema_id == store.schemas[0].id));
    assert_eq!(
        store.rows[0].data,
        vec![("id".to_string(), "1".to_string()), ("amount".to_string(), "10".to_string())]
    );
}

#[test]
fn upload_read_only_forbidden() {
    let (mut store, tenant) = store_with_tenant("T");
    let fields = vec![file_field("a.csv", b"a\n1")];
    match upload_dataset(&mut store, &plain_user(tenant, AccessLevel::ReadOnly), fields, 0, true) {
        Err(ApiError::Forbidden(m)) => assert_eq!(m, "Cuenta de solo lectura."),
        _ => panic!("expected forbidden"),
    }
    assert!(store.rows.is_empty());
    assert!(store.schemas.is_empty());
}

#[test]
fn upload_storage_failure_leaves_nothing() {
    let (mut store, tenant) = store_with_tenant("T");
    let fields = vec![
        text_field("target_client_id", &tenant.to_string()),
        file_field("batch.csv", b"a,b\n1,2\n3,4\n5,6\n7,8\n9,10\n11,12\n13,14\n15,16\n17,18\n19,20"),
    ];
    let r = upload_dataset(&mut store, &root(), fields, 0, false);
    assert!(matches!(r, Err(ApiError::StorageFailure(_))));
    // zero rows visible, no schema, nothing half-done
    assert!(store.rows.is_empty());
    assert!(store.schemas.is_empty());
    assert_eq!(store.users.len(), 0);
}

#[test]
fn upload_nonroot_override_ignored() {
    let (mut store, tenant) = store_with_tenant("Mine");
    let fields = vec![
        text_field("target_client_id", "424242"),
        file_field("d.csv", b"a\n1"),
    ];
    let p = principal(9, UserRole::CompanyAdmin, Some(tenant), AccessLevel::ReadWrite);
    upload_dataset(&mut store, &p, fields, 0, true).unwrap();
    assert_eq!(store.schemas[0].client_id, tenant);
    assert!(store.rows.iter().all(|r| r.client_id == tenant));
}

#[test]
fn upload_missing_file_rejected() {
    let mut store = Store::new();
    let fields = vec![text_field("target_client_id", "1")];
    match upload_dataset(&mut store, &root(), fields, 0, true) {
        Err(ApiError::BadRequest(m)) => assert_eq!(m, "Falta el archivo"),
        _ => panic!("expected bad request"),
    }
}

#[test]
fn upload_root_without_destination_rejected() {
    let mut store = Store::new();
    let fields = vec![file_field("a.csv", b"a\n1")];
    match upload_dataset(&mut store, &root(), fields, 0, true) {
        Err(ApiError::BadRequest(m)) => assert_eq!(m, "Root debe seleccionar una empresa destino."),
        _ => panic!("expected bad request"),
    }
}

#[test]
fn upload_unsupported_format_rejected() {
    let (mut store, tenant) = store_with_tenant("T");
    for name in ["a.txt", "noextension", ".csv", "a."] {
        let fields = vec![
            text_field("target_client_id", &tenant.to_string()),
            file_field(name, b"a\n1"),
        ];
        match upload_dataset(&mut store, &root(), fields, 0, true) {
            Err(ApiError::BadRequest(m)) => assert_eq!(m, "Formato no soportado"),
            _ => panic!("expected bad request for {}", name),
        }
    }
}

#[test]
fn upload_bad_destination_field_rejected() {
    let mut store = Store::new();
    let fields = vec![
        text_field("target_client_id", "not-a-number"),
        file_field("a.csv", b"a\n1"),
    ];
    match upload_dataset(&mut store, &root(), fields, 0, true) {
        Err(ApiError::BadRequest(m)) => assert_eq!(m, "Client ID invalido"),
        _ => panic!("expected bad request"),
    }
    let fields2 = vec![
        UploadField {
            name: "target_client_id".to_string(),
            filename: None,
            bytes: vec![0xff, 0xfe],
        },
        file_field("a.csv", b"a\n1"),
    ];
    match upload_dataset(&mut store, &root(), fields2, 0, true) {
        Err(ApiError::BadRequest(m)) => assert_eq!(m, "Error leyendo client id"),
        _ => panic!("expected bad request"),
    }
}

#[test]
fn upload_empty_dataset_rejected() {
    let (mut store, tenant) = store_with_tenant("T");
    let fields = vec![
        text_field("target_client_id", &tenant.to_string()),
        file_field("empty.csv", b"a,b\n"),
    ];
    match upload_dataset(&mut store, &root(), fields, 0, true) {
        Err(ApiError::BadRequest(m)) => assert_eq!(m, "El archivo esta vacio"),
        _ => panic!("expected bad request"),
    }
    assert!(store.schemas.is_empty());
}

#[test]
fn csv_quoted_field_keeps_delimiter() {
    let data = b"a,b\n\"x,y\",z".to_vec();
    let (headers, rows) = parse_csv(&data).unwrap();
    assert_eq!(headers, vec!["a".to_string(), "b".to_string()]);
    assert_eq!(
        rows[0],
        vec![("a".to_string(), "x,y".to_string()), ("b".to_string(), "z".to_string())]
    );
}

#[test]
fn csv_quoted_field_keeps_newline() {
    let data = b"a,b\n\"l1\nl2\",v".to_vec();
    let (headers, rows) = parse_csv(&data).unwrap();
    assert_eq!(headers, vec!["a".to_string(), "b".to_string()]);
    assert_eq!(rows.len(), 1);
    assert_eq!(
        rows[0],
        vec![("a".to_string(), "l1\nl2".to_string()), ("b".to_string(), "v".to_string())]
    );
}

#[test]
fn csv_doubled_quote_is_literal() {
    let data = b"a,b\n\"he said \"\"hi\"\"\",2".to_vec();
    let (_, rows) = parse_csv(&data).unwrap();
    assert_eq!(
        rows[0],
        vec![
            ("a".to_string(), "he said \"hi\"".to_string()),
            ("b".to_string(), "2".to_string()),
        ]
    );
}

#[test]
fn csv_quoted_headers_trimmed() {
    let data = b"\" a \",\"b;c\"\nsemi;colon,2".to_vec();
    // the raw-byte sniff sees the quoted semicolon, so ';' is the
    // delimiter, and the quoted header then holds no separator at all
    let (headers, rows) = parse_csv(&data).unwrap();
    assert_eq!(headers.len(), 1);
    assert_eq!(headers[0], "a ,b;c");
    assert_eq!(rows[0], vec![("a ,b;c".to_string(), "semi".to_string())]);
}

#[test]
fn csv_sniff_window_is_first_thousand_bytes() {
    // a semicolon past the first 1000 bytes does not flip the delimiter
    let mut data = vec![b'h'; 1100];
    data.extend_from_slice(b";x\n1,2");
    let (headers, _) = parse_csv(&data).unwrap();
    assert_eq!(headers.len(), 1);
    // multibyte characters count by their bytes: 400 three-byte characters
    // fill more than the window even though there are fewer than 1000 of them
    let mut data2 = String::new();
    for _ in 0..400 {
        data2.push('\u{20ac}');
    }
    data2.push(';');
    data2.push('\n');
    data2.push('1');
    let (h2, _) = parse_csv(&data2.into_bytes()).unwrap();
    assert_eq!(h2.len(), 1);
}

#[test]
fn upload_same_name_merges_row_count() {
    let (mut store, tenant) = store_with_tenant("T");
    let make_fields = || vec![
        text_field("target_client_id", &tenant.to_string()),
        file_field("data.csv", b"a,b\n1,2\n3,4"),
    ];
    upload_dataset(&mut store, &root(), make_fields(), 0, true).unwrap();
    // same filename at the same ingestion second derives the same schema name
    upload_dataset(&mut store, &root(), make_fields(), 0, true).unwrap();
    assert_eq!(store.schemas.len(), 1);
    assert_eq!(store.schemas[0].row_count, 4);
    assert_eq!(store.rows.len(), 4);
}

#[test]
fn upload_ignores_unknown_fields_any_order() {
    let (mut store, tenant) = store_with_tenant("T");
    let fields = vec![
        text_field("comment", "ignored"),
        file_field("d.csv", b"a\n1"),
        text_field("target_client_id", &tenant.to_string()),
    ];
    let resp = upload_dataset(&mut store, &root(), fields, 0, true).unwrap();
    assert_eq!(resp.rows_processed, 1);
    assert_eq!(store.schemas[0].client_id, tenant);
}

// --- queries ---

#[test]
fn public_search_caps_at_five_case_insensitive() {
    let mut store = Store::new();
    for i in 0..7 {
        let payload = CreateClientPayload {
            name: format!("ACME Filial {}", i),
            client_type: ClientType::Company,
            contract_duration_days: None,
        };
        create_client(&mut store, &root(), payload, 100).unwrap();
    }
    let payload = CreateClientPayload {
        name: "Otro".to_string(),
        client_type: ClientType::Company,
        contract_duration_days: None,
    };
    create_client(&mut store, &root(), payload, 100).unwrap();
    let hits = search_clients_public(&store, "acme");
    assert_eq!(hits.len(), 5);
    assert!(hits.iter().all(|h| h.name.to_lowercase().contains("acme")));
    assert!(search_clients_public(&store, "zzz").is_empty());
}

#[test]
fn protected_search_root_only() {
    let (store, _tenant) = store_with_tenant("Acme");
    match search_clients(&store, &admin(1), "acme") {
        Err(ApiError::Forbidden(m)) => assert_eq!(m, "Solo Root puede buscar clientes globales"),
        _ => panic!("expected forbidden"),
    }
    let hits = search_clients(&store, &root(), "ACME").unwrap();
    assert_eq!(hits.len(), 1);
    assert_eq!(hits[0].name, "Acme");
}

#[test]
fn stats_scoped_by_role() {
    let mut store = Store::new();
    account(&mut store, "a@x.com", "pw", UserRole::User, Some(7), AccountStatus::Active, AccessLevel::ReadWrite, 10);
    account(&mut store, "b@x.com", "pw", UserRole::User, Some(7), AccountStatus::Disabled, AccessLevel::ReadWrite, 20);
    account(&mut store, "c@x.com", "pw", UserRole::User, Some(8), AccountStatus::Active, AccessLevel::ReadWrite, 30);
    let s = get_stats(&store, &root()).unwrap();
    assert_eq!(s.total_clients, 0);
    assert_eq!(s.total_users, 3);
    assert_eq!(s.active_users, 2);
    assert_eq!(s.total_datasets, 0);
    let s7 = get_stats(&store, &admin(7)).unwrap();
    assert_eq!(s7.total_clients, 1);
    assert_eq!(s7.total_users, 2);
    assert_eq!(s7.active_users, 1);
    let su = get_stats(&store, &plain_user(7, AccessLevel::ReadWrite)).unwrap();
    assert_eq!(su.total_users, 1);
    assert_eq!(su.active_users, 1);
    // a tenant-less non-root principal is refused
    assert!(get_stats(&store, &principal(9, UserRole::User, None, AccessLevel::ReadWrite)).is_err());
}

#[test]
fn analytics_recent_first_and_total() {
    let (mut store, tenant) = store_with_tenant("T");
    for (i, ts) in [(0u64, 100i64), (1, 300), (2, 200)] {
        let fields = vec![
            text_field("target_client_id", &tenant.to_string()),
            file_field(&format!("f{}.csv", i), b"a\n1\n2"),
        ];
        upload_dataset(&mut store, &root(), fields, ts, true).unwrap();
    }
    let a = get_analytics(&store, &root()).unwrap();
    assert_eq!(a.recent_uploads.len(), 3);
    assert_eq!(a.recent_uploads[0].created_at, 300);
    assert_eq!(a.recent_uploads[1].created_at, 200);
    assert_eq!(a.recent_uploads[2].created_at, 100);
    assert_eq!(a.total_rows, 6);
    // scoped for the admin of that tenant, refused without a tenant
    let a2 = get_analytics(&store, &admin(tenant)).unwrap();
    assert_eq!(a2.recent_uploads.len(), 3);
    assert!(get_analytics(&store, &principal(9, UserRole::User, None, AccessLevel::ReadWrite)).is_err());
}

#[test]
fn create_client_rules() {
    let mut store = Store::new();
    // only Root
    let payload = CreateClientPayload {
        name: "N".to_string(),
        client_type: ClientType::Company,
        contract_duration_days: None,
    };
    match create_client(&mut store, &admin(1), payload, 100) {
        Err(ApiError::Forbidden(m)) => assert_eq!(m, "No tienes permiso"),
        _ => panic!("expected forbidden"),
    }
    // a natural person needs a duration
    let payload = CreateClientPayload {
        name: "P".to_string(),
        client_type: ClientType::NaturalPerson,
        contract_duration_days: None,
    };
    match create_client(&mut store, &root(), payload, 100) {
        Err(ApiError::BadRequest(m)) => assert_eq!(m, "Duracion requerida para persona natural"),
        _ => panic!("expected bad request"),
    }
    // and gets an expiry computed from it
    let payload = CreateClientPayload {
        name: "P".to_string(),
        client_type: ClientType::NaturalPerson,
        contract_duration_days: Some(30),
    };
    let rec = create_client(&mut store, &root(), payload, 1000).unwrap();
    assert_eq!(rec.contract_expires_at, Some(1000 + 30 * 86400));
    // a company has none
    let payload = CreateClientPayload {
        name: "C".to_string(),
        client_type: ClientType::Company,
        contract_duration_days: Some(30),
    };
    let rec = create_client(&mut store, &root(), payload, 1000).unwrap();
    assert_eq!(rec.contract_expires_at, None);
    assert_eq!(store.clients.len(), 2);
}

#[test]
fn train_response_relayed_or_wrapped() {
    let ok = interpret_train_response(true, "{\"status\":\"done\"}".to_string()).unwrap();
    assert_eq!(ok, "{\"status\":\"done\"}");
    match interpret_train_response(false, "boom".to_string()) {
        Err(ApiError::BadRequest(m)) => assert_eq!(m, "ML Service error: boom"),
        _ => panic!("expected bad request"),
    }
}
