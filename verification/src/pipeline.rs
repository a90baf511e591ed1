//! The ingestion pipeline: authorize the upload, fold the multipart
//! fields order-independently, resolve the destination tenant, dispatch
//! the parser by extension, derive and register the schema, and commit
//! the batch atomically — all-or-nothing, no partial ingestion.
use vstd::prelude::*;
use vstd::slice::slice_to_vec;
use vstd::string::StrSliceExecFns;
use vstd::string::StringExecFns;
use vstd::utf8::decode_utf8;
use vstd::utf8::valid_utf8;
use crate::csvparse::parse_csv;
use crate::csvparse::spec_csv_headers;
use crate::csvparse::spec_csv_rows;
use crate::csvparse::view_headers;
use crate::csvparse::view_row;
use crate::csvparse::view_rows;
use crate::policy::resolve_upload_target;
use crate::policy::spec_resolve_upload_target;
use crate::policy::spec_upload_gate;
use crate::policy::upload_gate;
use crate::sheet::parse_sheet;
use crate::sheet::spec_sheet_table;
use crate::sheet::xls_cells_of;
use crate::sheet::xlsx_cells_of;
use crate::store::DataRow;
use crate::store::SchemaRecord;
use crate::store::Store;
use crate::store::emails_unique;
use crate::store::row_has_schema;
use crate::strutil::bytes_to_string;
use crate::strutil::chars_to_string;
use crate::strutil::lower_chars;
use crate::strutil::parse_u64;
use crate::strutil::spec_lower;
use crate::strutil::spec_parse_u64;
use crate::strutil::str_eq;
use crate::strutil::str_to_chars;
use crate::types::ApiError;
use crate::types::Principal;
use crate::types::UserRole;
use crate::types::is_bad_request;
use crate::types::is_forbidden;

verus! {

/// The compact UTC label (`%Y%m%d_%H%M%S`) of a unix timestamp.
/// Deterministic in the timestamp.
pub uninterp spec fn time_label_of(ts: i64) -> Seq<char>;

/// The largest timestamp the label is defined for: the end of year 9999.
pub const MAX_LABEL_TS: i64 = 253402300799;

/// Relies on chrono's `DateTime::from_timestamp` and `format`: renders the
/// timestamp as a compact UTC label.
#[verifier::external_body]
fn timestamp_label(ts: i64) -> (r: String)
    requires
        0 <= ts <= MAX_LABEL_TS,
    ensures
        r@ == time_label_of(ts),
{
    let dt = chrono::DateTime::from_timestamp(ts, 0).unwrap();
    dt.format("%Y%m%d_%H%M%S").to_string()
}

/// A dot turned into an underscore; every other character unchanged.
pub open spec fn spec_sanitize_char(c: char) -> char {
    if c == '.' {
        '_'
    } else {
        c
    }
}

/// A filename with its dots replaced by underscores.
pub open spec fn spec_sanitize(s: Seq<char>) -> Seq<char> {
    Seq::new(s.len(), |i: int| spec_sanitize_char(s[i]))
}

/// The derived schema name: the sanitized filename, an underscore, and
/// the ingestion timestamp's label.
pub open spec fn spec_schema_name(filename: Seq<char>, now: i64) -> Seq<char> {
    spec_sanitize(filename) + seq!['_'] + time_label_of(now)
}

/// Derive the schema name from the filename and the ingestion time.
fn schema_name_of(filename: &str, now: i64) -> (r: String)
    requires
        0 <= now <= MAX_LABEL_TS,
    ensures
        r@ == spec_schema_name(filename@, now),
{
    let chars = str_to_chars(filename);
    let mut out: Vec<char> = Vec::new();
    let mut i: usize = 0;
    while i < chars.len()
        invariant
            0 <= i <= chars@.len(),
            out@ == spec_sanitize(chars@).take(i as int),
        decreases chars@.len() - i,
    {
        let c = chars[i];
        if c == '.' {
            out.push('_');
        } else {
            out.push(c);
        }
        proof {
            assert(out@ =~= spec_sanitize(chars@).take(i + 1 as int));
        }
        i += 1;
    }
    proof {
        assert(spec_sanitize(chars@).take(chars@.len() as int) =~= spec_sanitize(chars@));
    }
    out.push('_');
    let mut name = chars_to_string(&out);
    let label = timestamp_label(now);
    name.append(label.as_str());
    proof {
        assert(name@ =~= spec_schema_name(filename@, now));
    }
    name
}

/// The index just after the last dot of `s`; 0 if there is no dot.
pub open spec fn spec_after_last_dot(s: Seq<char>) -> int
    decreases s.len(),
{
    if s.len() == 0 {
        0
    } else if s.last() == '.' {
        s.len() as int
    } else {
        spec_after_last_dot(s.drop_last())
    }
}

/// The declared extension of a filename, lower-cased: the characters
/// after the last dot, provided the dot is neither absent nor leading (a
/// name that starts with its only dot has no extension).
pub open spec fn spec_extension(s: Seq<char>) -> Option<Seq<char>> {
    let cut = spec_after_last_dot(s);
    if cut <= 1 {
        None
    } else {
        Some(spec_lower(s.skip(cut)))
    }
}

/// The lower-cased extension of a filename, if it has one.
fn extension_of(filename: &str) -> (r: Option<String>)
    ensures
        match r {
            Some(e) => spec_extension(filename@) == Some(e@),
            None => spec_extension(filename@) is None,
        },
{
    let chars = str_to_chars(filename);
    let mut cut: usize = chars.len();
    proof {
        assert(chars@.take(chars@.len() as int) =~= chars@);
    }
    loop
        invariant
            0 <= cut <= chars@.len(),
            spec_after_last_dot(chars@) == spec_after_last_dot(chars@.take(cut as int)),
            forall|j: int| cut <= j < chars@.len() ==> chars@[j] != '.',
        ensures
            spec_after_last_dot(chars@) == cut as int,
        decreases cut,
    {
        if cut == 0 {
            proof {
                assert(chars@.take(0) =~= Seq::<char>::empty());
                assert(spec_after_last_dot(Seq::<char>::empty()) == 0);
            }
            break;
        }
        if chars[cut - 1] == '.' {
            proof {
                assert(chars@.take(cut as int).last() == chars@[cut - 1]);
                assert(spec_after_last_dot(chars@.take(cut as int)) == cut as int);
            }
            break;
        }
        proof {
            assert(chars@.take(cut as int).last() == chars@[cut - 1]);
            assert(chars@.take(cut as int).drop_last() =~= chars@.take(cut - 1));
        }
        cut = cut - 1;
    }
    proof {
        assert(chars@.take(chars@.len() as int) =~= chars@);
    }
    if cut <= 1 {
        return None;
    }
    let mut ext: Vec<char> = Vec::new();
    let mut i: usize = cut;
    while i < chars.len()
        invariant
            cut <= i <= chars@.len(),
            ext@ == chars@.skip(cut as int).take(i - cut),
        decreases chars@.len() - i,
    {
        ext.push(chars[i]);
        proof {
            assert(ext@ =~= chars@.skip(cut as int).take(i + 1 - cut));
        }
        i += 1;
    }
    proof {
        assert(chars@.skip(cut as int).take(chars@.len() - cut) =~= chars@.skip(cut as int));
    }
    Some(chars_to_string(&lower_chars(&ext)))
}

/// One drained multipart field: its name, the filename it declared (file
/// fields only), and its raw bytes.
#[derive(Debug)]
pub struct UploadField {
    pub name: String,
    pub filename: Option<String>,
    pub bytes: Vec<u8>,
}

/// What folding the fields yields: the validated destination override and
/// the file (declared name and bytes), or the rejection message. The
/// fields may arrive in any order; later occurrences win; the destination
/// field is read only when Root sent it, and an empty value is ignored.
pub open spec fn spec_accumulate(p: Principal, fields: Seq<UploadField>) -> Result<
    (Option<u64>, Option<(Seq<char>, Seq<u8>)>),
    Seq<char>,
>
    decreases fields.len(),
{
    if fields.len() == 0 {
        Ok((None, None))
    } else {
        match spec_accumulate(p, fields.drop_last()) {
            Err(m) => Err(m),
            Ok((target, file)) => {
                let f = fields.last();
                if f.name@ == "target_client_id"@ && p.role == UserRole::Root {
                    if !valid_utf8(f.bytes@) {
                        Err("Error leyendo client id"@)
                    } else {
                        let txt = decode_utf8(f.bytes@);
                        if txt.len() == 0 {
                            Ok((target, file))
                        } else {
                            match spec_parse_u64(txt) {
                                None => Err("Client ID invalido"@),
                                Some(v) => Ok((Some(v), file)),
                            }
                        }
                    }
                } else if f.name@ == "file"@ {
                    let fname = match f.filename {
                        Some(n) => n@,
                        None => "dataset"@,
                    };
                    Ok((target, Some((fname, f.bytes@))))
                } else {
                    Ok((target, file))
                }
            },
        }
    }
}

/// Once the fold fails, later fields cannot save it.
proof fn lemma_accumulate_err_persists(p: Principal, fields: Seq<UploadField>, k: int)
    requires
        0 <= k <= fields.len(),
        spec_accumulate(p, fields.take(k)) is Err,
    ensures
        spec_accumulate(p, fields) == spec_accumulate(p, fields.take(k)),
    decreases fields.len() - k,
{
    if k < fields.len() {
        assert(fields.take(k + 1).drop_last() =~= fields.take(k));
        assert(spec_accumulate(p, fields.take(k + 1)) == spec_accumulate(p, fields.take(k)));
        lemma_accumulate_err_persists(p, fields, k + 1);
    } else {
        assert(fields.take(k) =~= fields);
    }
}

/// Fold the drained multipart fields, order-independently.
fn accumulate_fields(p: &Principal, fields: Vec<UploadField>) -> (r: Result<
    (Option<u64>, Option<(String, Vec<u8>)>),
    ApiError,
>)
    ensures
        match r {
            Ok((target, file)) => spec_accumulate(*p, fields@) == Ok::<
                (Option<u64>, Option<(Seq<char>, Seq<u8>)>),
                Seq<char>,
            >(
                (
                    target,
                    match file {
                        Some(f) => Some((f.0@, f.1@)),
                        None => None,
                    },
                ),
            ),
            Err(e) => {
                &&& spec_accumulate(*p, fields@) matches Err(m)
                &&& is_bad_request(e, m)
            },
        },
{
    let mut target: Option<u64> = None;
    let mut file: Option<(String, Vec<u8>)> = None;
    let mut i: usize = 0;
    proof {
        assert(fields@.take(0) =~= Seq::<UploadField>::empty());
    }
    while i < fields.len()
        invariant
            0 <= i <= fields@.len(),
            spec_accumulate(*p, fields@.take(i as int)) == Ok::<
                (Option<u64>, Option<(Seq<char>, Seq<u8>)>),
                Seq<char>,
            >(
                (
                    target,
                    match file {
                        Some(f) => Some((f.0@, f.1@)),
                        None => None,
                    },
                ),
            ),
        decreases fields@.len() - i,
    {
        proof {
            assert(fields@.take(i + 1 as int).drop_last() =~= fields@.take(i as int));
            assert(fields@.take(i + 1 as int).last() == fields@[i as int]);
        }
        let f = &fields[i];
        if str_eq(f.name.as_str(), "target_client_id") && matches!(p.role, UserRole::Root) {
            let raw = slice_to_vec(f.bytes.as_slice());
            match bytes_to_string(raw) {
                None => {
                    proof {
                        assert(spec_accumulate(*p, fields@.take(i + 1 as int)) == Err::<
                            (Option<u64>, Option<(Seq<char>, Seq<u8>)>),
                            Seq<char>,
                        >("Error leyendo client id"@));
                        lemma_accumulate_err_persists(*p, fields@, i + 1 as int);
                    }
                    return Err(
                        ApiError::BadRequest(String::from_str("Error leyendo client id")),
                    );
                },
                Some(text) => {
                    if text.as_str().unicode_len() > 0 {
                        let digits = str_to_chars(text.as_str());
                        match parse_u64(&digits) {
                            None => {
                                proof {
                                    assert(spec_accumulate(*p, fields@.take(i + 1 as int)) == Err::<
                                        (Option<u64>, Option<(Seq<char>, Seq<u8>)>),
                                        Seq<char>,
                                    >("Client ID invalido"@));
                                    lemma_accumulate_err_persists(*p, fields@, i + 1 as int);
                                }
                                return Err(
                                    ApiError::BadRequest(String::from_str("Client ID invalido")),
                                );
                            },
                            Some(v) => {
                                target = Some(v);
                            },
                        }
                    }
                },
            }
        } else if str_eq(f.name.as_str(), "file") {
            let fname = match &f.filename {
                Some(n) => n.clone(),
                None => String::from_str("dataset"),
            };
            file = Some((fname, slice_to_vec(f.bytes.as_slice())));
        }
        i += 1;
    }
    proof {
        assert(fields@.take(fields@.len() as int) =~= fields@);
    }
    Ok((target, file))
}

/// What the format dispatch yields for a declared extension and raw
/// bytes: the table, exactly as the format's parser specifies it, or
/// nothing when the format is unsupported or the file malformed.
pub open spec fn spec_parse_tabular(ext: Option<Seq<char>>, data: Seq<u8>) -> Option<
    (Seq<Seq<char>>, Seq<Seq<(Seq<char>, Seq<char>)>>),
> {
    match ext {
        Some(e) => {
            if e == "csv"@ {
                if valid_utf8(data) {
                    Some((spec_csv_headers(data), spec_csv_rows(data)))
                } else {
                    None
                }
            } else if e == "xlsx"@ {
                match xlsx_cells_of(data) {
                    Some(grid) => spec_sheet_table(grid),
                    None => None,
                }
            } else if e == "xls"@ {
                match xls_cells_of(data) {
                    Some(grid) => spec_sheet_table(grid),
                    None => None,
                }
            } else {
                None
            }
        },
        None => None,
    }
}

/// Is this extension one the dispatcher knows?
pub open spec fn spec_supported_ext(ext: Option<Seq<char>>) -> bool {
    ext matches Some(e) && (e == "csv"@ || e == "xlsx"@ || e == "xls"@)
}

/// Dispatch to the parser the declared extension calls for.
fn parse_tabular(filename: &str, data: &Vec<u8>) -> (r: Result<
    (Vec<String>, Vec<Vec<(String, String)>>),
    ApiError,
>)
    ensures
        match r {
            Ok((h, rows)) => spec_parse_tabular(spec_extension(filename@), data@) == Some(
                (view_headers(h@), view_rows(rows@)),
            ),
            Err(e) => {
                &&& spec_parse_tabular(spec_extension(filename@), data@) is None
                &&& !spec_supported_ext(spec_extension(filename@)) ==> is_bad_request(
                    e,
                    "Formato no soportado"@,
                )
                &&& e is BadRequest
            },
        },
{
    let ext = match extension_of(filename) {
        Some(e) => e,
        None => {
            return Err(ApiError::BadRequest(String::from_str("Formato no soportado")));
        },
    };
    if str_eq(ext.as_str(), "csv") {
        parse_csv(data)
    } else if str_eq(ext.as_str(), "xlsx") {
        parse_sheet(data, true)
    } else if str_eq(ext.as_str(), "xls") {
        parse_sheet(data, false)
    } else {
        Err(ApiError::BadRequest(String::from_str("Formato no soportado")))
    }
}

/// The response a successful upload returns.
#[derive(Debug)]
pub struct UploadResponse {
    pub message: String,
    pub rows_processed: usize,
    pub schema_name: String,
}

/// Did the upload apply exactly this batch? The schema named `name` was
/// created for the tenant (fresh id, count = the batch size) or its
/// existing record bumped by the batch size; every batch row was appended,
/// tagged with that schema and tenant, carrying the parsed data in order;
/// nothing else changed.
pub open spec fn spec_upload_applied(
    old_store: Store,
    new_store: Store,
    tenant: u64,
    name: Seq<char>,
    headers: Seq<Seq<char>>,
    rowdata: Seq<Seq<(Seq<char>, Seq<char>)>>,
    now: i64,
) -> bool {
    let n = rowdata.len();
    let sid = new_store.rows@.last().schema_id;
    &&& new_store.clients@ == old_store.clients@
    &&& new_store.users@ == old_store.users@
    &&& new_store.rows@.len() == old_store.rows@.len() + n
    &&& forall|x: int| 0 <= x < old_store.rows@.len() ==> new_store.rows@[x] == old_store.rows@[x]
    &&& forall|x: int|
        0 <= x < n ==> {
            let row = #[trigger] new_store.rows@[old_store.rows@.len() + x];
            &&& row.client_id == tenant
            &&& row.schema_id == sid
            &&& view_row(row.data) == rowdata[x]
        }
    &&& if old_store.spec_has_schema_name(name) {
        exists|i: int|
            {
                &&& 0 <= i < old_store.schemas@.len()
                &&& (#[trigger] old_store.schemas@[i]).schema_name@ == name
                &&& new_store.schemas@ == old_store.schemas@.update(
                    i,
                    (SchemaRecord {
                        row_count: (old_store.schemas@[i].row_count + n) as u64,
                        updated_at: now,
                        ..old_store.schemas@[i]
                    }),
                )
                &&& sid == old_store.schemas@[i].id
            }
    } else {
        &&& new_store.schemas@ == old_store.schemas@.push(
            (SchemaRecord {
                id: old_store.next_id,
                client_id: tenant,
                schema_name: new_store.schemas@.last().schema_name,
                columns: new_store.schemas@.last().columns,
                row_count: n as u64,
                created_at: now,
                updated_at: now,
            }),
        )
        &&& new_store.schemas@.last().schema_name@ == name
        &&& view_headers(new_store.schemas@.last().columns@) == headers
        &&& sid == old_store.next_id
        &&& new_store.next_id == old_store.next_id + 1
    }
}

/// Can the schema bearing `name` absorb `n` more rows without its counter
/// overflowing? Vacuously true when no schema bears the name.
pub open spec fn spec_merge_fits(store: Store, name: Seq<char>, n: int) -> bool {
    forall|i: int|
        0 <= i < store.schemas@.len() && (#[trigger] store.schemas@[i]).schema_name@ == name
            ==> store.schemas@[i].row_count + n <= u64::MAX
}

/// Run one upload request, terminal on the first failure: authorize, fold
/// the multipart fields, resolve the destination tenant, parse, derive
/// and register the schema, and commit the rows. `storage_ok` is the
/// outcome the backing store reported for the commit transaction: when it
/// is false — or when anything else fails — the store is left exactly as
/// it was: all-or-nothing, never a partial batch.
pub fn upload_dataset(
    store: &mut Store,
    p: &Principal,
    fields: Vec<UploadField>,
    now: i64,
    storage_ok: bool,
) -> (r: Result<UploadResponse, ApiError>)
    requires
        old(store).wf(),
        old(store).next_id < u64::MAX,
        0 <= now <= MAX_LABEL_TS,
    ensures
        final(store).wf(),
        r is Err ==> *final(store) == *old(store),
        !storage_ok ==> r is Err,
        (match spec_upload_gate(*p) {
            Some(m) => r matches Err(e) && is_forbidden(e, m),
            None => true,
        }),
        ({
            &&& spec_upload_gate(*p) is None
            &&& spec_accumulate(*p, fields@) matches Err(m)
            &&& r matches Err(e)
            &&& is_bad_request(e, m)
        }) <== ({
            &&& spec_upload_gate(*p) is None
            &&& spec_accumulate(*p, fields@) is Err
        }),
        ({
            &&& spec_upload_gate(*p) is None
            &&& spec_accumulate(*p, fields@) matches Ok(acc)
            &&& acc.1 is None
        }) ==> (r matches Err(e) && is_bad_request(e, "Falta el archivo"@)),
        ({
            &&& spec_upload_gate(*p) is None
            &&& spec_accumulate(*p, fields@) matches Ok(acc)
            &&& acc.1 is Some
            &&& spec_resolve_upload_target(*p, acc.0) is None
        }) ==> (r matches Err(e) && is_bad_request(
            e,
            "Root debe seleccionar una empresa destino."@,
        )),
        ({
            &&& spec_upload_gate(*p) is None
            &&& spec_accumulate(*p, fields@) matches Ok(acc)
            &&& acc.1 matches Some(file)
            &&& spec_resolve_upload_target(*p, acc.0) is Some
            &&& !spec_supported_ext(spec_extension(file.0))
        }) ==> (r matches Err(e) && is_bad_request(e, "Formato no soportado"@)),
        ({
            &&& spec_upload_gate(*p) is None
            &&& spec_accumulate(*p, fields@) matches Ok(acc)
            &&& acc.1 matches Some(file)
            &&& spec_resolve_upload_target(*p, acc.0) is Some
            &&& spec_supported_ext(spec_extension(file.0))
            &&& spec_parse_tabular(spec_extension(file.0), file.1) is None
        }) ==> (r matches Err(e) && e is BadRequest),
        ({
            &&& spec_upload_gate(*p) is None
            &&& spec_accumulate(*p, fields@) matches Ok(acc)
            &&& acc.1 matches Some(file)
            &&& spec_resolve_upload_target(*p, acc.0) is Some
            &&& spec_parse_tabular(spec_extension(file.0), file.1) matches Some(table)
            &&& table.1.len() == 0
        }) ==> (r matches Err(e) && is_bad_request(e, "El archivo esta vacio"@)),
        ({
            &&& spec_upload_gate(*p) is None
            &&& spec_accumulate(*p, fields@) matches Ok(acc)
            &&& acc.1 matches Some(file)
            &&& spec_resolve_upload_target(*p, acc.0) is Some
            &&& spec_parse_tabular(spec_extension(file.0), file.1) matches Some(table)
            &&& table.1.len() > 0
            &&& !storage_ok
        }) ==> (r matches Err(e) && e is StorageFailure),
        ({
            &&& spec_upload_gate(*p) is None
            &&& spec_accumulate(*p, fields@) matches Ok(acc)
            &&& acc.1 matches Some(file)
            &&& spec_resolve_upload_target(*p, acc.0) is Some
            &&& spec_parse_tabular(spec_extension(file.0), file.1) matches Some(table)
            &&& table.1.len() > 0
            &&& storage_ok
            &&& spec_merge_fits(*old(store), spec_schema_name(file.0, now), table.1.len() as int)
        }) ==> r is Ok,
        r matches Ok(resp) ==> {
            &&& spec_upload_gate(*p) is None
            &&& storage_ok
            &&& spec_accumulate(*p, fields@) matches Ok(acc)
            &&& acc.1 matches Some(file)
            &&& spec_resolve_upload_target(*p, acc.0) matches Some(tenant)
            &&& (p.role != UserRole::Root ==> Some(tenant) == p.client_id)
            &&& (p.role == UserRole::Root && acc.0 is Some ==> Some(tenant) == acc.0)
            &&& spec_parse_tabular(spec_extension(file.0), file.1) matches Some(table)
            &&& table.1.len() > 0
            &&& resp.rows_processed == table.1.len()
            &&& resp.schema_name@ == spec_schema_name(file.0, now)
            &&& resp.message@ == "Archivo procesado exitosamente"@
            &&& spec_upload_applied(
                *old(store),
                *final(store),
                tenant,
                spec_schema_name(file.0, now),
                table.0,
                table.1,
                now,
            )
        },
{
    if let Err(e) = upload_gate(p) {
        return Err(e);
    }
    let (target_req, file) = match accumulate_fields(p, fields) {
        Err(e) => {
            return Err(e);
        },
        Ok(acc) => acc,
    };
    let (file_name, data) = match file {
        None => {
            return Err(ApiError::BadRequest(String::from_str("Falta el archivo")));
        },
        Some(f) => f,
    };
    let tenant = match resolve_upload_target(p, target_req) {
        None => {
            return Err(
                ApiError::BadRequest(
                    String::from_str("Root debe seleccionar una empresa destino."),
                ),
            );
        },
        Some(t) => t,
    };
    let (headers, rowmaps) = match parse_tabular(file_name.as_str(), &data) {
        Err(e) => {
            return Err(e);
        },
        Ok(t) => t,
    };
    if rowmaps.len() == 0 {
        proof {
            assert(view_rows(rowmaps@).len() == rowmaps@.len());
        }
        return Err(ApiError::BadRequest(String::from_str("El archivo esta vacio")));
    }
    proof {
        assert(view_rows(rowmaps@).len() == rowmaps@.len());
    }
    if !storage_ok {
        return Err(ApiError::StorageFailure(String::from_str("transaccion abortada")));
    }
    let name = schema_name_of(file_name.as_str(), now);
    let ghost headers_view = view_headers(headers@);
    let n = rowmaps.len();
    let sid: u64;
    let ghost old_store = *store;
    let ghost mut merged: Option<int> = None;
    match store.find_schema_by_name(name.as_str()) {
        Some(i) => {
            let rc = store.schemas[i].row_count;
            if rc > u64::MAX - n as u64 {
                proof {
                    assert(store.schemas@[i as int].schema_name@ == name@);
                    assert(!spec_merge_fits(*store, name@, n as int));
                }
                return Err(ApiError::StorageFailure(String::from_str("transaccion abortada")));
            }
            sid = store.schemas[i].id;
            let mut taken = store.schemas.remove(i);
            taken.row_count = rc + n as u64;
            taken.updated_at = now;
            store.schemas.insert(i, taken);
            proof {
                merged = Some(i as int);
                assert(store.schemas@ =~= old_store.schemas@.update(
                    i as int,
                    (SchemaRecord {
                        row_count: (old_store.schemas@[i as int].row_count + n) as u64,
                        updated_at: now,
                        ..old_store.schemas@[i as int]
                    }),
                ));
            }
        },
        None => {
            sid = store.next_id;
            let rec = SchemaRecord {
                id: sid,
                client_id: tenant,
                schema_name: name.clone(),
                columns: headers,
                row_count: n as u64,
                created_at: now,
                updated_at: now,
            };
            store.schemas.push(rec);
            store.next_id = sid + 1;
        },
    }
    let ghost mid_schemas = store.schemas@;
    let ghost rowdata = view_rows(rowmaps@);
    let ghost name_view = name@;
    let mut rest = rowmaps;
    let mut appended: usize = 0;
    proof {
        assert(view_rows(rest@) == rowdata);
        assert(rowdata.len() == n);
        assert(rowdata.skip(0) =~= rowdata);
    }
    while rest.len() > 0
        invariant
            0 <= appended <= n,
            appended + rest@.len() == n,
            n == rowdata.len(),
            store.schemas@ == mid_schemas,
            store.clients@ == old_store.clients@,
            store.users@ == old_store.users@,
            store.next_id == if old_store.spec_has_schema_name(name_view) {
                old_store.next_id
            } else {
                (old_store.next_id + 1) as u64
            },
            store.rows@.len() == old_store.rows@.len() + appended,
            forall|x: int|
                0 <= x < old_store.rows@.len() ==> store.rows@[x] == old_store.rows@[x],
            forall|x: int|
                0 <= x < appended ==> {
                    let row = #[trigger] store.rows@[old_store.rows@.len() + x];
                    &&& row.client_id == tenant
                    &&& row.schema_id == sid
                    &&& view_row(row.data) == rowdata[x]
                },
            view_rows(rest@) == rowdata.skip(appended as int),
        decreases rest@.len(),
    {
        let ghost old_rest = rest@;
        let rowmap = rest.remove(0);
        proof {
            assert(view_rows(old_rest)[0] == view_row(old_rest[0]));
            assert(rowmap == old_rest[0]);
            assert(rowdata.skip(appended as int)[0] == rowdata[appended as int]);
            assert(view_row(rowmap) == rowdata[appended as int]);
            assert forall|x: int| 0 <= x < rest@.len() implies view_rows(rest@)[x] == rowdata.skip(
                appended + 1,
            )[x] by {
                assert(rest@[x] == old_rest[x + 1]);
                assert(view_rows(old_rest)[x + 1] == view_row(old_rest[x + 1]));
                assert(rowdata.skip(appended as int)[x + 1] == rowdata[appended + 1 + x]);
            }
            assert(view_rows(rest@) =~= rowdata.skip(appended + 1));
        }
        store.rows.push(DataRow { schema_id: sid, client_id: tenant, data: rowmap });
        appended = appended + 1;
    }
    proof {
        let news = *store;
        let olds = old_store;
        assert(news.rows@[olds.rows@.len() + (n - 1)].schema_id == sid);
        assert(news.rows@.last() == news.rows@[olds.rows@.len() + (n - 1)]);
        assert(news.rows@.last().schema_id == sid);
        assert(spec_upload_applied(
            olds,
            news,
            tenant,
            name_view,
            headers_view,
            rowdata,
            now,
        )) by {
            match merged {
                Some(i) => {
                    assert(olds.schemas@[i].schema_name@ == name_view);
                    assert(news.schemas@ == olds.schemas@.update(
                        i,
                        (SchemaRecord {
                            row_count: (olds.schemas@[i].row_count + n) as u64,
                            updated_at: now,
                            ..olds.schemas@[i]
                        }),
                    ));
                },
                None => {
                    assert(news.schemas@.last().schema_name@ == name_view);
                    assert(view_headers(news.schemas@.last().columns@) == headers_view);
                },
            }
        }
        assert(news.wf()) by {
            assert(emails_unique(news.users@));
            if olds.spec_has_schema_name(name_view) {
                assert forall|a: int, b: int|
                    0 <= a < b < news.schemas@.len() implies news.schemas@[a].schema_name@
                    != news.schemas@[b].schema_name@ by {
                    assert(news.schemas@[a].schema_name@ == olds.schemas@[a].schema_name@);
                    assert(news.schemas@[b].schema_name@ == olds.schemas@[b].schema_name@);
                }
                assert forall|a: int, b: int|
                    0 <= a < b < news.schemas@.len() implies news.schemas@[a].id
                    != news.schemas@[b].id by {
                    assert(news.schemas@[a].id == olds.schemas@[a].id);
                    assert(news.schemas@[b].id == olds.schemas@[b].id);
                }
                assert forall|x: int| 0 <= x < news.schemas@.len() implies (
                #[trigger] news.schemas@[x]).id < news.next_id by {
                    assert(news.schemas@[x].id == olds.schemas@[x].id);
                }
            } else {
                assert forall|a: int, b: int|
                    0 <= a < b < news.schemas@.len() implies news.schemas@[a].schema_name@
                    != news.schemas@[b].schema_name@ by {
                    if b < news.schemas@.len() - 1 {
                        assert(news.schemas@[a] == olds.schemas@[a]);
                        assert(news.schemas@[b] == olds.schemas@[b]);
                    } else {
                        assert(news.schemas@[a] == olds.schemas@[a]);
                        assert(!(exists|i: int|
                            0 <= i < olds.schemas@.len() && olds.schemas@[i].schema_name@
                                == name_view));
                    }
                }
                assert forall|a: int, b: int|
                    0 <= a < b < news.schemas@.len() implies news.schemas@[a].id
                    != news.schemas@[b].id by {
                    if b < news.schemas@.len() - 1 {
                        assert(news.schemas@[a] == olds.schemas@[a]);
                        assert(news.schemas@[b] == olds.schemas@[b]);
                    } else {
                        assert(news.schemas@[a] == olds.schemas@[a]);
                        assert(olds.schemas@[a].id < olds.next_id);
                    }
                }
            }
            assert forall|x: int| 0 <= x < news.rows@.len() implies row_has_schema(
                #[trigger] news.rows@[x],
                news.schemas@,
            ) by {
                if x < olds.rows@.len() {
                    assert(row_has_schema(olds.rows@[x], olds.schemas@));
                    let k = choose|k: int|
                        0 <= k < olds.schemas@.len() && (#[trigger] olds.schemas@[k]).id
                            == olds.rows@[x].schema_id;
                    assert(news.schemas@[k].id == olds.schemas@[k].id);
                } else {
                    let y = x - olds.rows@.len();
                    assert(news.rows@[olds.rows@.len() + y].schema_id == sid);
                    match merged {
                        Some(i) => {
                            assert(news.schemas@[i].id == sid);
                        },
                        None => {
                            assert(news.schemas@[news.schemas@.len() - 1].id == sid);
                        },
                    }
                }
            }
        }
    }
    Ok(
        UploadResponse {
            message: String::from_str("Archivo procesado exitosamente"),
            rows_processed: n,
            schema_name: name,
        },
    )
}

} // verus!
