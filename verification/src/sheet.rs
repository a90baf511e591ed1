//! The spreadsheet path of the parser: the workbook is opened and its
//! first sheet rendered to strings by the `calamine` crate behind two
//! trusted wrappers; taking the first row as headers and zipping the rest
//! is verified logic.
use vstd::prelude::*;
use vstd::string::StringExecFns;
use calamine::Reader;
use crate::types::ApiError;
use crate::types::is_bad_request;

verus! {

/// The cell grid calamine renders from an XLSX workbook's first sheet:
/// every cell in its string form; `None` when the workbook cannot be
/// opened, has no sheet, or the sheet cannot be read. Deterministic in the
/// bytes.
pub uninterp spec fn xlsx_cells_of(data: Seq<u8>) -> Option<Seq<Seq<Seq<char>>>>;

/// Does `Xlsx::new` open these bytes as a workbook? Deterministic in the
/// bytes.
pub uninterp spec fn xlsx_opens(data: Seq<u8>) -> bool;

/// Does the opened XLSX workbook's metadata list at least one sheet
/// (`sheet_names`)? Deterministic in the bytes.
pub uninterp spec fn xlsx_has_sheet(data: Seq<u8>) -> bool;

/// The cell grid calamine renders from a legacy XLS workbook's first
/// sheet, as `xlsx_cells_of`.
pub uninterp spec fn xls_cells_of(data: Seq<u8>) -> Option<Seq<Seq<Seq<char>>>>;

/// Does `Xls::new` open these bytes as a workbook? Deterministic in the
/// bytes.
pub uninterp spec fn xls_opens(data: Seq<u8>) -> bool;

/// Does the opened XLS workbook's metadata list at least one sheet?
/// Deterministic in the bytes.
pub uninterp spec fn xls_has_sheet(data: Seq<u8>) -> bool;

/// The character-level view of a rendered cell grid.
pub open spec fn view_cells(v: Seq<Vec<String>>) -> Seq<Seq<Seq<char>>> {
    v.map_values(|r: Vec<String>| r@.map_values(|c: String| c@))
}

/// What reading a workbook yielded: the rendered first sheet, or which of
/// the three failures stopped it.
#[derive(Debug)]
pub enum WorkbookOutcome {
    /// The first sheet, every cell in its string form.
    Grid(Vec<Vec<String>>),
    /// The bytes are not a workbook this reader opens.
    Unopened,
    /// The workbook opened but holds no sheet.
    NoSheets,
    /// The first sheet exists but could not be read.
    Unreadable,
}

/// Relies on calamine's `Xlsx` reader: opens the workbook from the bytes,
/// takes the first sheet only, and renders every cell to its string form;
/// the failure variants tell calamine's three error stages apart.
#[verifier::external_body]
fn read_xlsx(data: &Vec<u8>) -> (r: WorkbookOutcome)
    ensures
        match r {
            WorkbookOutcome::Grid(cells) => xlsx_cells_of(data@) == Some(view_cells(cells@))
                && xlsx_opens(data@) && xlsx_has_sheet(data@),
            WorkbookOutcome::Unopened => xlsx_cells_of(data@) is None && !xlsx_opens(data@),
            WorkbookOutcome::NoSheets => xlsx_cells_of(data@) is None && xlsx_opens(data@)
                && !xlsx_has_sheet(data@),
            WorkbookOutcome::Unreadable => xlsx_cells_of(data@) is None && xlsx_opens(data@)
                && xlsx_has_sheet(data@),
        },
{
    let cursor = std::io::Cursor::new(data.as_slice());
    let mut workbook = match calamine::Xlsx::new(cursor) {
        Ok(w) => w,
        Err(_) => return WorkbookOutcome::Unopened,
    };
    let name = match workbook.sheet_names().first().cloned() {
        Some(n) => n,
        None => return WorkbookOutcome::NoSheets,
    };
    match workbook.worksheet_range(&name) {
        Ok(range) => WorkbookOutcome::Grid(
            range.rows().map(|row| row.iter().map(|c| c.to_string()).collect()).collect(),
        ),
        Err(_) => WorkbookOutcome::Unreadable,
    }
}

/// Relies on calamine's `Xls` reader, as `read_xlsx`.
#[verifier::external_body]
fn read_xls(data: &Vec<u8>) -> (r: WorkbookOutcome)
    ensures
        match r {
            WorkbookOutcome::Grid(cells) => xls_cells_of(data@) == Some(view_cells(cells@))
                && xls_opens(data@) && xls_has_sheet(data@),
            WorkbookOutcome::Unopened => xls_cells_of(data@) is None && !xls_opens(data@),
            WorkbookOutcome::NoSheets => xls_cells_of(data@) is None && xls_opens(data@)
                && !xls_has_sheet(data@),
            WorkbookOutcome::Unreadable => xls_cells_of(data@) is None && xls_opens(data@)
                && xls_has_sheet(data@),
        },
{
    let cursor = std::io::Cursor::new(data.as_slice());
    let mut workbook = match calamine::Xls::new(cursor) {
        Ok(w) => w,
        Err(_) => return WorkbookOutcome::Unopened,
    };
    let name = match workbook.sheet_names().first().cloned() {
        Some(n) => n,
        None => return WorkbookOutcome::NoSheets,
    };
    match workbook.worksheet_range(&name) {
        Ok(range) => WorkbookOutcome::Grid(
            range.rows().map(|row| row.iter().map(|c| c.to_string()).collect()).collect(),
        ),
        Err(_) => WorkbookOutcome::Unreadable,
    }
}

/// One sheet row zipped to the headers by position: values beyond the
/// header count are dropped, a short row yields fewer pairs.
pub open spec fn spec_zip_cells(
    headers: Seq<Seq<char>>,
    row: Seq<Seq<char>>,
) -> Seq<(Seq<char>, Seq<char>)> {
    Seq::new(
        if headers.len() <= row.len() {
            headers.len()
        } else {
            row.len()
        },
        |k: int| (headers[k], row[k]),
    )
}

/// Every data row of the grid zipped, in order.
pub open spec fn spec_sheet_rows(
    rows: Seq<Seq<Seq<char>>>,
    headers: Seq<Seq<char>>,
) -> Seq<Seq<(Seq<char>, Seq<char>)>>
    decreases rows.len(),
{
    if rows.len() == 0 {
        Seq::empty()
    } else {
        spec_sheet_rows(rows.drop_last(), headers).push(spec_zip_cells(headers, rows.last()))
    }
}

/// Zipping keeps the count and zips each row.
pub proof fn lemma_sheet_rows(rows: Seq<Seq<Seq<char>>>, headers: Seq<Seq<char>>)
    ensures
        spec_sheet_rows(rows, headers).len() == rows.len(),
        forall|i: int|
            0 <= i < rows.len() ==> spec_sheet_rows(rows, headers)[i] == spec_zip_cells(
                headers,
                #[trigger] rows[i],
            ),
    decreases rows.len(),
{
    if rows.len() > 0 {
        lemma_sheet_rows(rows.drop_last(), headers);
        assert forall|i: int| 0 <= i < rows.len() implies spec_sheet_rows(rows, headers)[i]
            == spec_zip_cells(headers, #[trigger] rows[i]) by {
            if i < rows.len() - 1 {
                assert(rows.drop_last()[i] == rows[i]);
                assert(spec_sheet_rows(rows.drop_last(), headers)[i] == spec_zip_cells(
                    headers,
                    rows.drop_last()[i],
                ));
            }
        }
    }
}

/// The table a rendered cell grid yields: the first row as headers, every
/// further row zipped to them by position. An empty grid is rejected.
pub open spec fn spec_sheet_table(cells: Seq<Seq<Seq<char>>>) -> Option<
    (Seq<Seq<char>>, Seq<Seq<(Seq<char>, Seq<char>)>>),
> {
    if cells.len() == 0 {
        None
    } else {
        Some((cells[0], spec_sheet_rows(cells.skip(1), cells[0])))
    }
}

/// Turn a rendered cell grid into the table: first row as headers, the
/// rest zipped. An empty workbook or sheet is rejected.
pub fn sheet_table(cells: Vec<Vec<String>>) -> (r: Result<
    (Vec<String>, Vec<Vec<(String, String)>>),
    ApiError,
>)
    ensures
        r is Ok <==> view_cells(cells@).len() > 0,
        r matches Ok((h, rows)) ==> spec_sheet_table(view_cells(cells@)) == Some(
            (
                crate::csvparse::view_headers(h@),
                crate::csvparse::view_rows(rows@),
            ),
        ),
        r matches Err(e) ==> is_bad_request(e, "Excel vacio"@),
{
    let ghost grid = view_cells(cells@);
    if cells.len() == 0 {
        proof {
            assert(grid.len() == cells@.len());
        }
        return Err(ApiError::BadRequest(String::from_str("Excel vacio")));
    }
    proof {
        assert(grid.len() == cells@.len());
        assert(grid[0] == cells@[0]@.map_values(|c: String| c@));
    }
    let headers = &cells[0];
    let ghost hs = grid[0];
    let mut hout: Vec<String> = Vec::new();
    let mut k: usize = 0;
    proof {
        assert(hs.len() == headers@.len());
        assert(crate::csvparse::view_headers(hout@) =~= hs.take(0));
    }
    while k < headers.len()
        invariant
            0 <= k <= headers@.len(),
            hs.len() == headers@.len(),
            forall|x: int| 0 <= x < headers@.len() ==> hs[x] == (#[trigger] headers@[x])@,
            hout@.len() == k,
            crate::csvparse::view_headers(hout@) == hs.take(k as int),
        decreases headers@.len() - k,
    {
        hout.push(headers[k].clone());
        proof {
            assert(crate::csvparse::view_headers(hout@) =~= hs.take(k + 1 as int));
        }
        k += 1;
    }
    proof {
        assert(hs.take(hs.len() as int) =~= hs);
    }
    let ghost rs_spec = spec_sheet_rows(grid.skip(1), hs);
    let mut rows: Vec<Vec<(String, String)>> = Vec::new();
    let mut t: usize = 1;
    proof {
        lemma_sheet_rows(grid.skip(1), hs);
        assert(crate::csvparse::view_rows(rows@) =~= rs_spec.take(0));
    }
    while t < cells.len()
        invariant
            1 <= t <= cells@.len(),
            grid == view_cells(cells@),
            grid.len() == cells@.len(),
            hs == grid[0],
            rs_spec == spec_sheet_rows(grid.skip(1), hs),
            rs_spec.len() == grid.len() - 1,
            forall|x: int|
                0 <= x < rs_spec.len() ==> rs_spec[x] == spec_zip_cells(
                    hs,
                    #[trigger] grid.skip(1)[x],
                ),
            crate::csvparse::view_headers(hout@) == hs,
            hout@.len() == hs.len(),
            rows@.len() == t - 1,
            crate::csvparse::view_rows(rows@) == rs_spec.take(t - 1),
        decreases cells@.len() - t,
    {
        let cellrow = &cells[t];
        proof {
            assert(grid[t as int] == cells@[t as int]@.map_values(|c: String| c@));
            assert(grid.skip(1)[t - 1] == grid[t as int]);
        }
        let n = if hout.len() <= cellrow.len() {
            hout.len()
        } else {
            cellrow.len()
        };
        let ghost zr = spec_zip_cells(hs, grid[t as int]);
        let mut row: Vec<(String, String)> = Vec::new();
        let mut j: usize = 0;
        proof {
            assert(grid[t as int].len() == cellrow@.len());
            assert(zr.len() == n);
            assert(crate::csvparse::view_row(row) =~= zr.take(0));
        }
        while j < n
            invariant
                0 <= j <= n,
                n == if hout@.len() <= cellrow@.len() {
                    hout@.len() as int
                } else {
                    cellrow@.len() as int
                },
                zr.len() == n,
                forall|x: int|
                    0 <= x < n ==> #[trigger] zr[x] == ((#[trigger] hout@[x])@, cellrow@[x]@),
                row@.len() == j,
                crate::csvparse::view_row(row) == zr.take(j as int),
            decreases n - j,
        {
            row.push((hout[j].clone(), cellrow[j].clone()));
            proof {
                assert(crate::csvparse::view_row(row) =~= zr.take(j + 1 as int));
            }
            j += 1;
        }
        proof {
            assert(zr.take(zr.len() as int) =~= zr);
        }
        rows.push(row);
        proof {
            assert(crate::csvparse::view_rows(rows@) =~= rs_spec.take(t as int));
        }
        t += 1;
    }
    proof {
        assert(rs_spec.take(rs_spec.len() as int) =~= rs_spec);
        assert(grid.skip(1).len() == grid.len() - 1);
    }
    Ok((hout, rows))
}

/// Parse a spreadsheet upload: XLSX or legacy XLS. Each failure names its
/// stage exactly: a workbook that does not open, one without sheets, a
/// first sheet that cannot be read, or an empty grid.
pub fn parse_sheet(data: &Vec<u8>, xlsx: bool) -> (r: Result<
    (Vec<String>, Vec<Vec<(String, String)>>),
    ApiError,
>)
    ensures
        ({
            let cells = if xlsx {
                xlsx_cells_of(data@)
            } else {
                xls_cells_of(data@)
            };
            let opens = if xlsx {
                xlsx_opens(data@)
            } else {
                xls_opens(data@)
            };
            let has_sheet = if xlsx {
                xlsx_has_sheet(data@)
            } else {
                xls_has_sheet(data@)
            };
            match r {
                Ok((h, rows)) => cells matches Some(grid) && spec_sheet_table(grid) == Some(
                    (
                        crate::csvparse::view_headers(h@),
                        crate::csvparse::view_rows(rows@),
                    ),
                ),
                Err(e) => match cells {
                    None => {
                        &&& !opens ==> (if xlsx {
                            is_bad_request(e, "Error abriendo XLSX"@)
                        } else {
                            is_bad_request(e, "Error abriendo XLS"@)
                        })
                        &&& opens && !has_sheet ==> is_bad_request(e, "Excel sin hojas"@)
                        &&& opens && has_sheet ==> is_bad_request(
                            e,
                            "No se pudo leer la hoja de Excel"@,
                        )
                    },
                    Some(grid) => grid.len() == 0 && is_bad_request(e, "Excel vacio"@),
                },
            }
        }),
{
    let outcome = if xlsx {
        read_xlsx(data)
    } else {
        read_xls(data)
    };
    match outcome {
        WorkbookOutcome::Grid(cells) => sheet_table(cells),
        WorkbookOutcome::Unopened => {
            if xlsx {
                Err(ApiError::BadRequest(String::from_str("Error abriendo XLSX")))
            } else {
                Err(ApiError::BadRequest(String::from_str("Error abriendo XLS")))
            }
        },
        WorkbookOutcome::NoSheets => Err(ApiError::BadRequest(String::from_str("Excel sin hojas"))),
        WorkbookOutcome::Unreadable => Err(
            ApiError::BadRequest(String::from_str("No se pudo leer la hoja de Excel")),
        ),
    }
}

} // verus!
