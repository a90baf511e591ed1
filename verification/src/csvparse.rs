//! The CSV parser: delimiter sniffing, quoted fields, flexible field
//! counts, trimmed header names. The file format is the library's own
//! logic, specified at the character level; only the UTF-8 decoding of
//! the raw bytes goes through a trusted wrapper.
//!
//! The dialect follows RFC 4180: a double quote outside a quoted run
//! opens one; inside a quoted run the delimiter and newlines are ordinary
//! characters, a doubled quote (`""`) is one literal quote, and a single
//! quote closes the run. An unterminated quote runs to the end of the
//! input.
use vstd::prelude::*;
use vstd::slice::slice_to_vec;
use vstd::string::StringExecFns;
use vstd::utf8::decode_utf8;
use vstd::utf8::valid_utf8;
use crate::strutil::bytes_to_string;
use crate::strutil::chars_to_string;
use crate::strutil::spec_trim;
use crate::strutil::str_to_chars;
use crate::strutil::trim_chars;
use crate::types::ApiError;

verus! {

/// The index of the first occurrence of `c` in `s`; `s.len()` if absent.
pub open spec fn spec_first_idx<A>(s: Seq<A>, c: A) -> int
    decreases s.len(),
{
    if s.len() == 0 {
        0
    } else if s[0] == c {
        0
    } else {
        1 + spec_first_idx(s.drop_first(), c)
    }
}

/// `spec_first_idx` is in range, points at `c`, and nothing before it is `c`.
pub proof fn lemma_first_idx<A>(s: Seq<A>, c: A)
    ensures
        0 <= spec_first_idx(s, c) <= s.len(),
        spec_first_idx(s, c) < s.len() ==> s[spec_first_idx(s, c)] == c,
        forall|j: int| 0 <= j < spec_first_idx(s, c) ==> s[j] != c,
    decreases s.len(),
{
    if s.len() > 0 && s[0] != c {
        lemma_first_idx(s.drop_first(), c);
        assert forall|j: int| 0 <= j < spec_first_idx(s, c) implies s[j] != c by {
            if j > 0 {
                assert(s.drop_first()[j - 1] != c);
            }
        }
    }
}

/// `s` split on the separator `c`, honouring quotes: a separator inside a
/// quoted run does not split. `inq` is the quoting state at the head of
/// `s`; a doubled quote inside a run stays one token of two characters.
/// The pieces keep their quote characters; always one more piece than
/// splitting separators.
pub open spec fn spec_qsplit_from(s: Seq<char>, c: char, inq: bool) -> Seq<Seq<char>>
    decreases s.len(),
{
    if s.len() == 0 {
        seq![Seq::empty()]
    } else if !inq && s[0] == c {
        seq![Seq::<char>::empty()] + spec_qsplit_from(s.drop_first(), c, false)
    } else if !inq && s[0] == '"' {
        let rest = spec_qsplit_from(s.drop_first(), c, true);
        rest.update(0, seq![s[0]] + rest[0])
    } else if inq && s[0] == '"' && s.len() >= 2 && s[1] == '"' {
        let rest = spec_qsplit_from(s.skip(2), c, true);
        rest.update(0, seq![s[0], s[1]] + rest[0])
    } else if inq && s[0] == '"' {
        let rest = spec_qsplit_from(s.drop_first(), c, false);
        rest.update(0, seq![s[0]] + rest[0])
    } else {
        let rest = spec_qsplit_from(s.drop_first(), c, inq);
        rest.update(0, seq![s[0]] + rest[0])
    }
}

/// `s` split on the separator `c` outside quotes, starting unquoted.
pub open spec fn spec_qsplit(s: Seq<char>, c: char) -> Seq<Seq<char>> {
    spec_qsplit_from(s, c, false)
}

/// A split has at least one piece.
pub proof fn lemma_qsplit_len(s: Seq<char>, c: char, inq: bool)
    ensures
        spec_qsplit_from(s, c, inq).len() >= 1,
    decreases s.len(),
{
    if s.len() > 0 {
        if !inq && s[0] == c {
            lemma_qsplit_len(s.drop_first(), c, false);
        } else if !inq && s[0] == '"' {
            lemma_qsplit_len(s.drop_first(), c, true);
        } else if inq && s[0] == '"' && s.len() >= 2 && s[1] == '"' {
            lemma_qsplit_len(s.skip(2), c, true);
        } else if inq && s[0] == '"' {
            lemma_qsplit_len(s.drop_first(), c, false);
        } else {
            lemma_qsplit_len(s.drop_first(), c, inq);
        }
    }
}

/// The character-level views of split pieces.
pub open spec fn views_of(v: Seq<Vec<char>>) -> Seq<Seq<char>> {
    v.map_values(|l: Vec<char>| l@)
}

/// Split a character vector on a separator, honouring quotes.
pub fn qsplit_chars(s: &Vec<char>, c: char) -> (r: Vec<Vec<char>>)
    ensures
        views_of(r@) == spec_qsplit(s@, c),
{
    let ghost full = s@;
    let mut out: Vec<Vec<char>> = Vec::new();
    let mut cur: Vec<char> = Vec::new();
    let mut i: usize = 0;
    let mut inq = false;
    proof {
        lemma_qsplit_len(full, c, false);
        assert(full.skip(0) =~= full);
        assert(cur@ + spec_qsplit(full, c)[0] =~= spec_qsplit(full, c)[0]);
        assert(spec_qsplit(full, c).update(0, cur@ + spec_qsplit(full, c)[0]) =~= spec_qsplit(
            full,
            c,
        ));
        assert(views_of(out@) + spec_qsplit(full, c) =~= spec_qsplit(full, c));
    }
    while i < s.len()
        invariant
            0 <= i <= full.len(),
            s@ == full,
            spec_qsplit(full, c) == views_of(out@) + spec_qsplit_from(
                full.skip(i as int),
                c,
                inq,
            ).update(0, cur@ + spec_qsplit_from(full.skip(i as int), c, inq)[0]),
            spec_qsplit_from(full.skip(i as int), c, inq).len() >= 1,
        decreases full.len() - i,
    {
        let ghost pre = full.skip(i as int);
        proof {
            assert(pre.drop_first() =~= full.skip(i + 1 as int));
            assert(pre[0] == full[i as int]);
        }
        let ch = s[i];
        if !inq && ch == c {
            proof {
                lemma_qsplit_len(full.skip(i + 1 as int), c, false);
            }
            let ghost old_out = out@;
            let done = cur;
            cur = Vec::new();
            out.push(done);
            proof {
                let post = spec_qsplit_from(full.skip(i + 1 as int), c, false);
                let m = views_of(old_out);
                assert(spec_qsplit_from(pre, c, false) == seq![Seq::<char>::empty()] + post);
                let done_view = out@.last()@;
                assert(spec_qsplit_from(pre, c, false).update(
                    0,
                    done_view + spec_qsplit_from(pre, c, false)[0],
                ) =~= seq![done_view] + post);
                assert(views_of(out@) =~= m.push(done_view));
                assert(m + (seq![done_view] + post) =~= m.push(done_view) + post);
                assert(post.update(0, cur@ + post[0]) =~= post);
                assert(spec_qsplit(full, c) =~= views_of(out@) + post.update(
                    0,
                    cur@ + post[0],
                ));
            }
            i += 1;
        } else if inq && ch == '"' && i + 1 < s.len() && s[i + 1] == '"' {
            proof {
                lemma_qsplit_len(full.skip(i + 2 as int), c, true);
                assert(pre.len() >= 2);
                assert(pre[1] == full[i + 1]);
                assert(pre.skip(2) =~= full.skip(i + 2 as int));
            }
            let ghost old_cur = cur@;
            cur.push(ch);
            cur.push(s[i + 1]);
            proof {
                let post = spec_qsplit_from(full.skip(i + 2 as int), c, true);
                assert(spec_qsplit_from(pre, c, true) == post.update(
                    0,
                    seq![full[i as int], full[i + 1]] + post[0],
                ));
                assert(spec_qsplit_from(pre, c, true)[0] == seq![full[i as int], full[i + 1]]
                    + post[0]);
                assert(spec_qsplit_from(pre, c, true).update(
                    0,
                    old_cur + spec_qsplit_from(pre, c, true)[0],
                ) =~= post.update(0, old_cur + (seq![full[i as int], full[i + 1]] + post[0])));
                assert(cur@ + post[0] =~= old_cur + (seq![full[i as int], full[i + 1]]
                    + post[0]));
                assert(spec_qsplit(full, c) =~= views_of(out@) + post.update(
                    0,
                    cur@ + post[0],
                ));
            }
            i += 2;
        } else {
            let ghost next_inq = if ch == '"' {
                !inq
            } else {
                inq
            };
            proof {
                lemma_qsplit_len(full.skip(i + 1 as int), c, next_inq);
                let post = spec_qsplit_from(full.skip(i + 1 as int), c, next_inq);
                assert(spec_qsplit_from(pre, c, inq) == post.update(
                    0,
                    seq![full[i as int]] + post[0],
                ));
            }
            let ghost old_cur = cur@;
            cur.push(ch);
            if ch == '"' {
                inq = !inq;
            }
            proof {
                let post = spec_qsplit_from(full.skip(i + 1 as int), c, inq);
                assert(spec_qsplit_from(pre, c, if ch == '"' {
                    !inq
                } else {
                    inq
                }).update(0, old_cur + spec_qsplit_from(pre, c, if ch == '"' {
                    !inq
                } else {
                    inq
                })[0]) =~= post.update(0, old_cur + (seq![full[i as int]] + post[0])));
                assert(cur@ + post[0] =~= old_cur + (seq![full[i as int]] + post[0]));
                assert(spec_qsplit(full, c) =~= views_of(out@) + post.update(
                    0,
                    cur@ + post[0],
                ));
            }
            i += 1;
        }
    }
    proof {
        assert(full.skip(full.len() as int) =~= Seq::<char>::empty());
        assert(spec_qsplit_from(Seq::<char>::empty(), c, inq) == seq![Seq::<char>::empty()]);
    }
    let ghost old_out = out@;
    out.push(cur);
    proof {
        let m = views_of(old_out);
        let last_view = out@.last()@;
        assert(seq![Seq::<char>::empty()].update(0, last_view + Seq::<char>::empty()) =~= seq![
            last_view,
        ]);
        assert(views_of(out@) =~= m.push(last_view));
        assert(m + seq![last_view] =~= m.push(last_view));
    }
    out
}

/// A field with its quoting removed: an opening quote starts a run, a
/// doubled quote inside a run yields one literal quote, a single quote
/// ends the run; everything else is kept.
pub open spec fn spec_unquote_from(s: Seq<char>, inq: bool) -> Seq<char>
    decreases s.len(),
{
    if s.len() == 0 {
        Seq::empty()
    } else if !inq && s[0] == '"' {
        spec_unquote_from(s.drop_first(), true)
    } else if inq && s[0] == '"' && s.len() >= 2 && s[1] == '"' {
        seq!['"'] + spec_unquote_from(s.skip(2), true)
    } else if inq && s[0] == '"' {
        spec_unquote_from(s.drop_first(), false)
    } else {
        seq![s[0]] + spec_unquote_from(s.drop_first(), inq)
    }
}

/// A field with its quoting removed, starting unquoted.
pub open spec fn spec_unquote(s: Seq<char>) -> Seq<char> {
    spec_unquote_from(s, false)
}

/// Remove the quoting of one field.
pub fn unquote_chars(v: &Vec<char>) -> (r: Vec<char>)
    ensures
        r@ == spec_unquote(v@),
{
    let ghost full = v@;
    let mut out: Vec<char> = Vec::new();
    let mut i: usize = 0;
    let mut inq = false;
    proof {
        assert(full.skip(0) =~= full);
        assert(out@ + spec_unquote(full) =~= spec_unquote(full));
    }
    while i < v.len()
        invariant
            0 <= i <= full.len(),
            v@ == full,
            spec_unquote(full) == out@ + spec_unquote_from(full.skip(i as int), inq),
        decreases full.len() - i,
    {
        let ghost pre = full.skip(i as int);
        proof {
            assert(pre.drop_first() =~= full.skip(i + 1 as int));
            assert(pre[0] == full[i as int]);
        }
        let ch = v[i];
        let ghost old_out = out@;
        if inq && ch == '"' && i + 1 < v.len() && v[i + 1] == '"' {
            proof {
                assert(pre.len() >= 2);
                assert(pre[1] == full[i + 1]);
                assert(pre.skip(2) =~= full.skip(i + 2 as int));
            }
            out.push('"');
            proof {
                let post = spec_unquote_from(full.skip(i + 2 as int), true);
                assert(spec_unquote_from(pre, true) == seq!['"'] + post);
                assert(out@ =~= old_out.push('"'));
                assert(old_out + (seq!['"'] + post) =~= out@ + post);
            }
            i += 2;
        } else if ch == '"' {
            inq = !inq;
            proof {
                let post = spec_unquote_from(full.skip(i + 1 as int), inq);
                assert(spec_unquote_from(pre, !inq) == post);
            }
            i += 1;
        } else {
            out.push(ch);
            proof {
                let post = spec_unquote_from(full.skip(i + 1 as int), inq);
                assert(spec_unquote_from(pre, inq) == seq![full[i as int]] + post);
                assert(out@ =~= old_out.push(full[i as int]));
                assert(old_out + (seq![full[i as int]] + post) =~= out@ + post);
            }
            i += 1;
        }
    }
    proof {
        assert(full.skip(full.len() as int) =~= Seq::<char>::empty());
    }
    out
}

/// A line with one trailing carriage return stripped.
pub open spec fn spec_strip_cr(line: Seq<char>) -> Seq<char> {
    if line.len() > 0 && line.last() == '\r' {
        line.drop_last()
    } else {
        line
    }
}

/// The split segments as lines: carriage returns stripped, empty lines
/// dropped.
pub open spec fn spec_lines_of(segs: Seq<Seq<char>>) -> Seq<Seq<char>>
    decreases segs.len(),
{
    if segs.len() == 0 {
        Seq::empty()
    } else {
        let rest = spec_lines_of(segs.drop_last());
        let line = spec_strip_cr(segs.last());
        if line.len() > 0 {
            rest.push(line)
        } else {
            rest
        }
    }
}

/// The non-empty lines of `s`: split on unquoted newlines, carriage
/// returns stripped. A newline inside a quoted field stays in its line.
pub open spec fn spec_lines(s: Seq<char>) -> Seq<Seq<char>> {
    spec_lines_of(spec_qsplit(s, '\n'))
}

/// The sniffed delimiter: a semicolon if one occurs among roughly the
/// first thousand raw bytes, a comma otherwise.
pub open spec fn spec_delim(data: Seq<u8>) -> char {
    if exists|i: int| 0 <= i < 1000 && i < data.len() && data[i] == 59u8 {
        ';'
    } else {
        ','
    }
}

/// One header name: the field unquoted, then trimmed of surrounding
/// whitespace.
pub open spec fn spec_header_of(seg: Seq<char>) -> Seq<char> {
    spec_trim(spec_unquote(seg))
}

/// Every field of the header line, unquoted and trimmed.
pub open spec fn spec_headers_of(segs: Seq<Seq<char>>) -> Seq<Seq<char>>
    decreases segs.len(),
{
    if segs.len() == 0 {
        Seq::empty()
    } else {
        spec_headers_of(segs.drop_last()).push(spec_header_of(segs.last()))
    }
}

/// Header projection keeps the count and maps each field.
pub proof fn lemma_headers_of(segs: Seq<Seq<char>>)
    ensures
        spec_headers_of(segs).len() == segs.len(),
        forall|i: int|
            0 <= i < segs.len() ==> spec_headers_of(segs)[i] == spec_header_of(#[trigger] segs[i]),
    decreases segs.len(),
{
    if segs.len() > 0 {
        lemma_headers_of(segs.drop_last());
        assert forall|i: int| 0 <= i < segs.len() implies spec_headers_of(segs)[i]
            == spec_header_of(#[trigger] segs[i]) by {
            if i < segs.len() - 1 {
                assert(segs.drop_last()[i] == segs[i]);
                assert(spec_headers_of(segs.drop_last())[i] == spec_header_of(
                    segs.drop_last()[i],
                ));
            }
        }
    }
}

/// The parsed header list: the first line split on the delimiter outside
/// quotes, each name unquoted and trimmed. Empty input has no headers.
pub open spec fn spec_csv_headers(data: Seq<u8>) -> Seq<Seq<char>> {
    let lines = spec_lines(decode_utf8(data));
    if lines.len() == 0 {
        Seq::empty()
    } else {
        spec_headers_of(spec_qsplit(lines[0], spec_delim(data)))
    }
}

/// One data line zipped to the headers by position, each value unquoted:
/// extra fields are dropped, a short line yields fewer pairs.
pub open spec fn spec_zip_row(
    headers: Seq<Seq<char>>,
    line: Seq<char>,
    d: char,
) -> Seq<(Seq<char>, Seq<char>)> {
    let fields = spec_qsplit(line, d);
    Seq::new(
        if headers.len() <= fields.len() {
            headers.len()
        } else {
            fields.len()
        },
        |k: int| (headers[k], spec_unquote(fields[k])),
    )
}

/// The data lines zipped to the headers, in order.
pub open spec fn spec_rows_of(
    lines: Seq<Seq<char>>,
    headers: Seq<Seq<char>>,
    d: char,
) -> Seq<Seq<(Seq<char>, Seq<char>)>>
    decreases lines.len(),
{
    if lines.len() == 0 {
        Seq::empty()
    } else {
        spec_rows_of(lines.drop_last(), headers, d).push(spec_zip_row(headers, lines.last(), d))
    }
}

/// Zipping keeps the count and zips each line.
pub proof fn lemma_rows_of(lines: Seq<Seq<char>>, headers: Seq<Seq<char>>, d: char)
    ensures
        spec_rows_of(lines, headers, d).len() == lines.len(),
        forall|i: int|
            0 <= i < lines.len() ==> spec_rows_of(lines, headers, d)[i] == spec_zip_row(
                headers,
                #[trigger] lines[i],
                d,
            ),
    decreases lines.len(),
{
    if lines.len() > 0 {
        lemma_rows_of(lines.drop_last(), headers, d);
        assert forall|i: int| 0 <= i < lines.len() implies spec_rows_of(lines, headers, d)[i]
            == spec_zip_row(headers, #[trigger] lines[i], d) by {
            if i < lines.len() - 1 {
                assert(lines.drop_last()[i] == lines[i]);
                assert(spec_rows_of(lines.drop_last(), headers, d)[i] == spec_zip_row(
                    headers,
                    lines.drop_last()[i],
                    d,
                ));
            }
        }
    }
}

/// The parsed data rows: every line after the header line, zipped.
pub open spec fn spec_csv_rows(data: Seq<u8>) -> Seq<Seq<(Seq<char>, Seq<char>)>> {
    let lines = spec_lines(decode_utf8(data));
    if lines.len() == 0 {
        Seq::empty()
    } else {
        spec_rows_of(lines.skip(1), spec_csv_headers(data), spec_delim(data))
    }
}

/// The character-level view of one parsed row.
pub open spec fn view_row(r: Vec<(String, String)>) -> Seq<(Seq<char>, Seq<char>)> {
    r@.map_values(|p: (String, String)| (p.0@, p.1@))
}

/// The character-level view of all parsed rows.
pub open spec fn view_rows(rs: Seq<Vec<(String, String)>>) -> Seq<Seq<(Seq<char>, Seq<char>)>> {
    rs.map_values(|r: Vec<(String, String)>| view_row(r))
}

/// The character-level view of the header list.
pub open spec fn view_headers(hs: Seq<String>) -> Seq<Seq<char>> {
    hs.map_values(|h: String| h@)
}

/// Strip one trailing carriage return.
fn strip_cr(line: Vec<char>) -> (r: Vec<char>)
    ensures
        r@ == spec_strip_cr(line@),
{
    let mut line = line;
    if line.len() > 0 && line[line.len() - 1] == '\r' {
        line.pop();
        proof {
            assert(line@ =~= spec_strip_cr(line@.push('\r')));
        }
    }
    line
}

/// Sniff the delimiter from the first thousand raw bytes.
fn sniff_delim(data: &Vec<u8>) -> (r: char)
    ensures
        r == spec_delim(data@),
{
    let mut i: usize = 0;
    let stop = if data.len() < 1000 {
        data.len()
    } else {
        1000
    };
    while i < stop
        invariant
            0 <= i <= stop,
            stop == if data@.len() < 1000 {
                data@.len() as int
            } else {
                1000
            },
            forall|j: int| 0 <= j < i ==> data@[j] != 59u8,
        decreases stop - i,
    {
        if data[i] == 59u8 {
            return ';';
        }
        i += 1;
    }
    ','
}

/// The index of the first newline byte; the length if there is none.
fn first_newline(v: &Vec<u8>) -> (r: usize)
    ensures
        r as int == spec_first_idx(v@, 10u8),
        r <= v@.len(),
{
    let mut i: usize = 0;
    while i < v.len()
        invariant
            0 <= i <= v@.len(),
            forall|j: int| 0 <= j < i ==> v@[j] != 10u8,
        decreases v@.len() - i,
    {
        if v[i] == 10u8 {
            proof {
                lemma_first_idx(v@, 10u8);
                let fi = spec_first_idx(v@, 10u8);
                if fi < i as int {
                    assert(v@[fi] != 10u8);
                }
            }
            return i;
        }
        i += 1;
    }
    proof {
        lemma_first_idx(v@, 10u8);
        let fi = spec_first_idx(v@, 10u8);
        if fi < v@.len() {
            assert(v@[fi] != 10u8);
        }
    }
    i
}

/// The first `n` bytes, copied.
fn byte_prefix(v: &Vec<u8>, n: usize) -> (r: Vec<u8>)
    requires
        n <= v@.len(),
    ensures
        r@ == v@.take(n as int),
{
    let mut r: Vec<u8> = Vec::new();
    let mut i: usize = 0;
    while i < n
        invariant
            0 <= i <= n <= v@.len(),
            r@ == v@.take(i as int),
        decreases n - i,
    {
        r.push(v[i]);
        proof {
            assert(r@ =~= v@.take(i + 1 as int));
        }
        i += 1;
    }
    r
}

/// The message a malformed (non-UTF-8) file is rejected with: it names the
/// failing stage — the header line if the corruption lies before the first
/// newline byte, the row data otherwise.
pub open spec fn csv_error_message(data: Seq<u8>) -> Seq<char> {
    if !valid_utf8(data.take(spec_first_idx(data, 10u8))) {
        "CSV Invalido: Error leyendo headers"@
    } else {
        "CSV Invalido: Error parseando fila"@
    }
}

/// The stripped, non-empty lines of the character vector.
fn csv_lines(chars: &Vec<char>) -> (r: Vec<Vec<char>>)
    ensures
        views_of(r@) == spec_lines(chars@),
{
    let mut raw = qsplit_chars(chars, '\n');
    let ghost all = spec_qsplit(chars@, '\n');
    proof {
        assert(views_of(raw@) =~= all);
    }
    let ghost k: int = 0;
    let mut r: Vec<Vec<char>> = Vec::new();
    proof {
        assert(all.take(0) =~= Seq::<Seq<char>>::empty());
        assert(views_of(r@) =~= spec_lines_of(all.take(0)));
    }
    while raw.len() > 0
        invariant
            0 <= k <= all.len(),
            all.len() - k == raw@.len(),
            views_of(raw@) == all.skip(k),
            views_of(r@) == spec_lines_of(all.take(k)),
        decreases raw@.len(),
    {
        let ghost old_raw = raw@;
        let ghost old_r = r@;
        let line = raw.remove(0);
        proof {
            assert(views_of(old_raw)[0] == line@);
            assert(line@ == all[k]);
            assert forall|j: int| 0 <= j < raw@.len() implies views_of(raw@)[j] == all.skip(
                k + 1,
            )[j] by {
                assert(raw@[j] == old_raw[j + 1]);
                assert(views_of(old_raw)[j + 1] == old_raw[j + 1]@);
                assert(all.skip(k)[j + 1] == all[k + 1 + j]);
            }
            assert(views_of(raw@) =~= all.skip(k + 1));
        }
        let stripped = strip_cr(line);
        proof {
            assert(all.take(k + 1).drop_last() =~= all.take(k));
            assert(all.take(k + 1).last() == all[k]);
        }
        if stripped.len() > 0 {
            r.push(stripped);
            proof {
                assert(views_of(r@) =~= views_of(old_r).push(spec_strip_cr(all[k])));
                assert(views_of(r@) =~= spec_lines_of(all.take(k + 1)));
            }
        } else {
            proof {
                assert(views_of(r@) =~= spec_lines_of(all.take(k + 1)));
            }
        }
        proof {
            k = k + 1;
        }
    }
    proof {
        assert(all.take(all.len() as int) =~= all);
    }
    r
}

/// Parse a CSV file: sniff the delimiter from the raw bytes, take the
/// first line as unquoted, trimmed headers, zip every further line to the
/// headers by position with unquoted values. Quoted fields may carry the
/// delimiter and newlines; `""` inside quotes is one literal quote. The
/// only malformation is bytes that are not UTF-8; it is rejected naming
/// the failing stage.
pub fn parse_csv(data: &Vec<u8>) -> (r: Result<(Vec<String>, Vec<Vec<(String, String)>>), ApiError>)
    ensures
        r is Ok <==> valid_utf8(data@),
        r matches Ok((h, rows)) ==> view_headers(h@) == spec_csv_headers(data@) && view_rows(
            rows@,
        ) == spec_csv_rows(data@),
        r matches Err(e) ==> crate::types::is_bad_request(e, csv_error_message(data@)),
{
    let bytes = slice_to_vec(data.as_slice());
    let text = match bytes_to_string(bytes) {
        Some(t) => t,
        None => {
            let nl = first_newline(data);
            let head = byte_prefix(data, nl);
            return match bytes_to_string(head) {
                None => Err(
                    ApiError::BadRequest(String::from_str("CSV Invalido: Error leyendo headers")),
                ),
                Some(_) => Err(
                    ApiError::BadRequest(String::from_str("CSV Invalido: Error parseando fila")),
                ),
            };
        },
    };
    let ghost cs = decode_utf8(data@);
    let chars = str_to_chars(text.as_str());
    let delim = sniff_delim(data);
    let lines = csv_lines(&chars);
    let ghost lines_spec = spec_lines(cs);
    if lines.len() == 0 {
        let h: Vec<String> = Vec::new();
        let rows: Vec<Vec<(String, String)>> = Vec::new();
        proof {
            assert(view_headers(h@) =~= spec_csv_headers(data@));
            assert(view_rows(rows@) =~= spec_csv_rows(data@));
        }
        return Ok((h, rows));
    }
    let header_fields = qsplit_chars(&lines[0], delim);
    let ghost hs = spec_csv_headers(data@);
    proof {
        assert(views_of(lines@)[0] == lines@[0]@);
        assert(views_of(header_fields@) == spec_qsplit(lines_spec[0], spec_delim(data@)));
        lemma_headers_of(spec_qsplit(lines_spec[0], spec_delim(data@)));
        assert(views_of(header_fields@).len() == header_fields@.len());
        assert forall|t: int| 0 <= t < header_fields@.len() implies hs[t] == spec_header_of(
            (#[trigger] header_fields@[t])@,
        ) by {
            assert(views_of(header_fields@)[t] == header_fields@[t]@);
            assert(spec_headers_of(spec_qsplit(lines_spec[0], spec_delim(data@)))[t]
                == spec_header_of(spec_qsplit(lines_spec[0], spec_delim(data@))[t]));
        }
    }
    let mut headers: Vec<String> = Vec::new();
    let mut k: usize = 0;
    proof {
        assert(view_headers(headers@) =~= hs.take(0));
    }
    while k < header_fields.len()
        invariant
            0 <= k <= header_fields@.len(),
            hs.len() == header_fields@.len(),
            forall|t: int|
                0 <= t < header_fields@.len() ==> hs[t] == spec_header_of(
                    (#[trigger] header_fields@[t])@,
                ),
            headers@.len() == k,
            view_headers(headers@) == hs.take(k as int),
        decreases header_fields@.len() - k,
    {
        let unquoted = unquote_chars(&header_fields[k]);
        let trimmed = trim_chars(&unquoted);
        headers.push(chars_to_string(&trimmed));
        proof {
            assert(headers@[k as int]@ == spec_header_of(header_fields@[k as int]@));
            assert forall|x: int| 0 <= x < k + 1 implies view_headers(headers@)[x] == hs.take(
                k + 1 as int,
            )[x] by {
                assert(view_headers(headers@)[x] == headers@[x]@);
            }
            assert(view_headers(headers@) =~= hs.take(k + 1 as int));
        }
        k += 1;
    }
    proof {
        assert(hs.take(hs.len() as int) =~= hs);
    }
    let ghost rs = spec_csv_rows(data@);
    let mut rows: Vec<Vec<(String, String)>> = Vec::new();
    let mut t: usize = 1;
    proof {
        lemma_rows_of(lines_spec.skip(1), hs, spec_delim(data@));
        assert(view_rows(rows@) =~= rs.take(0));
    }
    while t < lines.len()
        invariant
            1 <= t <= lines@.len(),
            views_of(lines@) == lines_spec,
            lines_spec.len() >= 1,
            rs == spec_csv_rows(data@),
            rs == spec_rows_of(lines_spec.skip(1), hs, spec_delim(data@)),
            hs == spec_csv_headers(data@),
            rs.len() == lines_spec.len() - 1,
            forall|x: int|
                0 <= x < rs.len() ==> rs[x] == spec_zip_row(
                    hs,
                    #[trigger] lines_spec.skip(1)[x],
                    spec_delim(data@),
                ),
            view_headers(headers@) == hs,
            headers@.len() == hs.len(),
            delim == spec_delim(data@),
            rows@.len() == t - 1,
            view_rows(rows@) == rs.take(t - 1),
        decreases lines@.len() - t,
    {
        let fields = qsplit_chars(&lines[t], delim);
        proof {
            assert(views_of(lines@)[t as int] == lines@[t as int]@);
            assert(lines@[t as int]@ == lines_spec[t as int]);
            assert(views_of(fields@) == spec_qsplit(lines_spec[t as int], spec_delim(data@)));
            assert(lines_spec.skip(1)[t - 1] == lines_spec[t as int]);
        }
        let n = if headers.len() <= fields.len() {
            headers.len()
        } else {
            fields.len()
        };
        let ghost zr = spec_zip_row(hs, lines_spec[t as int], spec_delim(data@));
        let mut row: Vec<(String, String)> = Vec::new();
        let mut j: usize = 0;
        proof {
            assert(spec_qsplit(lines_spec[t as int], spec_delim(data@)).len() == fields@.len());
            assert(view_row(row) =~= zr.take(0));
        }
        while j < n
            invariant
                0 <= j <= n,
                n == if headers@.len() <= fields@.len() {
                    headers@.len() as int
                } else {
                    fields@.len() as int
                },
                zr.len() == n,
                forall|x: int|
                    0 <= x < n ==> #[trigger] zr[x] == (
                    view_headers(headers@)[x],
                    spec_unquote(views_of(fields@)[x]),
                ),
                view_headers(headers@).len() == headers@.len(),
                views_of(fields@).len() == fields@.len(),
                forall|x: int|
                    0 <= x < headers@.len() ==> view_headers(headers@)[x] == (
                    #[trigger] headers@[x])@,
                forall|x: int|
                    0 <= x < fields@.len() ==> views_of(fields@)[x] == (#[trigger] fields@[x])@,
                row@.len() == j,
                view_row(row) == zr.take(j as int),
            decreases n - j,
        {
            let value = unquote_chars(&fields[j]);
            row.push((headers[j].clone(), chars_to_string(&value)));
            proof {
                assert(row@[j as int].0@ == headers@[j as int]@);
                assert(row@[j as int].1@ == spec_unquote(fields@[j as int]@));
                assert forall|x: int| 0 <= x < j + 1 implies view_row(row)[x] == zr.take(
                    j + 1 as int,
                )[x] by {
                    assert(view_row(row)[x] == (row@[x].0@, row@[x].1@));
                }
                assert(view_row(row) =~= zr.take(j + 1 as int));
            }
            j += 1;
        }
        proof {
            assert(zr.take(zr.len() as int) =~= zr);
            assert(view_row(row) == zr);
        }
        let ghost old_rows = rows@;
        rows.push(row);
        proof {
            assert(view_rows(rows@) =~= view_rows(old_rows).push(zr));
            assert(rs.take(t as int) =~= rs.take(t - 1).push(rs[t - 1]));
            assert(view_rows(rows@) =~= rs.take(t as int));
        }
        t += 1;
    }
    proof {
        assert(rs.take(rs.len() as int) =~= rs);
    }
    Ok((headers, rows))
}

} // verus!
