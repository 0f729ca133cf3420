//! The lazy table: column headers plus either fully materialized rows or a
//! file-backed view with a single cached page of rows. Every row served to
//! a caller has exactly one cell per header.

use vstd::prelude::*;
use vstd::string::StringExecFns;
use crate::query::find_col;
use crate::text::{chars_of, lower, lower_vec};

verus! {

/// Rows per cached page of a file-backed table.
pub const PAGE_SIZE: usize = 128;

/// The starting row index of the page that holds row `idx`.
pub open spec fn page_start_of(idx: int) -> int {
    (idx / (PAGE_SIZE as int)) * (PAGE_SIZE as int)
}

/// `row` is `src` brought to exactly `n` cells: extra cells dropped,
/// missing ones empty.
pub open spec fn is_normalized_of(row: Seq<String>, src: Seq<String>, n: int) -> bool {
    &&& row.len() == n
    &&& forall|j: int| 0 <= j < n && j < src.len() ==> #[trigger] row[j] == src[j]
    &&& forall|j: int| src.len() <= j < n ==> (#[trigger] row[j])@.len() == 0
}

/// `row` is `n` empty cells.
pub open spec fn is_blank_row(row: Seq<String>, n: int) -> bool {
    &&& row.len() == n
    &&& forall|j: int| 0 <= j < n ==> (#[trigger] row[j])@.len() == 0
}

/// A failure while reading the data source.
#[derive(Debug, Clone)]
pub struct TableError {
    pub message: String,
}

/// A table of rows under named columns. When `rows` is present the table
/// is fully in memory; otherwise rows are read on demand from `path`, one
/// page at a time, through `page_cache`.
#[derive(Debug, Clone)]
pub struct Table {
    pub headers: Vec<String>,
    pub rows: Option<Vec<Vec<String>>>,
    pub path: Option<String>,
    pub is_gz: bool,
    /// number of data rows, not counting the header
    pub total_rows: usize,
    /// starting row index of the cached page
    pub page_cache_start: Option<usize>,
    pub page_cache: Option<Vec<Vec<String>>>,
}

impl Table {
    /// A materialized table holds one cell per header in every row, and
    /// `total_rows` counts its rows; a file-backed table is an uncompressed
    /// file (compressed input is materialized whole when it is loaded).
    pub open spec fn wf(&self) -> bool {
        &&& match self.rows {
            Some(rs) => {
                &&& rs@.len() == self.total_rows
                &&& forall|i: int|
                    0 <= i < rs@.len() ==> (#[trigger] rs@[i])@.len() == self.headers@.len()
            },
            None => self.path is Some && !self.is_gz,
        }
    }

    /// Is every row held in memory?
    pub open spec fn in_memory(&self) -> bool {
        self.rows is Some
    }

    /// The materialized rows (empty for a file-backed table).
    pub open spec fn mem_rows(&self) -> Seq<Vec<String>> {
        match self.rows {
            Some(rs) => rs@,
            None => Seq::empty(),
        }
    }

    /// Everything that identifies the table and its contents; the page
    /// cache may differ.
    pub open spec fn same_source(&self, other: &Table) -> bool {
        &&& self.headers == other.headers
        &&& self.rows == other.rows
        &&& self.path == other.path
        &&& self.is_gz == other.is_gz
        &&& self.total_rows == other.total_rows
    }

    /// Build a fully materialized table; `None` when some row does not
    /// have one cell per header.
    pub fn from_rows(headers: Vec<String>, rows: Vec<Vec<String>>) -> (r: Option<Table>)
        ensures
            match r {
                Some(t) => {
                    &&& t.wf()
                    &&& t.in_memory()
                    &&& t.headers == headers
                    &&& t.mem_rows() == rows@
                    &&& t.total_rows == rows@.len()
                },
                None => exists|i: int|
                    0 <= i < rows@.len() && (#[trigger] rows@[i])@.len() != headers@.len(),
            },
    {
        let mut i: usize = 0;
        while i < rows.len()
            invariant
                i <= rows@.len(),
                forall|j: int| 0 <= j < i ==> (#[trigger] rows@[j])@.len() == headers@.len(),
            decreases rows.len() - i,
        {
            if rows[i].len() != headers.len() {
                return None;
            }
            i = i + 1;
        }
        let total = rows.len();
        Some(
            Table {
                headers,
                rows: Some(rows),
                path: None,
                is_gz: false,
                total_rows: total,
                page_cache_start: None,
                page_cache: None,
            },
        )
    }

    /// Position of the column with this name, compared without regard to
    /// ASCII case.
    pub fn column_index(&self, name: &str) -> (r: Option<usize>)
        ensures
            match r {
                Some(i) => i == find_col(self.headers.deep_view(), lower(name@)) && i
                    < self.headers.deep_view().len(),
                None => find_col(self.headers.deep_view(), lower(name@))
                    == self.headers.deep_view().len(),
            },
    {
        let raw = chars_of(name);
        let key = lower_vec(&raw);
        crate::query::find_column(&self.headers, &key)
    }

    /// Fetch the row at `idx`. A materialized table serves it directly; a
    /// file-backed table serves it from the cached page, reading the page
    /// that holds `idx` from disk first when a different one is cached.
    /// Every row handed out has exactly one cell per header: a missing or
    /// short row is padded with empty cells, a long one truncated.
    pub fn get_row(&mut self, idx: usize) -> (r: Result<Vec<String>, TableError>)
        requires
            old(self).wf(),
        ensures
            final(self).wf(),
            final(self).same_source(old(self)),
            match r {
                Ok(row) => row@.len() == old(self).headers@.len(),
                Err(_) => !old(self).in_memory(),
            },
            old(self).in_memory() ==> match r {
                Ok(row) => if idx < old(self).total_rows {
                    row.deep_view() == old(self).mem_rows()[idx as int].deep_view()
                } else {
                    forall|j: int| 0 <= j < row@.len() ==> (#[trigger] row@[j])@.len() == 0
                },
                Err(_) => false,
            },
            old(self).in_memory() ==> final(self).page_cache == old(self).page_cache && final(self).page_cache_start == old(self).page_cache_start,
            // a read that succeeds leaves the page holding `idx` cached; a
            // failed one leaves the cache as it was
            !old(self).in_memory() ==> match r {
                Ok(_) => {
                    &&& final(self).page_cache_start == Some(page_start_of(idx as int) as usize)
                    &&& final(self).page_cache is Some
                    // a page freshly read from the file holds at most one
                    // page of records
                    &&& (!(old(self).page_cache_start == Some(page_start_of(idx as int) as usize)
                        && old(self).page_cache is Some) ==> (final(self).page_cache matches Some(
                        pg,
                    ) && pg@.len() <= PAGE_SIZE))
                },
                Err(_) => final(self).page_cache_start == old(self).page_cache_start && final(self).page_cache == old(self).page_cache,
            },
            // a warm cache hit reads nothing: it succeeds, keeps the cache,
            // and serves the cached record brought to the header width
            (!old(self).in_memory() && old(self).page_cache_start == Some(
                page_start_of(idx as int) as usize,
            )) ==> match old(self).page_cache {
                Some(pg) => {
                    &&& r is Ok
                    &&& final(self).page_cache == old(self).page_cache
                    &&& final(self).page_cache_start == old(self).page_cache_start
                    &&& match r {
                        Ok(row) => {
                            let off = idx - page_start_of(idx as int);
                            if off < pg@.len() {
                                is_normalized_of(row@, pg@[off]@, old(self).headers@.len() as int)
                            } else {
                                is_blank_row(row@, old(self).headers@.len() as int)
                            }
                        },
                        Err(_) => false,
                    }
                },
                None => true,
            },
    {
        let ncols = self.headers.len();
        match &self.rows {
            Some(rs) => {
                if idx < rs.len() {
                    let row = rs[idx].clone();
                    proof {
                        assert forall|j: int| 0 <= j < row@.len() implies row@[j]@ == rs@[
                            idx as int
                        ]@[j]@ by {
                            assert(vstd::pervasive::cloned::<String>(
                                rs@[idx as int]@[j],
                                row@[j],
                            ));
                        }
                        assert(row.deep_view() =~~= rs@[idx as int].deep_view());
                    }
                    Ok(row)
                } else {
                    Ok(blank_row(ncols))
                }
            },
            None => {
                let page_start: usize = (idx / PAGE_SIZE) * PAGE_SIZE;
                let mut hit = false;
                match self.page_cache_start {
                    Some(s) => {
                        if s == page_start && self.page_cache.is_some() {
                            hit = true;
                        }
                    },
                    None => {},
                }
                if !hit {
                    let path = match &self.path {
                        Some(p) => p.clone(),
                        None => {
                            return Err(
                                TableError { message: String::from_str("no backing file") },
                            );
                        },
                    };
                    match csv_window_path(path.as_str(), page_start, PAGE_SIZE) {
                        Ok(page) => {
                            self.page_cache_start = Some(page_start);
                            self.page_cache = Some(page);
                        },
                        Err(e) => {
                            return Err(e);
                        },
                    }
                }
                match &self.page_cache {
                    Some(page) => {
                        let off: usize = idx - page_start;
                        if off < page.len() {
                            Ok(normalize_row(&page[off], ncols))
                        } else {
                            Ok(blank_row(ncols))
                        }
                    },
                    None => Err(TableError { message: String::from_str("no cached page") }),
                }
            },
        }
    }
}

/// A row of `n` empty cells.
fn blank_row(n: usize) -> (r: Vec<String>)
    ensures
        r@.len() == n,
        forall|j: int| 0 <= j < r@.len() ==> (#[trigger] r@[j])@.len() == 0,
{
    let mut out: Vec<String> = Vec::new();
    let mut i: usize = 0;
    while i < n
        invariant
            i <= n,
            out@.len() == i,
            forall|j: int| 0 <= j < out@.len() ==> (#[trigger] out@[j])@.len() == 0,
        decreases n - i,
    {
        out.push(String::new());
        i = i + 1;
    }
    out
}

/// `row` brought to exactly `n` cells: extra cells are dropped, missing
/// ones are empty.
fn normalize_row(row: &Vec<String>, n: usize) -> (r: Vec<String>)
    ensures
        r@.len() == n,
        forall|j: int| 0 <= j < n && j < row@.len() ==> #[trigger] r@[j] == row@[j],
        forall|j: int| row@.len() <= j < n ==> (#[trigger] r@[j])@.len() == 0,
{
    let mut out: Vec<String> = Vec::new();
    let mut i: usize = 0;
    while i < n
        invariant
            i <= n,
            out@.len() == i,
            forall|j: int| 0 <= j < i && j < row@.len() ==> #[trigger] out@[j] == row@[j],
            forall|j: int| row@.len() <= j < i ==> (#[trigger] out@[j])@.len() == 0,
        decreases n - i,
    {
        if i < row.len() {
            out.push(row[i].clone());
        } else {
            out.push(String::new());
        }
        i = i + 1;
    }
    out
}

/// Load the headers and the row count of a delimited text file without
/// keeping its rows; the table then reads pages on demand.
pub fn load_csv(path: &str) -> (r: Result<Table, TableError>)
    ensures
        match r {
            Ok(t) => {
                &&& t.wf()
                &&& !t.in_memory()
                &&& !t.is_gz
                &&& t.path matches Some(p) && p@ == path@
                &&& t.page_cache_start is None
                &&& t.page_cache is None
            },
            Err(_) => true,
        },
{
    let headers = match csv_headers_path(path) {
        Ok(h) => h,
        Err(e) => {
            return Err(e);
        },
    };
    let total = match csv_count_path(path) {
        Ok(n) => n,
        Err(e) => {
            return Err(e);
        },
    };
    Ok(
        Table {
            headers,
            rows: None,
            path: Some(String::from_str(path)),
            is_gz: false,
            total_rows: total,
            page_cache_start: None,
            page_cache: None,
        },
    )
}

/// Decompress a gzip file's bytes and materialize the whole table: a
/// compressed stream cannot be paged through cheaply.
pub fn from_gz_bytes(data: &Vec<u8>) -> (r: Result<Table, TableError>)
    ensures
        match r {
            Ok(t) => t.wf() && t.in_memory() && t.is_gz,
            Err(_) => true,
        },
{
    let plain = match gz_decode(data) {
        Ok(d) => d,
        Err(e) => {
            return Err(e);
        },
    };
    let (headers, rows) = match csv_parse_bytes(&plain) {
        Ok(p) => p,
        Err(e) => {
            return Err(e);
        },
    };
    let total = rows.len();
    Ok(
        Table {
            headers,
            rows: Some(rows),
            path: None,
            is_gz: true,
            total_rows: total,
            page_cache_start: None,
            page_cache: None,
        },
    )
}

/// Relies on `csv::ReaderBuilder::from_path` and `csv::Reader::headers`:
/// the header record of the file at `path`. What the file holds is not
/// modeled; nothing is promised of the result.
#[verifier::external_body]
fn csv_headers_path(path: &str) -> (r: Result<Vec<String>, TableError>) {
    match csv::ReaderBuilder::new().has_headers(true).from_path(path) {
        Ok(mut rdr) => match rdr.headers() {
            Ok(h) => Ok(h.iter().map(|s| s.to_string()).collect()),
            Err(e) => Err(TableError { message: e.to_string() }),
        },
        Err(e) => Err(TableError { message: e.to_string() }),
    }
}

/// Relies on `csv::Reader::records`: the number of data records in the
/// file at `path`, or the first read error.
#[verifier::external_body]
fn csv_count_path(path: &str) -> (r: Result<usize, TableError>) {
    match csv::ReaderBuilder::new().has_headers(true).from_path(path) {
        Ok(mut rdr) => rdr
            .records()
            .map(|rec| rec.map(|_| ()))
            .collect::<Result<Vec<()>, csv::Error>>()
            .map(|v| v.len())
            .map_err(|e| TableError { message: e.to_string() }),
        Err(e) => Err(TableError { message: e.to_string() }),
    }
}

/// Relies on `csv::Reader::records`: the records of the file at `path`
/// from `start` on, at most `count` of them. The file is not modeled, so
/// only the count bound is promised.
#[verifier::external_body]
fn csv_window_path(path: &str, start: usize, count: usize) -> (r: Result<
    Vec<Vec<String>>,
    TableError,
>)
    ensures
        match r {
            Ok(v) => v@.len() <= count,
            Err(_) => true,
        },
{
    match csv::ReaderBuilder::new().has_headers(true).from_path(path) {
        Ok(rdr) => rdr
            .into_records()
            .skip(start)
            .take(count)
            .map(|rec| rec.map(|row| row.iter().map(|s| s.to_string()).collect::<Vec<String>>()))
            .collect::<Result<Vec<Vec<String>>, csv::Error>>()
            .map_err(|e| TableError { message: e.to_string() }),
        Err(e) => Err(TableError { message: e.to_string() }),
    }
}

/// Relies on `csv::Reader::headers` and `csv::Reader::records` over a byte
/// slice: the header record and the data records of a delimited document.
/// The reader rejects any record whose field count differs from the first
/// record's, so on success every row has one field per header.
#[verifier::external_body]
fn csv_parse_bytes(data: &Vec<u8>) -> (r: Result<(Vec<String>, Vec<Vec<String>>), TableError>)
    ensures
        match r {
            Ok(p) => forall|i: int|
                0 <= i < p.1@.len() ==> (#[trigger] p.1@[i])@.len() == p.0@.len(),
            Err(_) => true,
        },
{
    let mut rdr = csv::ReaderBuilder::new().has_headers(true).from_reader(data.as_slice());
    let headers: Vec<String> = match rdr.headers() {
        Ok(h) => h.iter().map(|s| s.to_string()).collect(),
        Err(e) => return Err(TableError { message: e.to_string() }),
    };
    let rows = rdr
        .records()
        .map(|rec| rec.map(|row| row.iter().map(|s| s.to_string()).collect::<Vec<String>>()))
        .collect::<Result<Vec<Vec<String>>, csv::Error>>()
        .map_err(|e| TableError { message: e.to_string() })?;
    Ok((headers, rows))
}

/// Relies on `flate2::read::GzDecoder`: the decompressed bytes of a gzip
/// stream, or an error for a malformed one.
#[verifier::external_body]
fn gz_decode(data: &Vec<u8>) -> (r: Result<Vec<u8>, TableError>) {
    let mut out: Vec<u8> = Vec::new();
    let mut dec = flate2::read::GzDecoder::new(data.as_slice());
    match std::io::Read::read_to_end(&mut dec, &mut out) {
        Ok(_) => Ok(out),
        Err(e) => Err(TableError { message: e.to_string() }),
    }
}

} // verus!
