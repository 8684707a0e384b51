//! Delimited normalizer: comma-separated text whose first record is the
//! header line.
//!
//! Each later record becomes one row keyed by header position. A ragged
//! record — fewer fields than headers — simply omits the missing keys,
//! which the display substitutes with the sentinel; fields beyond the
//! headers are dropped; a record the reader cannot parse is skipped rather
//! than aborting the parse. Header names are trimmed, and the column list
//! keeps the first occurrence of each name.

use vstd::prelude::*;
use vstd::string::*;
use crate::cells::trim_spec;
use crate::cells::trim_text;
use crate::detect::FileError;
use crate::detect::FileInfo;
use crate::table::DataFrame;
use crate::table::Row;
use crate::table::dedup_columns;
use crate::table::dedup_first;
use crate::table::lemma_dedup_first_props;

verus! {

/// What the csv reader splits a text into: the header record, and the data
/// records that parse.
pub uninterp spec fn csv_split(s: Seq<char>) -> (Seq<Seq<char>>, Seq<Seq<Seq<char>>>);

/// Relies on csv::Reader (crate `csv`): with headers enabled it hands out
/// the first record as headers and each later record as data; reading
/// flexibly, so a ragged record is handed out as it is, and a record that
/// still fails to parse is skipped. The split is a function of the text
/// alone.
#[verifier::external_body]
fn csv_records(content: &str) -> (r: (Vec<String>, Vec<Vec<String>>))
    ensures
        r.0.deep_view() == csv_split(content@).0,
        r.1.deep_view() == csv_split(content@).1,
{
    let mut reader = csv::ReaderBuilder::new().has_headers(true).flexible(true).from_reader(
        content.as_bytes(),
    );
    let headers: Vec<String> = match reader.headers() {
        Ok(h) => h.iter().map(|c| c.to_string()).collect(),
        Err(_) => Vec::new(),
    };
    let records: Vec<Vec<String>> = reader.records().flatten().map(
        |rec| rec.iter().map(|c| c.to_string()).collect(),
    ).collect();
    (headers, records)
}

/// Every name of the list, trimmed, in order.
pub open spec fn trimmed(h: Seq<Seq<char>>) -> Seq<Seq<char>> {
    h.map_values(|c: Seq<char>| trim_spec(c))
}

/// The first `k` fields of a record, keyed by the column at the same
/// position; a later duplicate column name overwrites an earlier one.
pub open spec fn row_of_record(cols: Seq<Seq<char>>, rec: Seq<Seq<char>>, k: int) -> Map<
    Seq<char>,
    Seq<char>,
>
    decreases k,
{
    if k <= 0 {
        Map::empty()
    } else {
        row_of_record(cols, rec, k - 1).insert(cols[k - 1], rec[k - 1])
    }
}

/// How many fields of a record are keyed: one per column, and no more than
/// the record has.
pub open spec fn record_width(cols: Seq<Seq<char>>, rec: Seq<Seq<char>>) -> int {
    if cols.len() <= rec.len() {
        cols.len() as int
    } else {
        rec.len() as int
    }
}

/// The row one record yields under the given column names.
pub open spec fn delimited_row(cols: Seq<Seq<char>>, rec: Seq<Seq<char>>) -> Map<
    Seq<char>,
    Seq<char>,
> {
    row_of_record(cols, rec, record_width(cols, rec))
}

/// What a successfully built delimited table looks like: trimmed headers
/// (first occurrence of each) as columns, one row per record, keyed by
/// header position.
pub open spec fn delimited_ok(
    h: Seq<Seq<char>>,
    recs: Seq<Seq<Seq<char>>>,
    df: DataFrame,
) -> bool {
    &&& df.columns.deep_view() == dedup_first(trimmed(h))
    &&& df.rows@.len() == recs.len()
    &&& forall|i: int|
        0 <= i < recs.len() ==> (#[trigger] df.rows@[i])@ == delimited_row(trimmed(h), recs[i])
    &&& df.well_formed()
}

/// Trims every name of the list, in order.
pub(crate) fn trim_all(names: &Vec<String>) -> (r: Vec<String>)
    ensures
        r.deep_view() == trimmed(names.deep_view()),
{
    let mut out: Vec<String> = Vec::new();
    let mut i: usize = 0;
    while i < names.len()
        invariant
            i <= names.len(),
            out.deep_view().len() == i,
            forall|k: int| 0 <= k < i ==> out.deep_view()[k] == trim_spec(names.deep_view()[k]),
        decreases names.len() - i,
    {
        let ghost before = out.deep_view();
        let t = trim_text(names[i].as_str());
        let ghost tv = t@;
        out.push(t);
        proof {
            assert(out.deep_view() =~= before.push(tv));
        }
        i = i + 1;
    }
    proof {
        assert(out.deep_view() =~= trimmed(names.deep_view()));
    }
    out
}

/// Builds the row one record yields under the given column names.
pub(crate) fn record_row(cols: &Vec<String>, rec: &Vec<String>) -> (r: Row)
    ensures
        r@ == delimited_row(cols.deep_view(), rec.deep_view()),
{
    let mut row = Row::new();
    let k = if cols.len() <= rec.len() {
        cols.len()
    } else {
        rec.len()
    };
    let mut i: usize = 0;
    while i < k
        invariant
            i <= k,
            k == record_width(cols.deep_view(), rec.deep_view()),
            k <= cols@.len() && k <= rec@.len(),
            row@ == row_of_record(cols.deep_view(), rec.deep_view(), i as int),
        decreases k - i,
    {
        row.set(cols[i].clone(), rec[i].clone());
        i = i + 1;
    }
    row
}

/// Builds the delimited table from the header record and the data records.
/// Fails with `EmptyFile` exactly when there are no data records.
pub fn delimited_table(headers: &Vec<String>, records: &Vec<Vec<String>>) -> (r: Result<
    DataFrame,
    FileError,
>)
    ensures
        records.deep_view().len() == 0 ==> (r matches Err(e) && e is EmptyFile),
        records.deep_view().len() > 0 ==> (r matches Ok(df) && delimited_ok(
            headers.deep_view(),
            records.deep_view(),
            df,
        )),
{
    let ghost recs = records.deep_view();
    let cols_trimmed = trim_all(headers);
    let ghost tcols = cols_trimmed.deep_view();
    if records.len() == 0 {
        return Err(FileError::EmptyFile);
    }
    let columns = dedup_columns(&cols_trimmed);
    let mut rows: Vec<Row> = Vec::new();
    let mut i: usize = 0;
    while i < records.len()
        invariant
            i <= records@.len(),
            recs == records.deep_view(),
            tcols == cols_trimmed.deep_view(),
            rows@.len() == i,
            forall|k: int| 0 <= k < i ==> (#[trigger] rows@[k])@ == delimited_row(tcols, recs[k]),
        decreases records@.len() - i,
    {
        let row = record_row(&cols_trimmed, &records[i]);
        rows.push(row);
        i = i + 1;
    }
    let df = DataFrame { columns, rows };
    proof {
        lemma_dedup_first_props(tcols);
        assert forall|k: int| 0 <= k < recs.len() implies (#[trigger] df.rows@[k])@.dom().subset_of(
            df.columns.deep_view().to_set(),
        ) by {
            lemma_row_dom(tcols, recs[k], record_width(tcols, recs[k]));
            assert forall|x: Seq<char>| #[trigger]
                df.rows@[k]@.dom().contains(x) implies df.columns.deep_view().to_set().contains(
                x,
            ) by {
                assert(tcols.contains(x));
                assert(dedup_first(tcols).contains(x));
            }
        }
    }
    Ok(df)
}

pub(crate) proof fn lemma_row_dom(cols: Seq<Seq<char>>, rec: Seq<Seq<char>>, k: int)
    requires
        k <= cols.len(),
    ensures
        forall|x: Seq<char>| #[trigger]
            row_of_record(cols, rec, k).dom().contains(x) ==> cols.contains(x),
    decreases k,
{
    if k > 0 {
        lemma_row_dom(cols, rec, k - 1);
        assert forall|x: Seq<char>| #[trigger]
            row_of_record(cols, rec, k).dom().contains(x) implies cols.contains(x) by {
            if x != cols[k - 1] {
                assert(row_of_record(cols, rec, k - 1).dom().contains(x));
            }
        }
    }
}

impl FileInfo {
    /// Parses delimited text into the common table shape: the first record
    /// is the header line, each later record a row. Fails with `EmptyFile`
    /// exactly when no data records result.
    pub fn read_csv(content: &str) -> (r: Result<DataFrame, FileError>)
        ensures
            csv_split(content@).1.len() == 0 ==> (r matches Err(e) && e is EmptyFile),
            csv_split(content@).1.len() > 0 ==> (r matches Ok(df) && delimited_ok(
                csv_split(content@).0,
                csv_split(content@).1,
                df,
            )),
    {
        let (headers, records) = csv_records(content);
        delimited_table(&headers, &records)
    }
}

} // verus!
