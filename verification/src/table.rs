//! The common row/column model every source family is normalized into.
//!
//! A `DataFrame` is an ordered list of unique column names and a list of
//! rows; each `Row` maps column names to cell text. A cell missing from a
//! row is never an error: at display time it is substituted with the
//! sentinel text. Cell text is stored unsegmented; fixed-width wrapping is
//! applied only when the display grid is produced.

use vstd::prelude::*;
use vstd::seq_lib::*;
use vstd::string::*;
use crate::cells::responsive_row;
use crate::cells::responsive_spec;

verus! {

/// The mapping an entry list stands for: a later entry for the same column
/// overwrites an earlier one.
pub open spec fn assoc_map(s: Seq<(Seq<char>, Seq<char>)>) -> Map<Seq<char>, Seq<char>>
    decreases s.len(),
{
    if s.len() == 0 {
        Map::empty()
    } else {
        assoc_map(s.drop_last()).insert(s.last().0, s.last().1)
    }
}

spec fn assoc_find(s: Seq<(Seq<char>, Seq<char>)>, k: Seq<char>) -> Option<Seq<char>>
    decreases s.len(),
{
    if s.len() == 0 {
        None
    } else if s.last().0 == k {
        Some(s.last().1)
    } else {
        assoc_find(s.drop_last(), k)
    }
}

proof fn lemma_assoc_find(s: Seq<(Seq<char>, Seq<char>)>, k: Seq<char>)
    ensures
        assoc_find(s, k) matches Some(v) ==> assoc_map(s).contains_key(k) && assoc_map(s)[k] == v,
        assoc_find(s, k) is None ==> !assoc_map(s).contains_key(k),
    decreases s.len(),
{
    if s.len() > 0 {
        lemma_assoc_find(s.drop_last(), k);
    }
}

/// The placeholder text substituted for a missing cell at display time.
pub open spec fn sentinel() -> Seq<char> {
    seq!['N', 'a', 'N']
}

/// The display text of a cell: the stored text, or the sentinel when the row
/// has no entry for the column.
pub open spec fn cell_spec(m: Map<Seq<char>, Seq<char>>, k: Seq<char>) -> Seq<char> {
    if m.contains_key(k) {
        m[k]
    } else {
        sentinel()
    }
}

/// One parsed row: a mapping from column name to raw cell text.
#[derive(Debug)]
pub struct Row {
    entries: Vec<(String, String)>,
}

impl View for Row {
    type V = Map<Seq<char>, Seq<char>>;

    closed spec fn view(&self) -> Map<Seq<char>, Seq<char>> {
        assoc_map(self.entries.deep_view())
    }
}

impl Row {
    /// A row with no cells.
    pub fn new() -> (r: Row)
        ensures
            r@ == Map::<Seq<char>, Seq<char>>::empty(),
    {
        let r = Row { entries: Vec::new() };
        proof {
            assert(r.entries.deep_view() =~= Seq::<(Seq<char>, Seq<char>)>::empty());
        }
        r
    }

    /// Stores a cell, overwriting any earlier cell of the same column.
    pub fn set(&mut self, key: String, value: String)
        ensures
            final(self)@ == old(self)@.insert(key@, value@),
    {
        let ghost k = key@;
        let ghost v = value@;
        let ghost before = self.entries.deep_view();
        self.entries.push((key, value));
        proof {
            assert(self.entries.deep_view() =~= before.push((k, v)));
            assert(self.entries.deep_view().drop_last() =~= before);
        }
    }

    /// The stored cell text of the given column, if the row has one.
    pub fn get(&self, key: &String) -> (r: Option<&String>)
        ensures
            r matches Some(v) ==> self@.contains_key(key@) && v@ == self@[key@],
            r is None ==> !self@.contains_key(key@),
    {
        let ghost s = self.entries.deep_view();
        let n = self.entries.len();
        proof {
            assert(s.take(n as int) =~= s);
        }
        let mut i: usize = n;
        while i > 0
            invariant
                i <= n,
                n == self.entries.len(),
                s == self.entries.deep_view(),
                assoc_find(s, key@) == assoc_find(s.take(i as int), key@),
            decreases i,
        {
            if self.entries[i - 1].0 == *key {
                proof {
                    assert(s.take(i as int).last() == s[i - 1]);
                    lemma_assoc_find(s, key@);
                }
                return Some(&self.entries[i - 1].1);
            }
            proof {
                assert(s.take(i as int).last() == s[i - 1]);
                assert(s.take(i as int).drop_last() =~= s.take(i - 1));
            }
            i = i - 1;
        }
        proof {
            assert(s.take(0) =~= Seq::<(Seq<char>, Seq<char>)>::empty());
            lemma_assoc_find(s, key@);
        }
        None
    }

    /// The display text of this row in the given column: the stored text, or
    /// the sentinel for a missing cell.
    pub fn cell_text(&self, key: &String) -> (r: String)
        ensures
            r@ == cell_spec(self@, key@),
    {
        match self.get(key) {
            Some(v) => v.clone(),
            None => {
                proof {
                    reveal_strlit("NaN");
                    assert("NaN"@ =~= sentinel());
                }
                "NaN".to_owned()
            },
        }
    }
}

/// Keeps the first occurrence of each name, in first-seen order.
pub open spec fn dedup_first(s: Seq<Seq<char>>) -> Seq<Seq<char>>
    decreases s.len(),
{
    if s.len() == 0 {
        Seq::empty()
    } else {
        let prev = dedup_first(s.drop_last());
        if prev.contains(s.last()) {
            prev
        } else {
            prev.push(s.last())
        }
    }
}

proof fn lemma_contains_push(s: Seq<Seq<char>>, y: Seq<char>, x: Seq<char>)
    ensures
        s.push(y).contains(x) <==> s.contains(x) || x == y,
{
    if s.push(y).contains(x) {
        let i = choose|i: int| 0 <= i < s.push(y).len() && s.push(y)[i] == x;
        if i < s.len() {
            assert(s[i] == x);
        }
    }
    if s.contains(x) {
        let i = choose|i: int| 0 <= i < s.len() && s[i] == x;
        assert(s.push(y)[i] == x);
    }
    if x == y {
        assert(s.push(y)[s.len() as int] == x);
    }
}

proof fn lemma_contains_drop_last(s: Seq<Seq<char>>, x: Seq<char>)
    requires
        s.len() > 0,
    ensures
        s.contains(x) <==> s.drop_last().contains(x) || x == s.last(),
{
    if s.contains(x) {
        let i = choose|i: int| 0 <= i < s.len() && s[i] == x;
        if i < s.len() - 1 {
            assert(s.drop_last()[i] == x);
        }
    }
    if s.drop_last().contains(x) {
        let i = choose|i: int| 0 <= i < s.drop_last().len() && s.drop_last()[i] == x;
        assert(s[i] == x);
    }
    if x == s.last() {
        assert(s[s.len() - 1] == x);
    }
}

/// Law: deduplication keeps no repeated name, keeps exactly the names of the
/// input, and yields something whenever the input was non-empty.
pub proof fn lemma_dedup_first_props(s: Seq<Seq<char>>)
    ensures
        dedup_first(s).no_duplicates(),
        forall|x: Seq<char>| #[trigger] dedup_first(s).contains(x) <==> s.contains(x),
        s.len() > 0 ==> dedup_first(s).len() > 0,
    decreases s.len(),
{
    if s.len() > 0 {
        lemma_dedup_first_props(s.drop_last());
        let prev = dedup_first(s.drop_last());
        assert forall|x: Seq<char>| #[trigger]
            dedup_first(s).contains(x) <==> s.contains(x) by {
            lemma_contains_push(prev, s.last(), x);
            lemma_contains_drop_last(s, x);
        }
        if !prev.contains(s.last()) {
            let d = prev.push(s.last());
            assert forall|i: int, j: int|
                0 <= i < d.len() && 0 <= j < d.len() && i != j implies d[i] != d[j] by {
                if i < prev.len() && j < prev.len() {
                    assert(prev[i] != prev[j]);
                } else if i < prev.len() {
                    assert(d[i] == prev[i]);
                    assert(prev.contains(prev[i]));
                } else {
                    assert(d[j] == prev[j]);
                    assert(prev.contains(prev[j]));
                }
            }
        }
    }
}

/// Law: a list already free of repeats is left exactly as it is.
pub proof fn lemma_dedup_first_of_unique(s: Seq<Seq<char>>)
    requires
        s.no_duplicates(),
    ensures
        dedup_first(s) == s,
    decreases s.len(),
{
    if s.len() > 0 {
        lemma_dedup_first_of_unique(s.drop_last());
        lemma_dedup_first_props(s.drop_last());
        if dedup_first(s.drop_last()).contains(s.last()) {
            let i = choose|i: int|
                0 <= i < s.drop_last().len() && s.drop_last()[i] == s.last();
            assert(s[i] == s[s.len() - 1]);
            assert(false);
        }
        assert(s.drop_last().push(s.last()) =~= s);
    }
}

fn contains_string(v: &Vec<String>, x: &String) -> (r: bool)
    ensures
        r == v.deep_view().contains(x@),
{
    let ghost s = v.deep_view();
    let mut i: usize = 0;
    while i < v.len()
        invariant
            i <= v.len(),
            s == v.deep_view(),
            forall|j: int| 0 <= j < i ==> s[j] != x@,
        decreases v.len() - i,
    {
        if v[i] == *x {
            proof {
                assert(s[i as int] == x@);
            }
            return true;
        }
        i = i + 1;
    }
    proof {
        if s.contains(x@) {
            let j = choose|j: int| 0 <= j < s.len() && s[j] == x@;
            assert(false);
        }
    }
    false
}

/// Keeps the first occurrence of each column name, in first-seen order.
pub fn dedup_columns(names: &Vec<String>) -> (r: Vec<String>)
    ensures
        r.deep_view() == dedup_first(names.deep_view()),
{
    let ghost s = names.deep_view();
    let mut out: Vec<String> = Vec::new();
    proof {
        assert(out.deep_view() =~= dedup_first(s.take(0)));
    }
    let mut i: usize = 0;
    while i < names.len()
        invariant
            i <= names.len(),
            s == names.deep_view(),
            out.deep_view() == dedup_first(s.take(i as int)),
        decreases names.len() - i,
    {
        let ghost before = out.deep_view();
        proof {
            assert(s.take(i + 1).drop_last() =~= s.take(i as int));
            assert(s.take(i + 1).last() == s[i as int]);
        }
        if !contains_string(&out, &names[i]) {
            out.push(names[i].clone());
            proof {
                assert(out.deep_view() =~= before.push(s[i as int]));
            }
        }
        i = i + 1;
    }
    proof {
        assert(s.take(s.len() as int) =~= s);
    }
    out
}

/// The full tabular view of one source file.
#[derive(Debug)]
pub struct DataFrame {
    pub columns: Vec<String>,
    pub rows: Vec<Row>,
}

impl DataFrame {
    /// Column names are unique; display order is their order here.
    pub open spec fn columns_unique(&self) -> bool {
        self.columns.deep_view().no_duplicates()
    }

    /// Every cell a row holds belongs to a declared column. This holds for a
    /// freshly parsed table; a later column filter narrows `columns` without
    /// touching the rows, whose extra cells are then simply never displayed.
    pub open spec fn covers_rows(&self) -> bool {
        forall|i: int|
            0 <= i < self.rows@.len() ==> (#[trigger] self.rows@[i])@.dom().subset_of(
                self.columns.deep_view().to_set(),
            )
    }

    pub open spec fn well_formed(&self) -> bool {
        self.columns_unique() && self.covers_rows()
    }
}

/// The requested names that match an existing column, first occurrence of
/// each, in requested order.
pub open spec fn matched_columns(cols: Seq<Seq<char>>, req: Seq<Seq<char>>) -> Seq<Seq<char>>
    decreases req.len(),
{
    if req.len() == 0 {
        Seq::empty()
    } else {
        let prev = matched_columns(cols, req.drop_last());
        if cols.contains(req.last()) && !prev.contains(req.last()) {
            prev.push(req.last())
        } else {
            prev
        }
    }
}

/// The requested names that match no existing column, in requested order.
pub open spec fn misspelled_columns(cols: Seq<Seq<char>>, req: Seq<Seq<char>>) -> Seq<Seq<char>>
    decreases req.len(),
{
    if req.len() == 0 {
        Seq::empty()
    } else {
        let prev = misspelled_columns(cols, req.drop_last());
        if !cols.contains(req.last()) {
            prev.push(req.last())
        } else {
            prev
        }
    }
}

/// The columns kept after filtering: the matched requests, or the original
/// set when none matched.
pub open spec fn filtered_columns(cols: Seq<Seq<char>>, req: Seq<Seq<char>>) -> Seq<Seq<char>> {
    if matched_columns(cols, req).len() > 0 {
        matched_columns(cols, req)
    } else {
        cols
    }
}

proof fn lemma_matched_columns_props(cols: Seq<Seq<char>>, req: Seq<Seq<char>>)
    ensures
        matched_columns(cols, req).no_duplicates(),
        forall|x: Seq<char>| #[trigger]
            matched_columns(cols, req).contains(x) ==> cols.contains(x),
    decreases req.len(),
{
    if req.len() > 0 {
        lemma_matched_columns_props(cols, req.drop_last());
        let prev = matched_columns(cols, req.drop_last());
        if cols.contains(req.last()) && !prev.contains(req.last()) {
            let d = prev.push(req.last());
            assert forall|x: Seq<char>| #[trigger] d.contains(x) implies cols.contains(x) by {
                lemma_contains_push(prev, req.last(), x);
            }
            assert forall|i: int, j: int|
                0 <= i < d.len() && 0 <= j < d.len() && i != j implies d[i] != d[j] by {
                if i < prev.len() && j < prev.len() {
                    assert(prev[i] != prev[j]);
                } else if i < prev.len() {
                    assert(d[i] == prev[i]);
                    assert(prev.contains(prev[i]));
                } else {
                    assert(d[j] == prev[j]);
                    assert(prev.contains(prev[j]));
                }
            }
        }
    }
}

impl DataFrame {
    /// Narrows the displayed columns to the requested names that exist,
    /// keeping the full set when none of them does, and reports the names
    /// that matched nothing. The rows are never touched.
    pub fn filter_columns(self, requested: &Vec<String>) -> (r: (DataFrame, Vec<String>))
        ensures
            r.0.rows == self.rows,
            r.0.columns.deep_view() == filtered_columns(
                self.columns.deep_view(),
                requested.deep_view(),
            ),
            r.1.deep_view() == misspelled_columns(
                self.columns.deep_view(),
                requested.deep_view(),
            ),
            self.columns_unique() ==> r.0.columns_unique(),
    {
        let ghost cols = self.columns.deep_view();
        let ghost req = requested.deep_view();
        let mut matched: Vec<String> = Vec::new();
        let mut missing: Vec<String> = Vec::new();
        proof {
            assert(matched.deep_view() =~= matched_columns(cols, req.take(0)));
            assert(missing.deep_view() =~= misspelled_columns(cols, req.take(0)));
        }
        let mut i: usize = 0;
        while i < requested.len()
            invariant
                i <= requested.len(),
                cols == self.columns.deep_view(),
                req == requested.deep_view(),
                matched.deep_view() == matched_columns(cols, req.take(i as int)),
                missing.deep_view() == misspelled_columns(cols, req.take(i as int)),
            decreases requested.len() - i,
        {
            let ghost m_before = matched.deep_view();
            let ghost x_before = missing.deep_view();
            proof {
                assert(req.take(i + 1).drop_last() =~= req.take(i as int));
                assert(req.take(i + 1).last() == req[i as int]);
            }
            if contains_string(&self.columns, &requested[i]) {
                if !contains_string(&matched, &requested[i]) {
                    matched.push(requested[i].clone());
                    proof {
                        assert(matched.deep_view() =~= m_before.push(req[i as int]));
                    }
                }
            } else {
                missing.push(requested[i].clone());
                proof {
                    assert(missing.deep_view() =~= x_before.push(req[i as int]));
                }
            }
            i = i + 1;
        }
        proof {
            assert(req.take(req.len() as int) =~= req);
            lemma_matched_columns_props(cols, req);
        }
        if matched.len() > 0 {
            (DataFrame { columns: matched, rows: self.rows }, missing)
        } else {
            (DataFrame { columns: self.columns, rows: self.rows }, missing)
        }
    }
}

/// Law: when every requested name is among the existing columns, filtering
/// retains exactly the requested names (the first occurrence of each) and
/// reports nothing as misspelled; and since the rows are left untouched,
/// every retained column's cell in every row is unchanged.
pub proof fn lemma_filter_subset_round_trip(cols: Seq<Seq<char>>, req: Seq<Seq<char>>)
    requires
        req.len() > 0,
        forall|j: int| 0 <= j < req.len() ==> cols.contains(req[j]),
    ensures
        filtered_columns(cols, req) == dedup_first(req),
        misspelled_columns(cols, req) == Seq::<Seq<char>>::empty(),
        req.no_duplicates() ==> filtered_columns(cols, req) == req,
{
    lemma_matched_eq_dedup(cols, req);
    lemma_dedup_first_props(req);
    assert(req.contains(req[0]));
    lemma_misspelled_empty(cols, req);
    assert(misspelled_columns(cols, req) =~= Seq::<Seq<char>>::empty());
    if req.no_duplicates() {
        lemma_dedup_first_of_unique(req);
    }
}

proof fn lemma_matched_eq_dedup(cols: Seq<Seq<char>>, req: Seq<Seq<char>>)
    requires
        forall|j: int| 0 <= j < req.len() ==> cols.contains(req[j]),
    ensures
        matched_columns(cols, req) == dedup_first(req),
    decreases req.len(),
{
    if req.len() > 0 {
        assert forall|j: int| 0 <= j < req.drop_last().len() implies cols.contains(
            req.drop_last()[j],
        ) by {
            assert(req.drop_last()[j] == req[j]);
        }
        lemma_matched_eq_dedup(cols, req.drop_last());
        assert(cols.contains(req[req.len() - 1]));
    }
}

proof fn lemma_misspelled_empty(cols: Seq<Seq<char>>, req: Seq<Seq<char>>)
    requires
        forall|j: int| 0 <= j < req.len() ==> cols.contains(req[j]),
    ensures
        misspelled_columns(cols, req).len() == 0,
    decreases req.len(),
{
    if req.len() > 0 {
        assert forall|j: int| 0 <= j < req.drop_last().len() implies cols.contains(
            req.drop_last()[j],
        ) by {
            assert(req.drop_last()[j] == req[j]);
        }
        lemma_misspelled_empty(cols, req.drop_last());
        assert(cols.contains(req[req.len() - 1]));
    }
}

/// The display texts of one row, one per column, in column order.
pub open spec fn display_row_spec(cols: Seq<Seq<char>>, m: Map<Seq<char>, Seq<char>>) -> Seq<
    Seq<char>,
> {
    cols.map_values(|c: Seq<char>| responsive_spec(cell_spec(m, c)))
}

impl DataFrame {
    /// The rendering-ready grid: for every row, the display text of every
    /// column's cell — the sentinel substituted for a missing cell, then the
    /// fixed-width wrapping applied.
    pub fn display_rows(&self) -> (r: Vec<Vec<String>>)
        ensures
            r.deep_view().len() == self.rows@.len(),
            forall|i: int|
                0 <= i < self.rows@.len() ==> r.deep_view()[i] == display_row_spec(
                    self.columns.deep_view(),
                    self.rows@[i]@,
                ),
    {
        let ghost cols = self.columns.deep_view();
        let mut grid: Vec<Vec<String>> = Vec::new();
        let mut i: usize = 0;
        while i < self.rows.len()
            invariant
                i <= self.rows@.len(),
                cols == self.columns.deep_view(),
                grid.deep_view().len() == i,
                forall|k: int|
                    0 <= k < i ==> grid.deep_view()[k] == display_row_spec(
                        cols,
                        self.rows@[k]@,
                    ),
            decreases self.rows@.len() - i,
        {
            let ghost m = self.rows@[i as int]@;
            let mut line: Vec<String> = Vec::new();
            let mut j: usize = 0;
            while j < self.columns.len()
                invariant
                    j <= self.columns@.len(),
                    cols == self.columns.deep_view(),
                    m == self.rows@[i as int]@,
                    i < self.rows@.len(),
                    line.deep_view().len() == j,
                    forall|k: int|
                        0 <= k < j ==> line.deep_view()[k] == responsive_spec(
                            cell_spec(m, cols[k]),
                        ),
                decreases self.columns@.len() - j,
            {
                let raw = self.rows[i].cell_text(&self.columns[j]);
                let shown = responsive_row(raw.as_str());
                let ghost line_before = line.deep_view();
                let ghost shown_view = shown@;
                line.push(shown);
                proof {
                    assert(line.deep_view() =~= line_before.push(shown_view));
                }
                j = j + 1;
            }
            proof {
                assert(line.deep_view() =~= display_row_spec(cols, m));
            }
            let ghost grid_before = grid.deep_view();
            let ghost line_view = line.deep_view();
            grid.push(line);
            proof {
                assert(grid.deep_view() =~= grid_before.push(line_view));
            }
            i = i + 1;
        }
        grid
    }
}

} // verus!
