//! Cell formatter: wraps oversized cell text into fixed-width slices so a
//! cell never stretches the rendered table.
//!
//! By character count `L` of the text: `L >= 35` splits into slices of
//! 20/20/remainder, `20 <= L < 35` into 20/remainder, each slice before the
//! last suffixed with a continuation marker and joined by a line break; the
//! joined text (or, below 20, the text itself) is trimmed of surrounding
//! whitespace. The stored cell value is never changed: this is a display
//! transform alone.

use vstd::prelude::*;
use vstd::string::*;

verus! {

/// The whitespace that trimming removes from either end.
pub open spec fn is_ws(c: char) -> bool {
    c == ' ' || c == '\t' || c == '\n' || c == '\r'
}

/// The text with its leading whitespace removed.
pub open spec fn trim_front(s: Seq<char>) -> Seq<char>
    decreases s.len(),
{
    if s.len() > 0 && is_ws(s[0]) {
        trim_front(s.drop_first())
    } else {
        s
    }
}

/// The text with its trailing whitespace removed.
pub open spec fn trim_back(s: Seq<char>) -> Seq<char>
    decreases s.len(),
{
    if s.len() > 0 && is_ws(s.last()) {
        trim_back(s.drop_last())
    } else {
        s
    }
}

/// The text with surrounding whitespace removed.
pub open spec fn trim_spec(s: Seq<char>) -> Seq<char> {
    trim_back(trim_front(s))
}

/// The continuation marker and line break put between slices.
pub open spec fn break_marker() -> Seq<char> {
    seq!['-', '\n']
}

/// The display form of one cell's text, by its character count.
pub open spec fn responsive_spec(s: Seq<char>) -> Seq<char> {
    if s.len() >= 35 {
        let cut = if s.len() < 40 {
            s.len() as int
        } else {
            40
        };
        trim_spec(
            s.subrange(0, 20) + break_marker() + s.subrange(20, cut) + break_marker() + s.subrange(
                cut,
                s.len() as int,
            ),
        )
    } else if s.len() >= 20 {
        trim_spec(s.subrange(0, 20) + break_marker() + s.subrange(20, s.len() as int))
    } else {
        trim_spec(s)
    }
}

proof fn lemma_trim_front_skip(s: Seq<char>, k: int)
    requires
        0 <= k <= s.len(),
        forall|i: int| 0 <= i < k ==> is_ws(s[i]),
        k == s.len() || !is_ws(s[k]),
    ensures
        trim_front(s) == s.subrange(k, s.len() as int),
    decreases k,
{
    if k == 0 {
        assert(s.subrange(0, s.len() as int) =~= s);
    } else {
        lemma_trim_front_skip(s.drop_first(), k - 1);
        assert(s.drop_first().subrange(k - 1, s.drop_first().len() as int) =~= s.subrange(
            k,
            s.len() as int,
        ));
    }
}

proof fn lemma_trim_back_keep(s: Seq<char>, k: int)
    requires
        0 <= k <= s.len(),
        forall|i: int| k <= i < s.len() ==> is_ws(s[i]),
        k == 0 || !is_ws(s[k - 1]),
    ensures
        trim_back(s) == s.subrange(0, k),
    decreases s.len(),
{
    if k == s.len() {
        assert(s.subrange(0, k) =~= s);
    } else {
        lemma_trim_back_keep(s.drop_last(), k);
        assert(s.drop_last().subrange(0, k) =~= s.subrange(0, k));
    }
}

proof fn lemma_trim_front_head(s: Seq<char>)
    ensures
        trim_front(s).len() > 0 ==> !is_ws(trim_front(s)[0]),
    decreases s.len(),
{
    if s.len() > 0 && is_ws(s[0]) {
        lemma_trim_front_head(s.drop_first());
    }
}

proof fn lemma_trim_back_last(s: Seq<char>)
    ensures
        trim_back(s).len() > 0 ==> !is_ws(trim_back(s).last()),
    decreases s.len(),
{
    if s.len() > 0 && is_ws(s.last()) {
        lemma_trim_back_last(s.drop_last());
    }
}

proof fn lemma_trim_back_prefix(s: Seq<char>)
    ensures
        trim_back(s) == s.subrange(0, trim_back(s).len() as int),
    decreases s.len(),
{
    if s.len() > 0 && is_ws(s.last()) {
        lemma_trim_back_prefix(s.drop_last());
        lemma_trim_back_len(s.drop_last());
        assert(s.drop_last().subrange(0, trim_back(s).len() as int) =~= s.subrange(
            0,
            trim_back(s).len() as int,
        ));
    } else {
        assert(s.subrange(0, s.len() as int) =~= s);
    }
}

/// Law: trimming an already trimmed text changes nothing.
pub proof fn lemma_trim_idempotent(s: Seq<char>)
    ensures
        trim_spec(trim_spec(s)) == trim_spec(s),
{
    let t = trim_spec(s);
    lemma_trim_back_last(trim_front(s));
    if t.len() > 0 {
        lemma_trim_front_head(s);
        lemma_trim_back_prefix(trim_front(s));
        lemma_trim_back_len(trim_front(s));
        assert(t == trim_front(s).subrange(0, t.len() as int));
        assert(trim_front(s).subrange(0, t.len() as int)[0] == trim_front(s)[0]);
        assert(t[0] == trim_front(s)[0]);
    }
    assert(trim_front(t) == t);
    assert(trim_back(t) == t);
}

/// Law: a trimmed text of fewer than 20 characters is displayed unchanged,
/// and formatting such a cell twice is the same as formatting it once.
pub proof fn lemma_responsive_short_stable(s: Seq<char>)
    requires
        s.len() < 20,
    ensures
        trim_spec(s) == s ==> responsive_spec(s) == s,
        responsive_spec(responsive_spec(s)) == responsive_spec(s),
{
    lemma_trim_idempotent(s);
    lemma_trim_len(s);
}

proof fn lemma_trim_len(s: Seq<char>)
    ensures
        trim_spec(s).len() <= s.len(),
{
    lemma_trim_front_len(s);
    lemma_trim_back_len(trim_front(s));
}

proof fn lemma_trim_front_len(s: Seq<char>)
    ensures
        trim_front(s).len() <= s.len(),
    decreases s.len(),
{
    if s.len() > 0 && is_ws(s[0]) {
        lemma_trim_front_len(s.drop_first());
    }
}

proof fn lemma_trim_back_len(s: Seq<char>)
    ensures
        trim_back(s).len() <= s.len(),
    decreases s.len(),
{
    if s.len() > 0 && is_ws(s.last()) {
        lemma_trim_back_len(s.drop_last());
    }
}

fn is_ws_char(c: char) -> (r: bool)
    ensures
        r == is_ws(c),
{
    c == ' ' || c == '\t' || c == '\n' || c == '\r'
}

/// Removes the surrounding whitespace of a text.
pub fn trim_text(s: &str) -> (r: String)
    ensures
        r@ == trim_spec(s@),
{
    let n = s.unicode_len();
    let mut start: usize = 0;
    while start < n && is_ws_char(s.get_char(start))
        invariant
            0 <= start <= n,
            n == s@.len(),
            forall|i: int| 0 <= i < start ==> is_ws(s@[i]),
        decreases n - start,
    {
        start = start + 1;
    }
    let mut end: usize = n;
    while end > start && is_ws_char(s.get_char(end - 1))
        invariant
            start <= end <= n,
            n == s@.len(),
            forall|i: int| end <= i < n ==> is_ws(s@[i]),
        decreases end,
    {
        end = end - 1;
    }
    proof {
        lemma_trim_front_skip(s@, start as int);
        let t = s@.subrange(start as int, n as int);
        if end == start {
            lemma_trim_back_keep(t, 0);
        } else {
            lemma_trim_back_keep(t, end - start);
        }
        assert(t.subrange(0, end - start) =~= s@.subrange(start as int, end as int));
    }
    s.substring_char(start, end).to_owned()
}

/// Formats one cell's text for fixed-width display: slices of 20/20/remainder
/// above 35 characters, 20/remainder from 20 characters, the text itself
/// below, with a continuation marker between slices and the surrounding
/// whitespace trimmed.
pub fn responsive_row(row: &str) -> (r: String)
    ensures
        r@ == responsive_spec(row@),
{
    let n = row.unicode_len();
    proof {
        reveal_strlit("-\n");
        assert("-\n"@ =~= break_marker());
    }
    if n >= 35 {
        let cut = if n < 40 {
            n
        } else {
            40
        };
        let joined = row.substring_char(0, 20).to_owned().concat("-\n").concat(
            row.substring_char(20, cut),
        ).concat("-\n").concat(row.substring_char(cut, n));
        proof {
            assert(joined@ =~= row@.subrange(0, 20) + break_marker() + row@.subrange(
                20,
                cut as int,
            ) + break_marker() + row@.subrange(cut as int, n as int));
        }
        trim_text(joined.as_str())
    } else if n >= 20 {
        let joined = row.substring_char(0, 20).to_owned().concat("-\n").concat(
            row.substring_char(20, n),
        );
        proof {
            assert(joined@ =~= row@.subrange(0, 20) + break_marker() + row@.subrange(
                20,
                n as int,
            ));
        }
        trim_text(joined.as_str())
    } else {
        trim_text(row)
    }
}

} // verus!
