//! Layout engine: horizontal indentation as a function of the column count,
//! and the row cap chosen from the caller's preferences.
//!
//! The indent is a piecewise-linear, saturating heuristic: a flattened table
//! gets indent 0, few columns get a wide indent for visual centering, many
//! columns get a tight one so the table fits the terminal width.

use vstd::prelude::*;

verus! {

/// The indent for a table of `n` columns: 0 when flattened; otherwise a
/// piecewise-linear heuristic — below 6 columns a base of 40 widened by 5
/// for each threshold in 2..=7 that `n` is at most, from 6 columns a base
/// of 50 tightened by 10 for each threshold in 6..=14 that `n` reaches,
/// saturating at 0.
pub open spec fn indent_spec(n: int, flat: bool) -> int {
    if flat {
        0
    } else if n >= 6 {
        let c = if n < 14 {
            n - 5
        } else {
            9
        };
        if 50 - 10 * c >= 0 {
            50 - 10 * c
        } else {
            0
        }
    } else {
        let m = if n < 2 {
            2
        } else {
            n
        };
        40 + 5 * (8 - m)
    }
}

/// The row cap that the preferences select: an explicit cap wins when the
/// table has at least that many rows; otherwise the default cap of 200
/// applies when asked for and the table has at least 200 rows; otherwise
/// every row is shown.
pub open spec fn row_cap_spec(total: int, explicit: Option<usize>, default_cap: bool) -> Option<
    usize,
> {
    match explicit {
        Some(n) => if total >= n {
            Some(n)
        } else {
            None
        },
        None => if default_cap && total >= 200 {
            Some(200usize)
        } else {
            None
        },
    }
}

/// A diagnostic is owed exactly when an explicit cap asks for more rows than
/// the table has: all rows are then shown, never a truncated or empty result.
pub open spec fn cap_diagnostic_spec(total: int, explicit: Option<usize>) -> bool {
    explicit matches Some(n) && total < n
}

/// The indentation applied to the whole table before rendering.
pub struct Indentation {
    pub indent: usize,
}

impl Indentation {
    /// Computes the indent from the column count (`row_length`) and the
    /// flatten preference (`indentation`).
    pub fn get_indentation(row_length: usize, indentation: bool) -> (r: Self)
        ensures
            r.indent == indent_spec(row_length as int, indentation),
    {
        let indent: usize = if indentation {
            0
        } else if row_length >= 6 {
            let c: usize = if row_length < 14 {
                row_length - 5
            } else {
                9
            };
            if c <= 5 {
                50 - 10 * c
            } else {
                0
            }
        } else {
            let m: usize = if row_length < 2 {
                2
            } else {
                row_length
            };
            40 + 5 * (8 - m)
        };
        Indentation { indent }
    }
}

/// The rendering-ready layout: the optional row cap and the indent.
pub struct Layout {
    pub row_limit: Option<usize>,
    pub indent: usize,
}

/// Computes the layout for a table of `column_count` columns and `row_count`
/// rows. The second result says whether a diagnostic is owed: the caller
/// asked for more rows than the table has, so all rows are shown instead.
pub fn compute_layout(
    column_count: usize,
    row_count: usize,
    explicit_cap: Option<usize>,
    default_cap: bool,
    flatten_indent: bool,
) -> (r: (Layout, bool))
    ensures
        r.0.indent == indent_spec(column_count as int, flatten_indent),
        r.0.row_limit == row_cap_spec(row_count as int, explicit_cap, default_cap),
        r.1 == cap_diagnostic_spec(row_count as int, explicit_cap),
{
    let indentation = Indentation::get_indentation(column_count, flatten_indent);
    let (row_limit, diagnostic): (Option<usize>, bool) = match explicit_cap {
        Some(n) => if row_count >= n {
            (Some(n), false)
        } else {
            (None, true)
        },
        None => if default_cap && row_count >= 200 {
            (Some(200), false)
        } else {
            (None, false)
        },
    };
    (Layout { row_limit, indent: indentation.indent }, diagnostic)
}

/// Law: a flattened table is indented by 0, whatever the column count.
pub proof fn lemma_indent_flattened(n: int)
    ensures
        indent_spec(n, true) == 0,
{
}

/// Law: the indent never grows when columns are added — fewer columns give a
/// wider indent, more columns a tighter one.
pub proof fn lemma_indent_antitone(a: int, b: int, flat: bool)
    requires
        0 <= a <= b,
    ensures
        indent_spec(b, flat) <= indent_spec(a, flat),
{
}

} // verus!
