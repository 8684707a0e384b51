//! Tree normalizer: nested JSON flattened into the common table shape.
//!
//! The tree is walked depth-first with a dotted-path accumulator: an object
//! extends the path with each key, an array recurses into each element
//! without extending the path, and each scalar or null leaf becomes its own
//! one-cell row mapping the accumulated path to the leaf's JSON text (so a
//! string leaf keeps its quotes). Sibling array elements are never merged
//! into one row, even when they produce the same leaf path — each leaf is a
//! separate row. The column list is the union of the leaf paths, in
//! first-seen order.

use vstd::prelude::*;
use vstd::string::*;
use crate::detect::FileError;
use crate::detect::FileInfo;
use crate::table::DataFrame;
use crate::table::Row;
use crate::table::dedup_columns;
use crate::table::dedup_first;
use crate::table::lemma_dedup_first_props;

verus! {

/// A parsed tree value: object, array, scalar or null.
pub enum JsonTree {
    Obj(Vec<(String, JsonTree)>),
    Arr(Vec<JsonTree>),
    Scalar(String),
    Null,
}

/// The leaf text of a null.
pub open spec fn null_text() -> Seq<char> {
    seq!['n', 'u', 'l', 'l']
}

/// A key appended to a path: `key` when the path is empty, else
/// `path.key`.
pub open spec fn join_path(prefix: Seq<char>, key: Seq<char>) -> Seq<char> {
    if prefix.len() == 0 {
        key
    } else {
        prefix + seq!['.'] + key
    }
}

/// The `(path, text)` leaves of a tree under a path prefix, in depth-first
/// order.
pub open spec fn leaves_of(t: JsonTree, prefix: Seq<char>) -> Seq<(Seq<char>, Seq<char>)>
    decreases t,
{
    match t {
        JsonTree::Obj(entries) => obj_leaves(entries@, prefix),
        JsonTree::Arr(elems) => arr_leaves(elems@, prefix),
        JsonTree::Scalar(s) => seq![(prefix, s@)],
        JsonTree::Null => seq![(prefix, null_text())],
    }
}

/// The leaves of an object's entries: each value under the path extended
/// with its key.
pub open spec fn obj_leaves(entries: Seq<(String, JsonTree)>, prefix: Seq<char>) -> Seq<
    (Seq<char>, Seq<char>),
>
    decreases entries,
{
    if entries.len() == 0 {
        Seq::empty()
    } else {
        leaves_of(entries[0].1, join_path(prefix, entries[0].0@)) + obj_leaves(
            entries.drop_first(),
            prefix,
        )
    }
}

/// The leaves of an array's elements: each element under the unchanged
/// path.
pub open spec fn arr_leaves(elems: Seq<JsonTree>, prefix: Seq<char>) -> Seq<
    (Seq<char>, Seq<char>),
>
    decreases elems,
{
    if elems.len() == 0 {
        Seq::empty()
    } else {
        leaves_of(elems[0], prefix) + arr_leaves(elems.drop_first(), prefix)
    }
}

proof fn lemma_obj_leaves_concat(
    s1: Seq<(String, JsonTree)>,
    s2: Seq<(String, JsonTree)>,
    prefix: Seq<char>,
)
    ensures
        obj_leaves(s1 + s2, prefix) == obj_leaves(s1, prefix) + obj_leaves(s2, prefix),
    decreases s1,
{
    if s1.len() == 0 {
        assert(s1 + s2 =~= s2);
        assert(obj_leaves(s1, prefix) + obj_leaves(s2, prefix) =~= obj_leaves(s2, prefix));
    } else {
        assert((s1 + s2)[0] == s1[0]);
        assert((s1 + s2).drop_first() =~= s1.drop_first() + s2);
        lemma_obj_leaves_concat(s1.drop_first(), s2, prefix);
        assert((s1 + s2).len() > 0);
        assert(leaves_of(s1[0].1, join_path(prefix, s1[0].0@)) + (obj_leaves(
            s1.drop_first(),
            prefix,
        ) + obj_leaves(s2, prefix)) =~= (leaves_of(s1[0].1, join_path(prefix, s1[0].0@))
            + obj_leaves(s1.drop_first(), prefix)) + obj_leaves(s2, prefix));
    }
}

proof fn lemma_arr_leaves_concat(s1: Seq<JsonTree>, s2: Seq<JsonTree>, prefix: Seq<char>)
    ensures
        arr_leaves(s1 + s2, prefix) == arr_leaves(s1, prefix) + arr_leaves(s2, prefix),
    decreases s1,
{
    if s1.len() == 0 {
        assert(s1 + s2 =~= s2);
        assert(arr_leaves(s1, prefix) + arr_leaves(s2, prefix) =~= arr_leaves(s2, prefix));
    } else {
        assert((s1 + s2)[0] == s1[0]);
        assert((s1 + s2).drop_first() =~= s1.drop_first() + s2);
        lemma_arr_leaves_concat(s1.drop_first(), s2, prefix);
        assert((s1 + s2).len() > 0);
        assert(leaves_of(s1[0], prefix) + (arr_leaves(s1.drop_first(), prefix) + arr_leaves(
            s2,
            prefix,
        )) =~= (leaves_of(s1[0], prefix) + arr_leaves(s1.drop_first(), prefix)) + arr_leaves(
            s2,
            prefix,
        ));
    }
}

proof fn lemma_obj_leaves_singleton(e: (String, JsonTree), prefix: Seq<char>)
    ensures
        obj_leaves(seq![e], prefix) == leaves_of(e.1, join_path(prefix, e.0@)),
{
    let s = seq![e];
    assert(s[0] == e);
    assert(s.drop_first() =~= Seq::<(String, JsonTree)>::empty());
    assert(obj_leaves(Seq::<(String, JsonTree)>::empty(), prefix) =~= Seq::<
        (Seq<char>, Seq<char>),
    >::empty());
    assert(leaves_of(e.1, join_path(prefix, e.0@)) + Seq::<(Seq<char>, Seq<char>)>::empty()
        =~= leaves_of(e.1, join_path(prefix, e.0@)));
}

proof fn lemma_arr_leaves_singleton(e: JsonTree, prefix: Seq<char>)
    ensures
        arr_leaves(seq![e], prefix) == leaves_of(e, prefix),
{
    let s = seq![e];
    assert(s[0] == e);
    assert(s.drop_first() =~= Seq::<JsonTree>::empty());
    assert(arr_leaves(Seq::<JsonTree>::empty(), prefix) =~= Seq::<(Seq<char>, Seq<char>)>::empty());
    assert(leaves_of(e, prefix) + Seq::<(Seq<char>, Seq<char>)>::empty() =~= leaves_of(e, prefix));
}

fn child_prefix(prefix: &String, key: &String) -> (r: String)
    ensures
        r@ == join_path(prefix@, key@),
{
    if prefix.as_str().is_empty() {
        key.clone()
    } else {
        let mut s = prefix.clone();
        s.append(".");
        s.append(key.as_str());
        proof {
            reveal_strlit(".");
            assert("."@ =~= seq!['.']);
            assert(s@ =~= prefix@ + seq!['.'] + key@);
        }
        s
    }
}

fn collect_leaves(t: &JsonTree, prefix: &String, out: &mut Vec<(String, String)>)
    ensures
        final (out).deep_view() == old(out).deep_view() + leaves_of(*t, prefix@),
    decreases *t,
{
    let ghost base = out.deep_view();
    match t {
        JsonTree::Obj(entries) => {
            let n = entries.len();
            let mut i: usize = 0;
            while i < n
                invariant
                    i <= n,
                    n == entries@.len(),
                    *t == JsonTree::Obj(*entries),
                    out.deep_view() == base + obj_leaves(entries@.take(i as int), prefix@),
                decreases n - i,
            {
                let cp = child_prefix(prefix, &entries[i].0);
                proof {
                    assert(t->Obj_0 == *entries);
                    assert(decreases_to!(*t => t->Obj_0));
                    assert(decreases_to!(*entries => entries@));
                    assert(decreases_to!(entries@ => entries@[i as int]));
                    assert(decreases_to!(entries@[i as int] => entries@[i as int].1));
                    assert(decreases_to!(*t => entries@[i as int].1));
                }
                collect_leaves(&entries[i].1, &cp, out);
                proof {
                    assert(entries@.take(i + 1) =~= entries@.take(i as int) + seq![
                        entries@[i as int],
                    ]);
                    lemma_obj_leaves_concat(
                        entries@.take(i as int),
                        seq![entries@[i as int]],
                        prefix@,
                    );
                    lemma_obj_leaves_singleton(entries@[i as int], prefix@);
                }
                i = i + 1;
            }
            proof {
                assert(entries@.take(n as int) =~= entries@);
            }
        },
        JsonTree::Arr(elems) => {
            let n = elems.len();
            let mut i: usize = 0;
            while i < n
                invariant
                    i <= n,
                    n == elems@.len(),
                    *t == JsonTree::Arr(*elems),
                    out.deep_view() == base + arr_leaves(elems@.take(i as int), prefix@),
                decreases n - i,
            {
                proof {
                    assert(t->Arr_0 == *elems);
                    assert(decreases_to!(*t => t->Arr_0));
                    assert(decreases_to!(*elems => elems@));
                    assert(decreases_to!(elems@ => elems@[i as int]));
                    assert(decreases_to!(*t => elems@[i as int]));
                }
                collect_leaves(&elems[i], prefix, out);
                proof {
                    assert(elems@.take(i + 1) =~= elems@.take(i as int) + seq![elems@[i as int]]);
                    lemma_arr_leaves_concat(elems@.take(i as int), seq![elems@[i as int]], prefix@);
                    lemma_arr_leaves_singleton(elems@[i as int], prefix@);
                }
                i = i + 1;
            }
            proof {
                assert(elems@.take(n as int) =~= elems@);
            }
        },
        JsonTree::Scalar(s) => {
            out.push((prefix.clone(), s.clone()));
            proof {
                assert(out.deep_view() =~= base + seq![(prefix@, s@)]);
            }
        },
        JsonTree::Null => {
            proof {
                reveal_strlit("null");
                assert("null"@ =~= null_text());
            }
            out.push((prefix.clone(), "null".to_owned()));
            proof {
                assert(out.deep_view() =~= base + seq![(prefix@, null_text())]);
            }
        },
    }
}

/// The path of each leaf, in order.
pub open spec fn leaf_keys(leaves: Seq<(Seq<char>, Seq<char>)>) -> Seq<Seq<char>> {
    leaves.map_values(|l: (Seq<char>, Seq<char>)| l.0)
}

/// The one-cell row a leaf becomes.
pub open spec fn leaf_row(l: (Seq<char>, Seq<char>)) -> Map<Seq<char>, Seq<char>> {
    Map::<Seq<char>, Seq<char>>::empty().insert(l.0, l.1)
}

/// What a successfully flattened table looks like: the leaf paths (first
/// occurrence of each, in first-seen order) as columns, and one one-cell
/// row per leaf, in depth-first order.
pub open spec fn tree_ok(leaves: Seq<(Seq<char>, Seq<char>)>, df: DataFrame) -> bool {
    &&& df.columns.deep_view() == dedup_first(leaf_keys(leaves))
    &&& df.rows@.len() == leaves.len()
    &&& forall|i: int| 0 <= i < leaves.len() ==> (#[trigger] df.rows@[i])@ == leaf_row(leaves[i])
    &&& df.well_formed()
}

/// Flattens a parsed tree into the common table shape. Fails with
/// `EmptyFile` exactly when the tree has no scalar or null leaves.
pub fn tree_table(t: &JsonTree) -> (r: Result<DataFrame, FileError>)
    ensures
        leaves_of(*t, Seq::<char>::empty()).len() == 0 ==> (r matches Err(e) && e is EmptyFile),
        leaves_of(*t, Seq::<char>::empty()).len() > 0 ==> (r matches Ok(df) && tree_ok(
            leaves_of(*t, Seq::<char>::empty()),
            df,
        )),
{
    let mut pairs: Vec<(String, String)> = Vec::new();
    let root = String::new();
    proof {
        assert(pairs.deep_view() =~= Seq::<(Seq<char>, Seq<char>)>::empty());
    }
    collect_leaves(t, &root, &mut pairs);
    let ghost leaves = leaves_of(*t, Seq::<char>::empty());
    proof {
        assert(pairs.deep_view() =~= leaves);
    }
    if pairs.len() == 0 {
        return Err(FileError::EmptyFile);
    }
    let mut keys: Vec<String> = Vec::new();
    let mut i: usize = 0;
    while i < pairs.len()
        invariant
            i <= pairs@.len(),
            leaves == pairs.deep_view(),
            keys.deep_view().len() == i,
            forall|k: int| 0 <= k < i ==> keys.deep_view()[k] == leaves[k].0,
        decreases pairs@.len() - i,
    {
        let ghost before = keys.deep_view();
        keys.push(pairs[i].0.clone());
        proof {
            assert(keys.deep_view() =~= before.push(leaves[i as int].0));
        }
        i = i + 1;
    }
    proof {
        assert(keys.deep_view() =~= leaf_keys(leaves));
    }
    let columns = dedup_columns(&keys);
    let mut rows: Vec<Row> = Vec::new();
    let mut j: usize = 0;
    while j < pairs.len()
        invariant
            j <= pairs@.len(),
            leaves == pairs.deep_view(),
            rows@.len() == j,
            forall|k: int| 0 <= k < j ==> (#[trigger] rows@[k])@ == leaf_row(leaves[k]),
        decreases pairs@.len() - j,
    {
        let mut row = Row::new();
        row.set(pairs[j].0.clone(), pairs[j].1.clone());
        rows.push(row);
        j = j + 1;
    }
    let df = DataFrame { columns, rows };
    proof {
        lemma_dedup_first_props(leaf_keys(leaves));
        assert forall|k: int| 0 <= k < leaves.len() implies (#[trigger] df.rows@[k])@.dom().subset_of(
            df.columns.deep_view().to_set(),
        ) by {
            assert forall|x: Seq<char>| #[trigger]
                df.rows@[k]@.dom().contains(x) implies df.columns.deep_view().to_set().contains(
                x,
            ) by {
                assert(x == leaves[k].0);
                assert(leaf_keys(leaves)[k] == leaves[k].0);
                assert(leaf_keys(leaves).contains(x));
                assert(dedup_first(leaf_keys(leaves)).contains(x));
            }
        }
    }
    Ok(df)
}

/// What the JSON parser makes of a text: a tree for well-formed JSON,
/// nothing otherwise; a function of the text alone.
pub uninterp spec fn json_tree_of(s: Seq<char>) -> Option<JsonTree>;

#[verifier::external_type_specification]
#[verifier::external_body]
pub struct ExValue(serde_json::Value);

/// Relies on serde_json::Value's shape alone: each variant is moved
/// one-for-one into the library's tree model, a scalar as its JSON text
/// (via the crate's own Display), so a string leaf keeps its quotes.
#[verifier::external_body]
fn value_to_tree(v: &serde_json::Value) -> JsonTree {
    match v {
        serde_json::Value::Null => JsonTree::Null,
        serde_json::Value::Array(a) => JsonTree::Arr(a.iter().map(value_to_tree).collect()),
        serde_json::Value::Object(m) => JsonTree::Obj(
            m.iter().map(|(k, val)| (k.clone(), value_to_tree(val))).collect(),
        ),
        _ => JsonTree::Scalar(v.to_string()),
    }
}

/// Relies on serde_json::from_str: a value exactly for well-formed JSON
/// text, an error otherwise; the outcome depends on the text alone.
#[verifier::external_body]
fn parse_json(content: &str) -> (r: Option<JsonTree>)
    ensures
        r == json_tree_of(content@),
{
    match serde_json::from_str::<serde_json::Value>(content) {
        Ok(v) => Some(value_to_tree(&v)),
        Err(_) => None,
    }
}

impl FileInfo {
    /// Parses JSON text and flattens it into the common table shape. Fails
    /// with `InvalidFile` exactly on malformed JSON, and with `EmptyFile`
    /// exactly when the well-formed tree has no scalar or null leaves.
    pub fn read_json(content: &str) -> (r: Result<DataFrame, FileError>)
        ensures
            json_tree_of(content@) is None ==> (r matches Err(e) && e is InvalidFile),
            json_tree_of(content@) matches Some(t) ==> ((leaves_of(
                t,
                Seq::<char>::empty(),
            ).len() == 0 ==> (r matches Err(e) && e is EmptyFile)) && (leaves_of(
                t,
                Seq::<char>::empty(),
            ).len() > 0 ==> (r matches Ok(df) && tree_ok(
                leaves_of(t, Seq::<char>::empty()),
                df,
            )))),
    {
        match parse_json(content) {
            Some(t) => tree_table(&t),
            None => Err(FileError::InvalidFile),
        }
    }
}

} // verus!
