//! Query Runner and the merge view: executes a read query against the store,
//! decodes the result rows, and classifies failures — in particular the
//! distinguished case of a filter on a sub-field of the aggregated column,
//! which the view chain cannot answer.

use vstd::prelude::*;
use crate::doc::{encodable, encode_doc_spec, decode_doc};
use crate::schema::bootstrap_ops;
use crate::store::{
    run_failure, run_ops, EventRow, SchemaObject, StoreError, StoreModel, StoreView,
};
use crate::text::str_eq;

verus! {

/// The filter of a read query against the merge view.
pub enum Filter {
    /// Every merged row.
    All,
    /// The rows whose key equals the given text.
    ByKey(String),
    /// The rows whose aggregated document holds the given value under the
    /// given sub-field path.  The store cannot resolve such a path through
    /// the aggregation fold.
    BySubfield(String, String),
}

/// The mathematical form of a filter.
pub enum FilterView {
    All,
    ByKey(Seq<char>),
    BySubfield(Seq<char>, Seq<char>),
}

impl View for Filter {
    type V = FilterView;

    open spec fn view(&self) -> FilterView {
        match self {
            Filter::All => FilterView::All,
            Filter::ByKey(k) => FilterView::ByKey(k@),
            Filter::BySubfield(p, v) => FilterView::BySubfield(p@, v@),
        }
    }
}

/// A read query: the fixed projection `event_id, event_data` from the merge
/// view, under a filter.
pub struct Query {
    pub filter: Filter,
}

/// The statement text a filter renders to.
pub open spec fn sql_of_filter(f: FilterView) -> Seq<char> {
    match f {
        FilterView::All => "SELECT event_id, event_data FROM sam_test.event_view"@,
        FilterView::ByKey(k) =>
            "SELECT event_id, event_data FROM sam_test.event_view WHERE event_id = '"@ + k
            + "'"@,
        FilterView::BySubfield(p, v) =>
            "SELECT event_id, event_data FROM sam_test.event_view WHERE event_data."@ + p
            + " = '"@ + v + "'"@,
    }
}

impl Query {
    /// Renders the query's statement text.  The filter's texts are embedded
    /// verbatim; a key or value that itself holds a quote is a known
    /// limitation, like a terminator inside a schema statement.
    pub fn to_sql(&self) -> (r: String)
        ensures
            r@ == sql_of_filter(self.filter@),
    {
        match &self.filter {
            Filter::All => String::from_str(
                "SELECT event_id, event_data FROM sam_test.event_view",
            ),
            Filter::ByKey(k) => {
                let mut out = String::from_str(
                    "SELECT event_id, event_data FROM sam_test.event_view WHERE event_id = '",
                );
                out.append(k.as_str());
                out.append("'");
                out
            },
            Filter::BySubfield(p, v) => {
                let mut out = String::from_str(
                    "SELECT event_id, event_data FROM sam_test.event_view WHERE event_data.",
                );
                out.append(p.as_str());
                out.append(" = '");
                out.append(v.as_str());
                out.append("'");
                out
            },
        }
    }

    /// Whether the query filters on a sub-field of the aggregated column.
    pub fn filters_on_subfield(&self) -> (r: bool)
        ensures
            r == (self.filter@ is BySubfield),
    {
        match &self.filter {
            Filter::BySubfield(_, _) => true,
            _ => false,
        }
    }
}

/// The distinct keys of the raw rows, in order of first appearance.
pub open spec fn merged_keys(rows: Seq<(Seq<char>, Seq<char>)>) -> Seq<Seq<char>>
    decreases rows.len(),
{
    if rows.len() == 0 {
        Seq::<Seq<char>>::empty()
    } else {
        let p = merged_keys(rows.drop_last());
        if p.contains(rows.last().0) {
            p
        } else {
            p.push(rows.last().0)
        }
    }
}

/// The value the aggregation keeps for a key.  In this schema every raw row
/// with a key carries that key as the fold argument, so the store may keep
/// any of the key's values; the model fixes the last one written.
pub open spec fn merged_value(rows: Seq<(Seq<char>, Seq<char>)>, k: Seq<char>) -> Seq<char>
    decreases rows.len(),
{
    if rows.len() == 0 {
        Seq::<char>::empty()
    } else if rows.last().0 == k {
        rows.last().1
    } else {
        merged_value(rows.drop_last(), k)
    }
}

/// The merge view: one row per distinct key of the raw table.
pub open spec fn merge_rows(rows: Seq<(Seq<char>, Seq<char>)>) -> Seq<(Seq<char>, Seq<char>)> {
    merged_keys(rows).map_values(|k: Seq<char>| (k, merged_value(rows, k)))
}

/// A key is merged exactly when some raw row has it.
pub proof fn lemma_merged_keys_complete(rows: Seq<(Seq<char>, Seq<char>)>, k: Seq<char>)
    ensures
        merged_keys(rows).contains(k) <==> (exists|i: int|
            0 <= i < rows.len() && (#[trigger] rows[i]).0 == k),
    decreases rows.len(),
{
    if rows.len() == 0 {
    } else {
        lemma_merged_keys_complete(rows.drop_last(), k);
        let p = merged_keys(rows.drop_last());
        if rows.last().0 == k {
            if p.contains(k) {
            } else {
                assert(p.push(k)[p.len() as int] == k);
            }
            assert(rows[rows.len() - 1].0 == k);
        } else {
            if merged_keys(rows).contains(k) {
                if !p.contains(k) {
                    let w = choose|w: int| 0 <= w < p.push(rows.last().0).len() && p.push(
                        rows.last().0,
                    )[w] == k;
                    assert(p.push(rows.last().0)[w] == k);
                    assert(w < p.len());
                    assert(p.contains(k));
                }
                let w = choose|i: int| 0 <= i < rows.drop_last().len() && (#[trigger] rows.drop_last()[i]).0
                    == k;
                assert(rows[w].0 == k);
            }
            if exists|i: int| 0 <= i < rows.len() && (#[trigger] rows[i]).0 == k {
                let w = choose|i: int| 0 <= i < rows.len() && (#[trigger] rows[i]).0 == k;
                assert(w < rows.len() - 1);
                assert(rows.drop_last()[w].0 == k);
                assert(p.contains(k));
                if !p.contains(rows.last().0) {
                    assert(p.push(rows.last().0).contains(k)) by {
                        let u = choose|u: int| 0 <= u < p.len() && p[u] == k;
                        assert(p.push(rows.last().0)[u] == k);
                    }
                }
            }
        }
    }
}

/// The merged keys are pairwise distinct.
pub proof fn lemma_merged_keys_distinct(rows: Seq<(Seq<char>, Seq<char>)>)
    ensures
        forall|i: int, j: int| 0 <= i < j < merged_keys(rows).len() ==> merged_keys(rows)[i]
            != merged_keys(rows)[j],
    decreases rows.len(),
{
    if rows.len() == 0 {
    } else {
        lemma_merged_keys_distinct(rows.drop_last());
        let p = merged_keys(rows.drop_last());
        if !p.contains(rows.last().0) {
            assert forall|i: int, j: int| 0 <= i < j < p.push(rows.last().0).len() implies p.push(
                rows.last().0,
            )[i] != p.push(rows.last().0)[j] by {
                if j == p.len() {
                    assert(p.push(rows.last().0)[i] == p[i]);
                    if p[i] == rows.last().0 {
                        assert(p.contains(rows.last().0));
                    }
                } else {
                    assert(p.push(rows.last().0)[i] == p[i]);
                    assert(p.push(rows.last().0)[j] == p[j]);
                }
            }
        }
    }
}

/// Key uniqueness in the merge view: for a key present in the raw table the
/// merge view holds exactly one row with that key, however many raw rows
/// share it.
pub proof fn lemma_merge_one_row_per_key(rows: Seq<(Seq<char>, Seq<char>)>, k: Seq<char>)
    requires
        exists|i: int| 0 <= i < rows.len() && (#[trigger] rows[i]).0 == k,
    ensures
        exists|i: int| 0 <= i < merge_rows(rows).len() && (#[trigger] merge_rows(rows)[i]).0
            == k,
        forall|i: int, j: int| 0 <= i < j < merge_rows(rows).len() ==> !((
        #[trigger] merge_rows(rows)[i]).0 == k && (#[trigger] merge_rows(rows)[j]).0 == k),
{
    broadcast use vstd::seq_lib::group_seq_lib_default;

    lemma_merged_keys_complete(rows, k);
    lemma_merged_keys_distinct(rows);
    let keys = merged_keys(rows);
    let w = choose|u: int| 0 <= u < keys.len() && keys[u] == k;
    assert(merge_rows(rows)[w].0 == k);
}

/// What the store itself answers for a filter, before the Query Runner
/// classifies failures.
pub open spec fn store_fetch_spec(s: StoreView, f: FilterView) -> Result<
    Seq<(Seq<char>, Seq<char>)>,
    StoreError,
> {
    if !s.merge_view {
        Err(StoreError::MissingObject)
    } else {
        match f {
            FilterView::All => Ok(merge_rows(s.rows)),
            FilterView::ByKey(k) => Ok(
                merge_rows(s.rows).filter(|r: (Seq<char>, Seq<char>)| r.0 == k),
            ),
            FilterView::BySubfield(_, _) => Err(StoreError::PathResolution),
        }
    }
}

/// How a query can fail.
#[derive(Debug)]
pub enum QueryError {
    /// The distinguished unsupported-filter failure: the store rejected a
    /// predicate over a sub-field of the aggregated column.
    UnsupportedFilter { statement: String, cause: StoreError },
    /// Any other store failure.
    Store { statement: String, cause: StoreError },
}

/// Query Runner's failure classification: a path-resolution rejection of a
/// sub-field filter is the distinguished unsupported-filter category, and
/// nothing else is.
pub fn classify_failure(q: &Query, cause: StoreError) -> (r: QueryError)
    ensures
        (r matches QueryError::UnsupportedFilter { statement, cause: c } ==> statement@
            == sql_of_filter(q.filter@) && c == cause && (q.filter@ is BySubfield) && cause
            == StoreError::PathResolution),
        (r matches QueryError::Store { statement, cause: c } ==> statement@ == sql_of_filter(
            q.filter@,
        ) && c == cause && !((q.filter@ is BySubfield) && cause == StoreError::PathResolution)),
        (r is UnsupportedFilter <==> ((q.filter@ is BySubfield) && cause
            == StoreError::PathResolution)),
{
    let statement = q.to_sql();
    let subfield = q.filters_on_subfield();
    let path_failure = match cause {
        StoreError::PathResolution => true,
        _ => false,
    };
    if subfield && path_failure {
        QueryError::UnsupportedFilter { statement, cause }
    } else {
        QueryError::Store { statement, cause }
    }
}

proof fn lemma_key_filter_push(
    p: Seq<(Seq<char>, Seq<char>)>,
    x: (Seq<char>, Seq<char>),
    k: Seq<char>,
)
    ensures
        x.0 == k ==> p.push(x).filter(|r: (Seq<char>, Seq<char>)| r.0 == k) == p.filter(
            |r: (Seq<char>, Seq<char>)| r.0 == k,
        ).push(x),
        x.0 != k ==> p.push(x).filter(|r: (Seq<char>, Seq<char>)| r.0 == k) == p.filter(
            |r: (Seq<char>, Seq<char>)| r.0 == k,
        ),
{
    reveal_with_fuel(Seq::filter, 2);
    assert(p.push(x).drop_last() =~= p);
    assert(p.push(x).last() == x);
}

/// Executes a read query against the store: either the decoded merge-view
/// rows, or a failure classified by `classify_failure` — a sub-field filter
/// never yields rows and never a generic error.
pub fn run_query(store: &StoreModel, q: &Query) -> (r: Result<Vec<EventRow>, QueryError>)
    ensures
        (r matches Ok(rows) ==> store_fetch_spec(store@, q.filter@) == Ok::<
            Seq<(Seq<char>, Seq<char>)>,
            StoreError,
        >(rows@.map_values(|x: EventRow| x@))),
        (r is Ok <==> store_fetch_spec(store@, q.filter@) is Ok),
        (r matches Err(e) ==> (store_fetch_spec(store@, q.filter@) matches Err(c) && (e
            matches QueryError::UnsupportedFilter { statement, cause } ==> statement@
            == sql_of_filter(q.filter@) && cause == c) && (e matches QueryError::Store {
            statement,
            cause,
        } ==> statement@ == sql_of_filter(q.filter@) && cause == c) && (e is UnsupportedFilter
            <==> ((q.filter@ is BySubfield) && c == StoreError::PathResolution)))),
{
    broadcast use vstd::seq_lib::group_seq_lib_default;

    if !store.has_object(SchemaObject::MergeView) {
        return Err(classify_failure(q, StoreError::MissingObject));
    }
    match &q.filter {
        Filter::BySubfield(_, _) => Err(classify_failure(q, StoreError::PathResolution)),
        Filter::All => {
            let rows = compute_merge(store);
            Ok(rows)
        },
        Filter::ByKey(k) => {
            let ghost key = k@;
            let merged = compute_merge(store);
            let mut out: Vec<EventRow> = Vec::new();
            let n = merged.len();
            let mut i: usize = 0;
            proof {
                reveal(Seq::filter);
                assert(merge_rows(store@.rows).take(0) =~= Seq::<(Seq<char>, Seq<char>)>::empty());
                assert(out@.map_values(|x: EventRow| x@) =~= Seq::<
                    (Seq<char>, Seq<char>),
                >::empty().filter(|r: (Seq<char>, Seq<char>)| r.0 == key));
            }
            while i < n
                invariant
                    i <= n,
                    key == k@,
                    n == merged@.len(),
                    merged@.map_values(|x: EventRow| x@) == merge_rows(store@.rows),
                    out@.map_values(|x: EventRow| x@) == merge_rows(store@.rows).take(
                        i as int,
                    ).filter(|r: (Seq<char>, Seq<char>)| r.0 == key),
                decreases n - i,
            {
                let ghost taken = merge_rows(store@.rows).take(i as int);
                let ghost x = merge_rows(store@.rows)[i as int];
                proof {
                    assert(merge_rows(store@.rows).take(i + 1) =~= taken.push(x));
                    lemma_key_filter_push(taken, x, key);
                }
                if str_eq(merged[i].event_id.as_str(), k.as_str()) {
                    let row = merged[i].duplicate();
                    let ghost pre_out = out@;
                    out.push(row);
                    proof {
                        assert(x.0 == key);
                        assert(out@ == pre_out.push(row));
                        assert(row@ == x);
                        assert(out@.map_values(|x: EventRow| x@) =~= pre_out.map_values(
                            |x: EventRow| x@,
                        ).push(x));
                    }
                } else {
                    proof {
                        assert(x.0 != key);
                    }
                }
                i = i + 1;
            }
            proof {
                assert(merge_rows(store@.rows).take(n as int) =~= merge_rows(store@.rows));
            }
            Ok(out)
        },
    }
}

/// The position of the merged row with the given key, if one is there.
fn find_key(out: &Vec<EventRow>, key: &str) -> (r: Option<usize>)
    ensures
        (r matches Some(j) ==> j < out@.len() && (out@[j as int])@.0 == key@),
        r is None ==> forall|l: int| 0 <= l < out@.len() ==> (#[trigger] out@[l])@.0 != key@,
{
    let m = out.len();
    let mut j: usize = 0;
    while j < m
        invariant
            j <= m,
            m == out@.len(),
            forall|l: int| 0 <= l < j ==> (#[trigger] out@[l])@.0 != key@,
        decreases m - j,
    {
        if str_eq(out[j].event_id.as_str(), key) {
            return Some(j);
        }
        j = j + 1;
    }
    None
}

/// Computes the merge view's rows from the raw table.
fn compute_merge(store: &StoreModel) -> (r: Vec<EventRow>)
    ensures
        r@.map_values(|x: EventRow| x@) == merge_rows(store@.rows),
{
    broadcast use vstd::seq_lib::group_seq_lib_default;

    let n = store.row_count();
    let mut out: Vec<EventRow> = Vec::new();
    let mut i: usize = 0;
    proof {
        assert(store@.rows.take(0) =~= Seq::<(Seq<char>, Seq<char>)>::empty());
        assert(out@.map_values(|x: EventRow| x@) =~= merge_rows(store@.rows.take(0)));
    }
    while i < n
        invariant
            i <= n,
            n == store@.rows.len(),
            out@.map_values(|x: EventRow| x@) == merge_rows(store@.rows.take(i as int)),
        decreases n - i,
    {
        let ghost pre = store@.rows.take(i as int);
        let ghost r0 = store@.rows[i as int];
        let ghost keys_pre = merged_keys(pre);
        proof {
            assert(store@.rows.take(i + 1) =~= pre.push(r0));
            assert(pre.push(r0).drop_last() =~= pre);
            assert(pre.push(r0).last() == r0);
            lemma_merged_keys_distinct(pre);
            assert(out@.map_values(|x: EventRow| x@).len() == keys_pre.len());
        }
        let row = store.raw_row(i);
        let search = find_key(&out, row.event_id.as_str());
        if let Some(found) = search {
            let ghost fj = found as int;
            proof {
                assert(out@[fj]@.0 == r0.0);
                assert(merge_rows(pre)[fj] == out@[fj]@);
                assert(keys_pre[fj] == r0.0);
                assert(keys_pre.contains(r0.0));
                assert(merged_keys(pre.push(r0)) == keys_pre);
            }
            out.remove(found);
            out.insert(found, EventRow { event_id: row.event_id, event_data: row.event_data });
            proof {
                let post = pre.push(r0);
                assert forall|l: int| 0 <= l < keys_pre.len() implies (#[trigger] out@[l])@
                    == (keys_pre[l], merged_value(post, keys_pre[l])) by {
                    if l == fj {
                        assert(out@[l]@ == (r0.0, r0.1));
                        assert(merged_value(post, keys_pre[l]) == r0.1);
                    } else {
                        assert(out@[l]@ == merge_rows(pre)[l]);
                        assert(keys_pre[l] != keys_pre[fj]);
                        assert(merged_value(post, keys_pre[l]) == merged_value(
                            pre,
                            keys_pre[l],
                        ));
                    }
                }
                assert(out@.map_values(|x: EventRow| x@) =~~= merge_rows(post));
            }
        } else {
            proof {
                assert(row.event_id@ == r0.0);
                assert(forall|l: int| 0 <= l < out@.len() ==> (#[trigger] out@[l])@.0 != r0.0);
                assert(forall|l: int| 0 <= l < keys_pre.len() ==> keys_pre[l] != r0.0) by {
                    assert(forall|l: int| 0 <= l < keys_pre.len() ==> #[trigger] keys_pre[l]
                        == merge_rows(pre)[l].0);
                }
                if keys_pre.contains(r0.0) {
                    let w = choose|w: int| 0 <= w < keys_pre.len() && keys_pre[w] == r0.0;
                    assert(false);
                }
                assert(merged_keys(pre.push(r0)) == keys_pre.push(r0.0));
            }
            let ghost pre_out = out@;
            out.push(EventRow { event_id: row.event_id, event_data: row.event_data });
            proof {
                let post = pre.push(r0);
                assert(out@ == pre_out.push(EventRow { event_id: row.event_id, event_data: row.event_data }));
                assert forall|l: int| 0 <= l < keys_pre.len() + 1 implies (#[trigger] out@[l])@
                    == (
                    keys_pre.push(r0.0)[l],
                    merged_value(post, keys_pre.push(r0.0)[l]),
                ) by {
                    if l < keys_pre.len() {
                        assert(out@[l] == pre_out[l]);
                        assert(out@[l]@ == merge_rows(pre)[l]);
                        assert(keys_pre.push(r0.0)[l] == keys_pre[l]);
                        assert(keys_pre[l] != r0.0);
                        assert(merged_value(post, keys_pre[l]) == merged_value(
                            pre,
                            keys_pre[l],
                        ));
                    } else {
                        assert(out@[l]@ == (r0.0, r0.1));
                        assert(keys_pre.push(r0.0)[l] == r0.0);
                        assert(merged_value(post, r0.0) == r0.1);
                    }
                }
                assert(out@.map_values(|x: EventRow| x@) =~~= merge_rows(post));
            }
        }
        i = i + 1;
    }
    proof {
        assert(store@.rows.take(n as int) =~= store@.rows);
    }
    out
}

/// Insert/query round trip: from any state, bootstrapping the schema, then
/// writing one event, then querying the merge view for its key yields
/// exactly that one row, and its serialized document decodes back to the
/// document that was written.
pub proof fn lemma_insert_query_round_trip(
    s0: StoreView,
    key: Seq<char>,
    es: Seq<(Seq<char>, Seq<char>)>,
)
    requires
        encodable(es),
    ensures
        run_failure(s0, bootstrap_ops()) is None,
        ({
            let s1 = run_ops(s0, bootstrap_ops());
            let s2 = StoreView { rows: s1.rows.push((key, encode_doc_spec(es))), ..s1 };
            store_fetch_spec(s2, FilterView::ByKey(key)) == Ok::<
                Seq<(Seq<char>, Seq<char>)>,
                StoreError,
            >(seq![(key, encode_doc_spec(es))])
        }),
        decode_doc(encode_doc_spec(es)) == Some(es),
{
    broadcast use vstd::seq_lib::group_seq_lib_default;

    reveal(Seq::filter);
    crate::schema::lemma_bootstrap_reaches_clean_state(s0);
    crate::doc::lemma_document_round_trip(es);
    let s1 = run_ops(s0, bootstrap_ops());
    assert(s1.merge_view);
    assert(s1.rows =~= Seq::<(Seq<char>, Seq<char>)>::empty());
    let d = encode_doc_spec(es);
    let rows1 = s1.rows.push((key, d));
    assert(rows1 =~= seq![(key, d)]);
    assert(rows1.drop_last() =~= Seq::<(Seq<char>, Seq<char>)>::empty());
    assert(rows1.last() == (key, d));
    assert(merged_keys(Seq::<(Seq<char>, Seq<char>)>::empty()) =~= Seq::<Seq<char>>::empty());
    assert(!Seq::<Seq<char>>::empty().contains(key));
    assert(Seq::<Seq<char>>::empty().push(key) =~= seq![key]);
    assert(merged_keys(rows1) == seq![key]);
    assert(merged_value(rows1, key) == d);
    assert(merge_rows(rows1) =~= seq![(key, d)]);
    lemma_key_filter_push(Seq::<(Seq<char>, Seq<char>)>::empty(), (key, d), key);
    assert(Seq::<(Seq<char>, Seq<char>)>::empty().push((key, d)) =~= seq![(key, d)]);
    assert(Seq::<(Seq<char>, Seq<char>)>::empty().filter(
        |r: (Seq<char>, Seq<char>)| r.0 == key,
    ) == Seq::<(Seq<char>, Seq<char>)>::empty());
    assert(merge_rows(rows1).filter(|r: (Seq<char>, Seq<char>)| r.0 == key) =~= seq![(key, d)]);
}

} // verus!
