//! The schema of the aggregation view model: the ordered drop/create
//! sequence that bootstraps it, as store operations paired with their
//! statement texts, and the proof that the bootstrap is idempotent.

use vstd::prelude::*;
use crate::store::{
    op_step, op_ok, run_failure, run_ops, SchemaObject, SchemaOp, StoreView,
};

verus! {

/// One statement of the bootstrap script: the operation the store model
/// understands, and the statement text the real store executes.
pub struct SchemaStep {
    pub op: SchemaOp,
    pub sql: String,
}

/// The bootstrap sequence: create the database if needed, drop the four
/// objects in dependency order, then recreate them in reverse order.
pub open spec fn bootstrap_ops() -> Seq<SchemaOp> {
    seq![
        SchemaOp::CreateIfNotExists(SchemaObject::Database),
        SchemaOp::DropIfExists(SchemaObject::MergeView),
        SchemaOp::DropIfExists(SchemaObject::FoldingView),
        SchemaOp::DropIfExists(SchemaObject::AggregateTable),
        SchemaOp::DropIfExists(SchemaObject::RawTable),
        SchemaOp::Create(SchemaObject::RawTable),
        SchemaOp::Create(SchemaObject::AggregateTable),
        SchemaOp::Create(SchemaObject::FoldingView),
        SchemaOp::Create(SchemaObject::MergeView),
    ]
}

/// The statement text of position `i` of the bootstrap script.
pub open spec fn schema_sql(i: int) -> Seq<char> {
    if i == 0 {
        "CREATE DATABASE IF NOT EXISTS sam_test"@
    } else if i == 1 {
        "DROP VIEW IF EXISTS sam_test.event_view"@
    } else if i == 2 {
        "DROP VIEW IF EXISTS sam_test.event_mv"@
    } else if i == 3 {
        "DROP TABLE IF EXISTS sam_test.event_agg_table"@
    } else if i == 4 {
        "DROP TABLE IF EXISTS sam_test.event_insert_table"@
    } else if i == 5 {
        "CREATE TABLE sam_test.event_insert_table (\n    event_id String,\n    event_data Json,\n)\nENGINE = MergeTree()\nORDER BY event_id\nSETTINGS enable_json_type = 1"@
    } else if i == 6 {
        "CREATE TABLE sam_test.event_agg_table (\n    event_id String,\n    event_data AggregateFunction(argMax, Json, String),\n)\nENGINE = AggregatingMergeTree()\nORDER BY event_id\nSETTINGS enable_json_type = 1"@
    } else if i == 7 {
        "CREATE MATERIALIZED VIEW sam_test.event_mv\nTO sam_test.event_agg_table AS\nSELECT\n    event_id,\n    argMaxState(event_data, event_id) AS event_data\nFROM sam_test.event_insert_table\nGROUP BY event_id"@
    } else {
        "CREATE VIEW sam_test.event_view AS\nSELECT\n    event_id,\n    argMaxMerge(event_data) AS event_data\nFROM sam_test.event_agg_table\nGROUP BY event_id"@
    }
}

/// The bootstrap script as ordered steps: operation `i` of `bootstrap_ops`
/// paired with statement text `i`.
pub fn schema_steps() -> (r: Vec<SchemaStep>)
    ensures
        r@.map_values(|st: SchemaStep| st.op) == bootstrap_ops(),
        r@.len() == bootstrap_ops().len(),
        forall|i: int| 0 <= i < r@.len() ==> (#[trigger] r@[i].sql)@ == schema_sql(i),
{
    let mut r: Vec<SchemaStep> = Vec::new();
    r.push(SchemaStep {
        op: SchemaOp::CreateIfNotExists(SchemaObject::Database),
        sql: String::from_str("CREATE DATABASE IF NOT EXISTS sam_test"),
    });
    r.push(SchemaStep {
        op: SchemaOp::DropIfExists(SchemaObject::MergeView),
        sql: String::from_str("DROP VIEW IF EXISTS sam_test.event_view"),
    });
    r.push(SchemaStep {
        op: SchemaOp::DropIfExists(SchemaObject::FoldingView),
        sql: String::from_str("DROP VIEW IF EXISTS sam_test.event_mv"),
    });
    r.push(SchemaStep {
        op: SchemaOp::DropIfExists(SchemaObject::AggregateTable),
        sql: String::from_str("DROP TABLE IF EXISTS sam_test.event_agg_table"),
    });
    r.push(SchemaStep {
        op: SchemaOp::DropIfExists(SchemaObject::RawTable),
        sql: String::from_str("DROP TABLE IF EXISTS sam_test.event_insert_table"),
    });
    r.push(SchemaStep {
        op: SchemaOp::Create(SchemaObject::RawTable),
        sql: String::from_str(
            "CREATE TABLE sam_test.event_insert_table (\n    event_id String,\n    event_data Json,\n)\nENGINE = MergeTree()\nORDER BY event_id\nSETTINGS enable_json_type = 1",
        ),
    });
    r.push(SchemaStep {
        op: SchemaOp::Create(SchemaObject::AggregateTable),
        sql: String::from_str(
            "CREATE TABLE sam_test.event_agg_table (\n    event_id String,\n    event_data AggregateFunction(argMax, Json, String),\n)\nENGINE = AggregatingMergeTree()\nORDER BY event_id\nSETTINGS enable_json_type = 1",
        ),
    });
    r.push(SchemaStep {
        op: SchemaOp::Create(SchemaObject::FoldingView),
        sql: String::from_str(
            "CREATE MATERIALIZED VIEW sam_test.event_mv\nTO sam_test.event_agg_table AS\nSELECT\n    event_id,\n    argMaxState(event_data, event_id) AS event_data\nFROM sam_test.event_insert_table\nGROUP BY event_id",
        ),
    });
    r.push(SchemaStep {
        op: SchemaOp::Create(SchemaObject::MergeView),
        sql: String::from_str(
            "CREATE VIEW sam_test.event_view AS\nSELECT\n    event_id,\n    argMaxMerge(event_data) AS event_data\nFROM sam_test.event_agg_table\nGROUP BY event_id",
        ),
    });
    proof {
        assert(r@.map_values(|st: SchemaStep| st.op) =~= bootstrap_ops());
    }
    r
}

/// The schema script prefix made of the first `n` statements, each followed
/// by the terminator and a line break.
pub open spec fn script_prefix(n: int) -> Seq<char>
    decreases n,
{
    if n <= 0 {
        Seq::<char>::empty()
    } else {
        script_prefix(n - 1) + schema_sql(n - 1) + seq![';'] + seq!['\n']
    }
}

/// The full schema script, ready for the statement splitter.
pub open spec fn schema_script_spec() -> Seq<char> {
    script_prefix(bootstrap_ops().len() as int)
}

/// The bootstrap script as one text blob, statements separated by the
/// terminator, as the store's client submits it.
pub fn schema_script() -> (r: String)
    ensures
        r@ == schema_script_spec(),
{
    let steps = schema_steps();
    let mut out = String::new();
    let mut i: usize = 0;
    proof {
        assert(out@ =~= script_prefix(0));
    }
    while i < steps.len()
        invariant
            i <= steps.len(),
            steps@.len() == bootstrap_ops().len(),
            forall|k: int| 0 <= k < steps@.len() ==> (#[trigger] steps@[k].sql)@ == schema_sql(k),
            out@ == script_prefix(i as int),
        decreases steps.len() - i,
    {
        out.append(steps[i].sql.as_str());
        out.append(";\n");
        proof {
            reveal_strlit(";\n");
            assert(out@ =~= script_prefix(i as int) + schema_sql(i as int) + seq![';']
                + seq!['\n']);
        }
        i = i + 1;
    }
    out
}

/// The observable state the bootstrap always reaches: every schema object
/// present, the raw table empty.
pub open spec fn bootstrapped_store() -> StoreView {
    StoreView {
        database: true,
        raw_table: true,
        aggregate_table: true,
        folding_view: true,
        merge_view: true,
        rows: Seq::<(Seq<char>, Seq<char>)>::empty(),
        issued: Seq::<SchemaOp>::empty(),
    }
}

/// Running the bootstrap from any store state succeeds and reaches the one
/// bootstrapped observable state.
pub proof fn lemma_bootstrap_reaches_clean_state(s: StoreView)
    ensures
        run_failure(s, bootstrap_ops()) is None,
        run_ops(s, bootstrap_ops()).observable() == bootstrapped_store(),
{
    let ops = bootstrap_ops();
    let s1 = op_step(s, ops[0]);
    let s2 = op_step(s1, ops[1]);
    let s3 = op_step(s2, ops[2]);
    let s4 = op_step(s3, ops[3]);
    let s5 = op_step(s4, ops[4]);
    let s6 = op_step(s5, ops[5]);
    let s7 = op_step(s6, ops[6]);
    let s8 = op_step(s7, ops[7]);
    let s9 = op_step(s8, ops[8]);
    assert(ops.skip(1) =~= ops.subrange(1, 9));
    assert(ops.subrange(1, 9).skip(1) =~= ops.subrange(2, 9));
    assert(ops.subrange(2, 9).skip(1) =~= ops.subrange(3, 9));
    assert(ops.subrange(3, 9).skip(1) =~= ops.subrange(4, 9));
    assert(ops.subrange(4, 9).skip(1) =~= ops.subrange(5, 9));
    assert(ops.subrange(5, 9).skip(1) =~= ops.subrange(6, 9));
    assert(ops.subrange(6, 9).skip(1) =~= ops.subrange(7, 9));
    assert(ops.subrange(7, 9).skip(1) =~= ops.subrange(8, 9));
    assert(ops.subrange(8, 9).skip(1) =~= ops.subrange(9, 9));
    assert(ops.subrange(9, 9).len() == 0);
    assert(op_ok(s, ops[0]));
    assert(run_ops(s, ops) == run_ops(s1, ops.subrange(1, 9)));
    assert(op_ok(s1, ops[1]));
    assert(run_ops(s1, ops.subrange(1, 9)) == run_ops(s2, ops.subrange(2, 9)));
    assert(op_ok(s2, ops[2]));
    assert(run_ops(s2, ops.subrange(2, 9)) == run_ops(s3, ops.subrange(3, 9)));
    assert(op_ok(s3, ops[3]));
    assert(run_ops(s3, ops.subrange(3, 9)) == run_ops(s4, ops.subrange(4, 9)));
    assert(op_ok(s4, ops[4]));
    assert(run_ops(s4, ops.subrange(4, 9)) == run_ops(s5, ops.subrange(5, 9)));
    assert(op_ok(s5, ops[5]));
    assert(run_ops(s5, ops.subrange(5, 9)) == run_ops(s6, ops.subrange(6, 9)));
    assert(op_ok(s6, ops[6]));
    assert(run_ops(s6, ops.subrange(6, 9)) == run_ops(s7, ops.subrange(7, 9)));
    assert(op_ok(s7, ops[7]));
    assert(run_ops(s7, ops.subrange(7, 9)) == run_ops(s8, ops.subrange(8, 9)));
    assert(op_ok(s8, ops[8]));
    assert(run_ops(s8, ops.subrange(8, 9)) == run_ops(s9, ops.subrange(9, 9)));
    assert(run_ops(s, ops) == s9);
    assert(run_failure(s9, ops.subrange(9, 9)) is None);
    assert(run_failure(s8, ops.subrange(8, 9)) is None);
    assert(run_failure(s7, ops.subrange(7, 9)) is None);
    assert(run_failure(s6, ops.subrange(6, 9)) is None);
    assert(run_failure(s5, ops.subrange(5, 9)) is None);
    assert(run_failure(s4, ops.subrange(4, 9)) is None);
    assert(run_failure(s3, ops.subrange(3, 9)) is None);
    assert(run_failure(s2, ops.subrange(2, 9)) is None);
    assert(run_failure(s1, ops.subrange(1, 9)) is None);
    assert(run_failure(s, ops) is None);
    assert(s9.observable() =~= bootstrapped_store());
}

/// Idempotent bootstrap: the drop/create sequence succeeds from any store
/// state, and running it twice in a row leaves the same observable schema
/// state as running it once.
pub proof fn lemma_bootstrap_idempotent(s: StoreView)
    ensures
        run_failure(s, bootstrap_ops()) is None,
        run_failure(run_ops(s, bootstrap_ops()), bootstrap_ops()) is None,
        run_ops(run_ops(s, bootstrap_ops()), bootstrap_ops()).observable() == run_ops(
            s,
            bootstrap_ops(),
        ).observable(),
{
    lemma_bootstrap_reaches_clean_state(s);
    lemma_bootstrap_reaches_clean_state(run_ops(s, bootstrap_ops()));
}

} // verus!
