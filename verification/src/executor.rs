//! Schema Executor: runs the statements of a schema script against the store
//! strictly in order, waiting for each before issuing the next, and aborts on
//! the first failure with the offending statement attached.

use vstd::prelude::*;
use crate::schema::SchemaStep;
use crate::store::{
    op_err, op_ok, op_step, run_failure, run_ops, SchemaOp, StoreError, StoreModel, StoreView,
};

verus! {

/// A failed schema statement: its position, its text, and the store's error.
#[derive(Debug)]
pub struct SchemaError {
    pub index: usize,
    pub statement: String,
    pub cause: StoreError,
}

/// The operations of a step sequence, in order.
pub open spec fn ops_of(steps: Seq<SchemaStep>) -> Seq<SchemaOp> {
    steps.map_values(|st: SchemaStep| st.op)
}

/// Splitting a failure-free prefix off a run: the whole run is the run of the
/// prefix continued with the rest, and failure positions shift accordingly.
proof fn lemma_run_split(s: StoreView, ops: Seq<SchemaOp>, i: int)
    requires
        0 <= i <= ops.len(),
        run_failure(s, ops.take(i)) is None,
    ensures
        run_ops(s, ops) == run_ops(run_ops(s, ops.take(i)), ops.skip(i)),
        run_failure(s, ops) == (match run_failure(run_ops(s, ops.take(i)), ops.skip(i)) {
            Some(j) => Some(i + j),
            None => None,
        }),
    decreases i,
{
    if i == 0 {
        assert(ops.take(0).len() == 0);
        assert(ops.skip(0) =~= ops);
    } else {
        assert(ops.take(i).len() > 0);
        assert(ops.take(i)[0] == ops[0]);
        assert(op_ok(s, ops[0]));
        let s1 = op_step(s, ops[0]);
        assert(ops.take(i).skip(1) =~= ops.skip(1).take(i - 1));
        assert(run_failure(s1, ops.skip(1).take(i - 1)) is None);
        lemma_run_split(s1, ops.skip(1), i - 1);
        assert(ops.skip(1).skip(i - 1) =~= ops.skip(i));
        assert(run_ops(s, ops.take(i)) == run_ops(s1, ops.skip(1).take(i - 1)));
        if ops.len() > i {
            assert(run_ops(s, ops) == run_ops(s1, ops.skip(1)));
        } else {
            assert(ops.take(i) =~= ops);
            assert(ops.skip(i).len() == 0);
        }
    }
}

/// Sequential, fail-fast execution: the operations issued to the store are
/// exactly the script prefix ending at the first refused operation (that one
/// included), or the whole script when every operation is accepted.  Nothing
/// after a failure is ever issued.
pub proof fn lemma_sequential_fail_fast(s: StoreView, ops: Seq<SchemaOp>)
    ensures
        run_failure(s, ops) is None ==> run_ops(s, ops).issued == s.issued + ops,
        run_failure(s, ops) matches Some(i) ==> 0 <= i < ops.len() && run_ops(s, ops).issued
            == s.issued + ops.take(i + 1),
    decreases ops.len(),
{
    if ops.len() == 0 {
        assert(s.issued + ops =~= s.issued);
    } else {
        let s1 = op_step(s, ops[0]);
        assert(s1.issued == s.issued.push(ops[0]));
        if !op_ok(s, ops[0]) {
            assert(run_failure(s, ops) == Some(0int));
            assert(s.issued + ops.take(1) =~= s.issued.push(ops[0]));
        } else {
            lemma_sequential_fail_fast(s1, ops.skip(1));
            match run_failure(s1, ops.skip(1)) {
                Some(j) => {
                    assert(run_failure(s, ops) == Some(j + 1));
                    assert(s1.issued + ops.skip(1).take(j + 1) =~= s.issued + ops.take(j + 2));
                },
                None => {
                    assert(s1.issued + ops.skip(1) =~= s.issued + ops);
                },
            }
        }
    }
}

/// Executes the steps against the store in order, stopping at the first
/// failure and reporting it with the offending statement's text.
pub fn run_schema(store: &mut StoreModel, steps: &Vec<SchemaStep>) -> (r: Result<(), SchemaError>)
    ensures
        final(store)@ == run_ops(old(store)@, ops_of(steps@)),
        r is Ok <==> run_failure(old(store)@, ops_of(steps@)) is None,
        r matches Err(e) ==> run_failure(old(store)@, ops_of(steps@)) == Some(e.index as int)
            && e.index < steps@.len() && e.statement@ == steps@[e.index as int].sql@ && e.cause
            == op_err(
            run_ops(old(store)@, ops_of(steps@).take(e.index as int)),
            steps@[e.index as int].op,
        ),
{
    let ghost s0 = store@;
    let ghost ops = ops_of(steps@);
    let mut i: usize = 0;
    proof {
        assert(ops.take(0).len() == 0);
    }
    while i < steps.len()
        invariant
            i <= steps.len(),
            s0 == old(store)@,
            ops == ops_of(steps@),
            store@ == run_ops(s0, ops.take(i as int)),
            run_failure(s0, ops.take(i as int)) is None,
        decreases steps.len() - i,
    {
        let ghost mid = store@;
        let op = steps[i].op;
        proof {
            assert(ops[i as int] == op);
            assert(ops.take(i + 1).take(i as int) =~= ops.take(i as int));
            lemma_run_split(s0, ops.take(i + 1), i as int);
            assert(ops.take(i + 1).skip(i as int) =~= seq![op]);
            assert(seq![op].skip(1) =~= Seq::<SchemaOp>::empty());
            assert(run_ops(op_step(mid, op), Seq::<SchemaOp>::empty()) == op_step(mid, op));
            assert(run_failure(op_step(mid, op), Seq::<SchemaOp>::empty()) is None);
            assert(run_ops(mid, seq![op]) == op_step(mid, op));
        }
        let outcome = store.apply_op(op);
        match outcome {
            Ok(()) => {
                proof {
                    assert(run_failure(mid, seq![op]) is None);
                }
            },
            Err(cause) => {
                proof {
                    assert(run_failure(mid, seq![op]) == Some(0int));
                    assert(run_failure(s0, ops.take(i + 1)) == Some(i as int));
                    lemma_run_split(s0, ops, i as int);
                    assert(ops.skip(i as int)[0] == ops[i as int]);
                    assert(run_ops(mid, ops.skip(i as int)) == op_step(mid, op));
                    assert(run_failure(mid, ops.skip(i as int)) == Some(0int));
                    assert(run_failure(s0, ops) == Some(i as int));
                    assert(run_ops(s0, ops) == store@);
                }
                let statement = steps[i].sql.clone();
                return Err(SchemaError { index: i, statement, cause });
            },
        }
        i = i + 1;
    }
    proof {
        assert(ops.take(steps@.len() as int) =~= ops);
    }
    Ok(())
}

} // verus!
