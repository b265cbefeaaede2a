//! The Aggregation View Model: an in-memory model of the columnar store that
//! the verified components run against.
//!
//! The model owns the four schema objects (raw table, aggregate-state table,
//! folding view, merge view) plus their database, the raw rows, and a history
//! of every schema operation issued to it.  The real store behind a network
//! connection is driven by unverified code that mirrors these semantics.

use vstd::prelude::*;

verus! {

/// The schema objects of the aggregation view model.
#[derive(Clone, Copy, PartialEq, Eq, Structural, Debug)]
pub enum SchemaObject {
    /// The database namespace holding the other four objects.
    Database,
    /// Append-only storage of `(event_id, event_data)` pairs.
    RawTable,
    /// Per-key partial aggregation state, populated only by the folding view.
    AggregateTable,
    /// The standing computation that folds raw inserts into aggregate state.
    FoldingView,
    /// The read-only projection exposing one merged row per key.
    MergeView,
}

/// One statement's worth of schema work, as the store understands it.
#[derive(Clone, Copy, PartialEq, Eq, Structural, Debug)]
pub enum SchemaOp {
    /// Create the object unless it is already there; never an error.
    CreateIfNotExists(SchemaObject),
    /// Drop the object if it is there; never an error.
    DropIfExists(SchemaObject),
    /// Create the object; an error if it already exists or a dependency is missing.
    Create(SchemaObject),
}

/// An error the store reports for a single operation.
#[derive(Clone, Copy, PartialEq, Eq, Structural, Debug)]
pub enum StoreError {
    /// A plain create hit an object that already exists.
    ObjectExists,
    /// An operation needed an object that does not exist.
    MissingObject,
    /// The query engine could not resolve a sub-field path through an
    /// aggregated semi-structured column.
    PathResolution,
}

/// A row as it crosses the wire: the key and the serialized document.
#[derive(Debug)]
pub struct EventRow {
    pub event_id: String,
    pub event_data: String,
}

impl View for EventRow {
    type V = (Seq<char>, Seq<char>);

    open spec fn view(&self) -> Self::V {
        (self.event_id@, self.event_data@)
    }
}

impl EventRow {
    /// A field-for-field copy of the row.
    pub fn duplicate(&self) -> (r: EventRow)
        ensures
            r@ == self@,
    {
        EventRow { event_id: self.event_id.clone(), event_data: self.event_data.clone() }
    }
}

/// The mathematical state of the store.
pub struct StoreView {
    pub database: bool,
    pub raw_table: bool,
    pub aggregate_table: bool,
    pub folding_view: bool,
    pub merge_view: bool,
    /// The raw table's rows: `(event_id, serialized event_data)`, in insertion order.
    pub rows: Seq<(Seq<char>, Seq<char>)>,
    /// Every schema operation ever issued to the store, in order.
    pub issued: Seq<SchemaOp>,
}

impl StoreView {
    /// Whether the object currently exists.
    pub open spec fn has(self, obj: SchemaObject) -> bool {
        match obj {
            SchemaObject::Database => self.database,
            SchemaObject::RawTable => self.raw_table,
            SchemaObject::AggregateTable => self.aggregate_table,
            SchemaObject::FoldingView => self.folding_view,
            SchemaObject::MergeView => self.merge_view,
        }
    }

    /// The same store with one object's presence changed.
    pub open spec fn with(self, obj: SchemaObject, present: bool) -> StoreView {
        match obj {
            SchemaObject::Database => StoreView { database: present, ..self },
            SchemaObject::RawTable => StoreView { raw_table: present, ..self },
            SchemaObject::AggregateTable => StoreView { aggregate_table: present, ..self },
            SchemaObject::FoldingView => StoreView { folding_view: present, ..self },
            SchemaObject::MergeView => StoreView { merge_view: present, ..self },
        }
    }

    /// The observable schema state: which objects exist and what the raw
    /// table holds, with the operation history left out.
    pub open spec fn observable(self) -> StoreView {
        StoreView { issued: Seq::<SchemaOp>::empty(), ..self }
    }
}

/// The store with nothing in it.
pub open spec fn empty_store() -> StoreView {
    StoreView {
        database: false,
        raw_table: false,
        aggregate_table: false,
        folding_view: false,
        merge_view: false,
        rows: Seq::<(Seq<char>, Seq<char>)>::empty(),
        issued: Seq::<SchemaOp>::empty(),
    }
}

/// The objects a plain create needs before it can run.
pub open spec fn create_deps_ok(s: StoreView, obj: SchemaObject) -> bool {
    match obj {
        SchemaObject::Database => true,
        SchemaObject::RawTable => s.database,
        SchemaObject::AggregateTable => s.database,
        SchemaObject::FoldingView => s.database && s.raw_table && s.aggregate_table,
        SchemaObject::MergeView => s.database && s.aggregate_table,
    }
}

/// Whether the store accepts `op` in state `s`.
pub open spec fn op_ok(s: StoreView, op: SchemaOp) -> bool {
    match op {
        SchemaOp::CreateIfNotExists(obj) => s.has(obj) || create_deps_ok(s, obj),
        SchemaOp::DropIfExists(_) => true,
        SchemaOp::Create(obj) => !s.has(obj) && create_deps_ok(s, obj),
    }
}

/// The error the store reports when it refuses `op` in state `s`.
pub open spec fn op_err(s: StoreView, op: SchemaOp) -> StoreError {
    match op {
        SchemaOp::Create(obj) => if s.has(obj) {
            StoreError::ObjectExists
        } else {
            StoreError::MissingObject
        },
        _ => StoreError::MissingObject,
    }
}

/// The state change of a drop: dropping the raw table discards its rows,
/// dropping the database discards everything in it.
pub open spec fn drop_effect(s: StoreView, obj: SchemaObject) -> StoreView {
    match obj {
        SchemaObject::Database => StoreView {
            issued: s.issued,
            ..empty_store()
        },
        SchemaObject::RawTable => StoreView {
            raw_table: false,
            rows: Seq::<(Seq<char>, Seq<char>)>::empty(),
            ..s
        },
        _ => s.with(obj, false),
    }
}

/// The state change of an accepted operation, history aside.
pub open spec fn op_effect(s: StoreView, op: SchemaOp) -> StoreView {
    match op {
        SchemaOp::CreateIfNotExists(obj) => if s.has(obj) {
            s
        } else {
            s.with(obj, true)
        },
        SchemaOp::DropIfExists(obj) => drop_effect(s, obj),
        SchemaOp::Create(obj) => s.with(obj, true),
    }
}

/// One issued operation: the history always records it; the effect applies
/// only when the store accepts it.
pub open spec fn op_step(s: StoreView, op: SchemaOp) -> StoreView {
    let s1 = if op_ok(s, op) {
        op_effect(s, op)
    } else {
        s
    };
    StoreView { issued: s.issued.push(op), ..s1 }
}

/// The store state after issuing `ops` in order, stopping right after the
/// first operation the store refuses.
pub open spec fn run_ops(s: StoreView, ops: Seq<SchemaOp>) -> StoreView
    decreases ops.len(),
{
    if ops.len() == 0 {
        s
    } else if !op_ok(s, ops[0]) {
        op_step(s, ops[0])
    } else {
        run_ops(op_step(s, ops[0]), ops.skip(1))
    }
}

/// The position of the first operation the store refuses, if any.
pub open spec fn run_failure(s: StoreView, ops: Seq<SchemaOp>) -> Option<int>
    decreases ops.len(),
{
    if ops.len() == 0 {
        None
    } else if !op_ok(s, ops[0]) {
        Some(0int)
    } else {
        match run_failure(op_step(s, ops[0]), ops.skip(1)) {
            Some(i) => Some(i + 1),
            None => None,
        }
    }
}

/// The in-memory store the verified components execute against.
pub struct StoreModel {
    database: bool,
    raw_table: bool,
    aggregate_table: bool,
    folding_view: bool,
    merge_view: bool,
    raw_rows: Vec<EventRow>,
    issued: Vec<SchemaOp>,
}

impl View for StoreModel {
    type V = StoreView;

    closed spec fn view(&self) -> StoreView {
        StoreView {
            database: self.database,
            raw_table: self.raw_table,
            aggregate_table: self.aggregate_table,
            folding_view: self.folding_view,
            merge_view: self.merge_view,
            rows: self.raw_rows@.map_values(|r: EventRow| r@),
            issued: self.issued@,
        }
    }
}

impl StoreModel {
    /// A store with no schema objects, no rows and no history.
    pub fn new() -> (r: StoreModel)
        ensures
            r@ == empty_store(),
    {
        let r = StoreModel {
            database: false,
            raw_table: false,
            aggregate_table: false,
            folding_view: false,
            merge_view: false,
            raw_rows: Vec::new(),
            issued: Vec::new(),
        };
        proof {
            assert(r@.rows =~= empty_store().rows);
            assert(r@.issued =~= empty_store().issued);
            assert(r@ =~= empty_store());
        }
        r
    }

    fn has_flag(&self, obj: SchemaObject) -> (r: bool)
        ensures
            r == self@.has(obj),
    {
        match obj {
            SchemaObject::Database => self.database,
            SchemaObject::RawTable => self.raw_table,
            SchemaObject::AggregateTable => self.aggregate_table,
            SchemaObject::FoldingView => self.folding_view,
            SchemaObject::MergeView => self.merge_view,
        }
    }

    fn set_flag(&mut self, obj: SchemaObject, present: bool)
        ensures
            final(self)@ == old(self)@.with(obj, present),
    {
        match obj {
            SchemaObject::Database => {
                self.database = present;
            },
            SchemaObject::RawTable => {
                self.raw_table = present;
            },
            SchemaObject::AggregateTable => {
                self.aggregate_table = present;
            },
            SchemaObject::FoldingView => {
                self.folding_view = present;
            },
            SchemaObject::MergeView => {
                self.merge_view = present;
            },
        }
    }

    fn deps_ok(&self, obj: SchemaObject) -> (r: bool)
        ensures
            r == create_deps_ok(self@, obj),
    {
        match obj {
            SchemaObject::Database => true,
            SchemaObject::RawTable => self.database,
            SchemaObject::AggregateTable => self.database,
            SchemaObject::FoldingView => self.database && self.raw_table && self.aggregate_table,
            SchemaObject::MergeView => self.database && self.aggregate_table,
        }
    }

    /// Issues one schema operation.  The history records the operation
    /// whether or not the store accepts it.
    pub fn apply_op(&mut self, op: SchemaOp) -> (r: Result<(), StoreError>)
        ensures
            final(self)@ == op_step(old(self)@, op),
            r is Ok <==> op_ok(old(self)@, op),
            r matches Err(e) ==> e == op_err(old(self)@, op),
    {
        let ghost s0 = self@;
        let r: Result<(), StoreError> = match op {
            SchemaOp::CreateIfNotExists(obj) => {
                if self.has_flag(obj) {
                    Ok(())
                } else if self.deps_ok(obj) {
                    self.set_flag(obj, true);
                    Ok(())
                } else {
                    Err(StoreError::MissingObject)
                }
            },
            SchemaOp::DropIfExists(obj) => {
                match obj {
                    SchemaObject::Database => {
                        self.database = false;
                        self.raw_table = false;
                        self.aggregate_table = false;
                        self.folding_view = false;
                        self.merge_view = false;
                        self.raw_rows = Vec::new();
                    },
                    SchemaObject::RawTable => {
                        self.raw_table = false;
                        self.raw_rows = Vec::new();
                    },
                    _ => {
                        self.set_flag(obj, false);
                    },
                }
                Ok(())
            },
            SchemaOp::Create(obj) => {
                if self.has_flag(obj) {
                    Err(StoreError::ObjectExists)
                } else if self.deps_ok(obj) {
                    self.set_flag(obj, true);
                    Ok(())
                } else {
                    Err(StoreError::MissingObject)
                }
            },
        };
        self.issued.push(op);
        proof {
            assert(Seq::<EventRow>::empty().map_values(|r: EventRow| r@) =~= Seq::<
                (Seq<char>, Seq<char>),
            >::empty());
            assert(self@.issued =~= s0.issued.push(op));
            assert(self@ =~= op_step(s0, op));
        }
        r
    }

    /// Appends rows to the raw table, all of them or none.
    pub fn append_rows(&mut self, rows: Vec<EventRow>) -> (r: Result<usize, StoreError>)
        ensures
            r is Ok <==> old(self)@.raw_table,
            r matches Ok(n) ==> n == rows@.len() && final(self)@ == (StoreView {
                rows: old(self)@.rows + rows@.map_values(|x: EventRow| x@),
                ..old(self)@
            }),
            r is Err ==> *final(self) == *old(self) && (r == Err::<usize, StoreError>(
                StoreError::MissingObject,
            )),
    {
        if !self.raw_table {
            return Err(StoreError::MissingObject);
        }
        let ghost s0 = self@;
        let n = rows.len();
        let mut incoming = rows;
        self.raw_rows.append(&mut incoming);
        proof {
            assert(self@.rows =~= s0.rows + rows@.map_values(|x: EventRow| x@));
            assert(self@ =~= StoreView {
                rows: s0.rows + rows@.map_values(|x: EventRow| x@),
                ..s0
            });
        }
        Ok(n)
    }

    /// Whether the object currently exists.
    pub fn has_object(&self, obj: SchemaObject) -> (r: bool)
        ensures
            r == self@.has(obj),
    {
        self.has_flag(obj)
    }

    /// How many rows the raw table holds.
    pub fn row_count(&self) -> (r: usize)
        ensures
            r == self@.rows.len(),
    {
        self.raw_rows.len()
    }

    /// A copy of one raw-table row.
    pub fn raw_row(&self, i: usize) -> (r: EventRow)
        requires
            i < self@.rows.len(),
        ensures
            r@ == self@.rows[i as int],
    {
        self.raw_rows[i].duplicate()
    }

    /// How many schema operations were ever issued.
    pub fn issued_count(&self) -> (r: usize)
        ensures
            r == self@.issued.len(),
    {
        self.issued.len()
    }

    /// One entry of the operation history.
    pub fn issued_op(&self, i: usize) -> (r: SchemaOp)
        requires
            i < self@.issued.len(),
        ensures
            r == self@.issued[i as int],
    {
        self.issued[i]
    }
}

} // verus!
