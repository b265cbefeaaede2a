//! Row Writer: serializes typed event records and appends them to the raw
//! table in one scoped write — either every record is appended, or the
//! operation fails and nothing is.

use vstd::prelude::*;
use crate::doc::{encodable, encode_doc_spec, Document};
use crate::store::{EventRow, StoreError, StoreModel, StoreView};

verus! {

/// A typed record of the event shape: the aggregation key and its document.
pub struct Event {
    pub event_id: String,
    pub event_data: Document,
}

impl View for Event {
    type V = (Seq<char>, Seq<(Seq<char>, Seq<char>)>);

    open spec fn view(&self) -> Self::V {
        (self.event_id@, self.event_data@)
    }
}

/// How a write can fail.
#[derive(Debug)]
pub enum WriteError {
    /// The record at this position holds a document that cannot be encoded.
    /// A local error: nothing was sent to the store.
    Serialization { index: usize },
    /// The store rejected the write.
    Store { cause: StoreError },
}

/// The wire rows that a record sequence serializes to.
pub open spec fn rows_of_events(
    evs: Seq<(Seq<char>, Seq<(Seq<char>, Seq<char>)>)>,
) -> Seq<(Seq<char>, Seq<char>)> {
    evs.map_values(
        |e: (Seq<char>, Seq<(Seq<char>, Seq<char>)>)| (e.0, encode_doc_spec(e.1)),
    )
}

/// Serializes every record, then appends them to the raw table.  On success
/// all records are in the table, in order, after what was already there; on
/// any failure the store is unchanged.
pub fn write_events(store: &mut StoreModel, events: &Vec<Event>) -> (r: Result<
    usize,
    WriteError,
>)
    ensures
        (r matches Ok(n) ==> n == events@.len() && old(store)@.raw_table && (forall|i: int|
            0 <= i < events@.len() ==> encodable((#[trigger] events@[i])@.1)) && final(store)@
            == (StoreView {
            rows: old(store)@.rows + rows_of_events(events@.map_values(|e: Event| e@)),
            ..old(store)@
        })),
        (r matches Err(WriteError::Serialization { index }) ==> final(store)@ == old(store)@
            && index < events@.len() && !encodable(events@[index as int]@.1) && (forall|j: int|
            0 <= j < index ==> encodable((#[trigger] events@[j])@.1))),
        (r matches Err(WriteError::Store { cause }) ==> final(store)@ == old(store)@
            && !old(store)@.raw_table && cause == StoreError::MissingObject),
{
    broadcast use vstd::seq_lib::group_seq_lib_default;

    let ghost evs = events@.map_values(|e: Event| e@);
    let mut rows: Vec<EventRow> = Vec::new();
    let mut i: usize = 0;
    proof {
        assert(rows@.map_values(|x: EventRow| x@) =~= rows_of_events(evs.take(0)));
    }
    while i < events.len()
        invariant
            i <= events.len(),
            evs == events@.map_values(|e: Event| e@),
            store@ == old(store)@,
            rows@.map_values(|x: EventRow| x@) == rows_of_events(evs.take(i as int)),
            forall|j: int| 0 <= j < i ==> encodable((#[trigger] events@[j])@.1),
        decreases events.len() - i,
    {
        match events[i].event_data.to_json() {
            None => {
                proof {
                    assert(!encodable(events@[i as int]@.1));
                }
                return Err(WriteError::Serialization { index: i });
            },
            Some(t) => {
                let id = events[i].event_id.clone();
                let row = EventRow { event_id: id, event_data: t };
                let ghost pre_rows = rows@;
                proof {
                    assert(evs[i as int] == events@[i as int]@);
                    assert(row@ == (evs[i as int].0, encode_doc_spec(evs[i as int].1)));
                    assert(rows_of_events(evs.take(i + 1)).len() == i + 1);
                }
                proof {
                    assert(pre_rows.map_values(|x: EventRow| x@).len() == pre_rows.len());
                    assert(pre_rows.len() == i as int);
                }
                rows.push(row);
                proof {
                    assert(rows@ == pre_rows.push(row));
                    assert(rows@.len() == i + 1);
                    assert(forall|l: int| 0 <= l <= i ==> #[trigger] evs.take(i + 1)[l] == evs[l]);
                    assert forall|l: int| 0 <= l < i + 1 implies (#[trigger] rows@[l])@
                        == rows_of_events(evs.take(i + 1))[l] by {
                        assert(rows@.map_values(|x: EventRow| x@)[l] == rows@[l]@);
                        assert(rows_of_events(evs.take(i + 1))[l] == (
                            evs.take(i + 1)[l].0,
                            encode_doc_spec(evs.take(i + 1)[l].1),
                        ));
                        if l < i {
                            assert(rows@[l] == pre_rows[l]);
                            assert(pre_rows.map_values(|x: EventRow| x@)[l] == rows_of_events(
                                evs.take(i as int),
                            )[l]);
                            assert(evs.take(i as int)[l] == evs[l]);
                        } else {
                            assert(rows@[l] == row);
                        }
                    }
                    assert(rows@.map_values(|x: EventRow| x@) =~~= rows_of_events(
                        evs.take(i + 1),
                    ));
                }
            },
        }
        i = i + 1;
    }
    proof {
        assert(evs.take(events@.len() as int) =~= evs);
    }
    match store.append_rows(rows) {
        Ok(n) => Ok(n),
        Err(cause) => Err(WriteError::Store { cause }),
    }
}

} // verus!
