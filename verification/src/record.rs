use vstd::prelude::*;
use crate::errors::LoggerErrors;

verus! {

/// The most events one record can ever hold.
pub const MAX_EVENTS: usize = 100;

/// The most bytes one event payload can ever hold.
pub const MAX_EVENT_BYTES: usize = 100;

/// Mathematical model of a record: its key, the ordered event payloads, and
/// the derivation tag cached from the address derivation.
#[verifier::ext_equal]
pub ghost struct RecordModel {
    pub block_number: u64,
    pub events: Seq<Seq<u8>>,
    pub bump: u8,
}

impl RecordModel {
    /// Capacity invariant: never more than `MAX_EVENTS` events, and no single
    /// payload longer than `MAX_EVENT_BYTES`.
    pub open spec fn wf(self) -> bool {
        &&& self.events.len() <= MAX_EVENTS as int
        &&& forall|i: int| 0 <= i < self.events.len() ==> #[trigger] self.events[i].len() <= MAX_EVENT_BYTES as int
    }
}

/// What one append does to a record: the record rejects a foreign key, then a
/// full log, then an oversized payload, and otherwise grows by exactly that
/// payload at the end.
pub open spec fn spec_record_append(r: RecordModel, key: u64, payload: Seq<u8>) -> (Result<(), LoggerErrors>, RecordModel) {
    if r.block_number != key {
        (Err(LoggerErrors::KeyMismatch), r)
    } else if r.events.len() >= MAX_EVENTS as int {
        (Err(LoggerErrors::LogFull), r)
    } else if payload.len() > MAX_EVENT_BYTES as int {
        (Err(LoggerErrors::PayloadTooLarge), r)
    } else {
        (Ok(()), RecordModel { events: r.events.push(payload), ..r })
    }
}

/// One event log record: the key it was created for, the appended event
/// payloads in insertion order, and the derivation tag of its address.
pub struct EventStorage {
    pub block_number: u64,
    pub events: Vec<Vec<u8>>,
    pub bump: u8,
}

impl View for EventStorage {
    type V = RecordModel;

    open spec fn view(&self) -> RecordModel {
        RecordModel {
            block_number: self.block_number,
            events: self.events.deep_view(),
            bump: self.bump,
        }
    }
}

impl EventStorage {
    /// The empty record for `block_number`, carrying derivation tag `bump`.
    pub fn new(block_number: u64, bump: u8) -> (r: EventStorage)
        ensures
            r@ == (RecordModel { block_number, events: Seq::<Seq<u8>>::empty(), bump }),
            r@.wf(),
    {
        let r = EventStorage { block_number, events: Vec::new(), bump };
        proof {
            assert(r@.events =~= Seq::<Seq<u8>>::empty());
        }
        r
    }

    /// Append `event_data` under `block_number`.
    ///
    /// The record owns its validation: the stored key is the ground truth, so
    /// a foreign key is rejected before any capacity check, and on any error
    /// the record is left unchanged.
    pub fn append_event(&mut self, block_number: u64, event_data: Vec<u8>) -> (r: Result<(), LoggerErrors>)
        requires
            old(self)@.wf(),
        ensures
            final(self)@.wf(),
            (r, final(self)@) == spec_record_append(old(self)@, block_number, event_data@),
    {
        if self.block_number != block_number {
            return Err(LoggerErrors::KeyMismatch);
        }
        if self.events.len() >= MAX_EVENTS {
            return Err(LoggerErrors::LogFull);
        }
        if event_data.len() > MAX_EVENT_BYTES {
            return Err(LoggerErrors::PayloadTooLarge);
        }
        proof {
            assert(event_data.deep_view() =~= event_data@);
        }
        self.events.push(event_data);
        proof {
            assert(self@.events =~= old(self)@.events.push(event_data@));
            assert(self@ == (RecordModel { events: old(self)@.events.push(event_data@), ..old(self)@ }));
        }
        Ok(())
    }
}

} // verus!
