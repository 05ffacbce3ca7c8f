use vstd::prelude::*;
use crate::errors::LoggerErrors;
use crate::locator::derived_of;
use crate::record::EventStorage;
use crate::record::RecordModel;
use crate::record::spec_record_append;

verus! {

/// One occupied storage slot: the derived address and the record persisted
/// there.
pub struct Slot {
    pub address: Vec<u8>,
    pub record: EventStorage,
}

/// Mathematical model of a slot.
#[verifier::ext_equal]
pub ghost struct SlotModel {
    pub address: Seq<u8>,
    pub record: RecordModel,
}

impl View for Slot {
    type V = SlotModel;

    open spec fn view(&self) -> SlotModel {
        SlotModel { address: self.address@, record: self.record@ }
    }
}

/// No two slots share an address.
pub open spec fn distinct_addresses(s: Seq<SlotModel>) -> bool {
    forall|i: int, j: int|
        0 <= i < s.len() && 0 <= j < s.len() && i != j ==> s[i].address != s[j].address
}

/// Some slot sits at `addr`.
pub open spec fn contains_address(s: Seq<SlotModel>, addr: Seq<u8>) -> bool {
    exists|i: int| 0 <= i < s.len() && s[i].address == addr
}

/// The index of the slot at `addr`; meaningful only when one exists, and then
/// unique under `distinct_addresses`.
pub open spec fn index_of_address(s: Seq<SlotModel>, addr: Seq<u8>) -> int {
    choose|i: int| 0 <= i < s.len() && s[i].address == addr
}

/// Well-formedness of the whole store: addresses are pairwise distinct and
/// every record obeys its capacity invariant.
pub open spec fn store_wf(s: Seq<SlotModel>) -> bool {
    &&& distinct_addresses(s)
    &&& forall|i: int| 0 <= i < s.len() ==> (#[trigger] s[i]).record.wf()
}

/// What creating the log for `key` does to the store: it fails when no
/// address can be derived or when the derived slot is already occupied, and
/// otherwise adds exactly one empty record for `key` at that address.
pub open spec fn spec_create(s: Seq<SlotModel>, key: u64) -> (Result<(), LoggerErrors>, Seq<SlotModel>) {
    match derived_of(key) {
        None => (Err(LoggerErrors::AddressSpaceExhausted), s),
        Some(p) => {
            if contains_address(s, p.0) {
                (Err(LoggerErrors::SlotAlreadyExists), s)
            } else {
                (Ok(()), s.push(SlotModel {
                    address: p.0,
                    record: RecordModel { block_number: key, events: Seq::<Seq<u8>>::empty(), bump: p.1 },
                }))
            }
        },
    }
}

/// What appending `payload` under `key` does to the store: it fails when no
/// address can be derived or no slot sits at the derived address; otherwise
/// the record there decides, and only on its success does the store change,
/// by that one record growing by the payload.
pub open spec fn spec_append(s: Seq<SlotModel>, key: u64, payload: Seq<u8>) -> (Result<(), LoggerErrors>, Seq<SlotModel>) {
    match derived_of(key) {
        None => (Err(LoggerErrors::AddressSpaceExhausted), s),
        Some(p) => {
            if !contains_address(s, p.0) {
                (Err(LoggerErrors::SlotMissing), s)
            } else {
                let i = index_of_address(s, p.0);
                let step = spec_record_append(s[i].record, key, payload);
                if step.0 is Ok {
                    (Ok(()), s.update(i, SlotModel { address: s[i].address, record: step.1 }))
                } else {
                    (step.0, s)
                }
            }
        },
    }
}

/// The collection of occupied storage slots, as granted to the dispatcher by
/// the environment within one exclusive window.
pub struct LogStore {
    pub slots: Vec<Slot>,
}

impl View for LogStore {
    type V = Seq<SlotModel>;

    open spec fn view(&self) -> Seq<SlotModel> {
        Seq::new(self.slots@.len(), |i: int| self.slots@[i]@)
    }
}

/// Byte-for-byte equality of two byte vectors.
fn bytes_eq(a: &Vec<u8>, b: &Vec<u8>) -> (r: bool)
    ensures
        r <==> a@ == b@,
{
    if a.len() != b.len() {
        proof {
            assert(a@ != b@);
        }
        return false;
    }
    let n = a.len();
    let mut k: usize = 0;
    while k < n
        invariant
            n == a@.len() == b@.len(),
            0 <= k <= n,
            forall|j: int| 0 <= j < k ==> a@[j] == b@[j],
        decreases n - k,
    {
        if a[k] != b[k] {
            proof {
                assert(a@[k as int] != b@[k as int]);
                assert(a@ != b@);
            }
            return false;
        }
        k += 1;
    }
    proof {
        assert(a@ =~= b@);
    }
    true
}

impl LogStore {
    /// A store well-formed for the operations below.
    pub open spec fn wf(self) -> bool {
        store_wf(self@)
    }

    /// The empty store: no slot is occupied.
    pub fn new() -> (r: LogStore)
        ensures
            r@ == Seq::<SlotModel>::empty(),
            r.wf(),
    {
        let r = LogStore { slots: Vec::new() };
        proof {
            assert(r@ =~= Seq::<SlotModel>::empty());
        }
        r
    }

    /// Find the slot at `addr`, if any; under `wf` its index is the unique
    /// one that `index_of_address` names.
    fn find_slot(&self, addr: &Vec<u8>) -> (r: Option<usize>)
        requires
            self.wf(),
        ensures
            match r {
                Some(i) => {
                    &&& i < self@.len()
                    &&& self@[i as int].address == addr@
                    &&& contains_address(self@, addr@)
                    &&& index_of_address(self@, addr@) == i as int
                },
                None => !contains_address(self@, addr@),
            },
    {
        let n = self.slots.len();
        let mut k: usize = 0;
        while k < n
            invariant
                self.wf(),
                n == self@.len(),
                0 <= k <= n,
                forall|j: int| 0 <= j < k ==> self@[j].address != addr@,
        decreases n - k,
        {
            if bytes_eq(&self.slots[k].address, addr) {
                proof {
                    assert(self@[k as int].address == addr@);
                    assert(contains_address(self@, addr@));
                    let w = index_of_address(self@, addr@);
                    assert(0 <= w < self@.len() && self@[w].address == addr@);
                    assert(w == k as int);
                }
                return Some(k);
            }
            k += 1;
        }
        proof {
            assert(forall|j: int| 0 <= j < self@.len() ==> self@[j].address != addr@);
        }
        None
    }

    /// Create the log for `block_number`: exactly once per key.
    ///
    /// On success the store has grown by one empty record for the key at its
    /// derived address; on any error the store is unchanged, and a second
    /// creation for the same key always fails with `SlotAlreadyExists`.
    pub fn initialize_event_storage(&mut self, block_number: u64) -> (r: Result<(), LoggerErrors>)
        requires
            old(self).wf(),
        ensures
            final(self).wf(),
            (r, final(self)@) == spec_create(old(self)@, block_number),
    {
        let (address, bump) = match crate::locator::derive(block_number) {
            Err(e) => {
                return Err(e);
            },
            Ok(p) => p,
        };
        match self.find_slot(&address) {
            Some(_) => Err(LoggerErrors::SlotAlreadyExists),
            None => {
                let record = EventStorage::new(block_number, bump);
                let ghost old_view = self@;
                let ghost new_slot = SlotModel {
                    address: address@,
                    record: RecordModel {
                        block_number,
                        events: Seq::<Seq<u8>>::empty(),
                        bump,
                    },
                };
                self.slots.push(Slot { address, record });
                proof {
                    assert(self@ =~= old_view.push(new_slot));
                    assert forall|i: int| 0 <= i < self@.len()
                        implies (#[trigger] self@[i]).record.wf() by {
                        if i < old_view.len() {
                            assert(self@[i] == old_view[i]);
                        }
                    }
                    assert forall|i: int, j: int|
                        0 <= i < self@.len() && 0 <= j < self@.len() && i != j
                        implies self@[i].address != self@[j].address by {
                        if i < old_view.len() && j < old_view.len() {
                            assert(old_view[i].address != old_view[j].address);
                        } else if i == old_view.len() {
                            assert(self@[j].address != new_slot.address);
                        } else {
                            assert(self@[i].address != new_slot.address);
                        }
                    }
                }
                Ok(())
            },
        }
    }

    /// Append `event_data` to the log for `block_number`.
    ///
    /// The slot is found by the derived address, the record there validates
    /// the key and its capacity, and the append is all-or-nothing: on success
    /// exactly that record grows by exactly this payload at the end, and on
    /// any error the store is unchanged.
    pub fn log_event(&mut self, event_data: Vec<u8>, block_number: u64) -> (r: Result<(), LoggerErrors>)
        requires
            old(self).wf(),
        ensures
            final(self).wf(),
            (r, final(self)@) == spec_append(old(self)@, block_number, event_data@),
    {
        let (address, _bump) = match crate::locator::derive(block_number) {
            Err(e) => {
                return Err(e);
            },
            Ok(p) => p,
        };
        let i = match self.find_slot(&address) {
            None => {
                return Err(LoggerErrors::SlotMissing);
            },
            Some(i) => i,
        };
        let ghost old_view = self@;
        let ghost step = spec_record_append(old_view[i as int].record, block_number, event_data@);
        let slot = &mut self.slots[i];
        let r = slot.record.append_event(block_number, event_data);
        proof {
            if r is Ok {
                assert(self@ =~= old_view.update(i as int, SlotModel {
                    address: old_view[i as int].address,
                    record: step.1,
                }));
                assert forall|a: int| 0 <= a < self@.len() implies (#[trigger] self@[a]).record.wf() by {
                    if a != i as int {
                        assert(self@[a] == old_view[a]);
                    }
                }
                assert forall|a: int, b: int|
                    0 <= a < self@.len() && 0 <= b < self@.len() && a != b
                    implies self@[a].address != self@[b].address by {
                    assert(self@[a].address == old_view[a].address);
                    assert(self@[b].address == old_view[b].address);
                }
            } else {
                assert(self@ =~= old_view);
            }
        }
        r
    }
}

} // verus!
