use vstd::prelude::*;
use crate::errors::LoggerErrors;
use crate::locator::derived_of;
use crate::record::MAX_EVENTS;
use crate::record::MAX_EVENT_BYTES;
use crate::record::spec_record_append;
use crate::store::SlotModel;
use crate::store::contains_address;
use crate::store::index_of_address;
use crate::store::spec_append;
use crate::store::spec_create;
use crate::store::store_wf;

verus! {

/// A log for `k` exists: the address derivation succeeds, a slot sits at the
/// derived address, and the record there really is the one created for `k`.
pub open spec fn log_exists_for(s: Seq<SlotModel>, k: u64) -> bool {
    &&& derived_of(k) is Some
    &&& contains_address(s, derived_of(k)->Some_0.0)
    &&& s[index_of_address(s, derived_of(k)->Some_0.0)].record.block_number == k
}

/// The events of the log for `k`; meaningful only under `log_exists_for`.
pub open spec fn events_of(s: Seq<SlotModel>, k: u64) -> Seq<Seq<u8>> {
    s[index_of_address(s, derived_of(k)->Some_0.0)].record.events
}

/// The store after appending the payloads `ps` for `k`, in order.
pub open spec fn spec_append_all(s: Seq<SlotModel>, k: u64, ps: Seq<Seq<u8>>) -> Seq<SlotModel>
    decreases ps.len(),
{
    if ps.len() == 0 {
        s
    } else {
        spec_append_all(spec_append(s, k, ps[0]).1, k, ps.skip(1))
    }
}

/// Every one of the appends of the payloads `ps` for `k`, in order, succeeds.
pub open spec fn spec_appends_all_ok(s: Seq<SlotModel>, k: u64, ps: Seq<Seq<u8>>) -> bool
    decreases ps.len(),
{
    if ps.len() == 0 {
        true
    } else {
        &&& spec_append(s, k, ps[0]).0 is Ok
        &&& spec_appends_all_ok(spec_append(s, k, ps[0]).1, k, ps.skip(1))
    }
}

/// Creation is idempotent-exclusive: once creating the log for `k` has
/// succeeded, creating it again fails with `SlotAlreadyExists` and leaves the
/// store exactly as the first creation left it.
pub proof fn lemma_create_idempotent_exclusive(s: Seq<SlotModel>, k: u64)
    requires
        spec_create(s, k).0 is Ok,
    ensures
        spec_create(spec_create(s, k).1, k).0 == Err::<(), LoggerErrors>(LoggerErrors::SlotAlreadyExists),
        spec_create(spec_create(s, k).1, k).1 == spec_create(s, k).1,
{
    let p = derived_of(k)->Some_0;
    let s1 = spec_create(s, k).1;
    assert(s1[s.len() as int].address == p.0);
    assert(contains_address(s1, p.0));
}

/// Creation establishes the log: after a successful creation for `k` the log
/// for `k` exists and is empty, the store is well formed, and no other slot
/// was touched.
pub proof fn lemma_create_establishes_log(s: Seq<SlotModel>, k: u64)
    requires
        store_wf(s),
        spec_create(s, k).0 is Ok,
    ensures
        store_wf(spec_create(s, k).1),
        log_exists_for(spec_create(s, k).1, k),
        events_of(spec_create(s, k).1, k) == Seq::<Seq<u8>>::empty(),
        spec_create(s, k).1.len() == s.len() + 1,
        forall|j: int| 0 <= j < s.len() ==> spec_create(s, k).1[j] == s[j],
{
    let p = derived_of(k)->Some_0;
    let s1 = spec_create(s, k).1;
    let n = s.len() as int;
    assert(s1[n].address == p.0);
    assert(contains_address(s1, p.0));
    assert forall|i: int, j: int|
        0 <= i < s1.len() && 0 <= j < s1.len() && i != j
        implies s1[i].address != s1[j].address by {
        if i < n && j < n {
            assert(s[i].address != s[j].address);
        } else if i == n {
            assert(!(0 <= j < s.len() && s[j].address == p.0));
        } else {
            assert(!(0 <= i < s.len() && s[i].address == p.0));
        }
    }
    let w = index_of_address(s1, p.0);
    assert(0 <= w < s1.len() && s1[w].address == p.0);
    assert(w == n);
    assert forall|i: int| 0 <= i < s1.len() implies (#[trigger] s1[i]).record.wf() by {
        if i < n {
            assert(s1[i] == s[i]);
        }
    }
}

/// Appending preserves order: starting from any well-formed store that holds
/// the log for `k`, appending the payloads `ps` in order succeeds whenever
/// they all fit, and afterwards the log's events are exactly the old events
/// followed by `ps`, with every other slot untouched.
pub proof fn lemma_append_order_preservation(s: Seq<SlotModel>, k: u64, ps: Seq<Seq<u8>>)
    requires
        store_wf(s),
        log_exists_for(s, k),
        events_of(s, k).len() + ps.len() <= MAX_EVENTS as int,
        forall|j: int| 0 <= j < ps.len() ==> (#[trigger] ps[j]).len() <= MAX_EVENT_BYTES as int,
    ensures
        spec_appends_all_ok(s, k, ps),
        store_wf(spec_append_all(s, k, ps)),
        log_exists_for(spec_append_all(s, k, ps), k),
        events_of(spec_append_all(s, k, ps), k) == events_of(s, k) + ps,
        spec_append_all(s, k, ps).len() == s.len(),
        forall|j: int|
            0 <= j < s.len() && j != index_of_address(s, derived_of(k)->Some_0.0)
            ==> spec_append_all(s, k, ps)[j] == s[j],
        index_of_address(spec_append_all(s, k, ps), derived_of(k)->Some_0.0)
            == index_of_address(s, derived_of(k)->Some_0.0),
    decreases ps.len(),
{
    let p = derived_of(k)->Some_0;
    let idx = index_of_address(s, p.0);
    if ps.len() == 0 {
        assert(events_of(s, k) + ps =~= events_of(s, k));
    } else {
        let step = spec_record_append(s[idx].record, k, ps[0]);
        assert(s[idx].record.wf());
        assert(step.0 is Ok);
        let s1 = spec_append(s, k, ps[0]).1;
        assert(s1 =~= s.update(idx, SlotModel { address: s[idx].address, record: step.1 }));
        assert forall|i: int, j: int|
            0 <= i < s1.len() && 0 <= j < s1.len() && i != j
            implies s1[i].address != s1[j].address by {
            assert(s1[i].address == s[i].address);
            assert(s1[j].address == s[j].address);
        }
        assert forall|i: int| 0 <= i < s1.len() implies (#[trigger] s1[i]).record.wf() by {
            if i != idx {
                assert(s1[i] == s[i]);
            } else {
                assert(forall|j: int| 0 <= j < s[idx].record.events.len()
                    ==> #[trigger] s[idx].record.events[j].len() <= MAX_EVENT_BYTES as int);
            }
        }
        assert(store_wf(s1));
        assert(s1[idx].address == p.0);
        assert(contains_address(s1, p.0));
        let w = index_of_address(s1, p.0);
        assert(0 <= w < s1.len() && s1[w].address == p.0);
        assert(w == idx);
        assert(log_exists_for(s1, k));
        assert(events_of(s1, k) == s[idx].record.events.push(ps[0]));
        lemma_append_order_preservation(s1, k, ps.skip(1));
        assert(events_of(spec_append_all(s1, k, ps.skip(1)), k)
            == events_of(s1, k) + ps.skip(1));
        assert(events_of(s, k).push(ps[0]) + ps.skip(1) =~= events_of(s, k) + ps);
        assert(spec_append_all(s, k, ps) == spec_append_all(s1, k, ps.skip(1)));
        assert forall|j: int| 0 <= j < s.len() && j != idx
            implies spec_append_all(s, k, ps)[j] == s[j] by {
            assert(spec_append_all(s1, k, ps.skip(1))[j] == s1[j]);
            assert(s1[j] == s[j]);
        }
    }
}

/// The lifecycle of one key: after a successful creation for `k`, appending
/// any payloads `p1, ..., pn` in order (with `n <= MAX_EVENTS` and each
/// payload within `MAX_EVENT_BYTES`) succeeds at every step and leaves the
/// log's events exactly `[p1, ..., pn]`.
pub proof fn lemma_create_then_append_in_order(s: Seq<SlotModel>, k: u64, ps: Seq<Seq<u8>>)
    requires
        store_wf(s),
        spec_create(s, k).0 is Ok,
        ps.len() <= MAX_EVENTS as int,
        forall|j: int| 0 <= j < ps.len() ==> (#[trigger] ps[j]).len() <= MAX_EVENT_BYTES as int,
    ensures
        spec_appends_all_ok(spec_create(s, k).1, k, ps),
        events_of(spec_append_all(spec_create(s, k).1, k, ps), k) == ps,
{
    lemma_create_establishes_log(s, k);
    lemma_append_order_preservation(spec_create(s, k).1, k, ps);
    assert(Seq::<Seq<u8>>::empty() + ps =~= ps);
}

/// Capacity boundary: once the log for `k` holds `MAX_EVENTS` events, any
/// further append fails with `LogFull` and leaves the store unchanged.
pub proof fn lemma_capacity_boundary(s: Seq<SlotModel>, k: u64, payload: Seq<u8>)
    requires
        log_exists_for(s, k),
        events_of(s, k).len() == MAX_EVENTS as int,
    ensures
        spec_append(s, k, payload).0 == Err::<(), LoggerErrors>(LoggerErrors::LogFull),
        spec_append(s, k, payload).1 == s,
{
}

/// Oversized payload: a payload longer than `MAX_EVENT_BYTES` fails with
/// `PayloadTooLarge` and appends nothing, whatever room the log still has.
pub proof fn lemma_oversized_payload(s: Seq<SlotModel>, k: u64, payload: Seq<u8>)
    requires
        log_exists_for(s, k),
        events_of(s, k).len() < MAX_EVENTS as int,
        payload.len() > MAX_EVENT_BYTES as int,
    ensures
        spec_append(s, k, payload).0 == Err::<(), LoggerErrors>(LoggerErrors::PayloadTooLarge),
        spec_append(s, k, payload).1 == s,
{
}

/// Key-mismatch rejection: when the slot at the address derived for `k`
/// stores a record whose key differs from `k`, any append for `k` fails with
/// `KeyMismatch` and mutates nothing.
pub proof fn lemma_key_mismatch_rejection(s: Seq<SlotModel>, k: u64, payload: Seq<u8>)
    requires
        derived_of(k) is Some,
        contains_address(s, derived_of(k)->Some_0.0),
        s[index_of_address(s, derived_of(k)->Some_0.0)].record.block_number != k,
    ensures
        spec_append(s, k, payload).0 == Err::<(), LoggerErrors>(LoggerErrors::KeyMismatch),
        spec_append(s, k, payload).1 == s,
{
}

} // verus!
