use vstd::prelude::*;

verus! {

/// Every way a log operation can fail.
///
/// `SlotAlreadyExists`, `SlotMissing` and `KeyMismatch` are precondition
/// violations by the caller; `LogFull` and `PayloadTooLarge` are ordinary
/// capacity outcomes once a log saturates; `AddressSpaceExhausted` is raised
/// only when the address derivation finds no usable address, which is
/// practically unreachable.
#[derive(Clone, Copy, Debug, PartialEq, Eq, Structural)]
pub enum LoggerErrors {
    SlotAlreadyExists,
    SlotMissing,
    KeyMismatch,
    LogFull,
    PayloadTooLarge,
    AddressSpaceExhausted,
}

} // verus!
