use vstd::prelude::*;
use crate::errors::LoggerErrors;

verus! {

/// The seed that namespaces every log address, the bytes of `"logger"`.
pub open spec fn spec_namespace_seed() -> Seq<u8> {
    seq![108u8, 111u8, 103u8, 103u8, 101u8, 114u8]
}

/// The 32 bytes of the program id that owns the derived addresses.
pub open spec fn spec_program_id() -> Seq<u8> {
    seq![
        149u8, 189u8, 135u8, 150u8, 51u8, 53u8, 232u8, 115u8,
        230u8, 145u8, 197u8, 34u8, 183u8, 77u8, 53u8, 37u8,
        208u8, 236u8, 170u8, 35u8, 116u8, 136u8, 113u8, 223u8,
        68u8, 179u8, 67u8, 62u8, 230u8, 47u8, 38u8, 194u8,
    ]
}

/// What the program-address search returns for a namespace seed, a key and a
/// program id: `None` when no usable address exists, otherwise the 32-byte
/// address and its bump tag. The search is a pure function of these three
/// inputs, so the result is given a name rather than spelled out.
pub uninterp spec fn pda_of(seed: Seq<u8>, key: u64, program_id: Seq<u8>) -> Option<(Seq<u8>, u8)>;

/// The derivation this library uses: the namespace seed and its own program id.
pub open spec fn derived_of(key: u64) -> Option<(Seq<u8>, u8)> {
    pda_of(spec_namespace_seed(), key, spec_program_id())
}

/// Relies on `anchor_lang::prelude::Pubkey::try_find_program_address`: the
/// search over bump seeds is a pure function of the seeds and the program id,
/// returns `None` only when no bump yields a valid address, and a returned
/// address is exactly 32 bytes (`Pubkey::to_bytes`).
#[verifier::external_body]
fn find_program_address(seed: &Vec<u8>, key: u64, program_id: &Vec<u8>) -> (r: Option<(Vec<u8>, u8)>)
    requires
        program_id@.len() == 32,
    ensures
        match r {
            Some(p) => pda_of(seed@, key, program_id@) == Some((p.0@, p.1)) && p.0@.len() == 32,
            None => pda_of(seed@, key, program_id@) is None,
        },
{
    let mut id_bytes = [0u8; 32];
    id_bytes.copy_from_slice(program_id.as_slice());
    let id = anchor_lang::prelude::Pubkey::new_from_array(id_bytes);
    let key_bytes = key.to_le_bytes();
    match anchor_lang::prelude::Pubkey::try_find_program_address(&[seed.as_slice(), &key_bytes], &id) {
        Some((addr, bump)) => Some((addr.to_bytes().to_vec(), bump)),
        None => None,
    }
}

/// The namespace seed as a byte vector.
fn namespace_seed() -> (r: Vec<u8>)
    ensures
        r@ == spec_namespace_seed(),
{
    let mut v: Vec<u8> = Vec::new();
    v.push(108u8);
    v.push(111u8);
    v.push(103u8);
    v.push(103u8);
    v.push(101u8);
    v.push(114u8);
    proof {
        assert(v@ =~= spec_namespace_seed());
    }
    v
}

/// The program id as a byte vector.
fn program_id_bytes() -> (r: Vec<u8>)
    ensures
        r@ == spec_program_id(),
{
    let mut v: Vec<u8> = Vec::new();
    v.push(149u8); v.push(189u8); v.push(135u8); v.push(150u8);
    v.push(51u8); v.push(53u8); v.push(232u8); v.push(115u8);
    v.push(230u8); v.push(145u8); v.push(197u8); v.push(34u8);
    v.push(183u8); v.push(77u8); v.push(53u8); v.push(37u8);
    v.push(208u8); v.push(236u8); v.push(170u8); v.push(35u8);
    v.push(116u8); v.push(136u8); v.push(113u8); v.push(223u8);
    v.push(68u8); v.push(179u8); v.push(67u8); v.push(62u8);
    v.push(230u8); v.push(47u8); v.push(38u8); v.push(194u8);
    proof {
        assert(v@ =~= spec_program_id());
    }
    v
}

/// Derive the storage address and bump tag for `key`.
///
/// The same key always yields the same address and tag; derivation fails only
/// when the address space is exhausted, which is practically unreachable.
pub fn derive(key: u64) -> (r: Result<(Vec<u8>, u8), LoggerErrors>)
    ensures
        match r {
            Ok(p) => derived_of(key) == Some((p.0@, p.1)) && p.0@.len() == 32,
            Err(e) => e == LoggerErrors::AddressSpaceExhausted && derived_of(key) is None,
        },
{
    let seed = namespace_seed();
    let id = program_id_bytes();
    match find_program_address(&seed, key, &id) {
        Some(p) => Ok(p),
        None => Err(LoggerErrors::AddressSpaceExhausted),
    }
}

/// The derivation is deterministic: any two results that the derivation
/// assigns to the same key are the same address and the same tag.
pub proof fn lemma_derive_deterministic(k: u64, r1: Option<(Seq<u8>, u8)>, r2: Option<(Seq<u8>, u8)>)
    requires
        r1 == derived_of(k),
        r2 == derived_of(k),
    ensures
        r1 == r2,
{
}

} // verus!
