use vstd::prelude::*;

verus! {

/// The fixed bits of a version-4 UUID read as a big-endian `u128`: the
/// version nibble (bits 76..80) is 4 and the two variant bits (62..64) are `0b10`.
pub open spec fn v4_layout(id: u128) -> bool {
    &&& (id >> 76u128) & 0xfu128 == 4u128
    &&& (id >> 62u128) & 0x3u128 == 2u128
}

/// Draws a fresh random identifier (a version-4 UUID read as a big-endian `u128`).
///
/// Calls `uuid::Uuid::new_v4` and `Uuid::as_u128`. The value comes from the
/// operating system's random source, so nothing is promised of it beyond the
/// bits that `new_v4` always fixes: the version nibble (bits 76..80) is 4 and
/// the two variant bits (62..64) are `0b10`. It does not return (it panics)
/// only when the operating system cannot supply random bytes, a failure of
/// the machine rather than of any argument.
#[verifier::external_body]
pub(crate) fn fresh_id() -> (id: u128)
    ensures
        (id >> 76u128) & 0xfu128 == 4u128,
        (id >> 62u128) & 0x3u128 == 2u128,
{
    uuid::Uuid::new_v4().as_u128()
}

} // verus!
