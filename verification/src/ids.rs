use vstd::prelude::*;

verus! {

/// Identifier of a model element (the 128 bits of a UUID).
pub type ModelUuid = u128;

/// Index of a bucket (a list of children) inside a container element.
pub type BucketNoT = u8;

/// Position of a child inside a bucket.
pub type PositionNoT = usize;

/// True when `u` carries the version (7) and variant (RFC 9562) bits of a
/// time-ordered UUID.
pub open spec fn is_v7_uuid(u: u128) -> bool {
    &&& (u >> 76u128) & 0xfu128 == 7u128
    &&& (u >> 62u128) & 0x3u128 == 2u128
}

/// Draws a fresh identifier from `uuid::Uuid::now_v7`.
///
/// Trusted: the result depends on the clock and on a random source, so the
/// contract states only the version and variant bits that every UUID built by
/// `now_v7` carries (see `timestamp::encode_unix_timestamp_millis` in the uuid
/// crate); nothing is said of the remaining bits, nor of uniqueness.
#[verifier::external_body]
pub(crate) fn fresh_model_uuid() -> (r: ModelUuid)
    ensures
        is_v7_uuid(r),
{
    uuid::Uuid::now_v7().as_u128()
}

} // verus!
