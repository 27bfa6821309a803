use vstd::prelude::*;

verus! {

/// The CRC-32 of `bytes` in its ISO-HDLC parameters (the checksum of PNG and
/// zlib: reflected polynomial 0x04C11DB7, initial value and final xor
/// 0xFFFFFFFF).
pub uninterp spec fn crc32_iso_hdlc(bytes: Seq<u8>) -> u32;

/// Relies on `crc::Crc::<u32>::checksum` with the `crc::CRC_32_ISO_HDLC`
/// algorithm: the checksum depends on the bytes alone.
#[verifier::external_body]
pub(crate) fn crc32(bytes: &[u8]) -> (r: u32)
    ensures
        r == crc32_iso_hdlc(bytes@),
{
    crc::Crc::<u32>::new(&crc::CRC_32_ISO_HDLC).checksum(bytes)
}

} // verus!
