//! The MDF 4 blocks that frame the capture records, serialized by the
//! `mf4-rs` crate; each serializer's output is stated byte for byte.

use vstd::prelude::*;
use mf4_rs::blocks::channel_block::ChannelBlock;
use mf4_rs::blocks::channel_group_block::ChannelGroupBlock;
use mf4_rs::blocks::common::{BlockHeader, DataType};
use mf4_rs::blocks::data_group_block::DataGroupBlock;
use mf4_rs::blocks::header_block::HeaderBlock;
use mf4_rs::blocks::identification_block::IdentificationBlock;
use mf4_rs::blocks::text_block::TextBlock;
use crate::bytes::{padded, zeros};

verus! {

/// Little-endian bytes of a 64-bit value.
pub open spec fn le64(v: u64) -> Seq<u8> {
    vstd::bytes::spec_u64_to_le_bytes(v)
}

/// Little-endian bytes of a 32-bit value.
pub open spec fn le32(v: u32) -> Seq<u8> {
    vstd::bytes::spec_u32_to_le_bytes(v)
}

/// Little-endian bytes of a 16-bit value.
pub open spec fn le16(v: u16) -> Seq<u8> {
    vstd::bytes::spec_u16_to_le_bytes(v)
}

/// The common 24-byte block header: a 4-byte identifier (cut or padded with
/// zeros), a zero reserved word, the block length and the link count.
pub open spec fn block_header_bytes(id: Seq<u8>, block_len: u64, links: u64) -> Seq<u8> {
    padded(id, 4) + zeros(4) + le64(block_len) + le64(links)
}

/// `##TX`.
pub open spec fn tx_id() -> Seq<u8> { seq![0x23u8, 0x23u8, 0x54u8, 0x58u8] }
/// `##HD`.
pub open spec fn hd_id() -> Seq<u8> { seq![0x23u8, 0x23u8, 0x48u8, 0x44u8] }
/// `##CG`.
pub open spec fn cg_id() -> Seq<u8> { seq![0x23u8, 0x23u8, 0x43u8, 0x47u8] }
/// `##DG`.
pub open spec fn dg_id() -> Seq<u8> { seq![0x23u8, 0x23u8, 0x44u8, 0x47u8] }
/// `##CN`.
pub open spec fn cn_id() -> Seq<u8> { seq![0x23u8, 0x23u8, 0x43u8, 0x4eu8] }

/// The identification block with the crate's default identifiers
/// (`MDF     `, `4.10    `, `mf4-rs  `, version 410).
pub open spec fn identification_bytes() -> Seq<u8> {
    seq![0x4du8, 0x44u8, 0x46u8, 0x20u8, 0x20u8, 0x20u8, 0x20u8, 0x20u8]
        + seq![0x34u8, 0x2eu8, 0x31u8, 0x30u8, 0x20u8, 0x20u8, 0x20u8, 0x20u8]
        + seq![0x6du8, 0x66u8, 0x34u8, 0x2du8, 0x72u8, 0x73u8, 0x20u8, 0x20u8]
        + zeros(4) + le16(410) + zeros(30) + le16(0) + le16(0)
}

/// Whether a text block appends a terminating zero byte.
pub open spec fn text_needs_nul(text: Seq<u8>) -> bool {
    text.len() == 0 || text.last() != 0
}

/// Length of the text block for `text`, padded to a multiple of 8.
pub open spec fn text_block_len(text: Seq<u8>) -> nat {
    let unpadded = 24 + text.len() + (if text_needs_nul(text) { 1nat } else { 0nat });
    (unpadded + (8 - unpadded % 8) % 8) as nat
}

/// A text block: header, the text, a zero terminator unless the text ends
/// with one, and zero padding to a multiple of 8 bytes.
pub open spec fn text_block_bytes(text: Seq<u8>) -> Seq<u8> {
    let unpadded = 24 + text.len() + (if text_needs_nul(text) { 1nat } else { 0nat });
    block_header_bytes(tx_id(), text_block_len(text) as u64, 0) + text
        + (if text_needs_nul(text) { seq![0u8] } else { Seq::empty() })
        + zeros(((8 - unpadded % 8) % 8) as nat)
}

/// The header block with the given links, start time and time flags; all
/// other fields zero.
pub open spec fn header_block_bytes(first_dg_addr: u64, comment_addr: u64, abs_time: u64, time_flags: u8) -> Seq<u8> {
    block_header_bytes(hd_id(), 104, 6) + le64(first_dg_addr) + le64(0) + le64(0) + le64(0) + le64(0)
        + le64(comment_addr) + le64(abs_time) + zeros(4) + seq![time_flags, 0u8, 0u8, 0u8] + zeros(16)
}

/// The channel group block with the given links and counts; all other
/// fields zero.
pub open spec fn channel_group_bytes(first_ch_addr: u64, acq_name_addr: u64, comment_addr: u64, cycles_nr: u64, samples_byte_nr: u32) -> Seq<u8> {
    block_header_bytes(cg_id(), 104, 6) + le64(0) + le64(first_ch_addr) + le64(acq_name_addr) + le64(0) + le64(0)
        + le64(comment_addr) + le64(0) + le64(cycles_nr) + le16(0) + le16(0) + le32(0) + le32(samples_byte_nr) + le32(0)
}

/// The data group block with the given links; all other fields zero.
pub open spec fn data_group_bytes(first_cg_addr: u64, data_block_addr: u64) -> Seq<u8> {
    block_header_bytes(dg_id(), 64, 4) + le64(0) + le64(first_cg_addr) + le64(data_block_addr) + le64(0) + zeros(8)
}

/// The channel block with the given links and format; all other fields
/// zero, the six range values included.
pub open spec fn channel_bytes(next_ch_addr: u64, name_addr: u64, sync_type: u8, data_type: u8, byte_offset: u32, bit_count: u32) -> Seq<u8> {
    block_header_bytes(cn_id(), 160, 8) + le64(next_ch_addr) + le64(0) + le64(name_addr) + le64(0) + le64(0)
        + le64(0) + le64(0) + le64(0) + seq![0u8, sync_type, data_type, 0u8] + le32(byte_offset)
        + le32(bit_count) + le32(0) + le32(0) + seq![0u8, 0u8] + le16(0) + zeros(48)
}

/// Calls `IdentificationBlock::default` and `IdentificationBlock::to_bytes`,
/// which writes the default identifiers, padded with spaces, and version 410.
#[verifier::external_body]
pub(crate) fn identification_block() -> (r: Result<Vec<u8>, String>)
    ensures
        r matches Ok(b) ==> b@ == identification_bytes(),
        r is Ok,
{
    IdentificationBlock::default().to_bytes().map_err(|e| e.to_string())
}

/// Calls `TextBlock::new` and `TextBlock::to_bytes`, which writes the text
/// with a zero terminator and zero padding to a multiple of 8 bytes.
#[verifier::external_body]
pub(crate) fn text_block(text: &str) -> (r: Result<Vec<u8>, String>)
    ensures
        r matches Ok(b) ==> b@ == text_block_bytes(vstd::utf8::encode_utf8(text@)),
        r is Ok,
{
    TextBlock::new(text).to_bytes().map_err(|e| e.to_string())
}

/// Calls `HeaderBlock::to_bytes` on the default header block with the given
/// data group and comment links, start time and time flags.
#[verifier::external_body]
pub(crate) fn header_block(first_dg_addr: u64, comment_addr: u64, abs_time: u64, time_flags: u8) -> (r: Result<Vec<u8>, String>)
    ensures
        r matches Ok(b) ==> b@ == header_block_bytes(first_dg_addr, comment_addr, abs_time, time_flags),
        r is Ok,
{
    HeaderBlock { first_dg_addr, comment_addr, abs_time, time_flags, ..HeaderBlock::default() }
        .to_bytes()
        .map_err(|e| e.to_string())
}

/// Calls `ChannelGroupBlock::to_bytes` on the default channel group block
/// with the given links, cycle count and record size.
#[verifier::external_body]
pub(crate) fn channel_group_block(first_ch_addr: u64, acq_name_addr: u64, comment_addr: u64, cycles_nr: u64, samples_byte_nr: u32) -> (r: Result<Vec<u8>, String>)
    ensures
        r matches Ok(b) ==> b@ == channel_group_bytes(first_ch_addr, acq_name_addr, comment_addr, cycles_nr, samples_byte_nr),
        r is Ok,
{
    ChannelGroupBlock { first_ch_addr, acq_name_addr, comment_addr, cycles_nr, samples_byte_nr, ..ChannelGroupBlock::default() }
        .to_bytes()
        .map_err(|e| e.to_string())
}

/// Calls `DataGroupBlock::to_bytes` on the default data group block with
/// the given channel group and data links.
#[verifier::external_body]
pub(crate) fn data_group_block(first_cg_addr: u64, data_block_addr: u64) -> (r: Result<Vec<u8>, String>)
    ensures
        r matches Ok(b) ==> b@ == data_group_bytes(first_cg_addr, data_block_addr),
        r is Ok,
{
    DataGroupBlock { first_cg_addr, data_block_addr, ..DataGroupBlock::default() }.to_bytes().map_err(|e| e.to_string())
}

/// Calls `ChannelBlock::to_bytes` on the default channel block with the
/// given links and format; the data type is read with `DataType::from_u8`,
/// which gives back the same code for every code up to 16.
#[verifier::external_body]
pub(crate) fn channel_block(next_ch_addr: u64, name_addr: u64, sync_type: u8, data_type: u8, byte_offset: u32, bit_count: u32) -> (r: Result<Vec<u8>, String>)
    requires
        data_type <= 16,
    ensures
        r matches Ok(b) ==> b@ == channel_bytes(next_ch_addr, name_addr, sync_type, data_type, byte_offset, bit_count),
        r is Ok,
{
    let data_type = DataType::from_u8(data_type);
    ChannelBlock { next_ch_addr, name_addr, sync_type, data_type, byte_offset, bit_count, ..ChannelBlock::default() }
        .to_bytes()
        .map_err(|e| e.to_string())
}

/// Calls `BlockHeader::to_bytes`, which writes the identifier cut or padded
/// to 4 bytes, a zero reserved word, the length and the link count.
#[verifier::external_body]
pub(crate) fn block_header(id: &str, block_len: u64, links_nr: u64) -> (r: Result<Vec<u8>, String>)
    ensures
        r matches Ok(b) ==> b@ == block_header_bytes(vstd::utf8::encode_utf8(id@), block_len, links_nr),
        r is Ok,
{
    BlockHeader { id: id.to_string(), reserved0: 0, block_len, links_nr }.to_bytes().map_err(|e| e.to_string())
}

} // verus!
