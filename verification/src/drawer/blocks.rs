//! Data blocks: their checksums, their entries in the index, and the slots they leave free.
use crate::value::{Json, JsonValue, Number};
use vstd::prelude::*;

verus! {

pub const DATA_BLOCK_STATUS_DEAD: u8 = 0;

pub const DATA_BLOCK_STATUS_LIVE: u8 = 1;

/// One step of the checksum register: a shift, and the polynomial where a one falls out.
pub open spec fn crc_shift(crc: u32) -> u32 {
    if crc & 1 != 0 {
        (crc >> 1) ^ 0xedb8_8320
    } else {
        crc >> 1
    }
}

/// The register after `n` steps.
pub open spec fn crc_shifts(crc: u32, n: nat) -> u32
    decreases n,
{
    if n == 0 {
        crc
    } else {
        crc_shifts(crc_shift(crc), (n - 1) as nat)
    }
}

/// The register after the bytes, each of them fed in by eight steps.
pub open spec fn crc_register(bytes: Seq<u8>) -> u32
    decreases bytes.len(),
{
    if bytes.len() == 0 {
        0xffff_ffff
    } else {
        crc_shifts(crc_register(bytes.drop_last()) ^ (bytes.last() as u32), 8)
    }
}

/// The CRC-32 checksum of the bytes.
pub open spec fn checksum(bytes: Seq<u8>) -> u32 {
    !crc_register(bytes)
}

pub fn crc32(bytes: &[u8]) -> (r: u32)
    ensures
        r == checksum(bytes@),
{
    let mut crc: u32 = 0xffff_ffff;
    let mut i: usize = 0;
    assert(bytes@.subrange(0, 0) =~= Seq::<u8>::empty());
    while i < bytes.len()
        invariant
            i <= bytes@.len(),
            crc == crc_register(bytes@.subrange(0, i as int)),
        decreases bytes@.len() - i,
    {
        crc = crc ^ (bytes[i] as u32);
        let ghost start = crc;
        let mut step: u32 = 0;
        while step < 8
            invariant
                step <= 8,
                crc_shifts(start, 8) == crc_shifts(crc, (8 - step) as nat),
            decreases 8 - step,
        {
            let least_significant_bit: u32 = crc & 1;
            crc = crc >> 1;
            if least_significant_bit != 0 {
                crc = crc ^ 0xedb8_8320;
            }
            step += 1;
        }
        i += 1;
        let ghost read = bytes@.subrange(0, i as int);
        assert(read.drop_last() =~= bytes@.subrange(0, i - 1));
        assert(read.last() == bytes@[i - 1]);
    }
    assert(bytes@.subrange(0, i as int) =~= bytes@);
    !crc
}

/// What the index knows of a block of the data file.
#[derive(Debug, Clone, Copy, PartialEq, Eq, Structural)]
pub struct DataBlockIndexEntry {
    pub payload_len: usize,
    pub size_class: usize,
    pub crc: u32,
    pub status: u8,
}

/// The block of a live payload in a slot of the given size.
pub open spec fn live_block(payload: Seq<u8>, size_class: usize) -> DataBlockIndexEntry {
    DataBlockIndexEntry {
        payload_len: payload.len() as usize,
        size_class,
        crc: checksum(payload),
        status: DATA_BLOCK_STATUS_LIVE,
    }
}

/// The block that an index entry describes, with its offset. The five numbers of the entry are
/// taken modulo the width of their fields.
pub open spec fn entry_block(entry: Json) -> Option<(u64, DataBlockIndexEntry)> {
    match (
        field_number(entry, "o"@),
        field_number(entry, "len"@),
        field_number(entry, "class"@),
        field_number(entry, "crc"@),
        field_number(entry, "status"@),
    ) {
        (Some(offset), Some(len), Some(class), Some(crc), Some(status)) => Some(
            (
                offset,
                DataBlockIndexEntry {
                    payload_len: len as usize,
                    size_class: class as usize,
                    crc: crc as u32,
                    status: status as u8,
                },
            ),
        ),
        _ => None,
    }
}

/// The unsigned integer in a field of an entry.
pub open spec fn field_number(entry: Json, key: Seq<char>) -> Option<u64> {
    match entry.get(key) {
        Some(Json::Number(Number::PosInt(n))) => Some(n),
        _ => None,
    }
}

pub fn read_field_number(entry: &JsonValue, key: &str) -> (r: Option<u64>)
    ensures
        r == field_number(entry@, key@),
{
    match entry.get(key) {
        Some(v) => v.as_u64(),
        None => None,
    }
}

impl DataBlockIndexEntry {
    pub fn live(payload: &[u8], size_class: usize) -> (r: Self)
        ensures
            r == live_block(payload@, size_class),
    {
        Self {
            payload_len: payload.len(),
            size_class,
            crc: crc32(payload),
            status: DATA_BLOCK_STATUS_LIVE,
        }
    }

    pub fn from_index_entry(index_entry: &JsonValue) -> (r: Option<(u64, Self)>)
        ensures
            r == entry_block(index_entry@),
    {
        let offset = read_field_number(index_entry, "o");
        let payload_len = read_field_number(index_entry, "len");
        let size_class = read_field_number(index_entry, "class");
        let crc = read_field_number(index_entry, "crc");
        let status = read_field_number(index_entry, "status");
        match (offset, payload_len, size_class, crc, status) {
            (Some(o), Some(l), Some(c), Some(k), Some(s)) => Some(
                (
                    o,
                    Self {
                        payload_len: l as usize,
                        size_class: c as usize,
                        crc: k as u32,
                        status: s as u8,
                    },
                ),
            ),
            _ => None,
        }
    }
}

} // verus!
