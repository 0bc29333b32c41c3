//! Decoding of one fixed-size 32-byte directory record.
//!
//! A record is either a short 8.3-style entry or a fragment of a long file
//! name; the attribute byte at offset 11 tells the two apart. All multi-byte
//! fields are little-endian.

use vstd::prelude::*;

verus! {

/// READ_ONLY attribute bit.
pub const ATTR_READ_ONLY: u8 = 0x01;
/// HIDDEN attribute bit.
pub const ATTR_HIDDEN: u8 = 0x02;
/// SYSTEM attribute bit.
pub const ATTR_SYSTEM: u8 = 0x04;
/// VOLUME_ID attribute bit.
pub const ATTR_VOLUME_ID: u8 = 0x08;
/// DIRECTORY attribute bit.
pub const ATTR_DIRECTORY: u8 = 0x10;
/// ARCHIVE attribute bit.
pub const ATTR_ARCHIVE: u8 = 0x20;
/// The combination READ_ONLY|HIDDEN|SYSTEM|VOLUME_ID marks a long-file-name
/// fragment rather than a short entry.
pub const ATTR_LFN: u8 = 0x0f;
/// Attribute flags of a directory entry.
#[derive(Debug, Clone, Copy, PartialEq, Eq, Structural, Default)]
pub struct FatFileAttributes {
    /// The raw flag bits.
    pub bits: u8,
}

impl FatFileAttributes {
    /// Whether every bit of `mask` is set.
    pub fn contains(&self, mask: u8) -> (r: bool)
        ensures
            r == (self.bits & mask == mask),
    {
        self.bits & mask == mask
    }
}

/// The value of a little-endian 16-bit field with bytes `b0`, `b1`.
pub open spec fn spec_le16(b0: u8, b1: u8) -> u16 {
    (b0 + b1 * 0x100) as u16
}

/// The value of a little-endian 32-bit field with bytes `b0` .. `b3`.
pub open spec fn spec_le32(b0: u8, b1: u8, b2: u8, b3: u8) -> u32 {
    (b0 + b1 * 0x100 + b2 * 0x1_0000 + b3 * 0x100_0000) as u32
}

/// Reads the little-endian 16-bit field at `off`.
pub(crate) fn read_le16(bytes: &Vec<u8>, off: usize) -> (r: u16)
    requires
        off + 2 <= bytes.len(),
    ensures
        r == spec_le16(bytes@[off as int], bytes@[off as int + 1]),
{
    let b0 = bytes[off];
    let b1 = bytes[off + 1];
    let r = (b0 as u16) | ((b1 as u16) << 8u16);
    assert(r == b0 + b1 * 0x100) by (bit_vector)
        requires
            r == (b0 as u16) | ((b1 as u16) << 8u16),
    ;
    r
}

/// Reads the little-endian 32-bit field at `off`.
pub(crate) fn read_le32(bytes: &Vec<u8>, off: usize) -> (r: u32)
    requires
        off + 4 <= bytes.len(),
    ensures
        r == spec_le32(
            bytes@[off as int],
            bytes@[off as int + 1],
            bytes@[off as int + 2],
            bytes@[off as int + 3],
        ),
{
    let b0 = bytes[off];
    let b1 = bytes[off + 1];
    let b2 = bytes[off + 2];
    let b3 = bytes[off + 3];
    let r = (b0 as u32) | ((b1 as u32) << 8u32) | ((b2 as u32) << 16u32) | ((b3 as u32) << 24u32);
    assert(r == b0 + b1 * 0x100 + b2 * 0x1_0000 + b3 * 0x100_0000) by (bit_vector)
        requires
            r == (b0 as u32) | ((b1 as u32) << 8u32) | ((b2 as u32) << 16u32) | ((b3 as u32)
                << 24u32),
    ;
    r
}

/// A decoded short 8.3-style directory record.
#[derive(Debug, Clone)]
pub struct FatDirFileEntryData {
    /// The 11 raw name bytes (8-byte base, 3-byte extension, space-padded).
    pub name: Vec<u8>,
    /// Attribute flags.
    pub attrs: FatFileAttributes,
    /// Reserved byte at offset 12.
    pub reserved_0: u8,
    /// Sub-second creation time.
    pub create_time_0: u8,
    /// Packed DOS creation time.
    pub create_time_1: u16,
    /// Packed DOS creation date.
    pub create_date: u16,
    /// Packed DOS access date.
    pub access_date: u16,
    /// High 16 bits of the first cluster.
    pub first_cluster_hi: u16,
    /// Packed DOS modification time.
    pub modify_time: u16,
    /// Packed DOS modification date.
    pub modify_date: u16,
    /// Low 16 bits of the first cluster.
    pub first_cluster_lo: u16,
    /// Byte length; meaningful only for files.
    pub size: u32,
}

/// A decoded long-file-name fragment record, carrying 13 UTF-16 code units.
#[derive(Debug, Clone)]
pub struct FatDirLfnEntryData {
    /// 1-based slot index in the low 5 bits; 0x40 marks the last fragment;
    /// 0xE5 marks a deleted fragment.
    pub order: u8,
    /// Attribute flags (always the LFN marker).
    pub attrs: FatFileAttributes,
    /// Fragment type byte.
    pub entry_type: u8,
    /// Checksum over the associated short entry's name (advisory).
    pub checksum: u8,
    /// Reserved 16-bit field.
    pub reserved_0: u16,
    /// The 13 UTF-16 code units carried by this fragment, in name order.
    pub units: Vec<u16>,
}

/// One decoded record: either a short entry or a long-name fragment.
#[derive(Debug, Clone)]
pub enum FatDirEntryData {
    /// A short 8.3-style entry.
    File(FatDirFileEntryData),
    /// A long-file-name fragment.
    Lfn(FatDirLfnEntryData),
}

/// Ghost model of a short record at the byte level.
pub struct SpecShortEntry {
    /// The 11 raw name bytes.
    pub name: Seq<u8>,
    /// The raw attribute byte.
    pub attrs: u8,
    /// Reserved byte at offset 12.
    pub reserved: u8,
    /// Sub-second creation time.
    pub create_time_fine: u8,
    /// Packed DOS creation time.
    pub create_time: u16,
    /// Packed DOS creation date.
    pub create_date: u16,
    /// Packed DOS access date.
    pub access_date: u16,
    /// High 16 bits of the first cluster.
    pub cluster_hi: u16,
    /// Packed DOS modification time.
    pub modify_time: u16,
    /// Packed DOS modification date.
    pub modify_date: u16,
    /// Low 16 bits of the first cluster.
    pub cluster_lo: u16,
    /// Byte length.
    pub size: u32,
}

/// Ghost model of a long-name fragment record at the byte level.
pub struct SpecLfnEntry {
    /// The order byte.
    pub order: u8,
    /// Fragment type byte.
    pub entry_type: u8,
    /// Checksum byte.
    pub checksum: u8,
    /// Reserved 16-bit field.
    pub reserved: u16,
    /// The 13 UTF-16 code units, in name order.
    pub units: Seq<u16>,
}

/// Whether the attribute byte of the 32-byte record `r` is a valid flag
/// combination.
pub open spec fn rec_attrs_valid(r: Seq<u8>) -> bool {
    r[11] & 0xc0 == 0
}

/// Whether the 32-byte record `r` is a long-file-name fragment.
pub open spec fn rec_is_lfn(r: Seq<u8>) -> bool {
    r[11] == ATTR_LFN
}

/// The `i`-th of the 13 UTF-16 code units carried by the fragment record `r`.
pub open spec fn rec_lfn_unit(r: Seq<u8>, i: int) -> u16 {
    if i < 5 {
        spec_le16(r[1 + 2 * i], r[2 + 2 * i])
    } else if i < 11 {
        spec_le16(r[4 + 2 * i], r[5 + 2 * i])
    } else {
        spec_le16(r[6 + 2 * i], r[7 + 2 * i])
    }
}

/// The fragment fields of the 32-byte record `r`.
pub open spec fn rec_lfn(r: Seq<u8>) -> SpecLfnEntry {
    SpecLfnEntry {
        order: r[0],
        entry_type: r[12],
        checksum: r[13],
        reserved: spec_le16(r[26], r[27]),
        units: Seq::new(13, |i| rec_lfn_unit(r, i)),
    }
}

/// The short-entry fields of the 32-byte record `r`.
pub open spec fn rec_short(r: Seq<u8>) -> SpecShortEntry {
    SpecShortEntry {
        name: r.subrange(0, 11),
        attrs: r[11],
        reserved: r[12],
        create_time_fine: r[13],
        create_time: spec_le16(r[14], r[15]),
        create_date: spec_le16(r[16], r[17]),
        access_date: spec_le16(r[18], r[19]),
        cluster_hi: spec_le16(r[20], r[21]),
        modify_time: spec_le16(r[22], r[23]),
        modify_date: spec_le16(r[24], r[25]),
        cluster_lo: spec_le16(r[26], r[27]),
        size: spec_le32(r[28], r[29], r[30], r[31]),
    }
}

/// Whether the decoded short record `d` carries the fields of the model `m`.
pub open spec fn short_data_matches(d: FatDirFileEntryData, m: SpecShortEntry) -> bool {
    &&& d.name@ == m.name
    &&& d.attrs.bits == m.attrs
    &&& d.reserved_0 == m.reserved
    &&& d.create_time_0 == m.create_time_fine
    &&& d.create_time_1 == m.create_time
    &&& d.create_date == m.create_date
    &&& d.access_date == m.access_date
    &&& d.first_cluster_hi == m.cluster_hi
    &&& d.modify_time == m.modify_time
    &&& d.modify_date == m.modify_date
    &&& d.first_cluster_lo == m.cluster_lo
    &&& d.size == m.size
}

/// Whether the decoded fragment record `d` carries the fields of the model
/// `m`.
pub open spec fn lfn_data_matches(d: FatDirLfnEntryData, m: SpecLfnEntry) -> bool {
    &&& d.order == m.order
    &&& d.attrs.bits == ATTR_LFN
    &&& d.entry_type == m.entry_type
    &&& d.checksum == m.checksum
    &&& d.reserved_0 == m.reserved
    &&& d.units@ == m.units
}

/// Decodes the 32-byte record at `pos` as a short entry or a long-name
/// fragment; `None` means the attribute byte is not a valid flag combination.
pub(crate) fn parse_dir_entry_data(bytes: &Vec<u8>, pos: usize) -> (r: Option<FatDirEntryData>)
    requires
        pos + 32 <= bytes.len(),
    ensures
        ({
            let rec = bytes@.subrange(pos as int, pos + 32);
            &&& (r is Some <==> rec_attrs_valid(rec))
            &&& (rec_attrs_valid(rec) && rec_is_lfn(rec) ==> (r matches Some(
                FatDirEntryData::Lfn(d),
            ) && lfn_data_matches(d, rec_lfn(rec))))
            &&& (rec_attrs_valid(rec) && !rec_is_lfn(rec) ==> (r matches Some(
                FatDirEntryData::File(d),
            ) && short_data_matches(d, rec_short(rec))))
        }),
{
    let ghost rec = bytes@.subrange(pos as int, pos + 32);
    assert(forall|i: int| 0 <= i < 32 ==> rec[i] == bytes@[pos + i]);
    let attr_byte = bytes[pos + 11];
    if attr_byte & 0xc0 != 0 {
        return None;
    }
    let attrs = FatFileAttributes { bits: attr_byte };
    if attr_byte == ATTR_LFN {
        let mut units: Vec<u16> = Vec::new();
        let mut i: usize = 0;
        while i < 5
            invariant
                i <= 5,
                pos + 32 <= bytes.len(),
                units@.len() == i,
                forall|k: int| 0 <= k < i ==> units@[k] == rec_lfn_unit(rec, k),
                rec == bytes@.subrange(pos as int, pos + 32),
            decreases 5 - i,
        {
            units.push(read_le16(bytes, pos + 1 + 2 * i));
            i = i + 1;
        }
        while i < 11
            invariant
                5 <= i <= 11,
                pos + 32 <= bytes.len(),
                units@.len() == i,
                forall|k: int| 0 <= k < i ==> units@[k] == rec_lfn_unit(rec, k),
                rec == bytes@.subrange(pos as int, pos + 32),
            decreases 11 - i,
        {
            units.push(read_le16(bytes, pos + 4 + 2 * i));
            i = i + 1;
        }
        while i < 13
            invariant
                11 <= i <= 13,
                pos + 32 <= bytes.len(),
                units@.len() == i,
                forall|k: int| 0 <= k < i ==> units@[k] == rec_lfn_unit(rec, k),
                rec == bytes@.subrange(pos as int, pos + 32),
            decreases 13 - i,
        {
            units.push(read_le16(bytes, pos + 6 + 2 * i));
            i = i + 1;
        }
        let data = FatDirLfnEntryData {
            order: bytes[pos],
            attrs,
            entry_type: bytes[pos + 12],
            checksum: bytes[pos + 13],
            reserved_0: read_le16(bytes, pos + 26),
            units,
        };
        assert(data.units@ =~= rec_lfn(rec).units);
        Some(FatDirEntryData::Lfn(data))
    } else {
        let mut name: Vec<u8> = Vec::new();
        let mut i: usize = 0;
        while i < 11
            invariant
                i <= 11,
                pos + 32 <= bytes.len(),
                name@.len() == i,
                forall|k: int| 0 <= k < i ==> name@[k] == rec[k],
                rec == bytes@.subrange(pos as int, pos + 32),
            decreases 11 - i,
        {
            name.push(bytes[pos + i]);
            i = i + 1;
        }
        let data = FatDirFileEntryData {
            name,
            attrs,
            reserved_0: bytes[pos + 12],
            create_time_0: bytes[pos + 13],
            create_time_1: read_le16(bytes, pos + 14),
            create_date: read_le16(bytes, pos + 16),
            access_date: read_le16(bytes, pos + 18),
            first_cluster_hi: read_le16(bytes, pos + 20),
            modify_time: read_le16(bytes, pos + 22),
            modify_date: read_le16(bytes, pos + 24),
            first_cluster_lo: read_le16(bytes, pos + 26),
            size: read_le32(bytes, pos + 28),
        };
        assert(data.name@ =~= rec_short(rec).name);
        Some(FatDirEntryData::File(data))
    }
}

} // verus!
