//! The IHEX record model.
use vstd::prelude::*;

verus! {

/// One IHEX record. The variant fixes the record's type code.
#[derive(Clone, Debug, PartialEq, Eq)]
pub enum Record {
    /// Payload bytes placed at a 16-bit offset.
    Data { offset: u16, value: Vec<u8> },
    /// Marks the end of an object file.
    EndOfFile,
    /// Segment base address (bits 4..19) for later data records.
    ExtendedSegmentAddress(u16),
    /// Initial CS:IP register values.
    StartSegmentAddress { cs: u16, ip: u16 },
    /// Upper 16 bits of the address for later data records.
    ExtendedLinearAddress(u16),
    /// Initial 32-bit EIP register value.
    StartLinearAddress(u32),
}

/// The mathematical model of a record: the same variants, with the payload
/// of a data record as a sequence.
pub ghost enum RecordModel {
    Data { offset: u16, value: Seq<u8> },
    EndOfFile,
    ExtendedSegmentAddress(u16),
    StartSegmentAddress { cs: u16, ip: u16 },
    ExtendedLinearAddress(u16),
    StartLinearAddress(u32),
}

impl View for Record {
    type V = RecordModel;

    open spec fn view(&self) -> RecordModel {
        match self {
            Record::Data { offset, value } => RecordModel::Data { offset: *offset, value: value@ },
            Record::EndOfFile => RecordModel::EndOfFile,
            Record::ExtendedSegmentAddress(a) => RecordModel::ExtendedSegmentAddress(*a),
            Record::StartSegmentAddress { cs, ip } => RecordModel::StartSegmentAddress {
                cs: *cs,
                ip: *ip,
            },
            Record::ExtendedLinearAddress(a) => RecordModel::ExtendedLinearAddress(*a),
            Record::StartLinearAddress(a) => RecordModel::StartLinearAddress(*a),
        }
    }
}

/// The high byte of a 16-bit value.
pub open spec fn high_byte(v: u16) -> u8 {
    (v / 256) as u8
}

/// The low byte of a 16-bit value.
pub open spec fn low_byte(v: u16) -> u8 {
    (v % 256) as u8
}

/// A 16-bit value as two big-endian bytes.
pub open spec fn be16(v: u16) -> Seq<u8> {
    seq![high_byte(v), low_byte(v)]
}

/// A 32-bit value as four big-endian bytes.
pub open spec fn be32(v: u32) -> Seq<u8> {
    seq![
        (v / 0x1000000) as u8,
        (v / 0x10000 % 256) as u8,
        (v / 256 % 256) as u8,
        (v % 256) as u8,
    ]
}

impl RecordModel {
    /// The type code that the IHEX format assigns to the variant.
    pub open spec fn type_code(self) -> u8 {
        match self {
            RecordModel::Data { .. } => 0x00,
            RecordModel::EndOfFile => 0x01,
            RecordModel::ExtendedSegmentAddress(_) => 0x02,
            RecordModel::StartSegmentAddress { .. } => 0x03,
            RecordModel::ExtendedLinearAddress(_) => 0x04,
            RecordModel::StartLinearAddress(_) => 0x05,
        }
    }

    /// The value of the record's address field: a data record's offset, and
    /// zero for every other variant.
    pub open spec fn address_field(self) -> u16 {
        match self {
            RecordModel::Data { offset, .. } => offset,
            _ => 0,
        }
    }

    /// The bytes of the record's data field.
    pub open spec fn payload(self) -> Seq<u8> {
        match self {
            RecordModel::Data { value, .. } => value,
            RecordModel::EndOfFile => Seq::empty(),
            RecordModel::ExtendedSegmentAddress(a) => be16(a),
            RecordModel::StartSegmentAddress { cs, ip } => be16(cs) + be16(ip),
            RecordModel::ExtendedLinearAddress(a) => be16(a),
            RecordModel::StartLinearAddress(a) => be32(a),
        }
    }

    pub open spec fn is_end_of_file(self) -> bool {
        self is EndOfFile
    }
}

impl Record {
    /// Returns the IHEX type code of the record.
    pub fn record_type(&self) -> (r: u8)
        ensures
            r == self@.type_code(),
    {
        match self {
            Record::Data { .. } => 0x00,
            Record::EndOfFile => 0x01,
            Record::ExtendedSegmentAddress(_) => 0x02,
            Record::StartSegmentAddress { .. } => 0x03,
            Record::ExtendedLinearAddress(_) => 0x04,
            Record::StartLinearAddress(_) => 0x05,
        }
    }

    /// Tells whether the record is an end-of-file record.
    pub fn is_end_of_file(&self) -> (r: bool)
        ensures
            r == self@.is_end_of_file(),
    {
        match self {
            Record::EndOfFile => true,
            _ => false,
        }
    }
}

} // verus!
