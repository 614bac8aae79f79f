//! Encoding of single records as IHEX lines, and of whole record sequences
//! as IHEX object files.
use vstd::prelude::*;

use crate::checksum::{checksum, checksum_of};
use crate::hex::{hex_bytes, push_hex_byte};
use crate::record::{be16, be32, high_byte, low_byte, Record, RecordModel};

verus! {

/// The ways in which encoding can fail.
#[derive(PartialEq, Eq, Structural, Clone, Copy, Debug)]
pub enum WriterError {
    /// A record contains data too large to represent.
    DataExceedsMaximumLength(usize),
    /// Object does not end in an EoF record.
    MissingEndOfFileRecord,
    /// Object contains multiple EoF records.
    MultipleEndOfFileRecords(usize),
}

impl WriterError {
    /// A sentence describing the error.
    pub fn description(&self) -> (r: &'static str)
        ensures
            r@ == match self {
                WriterError::DataExceedsMaximumLength(_) => "Record contains data exceeding 255 bytes."@,
                WriterError::MissingEndOfFileRecord => "Object files must end with an End of File Record."@,
                WriterError::MultipleEndOfFileRecords(_) => "Object files must contain exactly one End of File record."@,
            },
    {
        match self {
            WriterError::DataExceedsMaximumLength(_) => "Record contains data exceeding 255 bytes.",
            WriterError::MissingEndOfFileRecord => "Object files must end with an End of File Record.",
            WriterError::MultipleEndOfFileRecords(_) => "Object files must contain exactly one End of File record.",
        }
    }
}

/// The bytes of a record up to, not including, its checksum: length, address
/// (big-endian), type code, payload.
pub open spec fn record_body(record_type: u8, address: u16, data: Seq<u8>) -> Seq<u8> {
    seq![data.len() as u8, high_byte(address), low_byte(address), record_type] + data
}

/// The text line of a record: a colon, then the body and its checksum, each
/// byte as two uppercase hexadecimal digits.
pub open spec fn record_line(record_type: u8, address: u16, data: Seq<u8>) -> Seq<char> {
    seq![':'] + hex_bytes(
        record_body(record_type, address, data).push(
            checksum_of(record_body(record_type, address, data)),
        ),
    )
}

/// Formats one record line from its type code, address field and payload.
fn format_record(record_type: u8, address: u16, data: &[u8]) -> (r: Result<String, WriterError>)
    ensures
        data@.len() > 255 ==> r == Err::<String, WriterError>(
            WriterError::DataExceedsMaximumLength(data@.len() as usize),
        ),
        data@.len() <= 255 ==> r is Ok && r->Ok_0@ == record_line(record_type, address, data@),
{
    if data.len() > 0xFF {
        return Err(WriterError::DataExceedsMaximumLength(data.len()));
    }
    let mut region: Vec<u8> = Vec::with_capacity(1 + 2 + 1 + data.len() + 1);
    region.push(data.len() as u8);
    let hi = ((address & 0xFF00) >> 8) as u8;
    let lo = (address & 0x00FF) as u8;
    assert(hi == high_byte(address)) by (bit_vector)
        requires hi == ((address & 0xFF00) >> 8) as u8;
    assert(lo == low_byte(address)) by (bit_vector)
        requires lo == (address & 0x00FF) as u8;
    region.push(hi);
    region.push(lo);
    region.push(record_type);
    region.extend_from_slice(data);
    assert(region@ =~= record_body(record_type, address, data@));
    let sum = checksum(region.as_slice());
    region.push(sum);

    let mut out = String::new();
    out.append(":");
    proof {
        reveal_strlit(":");
    }
    let mut i: usize = 0;
    while i < region.len()
        invariant
            i <= region@.len(),
            out@ == seq![':'] + hex_bytes(region@.subrange(0, i as int)),
        decreases region@.len() - i,
    {
        proof {
            assert(region@.subrange(0, i as int + 1).drop_last() =~= region@.subrange(0, i as int));
        }
        push_hex_byte(&mut out, region[i]);
        i = i + 1;
        assert(out@ =~= seq![':'] + hex_bytes(region@.subrange(0, i as int)));
    }
    assert(region@.subrange(0, i as int) =~= region@);
    Ok(out)
}

/// What encoding a record yields: its line, or the error for a payload that
/// does not fit the one-byte length field.
pub open spec fn encode_model(r: RecordModel) -> Result<Seq<char>, WriterError> {
    if r.payload().len() > 255 {
        Err(WriterError::DataExceedsMaximumLength(r.payload().len() as usize))
    } else {
        Ok(record_line(r.type_code(), r.address_field(), r.payload()))
    }
}

/// A string result seen through the view of its text.
pub open spec fn text_result(r: Result<String, WriterError>) -> Result<Seq<char>, WriterError> {
    match r {
        Ok(s) => Ok(s@),
        Err(e) => Err(e),
    }
}

impl Record {
    /// Returns the IHEX record representation of the receiver, or an error on failure.
    pub fn to_string(&self) -> (r: Result<String, WriterError>)
        ensures
            text_result(r) == encode_model(self@),
            self@.payload().len() > 255 ==> r == Err::<String, WriterError>(
                WriterError::DataExceedsMaximumLength(self@.payload().len() as usize),
            ),
            self@.payload().len() <= 255 ==> r is Ok && r->Ok_0@ == record_line(
                self@.type_code(),
                self@.address_field(),
                self@.payload(),
            ),
    {
        let t = self.record_type();
        match self {
            Record::Data { offset, value } => format_record(t, *offset, value.as_slice()),
            Record::EndOfFile => {
                let empty: Vec<u8> = Vec::new();
                format_record(t, 0x0000, empty.as_slice())
            },
            Record::ExtendedSegmentAddress(address) => {
                let bytes = be16_bytes(*address);
                format_record(t, 0x0000, bytes.as_slice())
            },
            Record::StartSegmentAddress { cs, ip } => {
                let mut bytes = be16_bytes(*cs);
                let tail = be16_bytes(*ip);
                bytes.extend_from_slice(tail.as_slice());
                assert(bytes@ =~= be16(*cs) + be16(*ip));
                format_record(t, 0x0000, bytes.as_slice())
            },
            Record::ExtendedLinearAddress(address) => {
                let bytes = be16_bytes(*address);
                format_record(t, 0x0000, bytes.as_slice())
            },
            Record::StartLinearAddress(address) => {
                let a = *address;
                let b0 = ((a & 0xFF00_0000) >> 24) as u8;
                let b1 = ((a & 0x00FF_0000) >> 16) as u8;
                let b2 = ((a & 0x0000_FF00) >> 8) as u8;
                let b3 = (a & 0x0000_00FF) as u8;
                assert(b0 == (a / 0x1000000) as u8) by (bit_vector)
                    requires b0 == ((a & 0xFF00_0000) >> 24) as u8;
                assert(b1 == (a / 0x10000 % 256) as u8) by (bit_vector)
                    requires b1 == ((a & 0x00FF_0000) >> 16) as u8;
                assert(b2 == (a / 256 % 256) as u8) by (bit_vector)
                    requires b2 == ((a & 0x0000_FF00) >> 8) as u8;
                assert(b3 == (a % 256) as u8) by (bit_vector)
                    requires b3 == (a & 0x0000_00FF) as u8;
                let bytes = vec![b0, b1, b2, b3];
                assert(bytes@ =~= be32(a));
                format_record(t, 0x0000, bytes.as_slice())
            },
        }
    }
}

/// A 16-bit value as two big-endian bytes.
fn be16_bytes(v: u16) -> (r: Vec<u8>)
    ensures
        r@ == be16(v),
{
    let hi = ((v & 0xFF00) >> 8) as u8;
    let lo = (v & 0x00FF) as u8;
    assert(hi == high_byte(v)) by (bit_vector)
        requires hi == ((v & 0xFF00) >> 8) as u8;
    assert(lo == low_byte(v)) by (bit_vector)
        requires lo == (v & 0x00FF) as u8;
    let r = vec![hi, lo];
    assert(r@ =~= be16(v));
    r
}

/// The number of end-of-file records in `s`.
pub open spec fn eof_count(s: Seq<RecordModel>) -> nat
    decreases s.len(),
{
    if s.len() == 0 {
        0
    } else {
        eof_count(s.drop_last()) + if s.last().is_end_of_file() {
            1nat
        } else {
            0nat
        }
    }
}

/// The lines of every record of `s`, in order, or the error of the first
/// record that cannot be encoded.
pub open spec fn encode_all(s: Seq<RecordModel>) -> Result<Seq<Seq<char>>, WriterError>
    decreases s.len(),
{
    if s.len() == 0 {
        Ok(Seq::empty())
    } else {
        match encode_all(s.drop_last()) {
            Err(e) => Err(e),
            Ok(lines) => match encode_model(s.last()) {
                Err(e) => Err(e),
                Ok(line) => Ok(lines.push(line)),
            },
        }
    }
}

/// The lines joined with one newline between consecutive lines.
pub open spec fn join_lines(lines: Seq<Seq<char>>) -> Seq<char>
    decreases lines.len(),
{
    if lines.len() == 0 {
        Seq::empty()
    } else if lines.len() == 1 {
        lines[0]
    } else {
        join_lines(lines.drop_last()) + seq!['\n'] + lines.last()
    }
}

/// Whether `s` fails to end in an end-of-file record (an empty `s` does).
pub open spec fn lacks_final_eof(s: Seq<RecordModel>) -> bool {
    s.len() == 0 || !s.last().is_end_of_file()
}

/// The object file made of the records `s`: checked first for a final
/// end-of-file record, then for a single one, then encoded record by record.
pub open spec fn object_text(s: Seq<RecordModel>) -> Result<Seq<char>, WriterError> {
    if lacks_final_eof(s) {
        Err(WriterError::MissingEndOfFileRecord)
    } else if eof_count(s) > 1 {
        Err(WriterError::MultipleEndOfFileRecords(eof_count(s) as usize))
    } else {
        match encode_all(s) {
            Ok(lines) => Ok(join_lines(lines)),
            Err(e) => Err(e),
        }
    }
}

/// The models of a slice of records.
pub open spec fn models(records: Seq<Record>) -> Seq<RecordModel> {
    records.map_values(|r: Record| r@)
}

proof fn lemma_eof_count_bound(s: Seq<RecordModel>)
    ensures
        eof_count(s) <= s.len(),
    decreases s.len(),
{
    if s.len() > 0 {
        lemma_eof_count_bound(s.drop_last());
    }
}

/// A failure in a prefix is the failure of the whole sequence.
proof fn lemma_encode_all_err_prefix(s: Seq<RecordModel>, k: int)
    requires
        0 <= k <= s.len(),
        encode_all(s.take(k)) is Err,
    ensures
        encode_all(s) == encode_all(s.take(k)),
    decreases s.len(),
{
    if k == s.len() {
        assert(s.take(k) =~= s);
    } else {
        assert(s.drop_last().take(k) =~= s.take(k));
        lemma_encode_all_err_prefix(s.drop_last(), k);
    }
}

///
/// Generates an Intel HEX object file representation of the `records` provided. It is the callers
/// responsibility to ensure that no overlapping data ranges are defined within the
/// object file. In addition, `records` must contain exactly one EoF record,
/// and it must be the last element in `records`.
///
pub fn create_object_file_representation(records: &[Record]) -> (r: Result<String, WriterError>)
    ensures
        text_result(r) == object_text(models(records@)),
        lacks_final_eof(models(records@)) ==> r == Err::<String, WriterError>(
            WriterError::MissingEndOfFileRecord,
        ),
        !lacks_final_eof(models(records@)) && eof_count(models(records@)) > 1 ==> r == Err::<
            String,
            WriterError,
        >(WriterError::MultipleEndOfFileRecords(eof_count(models(records@)) as usize)),
{
    let ghost m = models(records@);
    let n = records.len();
    if n == 0 || !records[n - 1].is_end_of_file() {
        return Err(WriterError::MissingEndOfFileRecord);
    }
    let mut count: usize = 0;
    let mut i: usize = 0;
    while i < n
        invariant
            n == records@.len(),
            m == models(records@),
            i <= n,
            count == eof_count(m.take(i as int)),
            count <= i,
        decreases n - i,
    {
        proof {
            assert(m.take(i as int + 1).drop_last() =~= m.take(i as int));
            lemma_eof_count_bound(m.take(i as int));
        }
        if records[i].is_end_of_file() {
            count = count + 1;
        }
        i = i + 1;
    }
    assert(m.take(n as int) =~= m);
    if count > 1 {
        return Err(WriterError::MultipleEndOfFileRecords(count));
    }

    let mut out = String::new();
    let ghost mut lines: Seq<Seq<char>> = Seq::empty();
    let mut i: usize = 0;
    proof {
        assert(m.take(0) =~= Seq::<RecordModel>::empty());
        reveal_strlit("\n");
    }
    while i < n
        invariant
            n == records@.len(),
            m == models(records@),
            i <= n,
            encode_all(m.take(i as int)) == Ok::<Seq<Seq<char>>, WriterError>(lines),
            lines.len() == i,
            !lacks_final_eof(m),
            eof_count(m) <= 1,
            out@ == join_lines(lines),
            "\n"@ == seq!['\n'],
        decreases n - i,
    {
        assert(m.take(i as int + 1).drop_last() =~= m.take(i as int));
        let line = records[i].to_string();
        match line {
            Err(e) => {
                proof {
                    lemma_encode_all_err_prefix(m, i as int + 1);
                }
                return Err(e);
            },
            Ok(text) => {
                if i > 0 {
                    out.append("\n");
                }
                out.append(text.as_str());
                proof {
                    let next = lines.push(text@);
                    assert(next.drop_last() =~= lines);
                    assert(out@ =~= join_lines(next));
                    lines = next;
                }
            },
        }
        i = i + 1;
    }
    assert(m.take(n as int) =~= m);
    Ok(out)
}

} // verus!
