//! A reading of IHEX lines as a mathematical function, and the proof that it
//! recovers every record that the encoder accepts.
use vstd::prelude::*;

use crate::checksum::{byte_sum, checksum_of, lemma_checksum_cancels};
use crate::hex::{hex_byte, hex_bytes, hex_digit};
use crate::record::{be16, be32, RecordModel};
use crate::writer::{encode_model, record_body, record_line};

verus! {

/// The value of an uppercase hexadecimal digit.
pub open spec fn digit_value(c: char) -> Option<u8> {
    if '0' <= c && c <= '9' {
        Some((c as u8 - 48) as u8)
    } else if 'A' <= c && c <= 'F' {
        Some((c as u8 - 55) as u8)
    } else {
        None
    }
}

/// The bytes spelled by pairs of hexadecimal digits, high digit first.
pub open spec fn unhex(s: Seq<char>) -> Option<Seq<u8>>
    decreases s.len(),
{
    if s.len() == 0 {
        Some(Seq::empty())
    } else if s.len() < 2 {
        None
    } else {
        match (unhex(s.subrange(0, s.len() - 2)), digit_value(s[s.len() - 2]), digit_value(s[s.len() - 1])) {
            (Some(front), Some(h), Some(l)) => Some(front.push((h * 16 + l) as u8)),
            _ => None,
        }
    }
}

/// A big-endian 16-bit value from two bytes.
pub open spec fn from_be16(h: u8, l: u8) -> u16 {
    (h * 256 + l) as u16
}

/// The record held by a line's bytes (length, address, type, payload,
/// checksum), if the length and checksum agree and the payload suits the type.
pub open spec fn decode_bytes(b: Seq<u8>) -> Option<RecordModel> {
    if b.len() < 5 || b[0] != b.len() - 5 || byte_sum(b) % 256 != 0 {
        None
    } else {
        let data = b.subrange(4, b.len() - 1);
        let address = from_be16(b[1], b[2]);
        if b[3] == 0 {
            Some(RecordModel::Data { offset: address, value: data })
        } else if b[3] == 1 && data.len() == 0 {
            Some(RecordModel::EndOfFile)
        } else if b[3] == 2 && data.len() == 2 {
            Some(RecordModel::ExtendedSegmentAddress(from_be16(data[0], data[1])))
        } else if b[3] == 3 && data.len() == 4 {
            Some(
                RecordModel::StartSegmentAddress {
                    cs: from_be16(data[0], data[1]),
                    ip: from_be16(data[2], data[3]),
                },
            )
        } else if b[3] == 4 && data.len() == 2 {
            Some(RecordModel::ExtendedLinearAddress(from_be16(data[0], data[1])))
        } else if b[3] == 5 && data.len() == 4 {
            Some(
                RecordModel::StartLinearAddress(
                    (from_be16(data[0], data[1]) * 0x10000 + from_be16(data[2], data[3])) as u32,
                ),
            )
        } else {
            None
        }
    }
}

/// The record written on an IHEX line, if the line is well formed.
pub open spec fn decode_line(s: Seq<char>) -> Option<RecordModel> {
    if s.len() == 0 || s[0] != ':' {
        None
    } else {
        match unhex(s.drop_first()) {
            Some(b) => decode_bytes(b),
            None => None,
        }
    }
}

proof fn lemma_digit_round_trip(n: u8)
    requires
        n < 16,
    ensures
        digit_value(hex_digit(n)) == Some(n),
{
}

proof fn lemma_hex_bytes_len(b: Seq<u8>)
    ensures
        hex_bytes(b).len() == 2 * b.len(),
    decreases b.len(),
{
    if b.len() > 0 {
        lemma_hex_bytes_len(b.drop_last());
    }
}

/// Reading back the hexadecimal rendering of bytes gives the bytes.
pub proof fn lemma_unhex_hex(b: Seq<u8>)
    ensures
        unhex(hex_bytes(b)) == Some(b),
    decreases b.len(),
{
    if b.len() > 0 {
        let s = hex_bytes(b);
        lemma_hex_bytes_len(b);
        lemma_hex_bytes_len(b.drop_last());
        assert(s.subrange(0, s.len() - 2) =~= hex_bytes(b.drop_last()));
        lemma_unhex_hex(b.drop_last());
        let x = b.last();
        lemma_digit_round_trip(x / 16);
        lemma_digit_round_trip(x % 16);
        assert(s[s.len() - 2] == hex_byte(x)[0]);
        assert(s[s.len() - 1] == hex_byte(x)[1]);
        assert(b.drop_last().push(x) =~= b);
    }
}

proof fn lemma_be16_round_trip(v: u16)
    ensures
        from_be16(be16(v)[0], be16(v)[1]) == v,
{
}

proof fn lemma_be32_round_trip(v: u32)
    ensures
        (from_be16(be32(v)[0], be32(v)[1]) * 0x10000 + from_be16(be32(v)[2], be32(v)[3])) as u32
            == v,
{
}

/// Every record whose payload fits the length field encodes to a line, and
/// reading that line back gives the same record.
pub proof fn lemma_round_trip(r: RecordModel)
    requires
        r.payload().len() <= 255,
    ensures
        encode_model(r) is Ok,
        decode_line(encode_model(r)->Ok_0) == Some(r),
{
    let t = r.type_code();
    let a = r.address_field();
    let p = r.payload();
    let body = record_body(t, a, p);
    let bytes = body.push(checksum_of(body));
    let line = record_line(t, a, p);
    assert(line.drop_first() =~= hex_bytes(bytes));
    lemma_unhex_hex(bytes);
    lemma_checksum_cancels(body);
    assert(bytes.subrange(4, bytes.len() - 1) =~= p);
    lemma_be16_round_trip(a);
    match r {
        RecordModel::ExtendedSegmentAddress(v) => lemma_be16_round_trip(v),
        RecordModel::ExtendedLinearAddress(v) => lemma_be16_round_trip(v),
        RecordModel::StartSegmentAddress { cs, ip } => {
            lemma_be16_round_trip(cs);
            lemma_be16_round_trip(ip);
        },
        RecordModel::StartLinearAddress(v) => lemma_be32_round_trip(v),
        _ => {},
    }
}

} // verus!
