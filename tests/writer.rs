use ihex::record::Record;
use ihex::writer::{create_object_file_representation, WriterError};

fn hello() -> Record {
    Record::Data {
        offset: 0x0010,
        value: vec![0x48, 0x65, 0x6C, 0x6C, 0x6F],
    }
}

#[test]
fn data_record_encodes() {
    assert_eq!(hello().to_string(), Ok(String::from(":0500100048656C6C6FF7")));
}

#[test]
fn end_of_file_record_encodes() {
    assert_eq!(Record::EndOfFile.to_string(), Ok(String::from(":00000001FF")));
}

#[test]
fn extended_segment_address_record_encodes() {
    let r = Record::ExtendedSegmentAddress(0x0100);
    assert_eq!(r.to_string(), Ok(String::from(":020000020100FB")));
}

#[test]
fn start_segment_address_record_encodes() {
    let r = Record::StartSegmentAddress { cs: 0x1234, ip: 0x5678 };
    assert_eq!(r.to_string(), Ok(String::from(":0400000312345678E5")));
}

#[test]
fn extended_linear_address_record_encodes() {
    let r = Record::ExtendedLinearAddress(0x0800);
    assert_eq!(r.to_string(), Ok(String::from(":020000040800F2")));
}

#[test]
fn start_linear_address_record_encodes() {
    let r = Record::StartLinearAddress(0x000000CD);
    assert_eq!(r.to_string(), Ok(String::from(":04000005000000CD2A")));
    let r = Record::StartLinearAddress(0x12345678);
    assert_eq!(r.to_string(), Ok(String::from(":0400000512345678E3")));
}

#[test]
fn empty_data_record_encodes() {
    let r = Record::Data { offset: 0xABCD, value: vec![] };
    assert_eq!(r.to_string(), Ok(String::from(":00ABCD0088")));
}

#[test]
fn largest_data_record_encodes() {
    let r = Record::Data { offset: 0, value: vec![0x00; 255] };
    let line = r.to_string().unwrap();
    assert_eq!(line.len(), 1 + 2 * (1 + 2 + 1 + 255 + 1));
    assert!(line.starts_with(":FF000000"));
    assert!(line.ends_with("0001"));
}

#[test]
fn oversized_data_record_fails() {
    let r = Record::Data { offset: 0, value: vec![0x00; 256] };
    assert_eq!(r.to_string(), Err(WriterError::DataExceedsMaximumLength(256)));
    let r = Record::Data { offset: 0x1000, value: vec![0xAA; 1000] };
    assert_eq!(r.to_string(), Err(WriterError::DataExceedsMaximumLength(1000)));
}

#[test]
fn record_types_follow_the_format() {
    assert_eq!(hello().record_type(), 0x00);
    assert_eq!(Record::EndOfFile.record_type(), 0x01);
    assert_eq!(Record::ExtendedSegmentAddress(0).record_type(), 0x02);
    assert_eq!(Record::StartSegmentAddress { cs: 0, ip: 0 }.record_type(), 0x03);
    assert_eq!(Record::ExtendedLinearAddress(0).record_type(), 0x04);
    assert_eq!(Record::StartLinearAddress(0).record_type(), 0x05);
}

#[test]
fn object_assembles_lines() {
    let records = [hello(), Record::EndOfFile];
    assert_eq!(
        create_object_file_representation(&records),
        Ok(String::from(":0500100048656C6C6FF7\n:00000001FF"))
    );
}

#[test]
fn object_of_end_of_file_only() {
    let records = [Record::EndOfFile];
    assert_eq!(
        create_object_file_representation(&records),
        Ok(String::from(":00000001FF"))
    );
}

#[test]
fn object_with_every_kind_of_record() {
    let records = [
        Record::ExtendedLinearAddress(0x0800),
        Record::ExtendedSegmentAddress(0x0100),
        hello(),
        Record::StartSegmentAddress { cs: 0x1234, ip: 0x5678 },
        Record::StartLinearAddress(0x000000CD),
        Record::EndOfFile,
    ];
    let expected = ":020000040800F2\n:020000020100FB\n:0500100048656C6C6FF7\n\
                    :0400000312345678E5\n:04000005000000CD2A\n:00000001FF";
    assert_eq!(create_object_file_representation(&records), Ok(String::from(expected)));
}

#[test]
fn object_with_two_end_of_file_records_fails() {
    let records = [Record::EndOfFile, Record::EndOfFile];
    assert_eq!(
        create_object_file_representation(&records),
        Err(WriterError::MultipleEndOfFileRecords(2))
    );
}

#[test]
fn object_counts_every_end_of_file_record() {
    let records = [Record::EndOfFile, hello(), Record::EndOfFile, Record::EndOfFile];
    assert_eq!(
        create_object_file_representation(&records),
        Err(WriterError::MultipleEndOfFileRecords(3))
    );
}

#[test]
fn object_without_end_of_file_fails() {
    let records = [Record::Data { offset: 0, value: vec![] }];
    assert_eq!(
        create_object_file_representation(&records),
        Err(WriterError::MissingEndOfFileRecord)
    );
}

#[test]
fn empty_object_fails() {
    assert_eq!(
        create_object_file_representation(&[]),
        Err(WriterError::MissingEndOfFileRecord)
    );
}

#[test]
fn missing_end_of_file_takes_precedence() {
    let records = [Record::EndOfFile, Record::EndOfFile, hello()];
    assert_eq!(
        create_object_file_representation(&records),
        Err(WriterError::MissingEndOfFileRecord)
    );
}

#[test]
fn object_with_oversized_record_fails() {
    let records = [
        hello(),
        Record::Data { offset: 0, value: vec![0x00; 300] },
        Record::Data { offset: 0, value: vec![0x00; 400] },
        Record::EndOfFile,
    ];
    assert_eq!(
        create_object_file_representation(&records),
        Err(WriterError::DataExceedsMaximumLength(300))
    );
}

#[test]
fn errors_describe_themselves() {
    assert_eq!(
        WriterError::DataExceedsMaximumLength(256).description(),
        "Record contains data exceeding 255 bytes."
    );
    assert_eq!(
        WriterError::MissingEndOfFileRecord.description(),
        "Object files must end with an End of File Record."
    );
    assert_eq!(
        WriterError::MultipleEndOfFileRecords(2).description(),
        "Object files must contain exactly one End of File record."
    );
}
