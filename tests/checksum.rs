use ihex::checksum::checksum;

fn sum_mod_256(data: &[u8]) -> u32 {
    data.iter().map(|&b| b as u32).sum::<u32>() % 256
}

#[test]
fn checksum_of_empty_is_zero() {
    assert_eq!(checksum(&[]), 0x00);
}

#[test]
fn checksum_of_single_byte() {
    assert_eq!(checksum(&[0x01]), 0xFF);
    assert_eq!(checksum(&[0xFF]), 0x01);
}

#[test]
fn checksum_wraps_modulo_256() {
    assert_eq!(checksum(&[0x80, 0x80]), 0x00);
    assert_eq!(checksum(&[0xFF, 0xFF, 0x03]), 0xFF);
}

#[test]
fn checksum_of_data_record_body() {
    let body = [0x05, 0x00, 0x10, 0x00, 0x48, 0x65, 0x6C, 0x6C, 0x6F];
    assert_eq!(checksum(&body), 0xF7);
}

#[test]
fn checksum_cancels_the_sum() {
    let samples: Vec<Vec<u8>> = vec![
        vec![],
        vec![0x00],
        vec![0x12, 0x34, 0x56, 0x78],
        vec![0xFF; 300],
        (0..=255u8).collect(),
    ];
    for s in samples {
        let c = checksum(&s) as u32;
        assert_eq!((sum_mod_256(&s) + c) % 256, 0);
    }
}
