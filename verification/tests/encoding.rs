use sm_executor::encoding::{
    read_be, read_prefixed, read_varint, write_be, write_prefixed, write_varint, DecodeError,
};

fn varint(v: u64) -> Vec<u8> {
    let mut out = Vec::new();
    write_varint(v, &mut out);
    out
}

#[test]
fn varint_one_byte_below_marker() {
    assert_eq!(varint(0), vec![0x00]);
    assert_eq!(varint(0xFC), vec![0xFC]);
}

#[test]
fn varint_two_bytes_from_marker_value() {
    assert_eq!(varint(0xFD), vec![0xFD, 0x00, 0xFD]);
    assert_eq!(varint(0xFFFF), vec![0xFD, 0xFF, 0xFF]);
}

#[test]
fn varint_four_and_eight_bytes() {
    assert_eq!(varint(0x1_0000), vec![0xFE, 0x00, 0x01, 0x00, 0x00]);
    assert_eq!(varint(0xFFFF_FFFF), vec![0xFE, 0xFF, 0xFF, 0xFF, 0xFF]);
    assert_eq!(
        varint(0x1_0000_0000),
        vec![0xFF, 0x00, 0x00, 0x00, 0x01, 0x00, 0x00, 0x00, 0x00]
    );
    assert_eq!(varint(u64::MAX), vec![0xFF; 9]);
}

#[test]
fn varint_reads_back() {
    for v in [0u64, 1, 0xFC, 0xFD, 0x1234, 0xFFFF, 0x1_0000, 0xFFFF_FFFF, 0x1_0000_0000, u64::MAX] {
        let mut bytes = vec![0xAA];
        write_varint(v, &mut bytes);
        let end = bytes.len();
        bytes.push(0xBB);
        assert_eq!(read_varint(&bytes, 1), Ok((v, end)));
    }
}

#[test]
fn varint_rejects_padding() {
    assert_eq!(read_varint(&[0xFD, 0x00, 0xFC], 0), Err(DecodeError::NonCanonical));
    assert_eq!(read_varint(&[0xFE, 0x00, 0x00, 0xFF, 0xFF], 0), Err(DecodeError::NonCanonical));
    assert_eq!(
        read_varint(&[0xFF, 0, 0, 0, 0, 0xFF, 0xFF, 0xFF, 0xFF], 0),
        Err(DecodeError::NonCanonical)
    );
}

#[test]
fn varint_rejects_short_input() {
    assert_eq!(read_varint(&[], 0), Err(DecodeError::UnexpectedEnd));
    assert_eq!(read_varint(&[0xFD, 0x01], 0), Err(DecodeError::UnexpectedEnd));
    assert_eq!(read_varint(&[0x05], 1), Err(DecodeError::UnexpectedEnd));
}

#[test]
fn big_endian_bytes() {
    let mut out = Vec::new();
    write_be(0x0102_0304_0506_0708, 8, &mut out);
    assert_eq!(out, vec![1, 2, 3, 4, 5, 6, 7, 8]);
    assert_eq!(read_be(&out, 0, 8), 0x0102_0304_0506_0708);
    assert_eq!(read_be(&out, 6, 2), 0x0708);
    let mut low = Vec::new();
    write_be(0x0102_0304, 2, &mut low);
    assert_eq!(low, vec![3, 4]);
}

#[test]
fn prefixed_bytes_round_trip() {
    let mut out = Vec::new();
    write_prefixed(&[9, 8, 7], &mut out);
    assert_eq!(out, vec![3, 9, 8, 7]);
    out.push(0xEE);
    assert_eq!(read_prefixed(&out, 0), Ok((vec![9, 8, 7], 4)));
    let mut empty = Vec::new();
    write_prefixed(&[], &mut empty);
    assert_eq!(empty, vec![0]);
    assert_eq!(read_prefixed(&empty, 0), Ok((vec![], 1)));
}

#[test]
fn prefixed_bytes_reject_short_payload() {
    assert_eq!(read_prefixed(&[3, 9, 8], 0), Err(DecodeError::UnexpectedEnd));
    assert_eq!(read_prefixed(&[0xFF, 0xFF, 0xFF, 0xFF, 0xFF, 0xFF, 0xFF, 0xFF, 0xFF, 1], 0), Err(DecodeError::UnexpectedEnd));
}
