use cowcodec::bits::{BitAcc, BitCursor};
use cowcodec::bounded::{Limit, WireSize};
use cowcodec::codec::{BitRead, BitWrite, EmptyCtx};
use cowcodec::error::CodecError;

#[test]
fn test_byte_limit_stops_at_element_boundary() {
    // Three bytes in, a three-byte limit: only one whole 16-bit element
    // fits, and the cursor stands exactly after it.
    let input: Vec<u8> = vec![0x01, 0x02, 0x03];
    let cursor = BitCursor::from_bytes(&input);
    let lim = Limit::Size(WireSize::Bytes(3));
    let (rest, v) = <Vec<u16>>::read(cursor, lim).unwrap();
    assert_eq!(v, vec![0x0201]);
    assert_eq!(rest.remaining(), 8);
}

#[test]
fn test_bit_limit_stops_at_element_boundary() {
    let input: Vec<u8> = vec![0x01, 0x02, 0x03, 0x04];
    let cursor = BitCursor::from_bytes(&input);
    let lim = Limit::Size(WireSize::Bits(24));
    let (rest, v) = <Vec<u16>>::read(cursor, lim).unwrap();
    assert_eq!(v, vec![0x0201]);
    assert_eq!(rest.remaining(), 16);
}

#[test]
fn test_count_limit_exact() {
    let input: Vec<u8> = vec![0x01, 0x02, 0x03, 0x04];
    let cursor = BitCursor::from_bytes(&input);
    let (rest, v) = <Vec<u16>>::read(cursor, Limit::Count(2)).unwrap();
    assert_eq!(v, vec![0x0201, 0x0403]);
    assert_eq!(rest.remaining(), 0);
}

#[test]
fn test_count_zero_reads_nothing() {
    let input: Vec<u8> = vec![0x01, 0x02];
    let cursor = BitCursor::from_bytes(&input);
    let (rest, v) = <Vec<u16>>::read(cursor, Limit::Count(0)).unwrap();
    assert_eq!(v, Vec::<u16>::new());
    assert_eq!(rest.remaining(), 16);
}

#[test]
fn test_end_limit_reads_whole_elements() {
    // Five bytes: two whole elements, one trailing byte left over.
    let input: Vec<u8> = vec![0x01, 0x02, 0x03, 0x04, 0x05];
    let cursor = BitCursor::from_bytes(&input);
    let (rest, v) = <Vec<u16>>::read(cursor, Limit::End).unwrap();
    assert_eq!(v, vec![0x0201, 0x0403]);
    assert_eq!(rest.remaining(), 8);
}

#[test]
fn test_end_limit_empty_input() {
    let input: Vec<u8> = Vec::new();
    let cursor = BitCursor::from_bytes(&input);
    let (rest, v) = <Vec<u16>>::read(cursor, Limit::End).unwrap();
    assert_eq!(v, Vec::<u16>::new());
    assert_eq!(rest.remaining(), 0);
}

#[test]
fn test_byte_limit_larger_than_input_fails() {
    let input: Vec<u8> = vec![0x01, 0x02];
    let cursor = BitCursor::from_bytes(&input);
    let lim = Limit::Size(WireSize::Bytes(4));
    let err = <Vec<u16>>::read(cursor, lim).unwrap_err();
    assert_eq!(err, CodecError::Incomplete);
}

#[test]
fn test_sequence_write_concatenates_elements() {
    let v: Vec<u16> = vec![0xBEEF, 0x00FF];
    let mut acc = BitAcc::new();
    v.write(&mut acc, EmptyCtx).unwrap();
    assert_eq!(acc.into_bytes(), vec![0xEF, 0xBE, 0xFF, 0x00]);
}

#[test]
fn test_empty_sequence_writes_nothing() {
    let v: Vec<u16> = Vec::new();
    let mut acc = BitAcc::new();
    v.write(&mut acc, EmptyCtx).unwrap();
    assert_eq!(acc.len(), 0);
    assert_eq!(acc.into_bytes(), Vec::<u8>::new());
}
