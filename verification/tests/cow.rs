use cowcodec::bits::{BitAcc, BitCursor};
use cowcodec::bounded::{Limit, WireSize};
use cowcodec::codec::{BitRead, BitWrite, EmptyCtx};
use cowcodec::cow::CopyOnWrite;
use cowcodec::error::CodecError;

#[test]
fn test_cow() {
    let input: Vec<u8> = vec![0xEF, 0xBE];
    let cursor = BitCursor::from_bytes(&input);
    let (rest, res_read) = <CopyOnWrite<u16>>::read(cursor, EmptyCtx).unwrap();
    match res_read {
        CopyOnWrite::Owned(v) => assert_eq!(v, 0xBEEF),
        CopyOnWrite::Borrowed(_) => panic!("decode produced a borrowed value"),
    }
    assert_eq!(rest.remaining(), 0);

    let mut res_write = BitAcc::new();
    res_read.write(&mut res_write, EmptyCtx).unwrap();
    assert_eq!(input, res_write.into_bytes());
}

#[test]
fn test_unsized_cow() {
    let input: Vec<u8> = vec![0xEF, 0xBE];
    let cursor = BitCursor::from_bytes(&input);
    let lim = Limit::Size(WireSize::Bytes(2));
    let (rest, res_read) = <CopyOnWrite<Vec<u16>>>::read(cursor, lim).unwrap();
    match &res_read {
        CopyOnWrite::Owned(v) => assert_eq!(v, &vec![0xBEEF]),
        CopyOnWrite::Borrowed(_) => panic!("decode produced a borrowed value"),
    }
    assert_eq!(rest.remaining(), 0);

    let mut res_write = BitAcc::new();
    res_read.write(&mut res_write, EmptyCtx).unwrap();
    assert_eq!(input, res_write.into_bytes());
}

#[test]
fn test_round_trip_owned_word() {
    let original: u16 = 0x1234;
    let mut acc = BitAcc::new();
    CopyOnWrite::Owned(original).write(&mut acc, EmptyCtx).unwrap();
    let bytes = acc.into_bytes();
    let cursor = BitCursor::from_bytes(&bytes);
    let (rest, back) = <CopyOnWrite<u16>>::read(cursor, EmptyCtx).unwrap();
    match back {
        CopyOnWrite::Owned(v) => assert_eq!(v, original),
        CopyOnWrite::Borrowed(_) => panic!("decode produced a borrowed value"),
    }
    assert_eq!(rest.remaining(), 0);
}

#[test]
fn test_round_trip_owned_sequence() {
    let original: Vec<u16> = vec![0x0001, 0xABCD, 0xFFFF];
    let mut acc = BitAcc::new();
    CopyOnWrite::Owned(original.clone()).write(&mut acc, EmptyCtx).unwrap();
    let bytes = acc.into_bytes();
    assert_eq!(bytes.len(), 6);
    let cursor = BitCursor::from_bytes(&bytes);
    let lim = Limit::Size(WireSize::Bytes(6));
    let (rest, back) = <CopyOnWrite<Vec<u16>>>::read(cursor, lim).unwrap();
    match back {
        CopyOnWrite::Owned(v) => assert_eq!(v, original),
        CopyOnWrite::Borrowed(_) => panic!("decode produced a borrowed value"),
    }
    assert_eq!(rest.remaining(), 0);
}

#[test]
fn test_cross_variant_equivalence_word() {
    let v: u16 = 0xBEEF;
    let mut owned_out = BitAcc::new();
    CopyOnWrite::Owned(v).write(&mut owned_out, EmptyCtx).unwrap();
    let mut borrowed_out = BitAcc::new();
    CopyOnWrite::Borrowed(&v).write(&mut borrowed_out, EmptyCtx).unwrap();
    assert_eq!(owned_out.into_bytes(), borrowed_out.into_bytes());
}

#[test]
fn test_cross_variant_equivalence_sequence() {
    let storage: Vec<u16> = vec![0x1122, 0x3344];
    let mut owned_out = BitAcc::new();
    CopyOnWrite::Owned(storage.clone()).write(&mut owned_out, EmptyCtx).unwrap();
    let mut borrowed_out = BitAcc::new();
    CopyOnWrite::Borrowed(&storage).write(&mut borrowed_out, EmptyCtx).unwrap();
    let expected: Vec<u8> = vec![0x22, 0x11, 0x44, 0x33];
    let owned_bytes = owned_out.into_bytes();
    assert_eq!(owned_bytes, expected);
    assert_eq!(owned_bytes, borrowed_out.into_bytes());
}

#[test]
fn test_decode_always_owned() {
    let input: Vec<u8> = vec![0x00, 0x01, 0x02, 0x03];
    let cursor = BitCursor::from_bytes(&input);
    let (_, first) = <CopyOnWrite<u16>>::read(cursor, EmptyCtx).unwrap();
    assert!(first.owns_payload());
    let cursor = BitCursor::from_bytes(&input);
    let (_, all) = <CopyOnWrite<Vec<u16>>>::read(cursor, Limit::End).unwrap();
    assert!(all.owns_payload());
    let borrowed: CopyOnWrite<u16> = CopyOnWrite::Borrowed(&0x55AA);
    assert!(!borrowed.owns_payload());
}

#[test]
fn test_incomplete_word() {
    let input: Vec<u8> = vec![0xEF];
    let cursor = BitCursor::from_bytes(&input);
    let err = <CopyOnWrite<u16>>::read(cursor, EmptyCtx).unwrap_err();
    assert_eq!(err, CodecError::Incomplete);
}

#[test]
fn test_incomplete_sequence() {
    let input: Vec<u8> = vec![0xEF, 0xBE];
    let cursor = BitCursor::from_bytes(&input);
    let err = <CopyOnWrite<Vec<u16>>>::read(cursor, Limit::Count(2)).unwrap_err();
    assert_eq!(err, CodecError::Incomplete);
}
