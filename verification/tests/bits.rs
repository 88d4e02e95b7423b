use cowcodec::bits::{BitAcc, BitCursor};
use cowcodec::codec::{BitRead, BitWrite, EmptyCtx};

#[test]
fn test_cursor_reads_msb_first() {
    let input: Vec<u8> = vec![0b1010_0000];
    let cursor = BitCursor::from_bytes(&input);
    assert_eq!(cursor.remaining(), 8);
    assert!(cursor.bit_at(0));
    assert!(!cursor.bit_at(1));
    assert!(cursor.bit_at(2));
    assert!(!cursor.bit_at(7));
}

#[test]
fn test_cursor_advance() {
    let input: Vec<u8> = vec![0x0F, 0xF0];
    let cursor = BitCursor::from_bytes(&input);
    let cursor = cursor.advance(4);
    assert_eq!(cursor.remaining(), 12);
    assert!(cursor.bit_at(0));
    assert!(cursor.bit_at(4));
    assert!(!cursor.bit_at(8));
}

#[test]
fn test_accumulator_packs_msb_first() {
    let mut acc = BitAcc::new();
    for k in 0..8 {
        acc.push_bit(k == 0 || k == 2);
    }
    assert_eq!(acc.len(), 8);
    assert_eq!(acc.into_bytes(), vec![0b1010_0000]);
}

#[test]
fn test_word_encode_exact_bytes() {
    // The low byte goes first on the wire.
    let mut acc = BitAcc::new();
    0x0100u16.write(&mut acc, EmptyCtx).unwrap();
    assert_eq!(acc.into_bytes(), vec![0x00, 0x01]);
}

#[test]
fn test_word_decode_leaves_rest() {
    let input: Vec<u8> = vec![0xEF, 0xBE, 0xAD];
    let cursor = BitCursor::from_bytes(&input);
    let (rest, v) = u16::read(cursor, EmptyCtx).unwrap();
    assert_eq!(v, 0xBEEF);
    assert_eq!(rest.remaining(), 8);
    let byte_back: bool = rest.bit_at(0);
    assert!(byte_back);
}
