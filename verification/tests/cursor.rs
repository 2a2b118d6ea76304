use bbscript::{BBScriptError, ByteCursor};

#[test]
fn new_cursor_has_all_bytes_left() {
    let cursor = ByteCursor::from_vec(vec![1, 2, 3, 4, 5]);
    assert_eq!(cursor.remaining(), 5);
}

#[test]
fn cursor_over_bytes_has_all_bytes_left() {
    let cursor = ByteCursor::new(bytes::Bytes::from(vec![9u8, 8, 7]));
    assert_eq!(cursor.remaining(), 3);
}

#[test]
fn read_u32_le_is_little_endian() {
    let mut cursor = ByteCursor::from_vec(vec![0xA1, 0xA0, 0x09, 0x08, 0xFF]);
    assert!(matches!(cursor.read_u32_le(), Ok(0x0809_A0A1)));
    assert_eq!(cursor.remaining(), 1);
}

#[test]
fn read_u32_le_reaches_the_maximum() {
    let mut cursor = ByteCursor::from_vec(vec![0xFF, 0xFF, 0xFF, 0xFF]);
    assert!(matches!(cursor.read_u32_le(), Ok(u32::MAX)));
    assert_eq!(cursor.remaining(), 0);
}

#[test]
fn read_i32_le_is_twos_complement() {
    let mut cursor = ByteCursor::from_vec(vec![
        0xFF, 0xFF, 0xFF, 0xFF, 0x00, 0x00, 0x00, 0x80, 0xFF, 0xFF, 0xFF, 0x7F, 0xFE, 0xFF, 0xFF,
        0xFF, 0x07, 0x00, 0x00, 0x00,
    ]);
    assert!(matches!(cursor.read_i32_le(), Ok(-1)));
    assert!(matches!(cursor.read_i32_le(), Ok(i32::MIN)));
    assert!(matches!(cursor.read_i32_le(), Ok(i32::MAX)));
    assert!(matches!(cursor.read_i32_le(), Ok(-2)));
    assert!(matches!(cursor.read_i32_le(), Ok(7)));
    assert_eq!(cursor.remaining(), 0);
}

#[test]
fn read_u8_takes_one_byte() {
    let mut cursor = ByteCursor::from_vec(vec![0x2A, 0x2B]);
    assert!(matches!(cursor.read_u8(), Ok(0x2A)));
    assert!(matches!(cursor.read_u8(), Ok(0x2B)));
    assert!(matches!(cursor.read_u8(), Err(BBScriptError::UnexpectedEnd)));
}

#[test]
fn read_array_takes_the_front() {
    let mut cursor = ByteCursor::from_vec(vec![1, 2, 3, 4, 5]);
    let front = cursor.read_array::<3>();
    assert!(matches!(front, Ok([1, 2, 3])));
    assert_eq!(cursor.remaining(), 2);
    assert!(matches!(cursor.read_u8(), Ok(4)));
}

#[test]
fn read_bytes_takes_the_front_in_order() {
    let mut cursor = ByteCursor::from_vec(vec![10, 20, 30, 40]);
    let front = cursor.read_bytes(3);
    assert_eq!(front.ok(), Some(vec![10, 20, 30]));
    assert_eq!(cursor.remaining(), 1);
    assert!(matches!(cursor.read_u8(), Ok(40)));
}

#[test]
fn read_bytes_of_nothing_is_empty() {
    let mut cursor = ByteCursor::from_vec(vec![]);
    let front = cursor.read_bytes(0);
    assert_eq!(front.ok(), Some(vec![]));
    assert_eq!(cursor.remaining(), 0);
}

#[test]
fn skip_moves_on() {
    let mut cursor = ByteCursor::from_vec(vec![1, 2, 3, 4, 5]);
    assert!(cursor.skip(2).is_ok());
    assert_eq!(cursor.remaining(), 3);
    assert!(matches!(cursor.read_u8(), Ok(3)));
    assert!(cursor.skip(2).is_ok());
    assert_eq!(cursor.remaining(), 0);
}

#[test]
fn short_reads_fail_and_leave_the_cursor() {
    let mut cursor = ByteCursor::from_vec(vec![1, 2, 3]);
    assert!(matches!(cursor.read_u32_le(), Err(BBScriptError::UnexpectedEnd)));
    assert_eq!(cursor.remaining(), 3);
    assert!(matches!(cursor.read_i32_le(), Err(BBScriptError::UnexpectedEnd)));
    assert_eq!(cursor.remaining(), 3);
    assert!(matches!(cursor.read_array::<4>(), Err(BBScriptError::UnexpectedEnd)));
    assert_eq!(cursor.remaining(), 3);
    assert!(matches!(cursor.read_bytes(4), Err(BBScriptError::UnexpectedEnd)));
    assert_eq!(cursor.remaining(), 3);
    assert!(matches!(cursor.skip(4), Err(BBScriptError::UnexpectedEnd)));
    assert_eq!(cursor.remaining(), 3);
    assert!(matches!(cursor.read_u8(), Ok(1)));
}
