use pagestore::error::StorageError;
use pagestore::row::{Row, ROW_SIZE};

fn row(id: u32, username: &str, email: &str) -> Row {
    Row { id, username: username.to_string(), email: email.to_string() }
}

#[test]
fn serialize_lays_out_id_and_padded_fields() {
    let bytes = row(0x0102_0304, "ab", "c@d").serialize();
    assert_eq!(bytes.len(), ROW_SIZE);
    assert_eq!(bytes.len(), 292);
    assert_eq!(&bytes[0..4], &[1u8, 2, 3, 4]);
    assert_eq!(&bytes[4..6], b"ab");
    assert!(bytes[6..36].iter().all(|b| *b == 0));
    assert_eq!(&bytes[36..39], b"c@d");
    assert!(bytes[39..292].iter().all(|b| *b == 0));
}

#[test]
fn deserialize_reads_big_endian_id() {
    let mut bytes = vec![0u8; 292];
    bytes[0] = 0x01;
    bytes[1] = 0x02;
    bytes[2] = 0x03;
    bytes[3] = 0x04;
    let r = Row::deserialize(bytes).unwrap();
    assert_eq!(r.id, 0x0102_0304);
    assert_eq!(r.id, 16_909_060);
    assert_eq!(r.username, "");
    assert_eq!(r.email, "");
}

#[test]
fn round_trip_plain_row() {
    let r = row(1, "alice", "alice@x.com");
    assert!(r.is_storable());
    assert_eq!(Row::deserialize(r.serialize()), Ok(r));
}

#[test]
fn round_trip_non_ascii_row() {
    let r = row(u32::MAX, "h\u{e9}llo \u{4e16}\u{754c}", "\u{1f600}@x.com");
    assert!(r.is_storable());
    assert_eq!(Row::deserialize(r.serialize()), Ok(r));
}

#[test]
fn round_trip_empty_texts() {
    let r = row(0, "", "");
    assert_eq!(Row::deserialize(r.serialize()), Ok(r));
}

#[test]
fn full_width_username_is_not_truncated() {
    let name = "abcdefghijklmnopqrstuvwxyz012345";
    assert_eq!(name.len(), 32);
    let r = row(7, name, "e@x.com");
    let bytes = r.serialize();
    assert_eq!(&bytes[4..36], name.as_bytes());
    assert_eq!(bytes[36], b'e');
    let back = Row::deserialize(bytes).unwrap();
    assert_eq!(back.username.len(), 32);
    assert_eq!(back.username, name);
    assert_eq!(back, r);
}

#[test]
fn full_width_email_is_not_truncated() {
    let mail = "m".repeat(256);
    let r = row(8, "u", &mail);
    let back = Row::deserialize(r.serialize()).unwrap();
    assert_eq!(back.email.len(), 256);
    assert_eq!(back, r);
}

#[test]
fn text_ends_at_first_zero_byte() {
    let mut bytes = vec![0u8; 292];
    bytes[4] = b'a';
    bytes[5] = b'b';
    bytes[6] = 0;
    bytes[7] = b'c';
    let r = Row::deserialize(bytes).unwrap();
    assert_eq!(r.username, "ab");
}

#[test]
fn invalid_text_is_a_corrupt_record() {
    let mut bytes = vec![0u8; 292];
    bytes[4] = 0xff;
    assert_eq!(Row::deserialize(bytes), Err(StorageError::CorruptRecord));
    let mut bytes = vec![0u8; 292];
    bytes[36] = 0xc3;
    assert_eq!(Row::deserialize(bytes), Err(StorageError::CorruptRecord));
}

#[test]
fn write_string_pads_and_keeps_the_rest() {
    let mut buf = vec![9u8; 12];
    Row::write_string(&mut buf, 2, 6, &"xy".to_string());
    assert_eq!(buf, vec![9, 9, b'x', b'y', 0, 0, 0, 0, 9, 9, 9, 9]);
}

#[test]
fn read_string_stops_at_field_boundary() {
    let buf = vec![b'a', b'b', b'c', b'd', b'e', b'f'];
    assert_eq!(Row::read_string(&buf, 1, 3), Ok("bcd".to_string()));
    assert_eq!(Row::read_string(&buf, 0, 0), Ok(String::new()));
    let buf = vec![b'a', 0xe2, 0x82, b'd'];
    assert_eq!(Row::read_string(&buf, 0, 4), Err(StorageError::CorruptRecord));
}

#[test]
fn is_storable_checks_both_widths() {
    assert!(row(1, &"a".repeat(32), &"b".repeat(256)).is_storable());
    assert!(!row(1, &"a".repeat(33), "b").is_storable());
    assert!(!row(1, "a", &"b".repeat(257)).is_storable());
    assert!(!row(1, &"\u{e9}".repeat(17), "b").is_storable());
}
