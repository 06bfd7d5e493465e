use krilla::interchange::bytes_less;
use krilla::metadata::{pdf_date, DateTime};
use krilla::remap::{RefTable, RemapFault};
use krilla::util::{base64_encode, hash_base64, hash_item, to_be_bytes, Deferred};
use siphasher::sip128::SipHasher13;
use std::collections::HashMap;

#[test]
fn base64_encodes_known_vectors() {
    assert_eq!(base64_encode(b""), b"".to_vec());
    assert_eq!(base64_encode(b"M"), b"TQ==".to_vec());
    assert_eq!(base64_encode(b"Ma"), b"TWE=".to_vec());
    assert_eq!(base64_encode(b"Man"), b"TWFu".to_vec());
    assert_eq!(base64_encode(b"light work."), b"bGlnaHQgd29yay4=".to_vec());
    assert_eq!(base64_encode(&[0xfb, 0xff, 0xfe]), b"+//+".to_vec());
}

#[test]
fn big_endian_bytes_of_a_number() {
    assert_eq!(
        to_be_bytes(0x0102_0304_0506_0708_090a_0b0c_0d0e_0f10),
        vec![1, 2, 3, 4, 5, 6, 7, 8, 9, 10, 11, 12, 13, 14, 15, 16]
    );
    assert_eq!(to_be_bytes(0), vec![0; 16]);
    assert_eq!(to_be_bytes(u128::MAX), vec![0xff; 16]);
}

#[test]
fn hash_is_that_of_siphash_1_3() {
    let data = b"the quick brown fox";
    assert_eq!(hash_item(data), SipHasher13::new().hash(data).as_u128());
    assert_ne!(hash_item(b"a"), hash_item(b"b"));
    assert_eq!(hash_item(b"a"), hash_item(b"a"));
}

#[test]
fn hash_in_base64_has_24_characters() {
    let text = hash_base64(b"some bytes");
    assert_eq!(text.len(), 24);
    assert!(text.ends_with(b"=="));
    assert_eq!(text, base64_encode(&to_be_bytes(hash_item(b"some bytes"))));
}

#[test]
fn deferred_slot_hands_out_its_value() {
    let slot = Deferred::new(7u32);
    assert_eq!(*slot.wait(), 7);
    let mut slot = Deferred::new(vec![1u8]);
    slot.wait_mut().push(2);
    assert_eq!(slot.wait(), &vec![1u8, 2]);
}

#[test]
fn bytes_are_ordered_as_in_a_dictionary() {
    assert!(bytes_less(b"a", b"b"));
    assert!(!bytes_less(b"b", b"a"));
    assert!(bytes_less(b"", b"a"));
    assert!(!bytes_less(b"a", b""));
    assert!(!bytes_less(b"abc", b"abc"));
    assert!(bytes_less(b"ab", b"abc"));
    assert!(bytes_less(b"abc", b"abd"));
    assert!(bytes_less(b"Z", b"a"));
}

#[test]
fn date_is_written_as_far_as_it_is_known() {
    assert_eq!(pdf_date(DateTime::new(2024)), b"D:2024".to_vec());
    let mut date = DateTime::new(2024);
    date.month = Some(1);
    date.day = Some(2);
    assert_eq!(pdf_date(date), b"D:20240102".to_vec());
    date.hour = Some(3);
    date.minute = Some(4);
    date.second = Some(5);
    assert_eq!(pdf_date(date), b"D:20240102030405".to_vec());
}

#[test]
fn date_skips_what_follows_an_unknown_field() {
    let mut date = DateTime::new(1999);
    date.day = Some(2);
    date.hour = Some(3);
    assert_eq!(pdf_date(date), b"D:1999".to_vec());
}

#[test]
fn date_keeps_every_field_within_its_range() {
    let mut date = DateTime::new(12345);
    date.month = Some(0);
    date.day = Some(99);
    date.hour = Some(24);
    date.minute = Some(60);
    date.second = Some(61);
    assert_eq!(pdf_date(date), b"D:99990131235959".to_vec());
    let mut date = DateTime::new(7);
    date.month = Some(13);
    assert_eq!(pdf_date(date), b"D:000712".to_vec());
}

#[test]
fn date_matches_what_pdf_writer_writes() {
    let mut date = DateTime::new(2021);
    date.month = Some(12);
    date.day = Some(31);
    date.hour = Some(23);
    date.minute = Some(59);
    date.second = Some(58);
    let mut expected = pdf_writer::Chunk::new();
    expected.indirect(pdf_writer::Ref::new(1)).primitive(
        pdf_writer::Date::new(2021).month(12).day(31).hour(23).minute(59).second(58),
    );
    let mut found = pdf_writer::Chunk::new();
    found
        .indirect(pdf_writer::Ref::new(1))
        .primitive(pdf_writer::Str(&pdf_date(date)));
    assert_eq!(found.as_bytes(), expected.as_bytes());
}

#[test]
fn fixed_table_answers_for_its_entries_only() {
    let mut entries = HashMap::new();
    entries.insert(10, 1);
    entries.insert(17, 2);
    let mut table = RefTable::fixed(entries);
    assert_eq!(table.resolve(10), 1);
    assert_eq!(table.resolve(17), 2);
    assert!(table.fault().is_none());
    assert_eq!(table.resolve(5), 1);
    assert!(matches!(table.fault(), Some(RemapFault::Unknown(5))));
    assert_eq!(table.resolve(6), 1);
    assert!(matches!(table.fault(), Some(RemapFault::Unknown(5))));
    assert_eq!(table.get(10), Some(1));
    assert_eq!(table.get(5), None);
    assert_eq!(table.fresh(), None);
}

#[test]
fn growing_table_hands_out_the_next_references() {
    let mut entries = HashMap::new();
    entries.insert(3, 40);
    let mut table = RefTable::growing(entries, 100);
    assert_eq!(table.resolve(3), 40);
    assert_eq!(table.resolve(8), 100);
    assert_eq!(table.resolve(9), 101);
    assert_eq!(table.resolve(8), 100);
    assert_eq!(table.fresh(), Some(102));
    assert!(table.fault().is_none());
}

#[test]
fn growing_table_runs_out_of_references() {
    let mut table = RefTable::growing(HashMap::new(), i32::MAX - 1);
    assert_eq!(table.resolve(1), i32::MAX - 1);
    assert!(table.fault().is_none());
    assert_eq!(table.resolve(2), 1);
    assert!(matches!(table.fault(), Some(RemapFault::Exhausted)));
    assert_eq!(table.resolve(1), i32::MAX - 1);
}
