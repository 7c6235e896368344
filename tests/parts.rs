use utf_store::format::{decode_entry, encode_entry, encode_header, initial_header};
use utf_store::store::{mapping_covers, page_touch_offsets};
use utf_store::{Cache, EntryLocation, Index, PufEntry};

#[test]
fn header_bytes_are_little_endian() {
    let mut h = initial_header();
    h.entry_count = 0x0102;
    h.version = 0x0A0B0C0D;
    let b = encode_header(&h);
    assert_eq!(b, vec![b'P', b'U', b'F', b'1', 0x0D, 0x0C, 0x0B, 0x0A, 0x02, 0x01, 0, 0, 0, 0, 0, 0]);
}

#[test]
fn entry_round_trips() {
    let e = PufEntry { offset: 0x1122334455667788, length: 9, _pad: 0, hash: 0xDEADBEEF };
    let mut bytes = vec![0xAAu8; 3];
    bytes.extend_from_slice(&encode_entry(&e));
    assert_eq!(bytes.len(), 27);
    assert_eq!(&bytes[3..11], &[0x88, 0x77, 0x66, 0x55, 0x44, 0x33, 0x22, 0x11]);
    let d = decode_entry(&bytes, 3);
    assert_eq!((d.offset, d.length, d._pad, d.hash), (e.offset, e.length, e._pad, e.hash));
}

#[test]
fn index_insert_get_len() {
    let mut ix = Index::new();
    assert_eq!(ix.len(), 0);
    assert!(!ix.contains(5));
    ix.insert(5, 100, 7);
    ix.insert(6, 200, 8);
    ix.insert(5, 300, 9);
    assert_eq!(ix.len(), 2);
    assert!(ix.contains(5));
    assert_eq!(ix.get(5), Some(EntryLocation { offset: 300, length: 9 }));
    assert_eq!(ix.get(7), None);
    assert_eq!(Index::default().len(), 0);
}

#[test]
fn entry_location_end() {
    assert_eq!(EntryLocation { offset: 40, length: 5 }.end(), 45);
}

#[test]
fn cache_zero_capacity_holds_one() {
    let mut c = Cache::new(0);
    c.put(1, "one".to_string());
    c.put(2, "two".to_string());
    assert_eq!(c.get(1), None);
    assert_eq!(c.get(2).as_deref(), Some("two"));
}

#[test]
fn cache_evicts_least_recently_used() {
    let mut c = Cache::new(2);
    c.put(1, "a".to_string());
    c.put(2, "b".to_string());
    assert_eq!(c.get(1).as_deref(), Some("a"));
    c.put(3, "c".to_string());
    assert_eq!(c.get(2), None);
    assert_eq!(c.get(1).as_deref(), Some("a"));
    assert_eq!(c.get(3).as_deref(), Some("c"));
    c.put(1, "a2".to_string());
    assert_eq!(c.get(1).as_deref(), Some("a2"));
}

#[test]
fn mapping_cover_decisions() {
    assert!(!mapping_covers(None, 0));
    assert!(mapping_covers(Some(10), 10));
    assert!(!mapping_covers(Some(10), 11));
}

#[test]
fn page_offsets() {
    assert_eq!(page_touch_offsets(0), Vec::<u32>::new());
    assert_eq!(page_touch_offsets(1), vec![0, 0]);
    assert_eq!(page_touch_offsets(4096), vec![0, 4095]);
    assert_eq!(page_touch_offsets(4097), vec![0, 4096, 4096]);
    assert_eq!(page_touch_offsets(5000), vec![0, 4096, 4999]);
}
