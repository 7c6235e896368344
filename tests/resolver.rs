use utf_store::format::{encode_header, initial_header, FormatError};
use utf_store::resolver::utf_id;
use utf_store::{Registration, Resolved, Resolver, UtfId};

fn open(file: &mut Vec<u8>) -> Resolver {
    let was_empty = file.is_empty();
    let r = Resolver::load_index(file).unwrap();
    if was_empty {
        file.extend_from_slice(&encode_header(&initial_header()));
    }
    assert_eq!(r.end() as usize, file.len());
    r
}

fn write(file: &mut Vec<u8>, reg: Registration) -> UtfId {
    if let Some(w) = reg.write {
        assert_eq!(w.offset as usize, file.len());
        file.extend_from_slice(&w.bytes);
    }
    reg.id
}

fn register(r: &mut Resolver, file: &mut Vec<u8>, s: &str) -> UtfId {
    let reg = r.register_utf(s);
    write(file, reg)
}

fn resolve(r: &mut Resolver, file: &[u8], id: UtfId) -> Option<String> {
    match r.resolve_utf(id)? {
        Resolved::Cached(s) => Some(s),
        Resolved::Mapped(l) => {
            Some(String::from_utf8(file[l.offset as usize..l.end() as usize].to_vec()).unwrap())
        }
    }
}

#[test]
fn concrete_scenario() {
    let mut file = Vec::new();
    let mut r = open(&mut file);
    let h = register(&mut r, &mut file, "hello");
    assert_eq!(resolve(&mut r, &file, h).as_deref(), Some("hello"));
    assert_eq!(register(&mut r, &mut file, "hello"), h);
    assert_eq!(r.stats().ram_index_entries, 1);
    let g = register(&mut r, &mut file, "world");
    assert_ne!(g, h);
    assert_eq!(resolve(&mut r, &file, g).as_deref(), Some("world"));
    assert_eq!(resolve(&mut r, &file, 999999), None);
}

#[test]
fn round_trip_various_texts() {
    let mut file = Vec::new();
    let mut r = open(&mut file);
    let texts = ["", "a", "hello world", "ñandú 日本語 🦀", "line\nbreak\ttab"];
    for t in texts.iter() {
        let id = register(&mut r, &mut file, t);
        assert_eq!(id, utf_id(t));
        assert_eq!(resolve(&mut r, &file, id).as_deref(), Some(*t));
    }
}

#[test]
fn register_twice_writes_once() {
    let mut file = Vec::new();
    let mut r = open(&mut file);
    let first = r.register_utf("same");
    assert!(first.write.is_some());
    let a = write(&mut file, first);
    let len_after_first = file.len();
    let second = r.register_utf("same");
    assert!(second.write.is_none());
    assert_eq!(second.id, a);
    assert_eq!(file.len(), len_after_first);
    assert_eq!(r.stats().ram_index_entries, 1);
}

#[test]
fn distinct_texts_distinct_ids() {
    let mut file = Vec::new();
    let mut r = open(&mut file);
    let a = register(&mut r, &mut file, "alpha");
    let b = register(&mut r, &mut file, "beta");
    let c = register(&mut r, &mut file, "alphabet");
    assert_ne!(a, b);
    assert_ne!(a, c);
    assert_ne!(b, c);
    assert_eq!(r.stats().ram_index_entries, 3);
}

#[test]
fn unknown_id_is_absent() {
    let mut file = Vec::new();
    let mut r = open(&mut file);
    assert!(r.resolve_utf(42).is_none());
    let id = register(&mut r, &mut file, "x");
    assert!(r.resolve_utf(id.wrapping_add(1)).is_none());
}

#[test]
fn growth_keeps_earlier_ids() {
    let mut file = Vec::new();
    let mut r = open(&mut file);
    let mut ids = Vec::new();
    for i in 0..300u32 {
        let text = format!("entry number {} {}", i, "z".repeat((i % 97) as usize * 50));
        ids.push((register(&mut r, &mut file, &text), text));
        if i % 50 == 0 {
            for (id, t) in ids.iter() {
                assert_eq!(resolve(&mut r, &file, *id).as_deref(), Some(t.as_str()));
            }
        }
    }
    assert!(file.len() > 3 * 4096);
    for (id, t) in ids.iter() {
        assert_eq!(resolve(&mut r, &file, *id).as_deref(), Some(t.as_str()));
    }
}

#[test]
fn cached_and_mapped_agree() {
    let mut file = Vec::new();
    let mut r = open(&mut file);
    let id = register(&mut r, &mut file, "warm me");
    let mapped = match r.resolve_utf(id) {
        Some(Resolved::Mapped(l)) => {
            String::from_utf8(file[l.offset as usize..l.end() as usize].to_vec()).unwrap()
        }
        _ => panic!("expected a mapped answer before warming"),
    };
    r.warm(id, mapped.clone());
    match r.resolve_utf(id) {
        Some(Resolved::Cached(s)) => assert_eq!(s, mapped),
        _ => panic!("expected a cached answer after warming"),
    }
    assert_eq!(resolve(&mut r, &file, id).as_deref(), Some("warm me"));
}

#[test]
fn repeated_registration_of_one_text() {
    let mut file = Vec::new();
    let mut r = open(&mut file);
    let mut ids = Vec::new();
    for _ in 0..16 {
        ids.push(register(&mut r, &mut file, "shared text"));
    }
    assert!(ids.iter().all(|i| *i == ids[0]));
    assert_eq!(r.stats().ram_index_entries, 1);
    assert_eq!(resolve(&mut r, &file, ids[0]).as_deref(), Some("shared text"));
}

#[test]
fn reload_rebuilds_index() {
    let mut file = Vec::new();
    let mut r = open(&mut file);
    let h = register(&mut r, &mut file, "hello");
    let g = register(&mut r, &mut file, "world!");
    let mut again = open(&mut file);
    assert_eq!(again.stats().ram_index_entries, 2);
    assert_eq!(resolve(&mut again, &file, h).as_deref(), Some("hello"));
    assert_eq!(resolve(&mut again, &file, g).as_deref(), Some("world!"));
    assert_eq!(register(&mut again, &mut file, "hello"), h);
    assert_eq!(again.stats().ram_index_entries, 2);
}

#[test]
fn empty_file_gets_fresh_header() {
    let mut file = Vec::new();
    let r = open(&mut file);
    assert_eq!(file, vec![b'P', b'U', b'F', b'1', 1, 0, 0, 0, 0, 0, 0, 0, 0, 0, 0, 0]);
    assert_eq!(r.end(), 16);
    assert_eq!(r.stats().ram_index_entries, 0);
}

#[test]
fn short_file_is_truncated_header() {
    assert!(matches!(Resolver::load_index(b"PUF1"), Err(FormatError::TruncatedHeader)));
}

#[test]
fn wrong_tag_is_bad_magic() {
    let mut file = encode_header(&initial_header());
    file[0] = b'X';
    assert!(matches!(Resolver::load_index(&file), Err(FormatError::BadMagic)));
}

#[test]
fn wrong_version_is_bad_version() {
    let mut file = encode_header(&initial_header());
    file[4] = 2;
    assert!(matches!(Resolver::load_index(&file), Err(FormatError::BadVersion)));
}

#[test]
fn cut_payload_is_bad_record() {
    let mut file = Vec::new();
    let mut r = open(&mut file);
    register(&mut r, &mut file, "hello");
    file.pop();
    assert!(matches!(Resolver::load_index(&file), Err(FormatError::BadRecord)));
}

#[test]
fn partial_record_is_bad_record() {
    let mut file = encode_header(&initial_header());
    file.extend_from_slice(&[0u8; 10]);
    assert!(matches!(Resolver::load_index(&file), Err(FormatError::BadRecord)));
}

#[test]
fn misplaced_record_is_bad_record() {
    let mut file = Vec::new();
    let mut r = open(&mut file);
    register(&mut r, &mut file, "hello");
    file[16] = file[16].wrapping_add(1);
    assert!(matches!(Resolver::load_index(&file), Err(FormatError::BadRecord)));
}

#[test]
fn registration_bytes_layout() {
    let mut file = Vec::new();
    let mut r = open(&mut file);
    let reg = r.register_utf("hi");
    let id = reg.id;
    let w = reg.write.unwrap();
    assert_eq!(w.offset, 16);
    let mut expected = Vec::new();
    expected.extend_from_slice(&40u64.to_le_bytes());
    expected.extend_from_slice(&2u32.to_le_bytes());
    expected.extend_from_slice(&0u32.to_le_bytes());
    expected.extend_from_slice(&id.to_le_bytes());
    expected.extend_from_slice(b"hi");
    assert_eq!(w.bytes, expected);
    assert_eq!(r.end(), 16 + 24 + 2);
}

#[test]
fn register_hashed_uses_given_id() {
    let mut file = Vec::new();
    let mut r = open(&mut file);
    let id = write(&mut file, r.register_hashed(7, "seven"));
    assert_eq!(id, 7);
    assert_eq!(resolve(&mut r, &file, 7).as_deref(), Some("seven"));
    assert!(r.register_hashed(7, "other").write.is_none());
}

#[test]
fn hash_of_empty_text() {
    assert_eq!(utf_id(""), 0xEF46DB3751D8E999);
    assert_ne!(utf_id("a"), utf_id("b"));
}

#[test]
fn prefetch_locations_skip_unknown() {
    let mut file = Vec::new();
    let mut r = open(&mut file);
    let a = register(&mut r, &mut file, "aa");
    let b = register(&mut r, &mut file, "bbbb");
    let locs = r.prefetch_locations(&[b, 12345, a]);
    assert_eq!(locs.len(), 2);
    assert_eq!((locs[0].offset, locs[0].length), (16 + 24 + 2 + 24, 4));
    assert_eq!((locs[1].offset, locs[1].length), (40, 2));
}
