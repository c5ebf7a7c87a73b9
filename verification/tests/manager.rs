use picana::picana_core::mmaped_file_manager::MmapedFileManager;
use picana::picana_core::Picana;
use picana::picana_core::dump_parser::ParseError;

#[test]
fn holds_at_most_three_dumps() {
    let mut m = MmapedFileManager::start();
    assert!(m.accepts_more());
    assert_eq!(m.add_file(b"a\nb".to_vec(), "one"), 2);
    assert_eq!(m.add_file(b"a\nb\nc".to_vec(), "two"), 3);
    assert_eq!(m.add_file(b"x".to_vec(), "three"), 1);
    assert!(!m.accepts_more());
    assert_eq!(m.add_file(b"y\nz".to_vec(), "four"), 0);
    assert_eq!(m.len_of("four"), Err("Meh!"));
    assert_eq!(m.add_file(b"y\nz".to_vec(), "one"), 0);
    assert_eq!(m.len_of("one"), Ok(2));
    assert_eq!(m.len_of("two"), Ok(3));
}

#[test]
fn same_key_is_replaced() {
    let mut m = MmapedFileManager::start();
    assert_eq!(m.add_file(b"a".to_vec(), "k"), 1);
    assert_eq!(m.add_file(b"b\nc\nd".to_vec(), "k"), 3);
    assert_eq!(m.len_of("k"), Ok(3));
    assert_eq!(m.line_at("k", 2), Ok("d"));
}

#[test]
fn reads_lines_back() {
    let mut m = MmapedFileManager::start();
    m.add_file(b"first\nsecond line\n".to_vec(), "dump");
    assert_eq!(m.bytes_at("dump", 0), Ok(&b"first"[..]));
    assert_eq!(m.bytes_at("dump", 1), Ok(&b"second line"[..]));
    assert_eq!(m.bytes_at("dump", 2), Ok(&b""[..]));
    assert_eq!(m.bytes_at("dump", 3), Err("Lookup failed!"));
    assert_eq!(m.bytes_at("other", 0), Err("Malformed line!"));
    assert_eq!(m.line_at("dump", 1), Ok("second line"));
    assert_eq!(m.line_at("dump", 7), Err("Lookup failed!"));
    assert_eq!(m.line_at("other", 0), Err("Malformed line"));
}

#[test]
fn invalid_utf8_line_is_refused_as_text() {
    let mut m = MmapedFileManager::start();
    m.add_file(vec![b'o', b'k', b'\n', 0xff, 0xfe], "bin");
    assert_eq!(m.line_at("bin", 0), Ok("ok"));
    assert_eq!(m.line_at("bin", 1), Err("Malformed line"));
    assert_eq!(m.bytes_at("bin", 1), Ok(&[0xffu8, 0xfe][..]));
}

#[test]
fn session_decodes_stored_lines() {
    let mut p = Picana::new();
    let dump = b"(1.000001) can0 123#0102\n(2.5) can1 7FF#R\nnot a frame\n".to_vec();
    assert_eq!(p.open("log", dump), 4);
    let (t, dev, f) = p.frame("log", 0).unwrap().unwrap();
    assert_eq!((t, dev), (1_000_001, "can0"));
    assert_eq!((f.id, f.data.clone()), (0x123, vec![1, 2]));
    let (t, dev, f) = p.frame("log", 1).unwrap().unwrap();
    assert_eq!((t, dev, f.remote), (2_000_005, "can1", true));
    assert_eq!(p.frame("log", 2).map(|o| o.is_some()), Err(ParseError::InvalidTimestamp));
    assert_eq!(p.frame("log", 3).map(|o| o.is_some()), Err(ParseError::InvalidTimestamp));
    assert!(p.frame("log", 4).unwrap().is_none());
    assert!(p.frame("nothing", 0).unwrap().is_none());
    assert_eq!(p.line("log", 1), Ok("(2.5) can1 7FF#R"));
}

#[test]
fn full_manager_ignores_any_dump() {
    let mut m = MmapedFileManager::start();
    for key in ["a", "b", "c"] {
        m.add_file(b"x\ny".to_vec(), key);
    }
    assert_eq!(m.add_file(vec![b'z', 0, b'\n'], "d"), 0);
    assert_eq!(m.len_of("d"), Err("Meh!"));
    assert_eq!(m.len_of("a"), Ok(2));
}
