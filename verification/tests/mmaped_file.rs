use picana::picana_core::mmaped_file::MmapedFile;

#[test]
fn lookup_needs_an_index() {
    let f = MmapedFile::initialize(b"abc\n".to_vec());
    assert_eq!(f.lookup(0), Err("You need to index the file"));
    assert!(!f.is_indexed());
    assert_eq!(f.file_size(), 4);
}

#[test]
fn indexes_newline_separated_lines() {
    let mut f = MmapedFile::initialize(b"a\nbb\n\nccc".to_vec());
    assert_eq!(f.index(), 4);
    assert!(f.is_indexed());
    assert_eq!(f.lookup(0), Ok((0, 1)));
    assert_eq!(f.lookup(1), Ok((2, 2)));
    assert_eq!(f.lookup(2), Ok((5, 0)));
    assert_eq!(f.lookup(3), Ok((6, 3)));
    assert_eq!(f.lookup(4), Err("Lookup failed!"));
    assert_eq!(f.bytes(6, 3), b"ccc");
    assert_eq!(f.line_tree_len(), 4);
}

#[test]
fn trailing_newline_gives_an_empty_last_line() {
    let mut f = MmapedFile::initialize(b"a\n".to_vec());
    assert_eq!(f.index(), 2);
    assert_eq!(f.lookup(0), Ok((0, 1)));
    assert_eq!(f.lookup(1), Ok((2, 0)));
}

#[test]
fn leading_newline_is_skipped() {
    let mut f = MmapedFile::initialize(b"\nabc".to_vec());
    assert_eq!(f.index(), 1);
    assert_eq!(f.lookup(0), Ok((1, 3)));
    let mut g = MmapedFile::initialize(b"\n\nabc".to_vec());
    assert_eq!(g.index(), 2);
    assert_eq!(g.lookup(0), Ok((1, 0)));
    assert_eq!(g.lookup(1), Ok((2, 3)));
}

#[test]
fn empty_dump_has_no_lines() {
    let mut f = MmapedFile::initialize(Vec::new());
    assert_eq!(f.index(), 0);
    assert_eq!(f.lookup(0), Err("Lookup failed!"));
    let mut g = MmapedFile::initialize(b"\n".to_vec());
    assert_eq!(g.index(), 1);
    assert_eq!(g.lookup(0), Ok((1, 0)));
}

#[test]
fn indexing_twice_gives_the_same_table() {
    let mut f = MmapedFile::initialize(b"x\nyy\nzzz\n".to_vec());
    assert_eq!(f.index(), 4);
    assert_eq!(f.index(), 4);
    assert_eq!(f.lookup(2), Ok((5, 3)));
    assert_eq!(f.lookup(3), Ok((9, 0)));
    assert_eq!(f.line_tree_len(), 4);
}

#[test]
fn next_walks_the_lines_and_stops() {
    let mut f = MmapedFile::initialize(b"ab\ncd".to_vec());
    assert_eq!(f.next(), Some((0, 2)));
    assert_eq!(f.next(), Some((3, 2)));
    assert_eq!(f.next(), None);
    assert_eq!(f.next(), None);
}

#[test]
fn lines_joined_with_newlines_give_back_the_dump() {
    let dump = b"(1.0) can0 1#00\n(2.0) can0 2#01\n\n(3.0) can1 3#R".to_vec();
    let mut f = MmapedFile::initialize(dump.clone());
    let n = f.index();
    let mut joined: Vec<u8> = Vec::new();
    for i in 0..n {
        let (offset, length) = f.lookup(i).unwrap();
        let text = f.bytes(offset, length);
        assert!(!text.contains(&b'\n'));
        if i > 0 {
            joined.push(b'\n');
        }
        joined.extend_from_slice(text);
    }
    assert_eq!(joined, dump);
}

#[test]
fn index_continues_from_where_iteration_stands() {
    let mut f = MmapedFile::initialize(b"a\nb".to_vec());
    assert_eq!(f.next(), Some((0, 1)));
    assert_eq!(f.index(), 1);
    assert_eq!(f.lookup(0), Ok((2, 1)));
    assert_eq!(f.index(), 2);
    assert_eq!(f.lookup(0), Ok((0, 1)));
    assert_eq!(f.lookup(1), Ok((2, 1)));
}
