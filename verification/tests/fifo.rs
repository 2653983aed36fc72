use evsieve::io::fifo::{linear_search, LineReader};

#[test]
fn line_reader_splits_across_reads() {
    let mut reader = LineReader::new();
    assert_eq!(reader.read_lines(b"toggle fo"), Vec::<String>::new());
    assert_eq!(reader.get_buffered_data(), &b"toggle fo".to_vec());
    assert_eq!(reader.read_lines(b"o\nsecond\nthi"), vec!["toggle foo".to_string(), "second".to_string()]);
    assert_eq!(reader.read_lines(b"rd\n"), vec!["third".to_string()]);
    assert!(reader.get_buffered_data().is_empty());
}

#[test]
fn line_reader_skips_invalid_utf8() {
    let mut reader = LineReader::new();
    assert_eq!(reader.read_lines(b"ok\n\xff\xfe\nalso\n"), vec!["ok".to_string(), "also".to_string()]);
}

#[test]
fn linear_search_finds_first() {
    assert_eq!(linear_search(b"ab\ncd\n", b'\n'), Some(2));
    assert_eq!(linear_search(b"abc", b'\n'), None);
}
