use download_cli::text::{chars_of, last_path_segment, trim};

#[test]
fn trims_like_std() {
    for s in ["", "  ", " a ", "\t1\n", "\r\n2\r\n", "a b", "\u{3000}x\u{a0}", "\u{85}y\u{2028}", "z\u{200b}"] {
        assert_eq!(trim(s), s.trim(), "input {:?}", s);
    }
}

#[test]
fn last_segment_of_url() {
    for s in ["http://host/dir/file.tar.gz", "file", "http://host/", "", "/a", "a/b/c"] {
        assert_eq!(last_path_segment(s), s.split('/').rev().next().unwrap(), "input {:?}", s);
    }
}

#[test]
fn chars_in_order() {
    assert_eq!(chars_of("añb"), vec!['a', 'ñ', 'b']);
}
