use download_cli::range_iter::{pieces_end_in_range, range_header, range_header_value, RangeIter};

fn collect(start: u64, end: u64, count: u64) -> Vec<(String, u64, u64)> {
    let mut it = RangeIter::new(start, end, count);
    let mut out = Vec::new();
    while let Some((h, a, b)) = it.next() {
        out.push((h.to_str().unwrap().to_string(), a, b));
    }
    out
}

#[test]
fn pieces_split_evenly_with_rest_in_last() {
    let got = collect(0, 99, 3);
    assert_eq!(
        got,
        vec![
            ("bytes=0-32".to_string(), 0, 32),
            ("bytes=33-65".to_string(), 33, 65),
            ("bytes=66-99".to_string(), 66, 99),
        ]
    );
}

#[test]
fn single_task_takes_whole_range() {
    assert_eq!(collect(5, 5, 1), vec![("bytes=5-5".to_string(), 5, 5)]);
    assert_eq!(collect(10, 1000, 1), vec![("bytes=10-1000".to_string(), 10, 1000)]);
}

#[test]
fn pieces_are_contiguous_and_cover_range() {
    for &(s, e, n) in &[(0u64, 1023u64, 4u64), (7, 100, 9), (1, 2, 2), (0, 10, 10), (3, 1_000_003, 7)] {
        let got = collect(s, e, n);
        assert_eq!(got.len() as u64, n);
        assert_eq!(got[0].1, s);
        assert_eq!(got[got.len() - 1].2, e);
        for w in got.windows(2) {
            assert_eq!(w[1].1, w[0].2 + 1);
        }
        let total: u64 = got.iter().map(|(_, a, b)| b - a + 1).sum();
        assert_eq!(total, e - s + 1);
    }
}

#[test]
fn exhausted_iterator_stays_exhausted() {
    let mut it = RangeIter::new(0, 9, 2);
    assert!(it.next().is_some());
    assert!(it.next().is_some());
    assert!(it.next().is_none());
    assert!(it.next().is_none());
}

#[test]
fn empty_pieces_when_range_smaller_than_task_count() {
    // Pieces of zero size start at the same byte and end one before it.
    let got = collect(4, 5, 3);
    assert_eq!(got.iter().map(|p| (p.1, p.2)).collect::<Vec<_>>(), vec![(4, 3), (4, 3), (4, 5)]);
}

#[test]
fn pieces_end_check() {
    assert!(pieces_end_in_range(0, 99, 3));
    assert!(pieces_end_in_range(0, 1, 1));
    assert!(pieces_end_in_range(3, 4, 5));
    assert!(!pieces_end_in_range(0, 1, 5));
}

#[test]
fn range_header_text() {
    assert_eq!(range_header(0, 0), "bytes=0-0");
    assert_eq!(range_header(1234567890, 18446744073709551615), "bytes=1234567890-18446744073709551615");
    assert_eq!(range_header_value(12, 340).to_str().unwrap(), "bytes=12-340");
}

#[test]
fn kth_piece_and_count() {
    let (s, e, n) = (10u64, 1009u64, 7u64);
    let b = (e - s) / n;
    let mut it = RangeIter::new(s, e, n);
    for k in 1..=n {
        let (h, lo, hi) = it.next().unwrap();
        assert_eq!(lo, s + (k - 1) * b);
        assert_eq!(hi, if k == n { e } else { s + k * b - 1 });
        assert_eq!(h.to_str().unwrap(), format!("bytes={}-{}", lo, hi));
    }
    for _ in 0..3 {
        assert!(it.next().is_none());
    }
}
