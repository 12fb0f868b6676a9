use download_cli::unfinish_json::{BreakPoint, FileInfo, Json, UnfinishFile, UnfinishFiles};

fn info(name: &str, size: u64, target: &str, points: &[(u64, u64)]) -> FileInfo {
    FileInfo {
        name: name.to_string(),
        size,
        target: target.to_string(),
        break_point: points.iter().map(|&(start, end)| BreakPoint { start, end }).collect(),
    }
}

fn names(u: &UnfinishFiles) -> Vec<String> {
    u.files.iter().map(|f| f.file.name.clone()).collect()
}

#[test]
fn record_path_is_in_directory() {
    let json = Json::new("/tmp/dl".to_string());
    assert_eq!(json.path, "/tmp/dl/unfinish.json");
    let json = Json::new("dir/".to_string());
    assert_eq!(json.path, "dir/unfinish.json");
}

#[test]
fn save_point_starts_a_record() {
    let json = Json::new("d".to_string());
    let mut fi = info("a.bin", 100, "d/a.bin", &[(10, 49), (60, 99)]);
    let saved = json.save_point(None, &mut fi);
    assert_eq!(saved.files.len(), 1);
    assert_eq!(saved.files[0].file.name, "a.bin");
    assert_eq!(saved.files[0].file.break_point, vec![BreakPoint { start: 10, end: 49 }, BreakPoint { start: 60, end: 99 }]);
    assert!(fi.break_point.is_empty());
    assert_eq!(fi.name, "a.bin");
    assert_eq!(fi.size, 100);
}

#[test]
fn save_point_appends_and_is_found() {
    let json = Json::new("d".to_string());
    let mut a = info("a", 1, "d/a", &[(0, 0)]);
    let mut b = info("b", 2, "d/b", &[(1, 1)]);
    let saved = json.save_point(None, &mut a);
    let saved = json.save_point(Some(saved), &mut b);
    assert_eq!(names(&saved), vec!["a", "b"]);
    assert_eq!(json.search(&saved, "b"), Some(1));
    assert_eq!(json.search(&saved, "a"), Some(0));
    assert_eq!(json.search(&saved, "c"), None);
}

#[test]
fn search_finds_first_of_equal_names() {
    let json = Json::new("d".to_string());
    let saved = UnfinishFiles {
        files: vec![
            UnfinishFile { file: info("x", 1, "t1", &[]) },
            UnfinishFile { file: info("y", 2, "t2", &[]) },
            UnfinishFile { file: info("y", 3, "t3", &[]) },
        ],
    };
    assert_eq!(json.search(&saved, "y"), Some(1));
}

#[test]
fn delete_earlier_single_entry_removes_record() {
    let json = Json::new("d".to_string());
    let saved = UnfinishFiles { files: vec![UnfinishFile { file: info("x", 1, "t1", &[]) }] };
    assert!(json.delete_earlier(saved, "whatever").is_none());
}

#[test]
fn delete_earlier_removes_first_named() {
    let json = Json::new("d".to_string());
    let saved = UnfinishFiles {
        files: vec![
            UnfinishFile { file: info("x", 1, "t1", &[]) },
            UnfinishFile { file: info("y", 2, "t2", &[]) },
            UnfinishFile { file: info("y", 3, "t3", &[]) },
        ],
    };
    let left = json.delete_earlier(saved, "y").unwrap();
    assert_eq!(names(&left), vec!["x", "y"]);
    assert_eq!(left.files[1].file.size, 3);
}

#[test]
fn delete_undoes_save() {
    let json = Json::new("d".to_string());
    let mut a = info("a", 1, "d/a", &[(0, 0)]);
    let mut b = info("b", 2, "d/b", &[(1, 1)]);
    let saved = json.save_point(None, &mut a);
    let saved = json.save_point(Some(saved), &mut b);
    let left = json.delete_earlier(saved, "b").unwrap();
    assert_eq!(names(&left), vec!["a"]);
    assert_eq!(left.files[0].file.break_point, vec![BreakPoint { start: 0, end: 0 }]);
}

#[test]
fn find_resumable_matches_target_and_size() {
    let saved = UnfinishFiles {
        files: vec![
            UnfinishFile { file: info("x", 1, "t", &[]) },
            UnfinishFile { file: info("x", 2, "t", &[]) },
            UnfinishFile { file: info("x", 2, "t", &[]) },
        ],
    };
    assert_eq!(saved.find_resumable("t", 2), Some(1));
    assert_eq!(saved.find_resumable("t", 3), None);
    assert_eq!(saved.find_resumable("u", 1), None);
}

#[test]
fn remove_entry_takes_it_out() {
    let mut saved = UnfinishFiles {
        files: vec![
            UnfinishFile { file: info("x", 1, "t1", &[]) },
            UnfinishFile { file: info("y", 2, "t2", &[]) },
        ],
    };
    let gone = saved.remove_entry(0);
    assert_eq!(gone.file.target, "t1");
    assert_eq!(names(&saved), vec!["y"]);
}

#[test]
fn resume_record_drops_points() {
    let fi = info("a", 10, "d/a", &[(1, 2)]);
    let r = fi.resume_record();
    assert_eq!((r.name.as_str(), r.size, r.target.as_str()), ("a", 10, "d/a"));
    assert!(r.break_point.is_empty());
}

#[test]
fn delete_entry_keeps_or_drops_record() {
    let json = Json::new("d".to_string());
    let saved = UnfinishFiles {
        files: vec![
            UnfinishFile { file: info("x", 1, "t1", &[]) },
            UnfinishFile { file: info("y", 2, "t2", &[]) },
        ],
    };
    let (gone, left) = json.delete_entry(saved, 1);
    assert_eq!(gone.file.target, "t2");
    let left = left.unwrap();
    assert_eq!(names(&left), vec!["x"]);
    let (gone, left) = json.delete_entry(left, 0);
    assert_eq!(gone.file.name, "x");
    assert!(left.is_none());
}
