use download_cli::download::{
    accepts_ranges, chosen_file_name, finish_outcome, redirect_allowed, Answer, ExistsAnswer, Info, NumberedSearch,
    Outcome,
};

fn sample(task_count: u64, force: bool) -> Info {
    Info::new()
        .url("http://example.com/files/data.bin")
        .file_name("data.bin")
        .task_count(task_count)
        .force(force)
        .length(1000)
        .target_dir("out".to_string())
        .build()
}

#[test]
fn builder_keeps_settings() {
    let info = sample(4, true);
    assert_eq!(info.url(), "http://example.com/files/data.bin");
    assert_eq!(info.file_name(), "data.bin");
    assert_eq!(info.task_count(), 4);
    assert!(info.force());
    assert_eq!(info.length(), 1000);
    assert_eq!(info.target_dir(), "out");
    assert_eq!(info.target(), "out/data.bin");
    assert_eq!(info.last_byte(), 999);
}

#[test]
fn default_builder_is_empty() {
    let info = Info::new().build();
    assert_eq!(info.url(), "");
    assert_eq!(info.task_count(), 0);
    assert!(!info.force());
    assert_eq!(info.length(), 0);
    assert_eq!(info.target(), "");
}

#[test]
fn range_prompt_needed() {
    let multi = sample(4, false);
    assert!(multi.needs_range_prompt(false, 200));
    assert!(multi.needs_range_prompt(true, 206));
    assert!(!multi.needs_range_prompt(true, 200));
    assert!(!sample(1, false).needs_range_prompt(false, 206));
    assert!(!sample(4, true).needs_range_prompt(false, 206));
}

#[test]
fn range_prompt_answers() {
    let mut info = sample(4, false);
    assert_eq!(info.answer_range_prompt("1\n"), Answer::Proceed);
    assert_eq!(info.task_count(), 4);
    assert_eq!(info.answer_range_prompt(" 2 \n"), Answer::Proceed);
    assert_eq!(info.task_count(), 1);
    let mut info = sample(4, false);
    assert_eq!(info.answer_range_prompt("3\n"), Answer::Exit(0));
    assert_eq!(info.answer_range_prompt("yes\n"), Answer::Exit(1));
    assert_eq!(info.answer_range_prompt(""), Answer::Exit(1));
    assert_eq!(info.task_count(), 4);
}

#[test]
fn exists_prompt_answers() {
    assert_eq!(Info::answer_exists_prompt("1\n"), ExistsAnswer::CustomName);
    assert_eq!(Info::answer_exists_prompt("2\n"), ExistsAnswer::Numbered);
    assert_eq!(Info::answer_exists_prompt("+3\r\n"), ExistsAnswer::Cover);
    assert_eq!(Info::answer_exists_prompt("4\n"), ExistsAnswer::Exit(0));
    assert_eq!(Info::answer_exists_prompt("three\n"), ExistsAnswer::Exit(1));
}

#[test]
fn renaming_target() {
    let mut info = sample(1, false);
    info.use_custom_name("  other.bin \n");
    assert_eq!(info.target(), "out/other.bin");
    assert_eq!(info.numbered_name(1), "data.bin(1)");
    assert_eq!(info.numbered_target(12), "out/data.bin(12)");
    assert_ne!(info.numbered_name(1), info.numbered_name(11));
    info.use_numbered_name(3);
    assert_eq!(info.target(), "out/data.bin(3)");
    assert_eq!(info.file_name(), "data.bin");
}

#[test]
fn outcomes() {
    let info = sample(3, false);
    assert_eq!(info.outcome(2, true), Outcome::Incomplete);
    assert_eq!(info.outcome(3, false), Outcome::Interrupted);
    assert_eq!(info.outcome(3, true), Outcome::Complete);
    assert_eq!(finish_outcome(0, 0, true), Outcome::Complete);
}

#[test]
fn ranges_header() {
    assert!(accepts_ranges(Some("bytes")));
    assert!(!accepts_ranges(Some("none")));
    assert!(accepts_ranges(Some("None")));
    assert!(!accepts_ranges(None));
}

#[test]
fn redirects() {
    assert!(redirect_allowed(0));
    assert!(redirect_allowed(5));
    assert!(!redirect_allowed(6));
}

#[test]
fn file_name_choice() {
    assert_eq!(chosen_file_name("http://h/a/b.zip", ""), "b.zip");
    assert_eq!(chosen_file_name("http://h/a/b.zip", "c.zip"), "c.zip");
    assert_eq!(chosen_file_name("http://h/a/", ""), "");
}

#[test]
fn numbered_search_stops_at_first_free() {
    let taken = [true, true, false, true];
    let mut search = NumberedSearch::new();
    let mut tried = Vec::new();
    let free = loop {
        let n = search.number();
        tried.push(n);
        if let Some(k) = search.report(taken[(n - 1) as usize]) {
            break k;
        }
    };
    assert_eq!(tried, vec![1, 2, 3]);
    assert_eq!(free, 3);
    assert_eq!(search.number(), 3);
}

#[test]
fn setters_in_any_order_last_write_wins() {
    let a = Info::new().url("u1").task_count(2).url("u2").build();
    let b = Info::new().task_count(2).url("u2").build();
    assert_eq!((a.url(), a.task_count()), (b.url(), b.task_count()));
    let c = Info::new().file_name("f").target_dir("d".to_string()).build();
    let d = Info::new().target_dir("d".to_string()).file_name("f").build();
    assert_eq!(c.target(), d.target());
    assert_eq!(c.target(), "d/f");
}
