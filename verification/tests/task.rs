use download_cli::progress_show::ProgressTally;
use download_cli::task::{ChunkStep, TaskCursor};
use download_cli::unfinish_json::BreakPoint;

#[test]
fn chunks_are_written_back_to_back() {
    let mut c = TaskCursor::new(100, 199);
    assert_eq!(c.on_chunk(30, true), ChunkStep::Write(100));
    assert_eq!(c.on_chunk(20, true), ChunkStep::Write(130));
    assert_eq!(c.start_at, 150);
    assert_eq!(c.on_chunk(10, false), ChunkStep::Stop(BreakPoint { start: 150, end: 199 }));
    assert_eq!(c, TaskCursor { start_at: 150, end: 199 });
}

#[test]
fn progress_tally() {
    let mut t = ProgressTally::new(10, 20);
    assert_eq!(t.total, 10);
    assert!(t.wants_more());
    t.record(10);
    assert!(t.wants_more());
    t.record(1);
    assert!(!t.wants_more());
}
