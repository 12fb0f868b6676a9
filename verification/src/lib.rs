//! A resumable, multi-task HTTP downloader: the byte ranges each task
//! fetches, the record of unfinished downloads that lets a later run resume,
//! and the decisions taken around them.
pub mod text;
pub mod decimal;
pub mod range_iter;
pub mod paths;
pub mod unfinish_json;
pub mod download;
pub mod task;
pub mod progress_show;
