use std::collections::BTreeMap;

use clipboard_sync::config::Config;
use clipboard_sync::file_handlers::{
    cache_after, ClipboardAction, Event, ExchangeError, FileHandler, Outcome, Progress, Request,
};

fn handler(local: &str, remotes: &[&str]) -> FileHandler {
    FileHandler::new(Config {
        local_name: local.to_string(),
        remote_names: remotes.iter().map(|s| s.to_string()).collect(),
        dir_name: "/shared".to_string(),
    })
}

fn names(v: &[&str]) -> Vec<String> {
    v.iter().map(|s| s.to_string()).collect()
}

/// Drives a session against an in-memory directory in which every request
/// that can succeed does.
fn drive(
    h: &FileHandler,
    start: Progress<String>,
    dir: &mut BTreeMap<String, String>,
) -> Result<Outcome<String>, ExchangeError<String>> {
    let mut progress = start;
    loop {
        match progress {
            Progress::Complete(r) => return r,
            Progress::Pending(phase, request) => {
                let event = match request {
                    Request::ListFiles => Event::Listed(dir.keys().cloned().collect()),
                    Request::ReadFile(n) => match dir.get(&n) {
                        Some(c) => Event::Read(c.clone()),
                        None => Event::Failed,
                    },
                    Request::RemoveFile(n) => match dir.remove(&n) {
                        Some(_) => Event::Done,
                        None => Event::Failed,
                    },
                    Request::WriteFile(n, c) => {
                        dir.insert(n, c);
                        Event::Done
                    }
                };
                progress = h.advance(phase, event);
            }
        }
    }
}

fn load(h: &FileHandler, dir: &mut BTreeMap<String, String>) -> Result<Outcome<String>, ExchangeError<String>> {
    let start = h.start_load();
    drive(h, start, dir)
}

fn store(
    h: &FileHandler,
    dir: &mut BTreeMap<String, String>,
    content: &str,
    timestamp: u64,
) -> Result<Outcome<String>, ExchangeError<String>> {
    let start = h.start_store(content.to_string(), timestamp);
    drive(h, start, dir)
}

#[test]
fn empty_directory_then_store_then_load() {
    let a = handler("A", &["B"]);
    let b = handler("B", &["A"]);
    let mut dir = BTreeMap::new();
    let mut cache = Some("stale".to_string());

    let first = load(&a, &mut dir).unwrap();
    assert!(matches!(first, Outcome::NothingToAdopt));
    cache = cache_after(cache, first);
    assert_eq!(cache, None);

    assert!(matches!(store(&b, &mut dir, "hello", 1000).unwrap(), Outcome::Published));
    assert_eq!(dir.len(), 1);
    assert_eq!(dir.get("clipboard-B-1000.tmp").map(|s| s.as_str()), Some("hello"));

    let second = load(&a, &mut dir).unwrap();
    assert!(matches!(&second, Outcome::Adopted(c) if c == "hello"));
    cache = cache_after(cache, second);
    assert_eq!(cache, Some("hello".to_string()));
    assert!(dir.is_empty());
}

#[test]
fn round_trip_returns_exact_text_and_removes_file() {
    let b = handler("laptop", &["desk"]);
    let a = handler("desk", &["laptop"]);
    let mut dir = BTreeMap::new();
    dir.insert("notes.txt".to_string(), "unrelated".to_string());
    let text = "line one\nline two\twith tab ü";
    store(&b, &mut dir, text, 1700000000).unwrap();
    let got = load(&a, &mut dir).unwrap();
    assert!(matches!(&got, Outcome::Adopted(c) if c == text));
    assert!(!dir.contains_key("clipboard-laptop-1700000000.tmp"));
    assert!(dir.contains_key("notes.txt"));
}

#[test]
fn most_recent_publication_wins_and_other_stays() {
    let h = handler("me", &["win"]);
    let mut dir = BTreeMap::new();
    dir.insert("clipboard-win-100.tmp".to_string(), "old".to_string());
    dir.insert("clipboard-win-200.tmp".to_string(), "new".to_string());
    dir.insert("clipboard-me-50.tmp".to_string(), "mine".to_string());
    let got = load(&h, &mut dir).unwrap();
    assert!(matches!(&got, Outcome::Adopted(c) if c == "new"));
    assert!(dir.contains_key("clipboard-win-100.tmp"));
    assert!(!dir.contains_key("clipboard-win-200.tmp"));
    assert!(!dir.contains_key("clipboard-me-50.tmp"));
    assert_eq!(dir.len(), 1);
}

#[test]
fn newest_selection_ignores_listing_order() {
    let h = handler("me", &["win"]);
    let files = names(&["clipboard-win-200.tmp", "clipboard-win-100.tmp"]);
    assert_eq!(h.get_file_to_load(&files).unwrap(), Some("clipboard-win-200.tmp".to_string()));
    let files = names(&["clipboard-win-100.tmp", "clipboard-win-200.tmp"]);
    assert_eq!(h.get_file_to_load(&files).unwrap(), Some("clipboard-win-200.tmp".to_string()));
}

#[test]
fn equal_timestamps_first_listed_wins() {
    let h = handler("me", &["a", "b"]);
    let files = names(&["clipboard-b-7.tmp", "clipboard-a-7.tmp"]);
    assert_eq!(h.get_file_to_load(&files).unwrap(), Some("clipboard-b-7.tmp".to_string()));
}

#[test]
fn timestamp_zero_is_adopted() {
    let h = handler("me", &["win"]);
    let files = names(&["clipboard-win-0.tmp"]);
    assert_eq!(h.get_file_to_load(&files).unwrap(), Some("clipboard-win-0.tmp".to_string()));
}

#[test]
fn prefix_name_does_not_claim_longer_name() {
    let h = handler("me", &["win", "win2"]);
    let files = names(&["clipboard-win2-555.tmp"]);
    assert_eq!(h.get_file_to_load(&files).unwrap(), Some("clipboard-win2-555.tmp".to_string()));
    let only_win = handler("me", &["win"]);
    assert_eq!(only_win.get_file_to_load(&files).unwrap(), None);
}

#[test]
fn own_publication_never_loaded() {
    let h = handler("me", &["other"]);
    let mut dir = BTreeMap::new();
    dir.insert("clipboard-me-900.tmp".to_string(), "mine".to_string());
    dir.insert("clipboard-other-10.tmp".to_string(), "theirs".to_string());
    let got = load(&h, &mut dir).unwrap();
    assert!(matches!(&got, Outcome::Adopted(c) if c == "theirs"));
    let files = names(&["clipboard-me-900.tmp"]);
    assert_eq!(h.get_file_to_load(&files).unwrap(), None);
}

#[test]
fn anomalous_file_is_skipped() {
    let h = handler("me", &["win"]);
    let files = names(&["clipboard-win-notanumber", "clipboard-win-42.tmp"]);
    assert_eq!(h.get_file_to_load(&files).unwrap(), Some("clipboard-win-42.tmp".to_string()));
    let mut dir = BTreeMap::new();
    dir.insert("clipboard-win-notanumber".to_string(), "?".to_string());
    dir.insert("clipboard-win-42.tmp".to_string(), "ok".to_string());
    let got = load(&h, &mut dir).unwrap();
    assert!(matches!(&got, Outcome::Adopted(c) if c == "ok"));
    assert!(dir.contains_key("clipboard-win-notanumber"));
}

#[test]
fn corrupt_timestamp_fails_the_load() {
    let h = handler("me", &["win"]);
    let files = names(&["clipboard-win-42.tmp", "clipboard-win-abc.tmp"]);
    match h.get_file_to_load(&files) {
        Err(ExchangeError::CorruptTimestamp(n)) => assert_eq!(n, "clipboard-win-abc.tmp"),
        other => panic!("unexpected {:?}", other),
    }
}

#[test]
fn foreign_files_are_ignored() {
    let h = handler("me", &["win"]);
    let files = names(&["readme.md", "clipboard-linux-5.tmp", "clipboardwin-5.tmp"]);
    assert_eq!(h.get_file_to_load(&files).unwrap(), None);
}

#[test]
fn store_twice_leaves_one_own_file() {
    let h = handler("me", &["win"]);
    let mut dir = BTreeMap::new();
    store(&h, &mut dir, "first", 10).unwrap();
    store(&h, &mut dir, "second", 20).unwrap();
    let own: Vec<&String> = dir.keys().filter(|k| k.starts_with("clipboard-me-")).collect();
    assert_eq!(own, vec!["clipboard-me-20.tmp"]);
    assert_eq!(dir["clipboard-me-20.tmp"], "second");
}

#[test]
fn only_first_own_file_is_reclaimed() {
    let h = handler("me", &["win"]);
    let files = names(&["x", "clipboard-me-1.tmp", "clipboard-me-2.tmp"]);
    assert_eq!(h.own_file(&files), Some("clipboard-me-1.tmp".to_string()));
    assert_eq!(h.own_file(&names(&["clipboard-mine-1.tmp"])), None);
}

#[test]
fn unreadable_directory_is_fatal() {
    let h = handler("me", &["win"]);
    let p = h.start_load();
    let Progress::Pending(phase, Request::ListFiles) = p else { panic!("expected a listing") };
    assert!(matches!(h.advance(phase, Event::Failed), Progress::Complete(Err(ExchangeError::DirectoryUnreadable))));
}

#[test]
fn failed_read_and_write_are_fatal() {
    let h = handler("me", &["win"]);
    let p = h.advance(
        clipboard_sync::file_handlers::Phase::LoadListing,
        Event::Listed(names(&["clipboard-win-3.tmp"])),
    );
    let Progress::Pending(phase, Request::ReadFile(n)) = p else { panic!("expected a read") };
    assert_eq!(n, "clipboard-win-3.tmp");
    match h.advance(phase, Event::Failed) {
        Progress::Complete(Err(ExchangeError::ReadFailed(n))) => assert_eq!(n, "clipboard-win-3.tmp"),
        other => panic!("unexpected {:?}", other),
    }
    let p = h.advance(
        clipboard_sync::file_handlers::Phase::StoreListing { content: "x".to_string(), timestamp: 9 },
        Event::Listed(Vec::new()),
    );
    let Progress::Pending(phase, Request::WriteFile(n, c)) = p else { panic!("expected a write") };
    assert_eq!((n.as_str(), c.as_str()), ("clipboard-me-9.tmp", "x"));
    match h.advance(phase, Event::Failed) {
        Progress::Complete(Err(ExchangeError::WriteFailed(n))) => assert_eq!(n, "clipboard-me-9.tmp"),
        other => panic!("unexpected {:?}", other),
    }
}

#[test]
fn failed_removals_are_tolerated() {
    let h = handler("me", &["win"]);
    let p = h.advance(
        clipboard_sync::file_handlers::Phase::LoadCleanupListing {
            remote: "clipboard-win-3.tmp".to_string(),
            content: "c".to_string(),
        },
        Event::Listed(names(&["clipboard-me-1.tmp", "clipboard-win-3.tmp"])),
    );
    let Progress::Pending(phase, Request::RemoveFile(n)) = p else { panic!("expected a removal") };
    assert_eq!(n, "clipboard-me-1.tmp");
    let Progress::Pending(phase, Request::RemoveFile(n)) = h.advance(phase, Event::Failed) else {
        panic!("expected a removal")
    };
    assert_eq!(n, "clipboard-win-3.tmp");
    assert!(matches!(h.advance(phase, Event::Failed), Progress::Complete(Ok(Outcome::Adopted(c))) if c == "c"));
}

#[test]
fn store_keeps_cache() {
    assert_eq!(cache_after(Some("kept".to_string()), Outcome::Published), Some("kept".to_string()));
    assert_eq!(cache_after(None, Outcome::Adopted("new".to_string())), Some("new".to_string()));
    assert_eq!(cache_after(Some("x".to_string()), Outcome::NothingToAdopt), None);
}

#[test]
fn file_path_joins_directory_and_name() {
    let h = handler("me", &["win"]);
    assert_eq!(h.file_path("clipboard-me-1.tmp"), "/shared/clipboard-me-1.tmp");
}

#[test]
fn actions_carry_their_text() {
    let a = ClipboardAction::Store("t".to_string());
    assert!(matches!(a, ClipboardAction::Store(ref s) if s == "t"));
    assert!(matches!(ClipboardAction::TryLoad, ClipboardAction::TryLoad));
}
