use regex_sort::scan::{DirEntry, ScanAction, ScanEvent, Scanner};

fn entry(path: &str, is_file: bool) -> DirEntry {
    DirEntry { path: path.to_string(), is_file }
}

fn expect_read(s: &mut Scanner, want: &str) {
    match s.next_action() {
        ScanAction::ReadDir { path } => assert_eq!(path, want),
        _ => panic!("expected a directory to read"),
    }
}

#[test]
fn walk_is_depth_first_in_listing_order() {
    let mut s = Scanner::new(&"src".to_string());
    expect_read(&mut s, "src");
    s.report(ScanEvent::Listed(vec![
        entry("src/a.bin", true),
        entry("src/sub", false),
        entry("src/c.d", true),
    ]));
    expect_read(&mut s, "src/sub");
    s.report(ScanEvent::Listed(vec![entry("src/sub/b.bin", true), entry("src/sub/empty", false)]));
    expect_read(&mut s, "src/sub/empty");
    s.report(ScanEvent::Listed(Vec::new()));
    assert!(matches!(s.next_action(), ScanAction::Done));
    assert_eq!(s.files(), &vec!["src/a.bin".to_string(), "src/sub/b.bin".to_string(), "src/c.d".to_string()]);
}

#[test]
fn unreadable_directory_is_kept_as_a_file() {
    let mut s = Scanner::new(&"src".to_string());
    expect_read(&mut s, "src");
    s.report(ScanEvent::Listed(vec![entry("src/locked", false), entry("src/x", true)]));
    expect_read(&mut s, "src/locked");
    s.report(ScanEvent::Unreadable);
    assert!(matches!(s.next_action(), ScanAction::Done));
    assert_eq!(s.files(), &vec!["src/locked".to_string(), "src/x".to_string()]);
}

#[test]
fn missing_root_is_not_found() {
    let mut s = Scanner::new(&"nowhere".to_string());
    expect_read(&mut s, "nowhere");
    s.report(ScanEvent::Missing);
    match s.next_action() {
        ScanAction::NotFound { path } => assert_eq!(path, "nowhere"),
        _ => panic!("expected not found"),
    }
}

#[test]
fn failed_listing_stops_the_walk() {
    let mut s = Scanner::new(&"src".to_string());
    expect_read(&mut s, "src");
    s.report(ScanEvent::Failed);
    assert!(matches!(s.next_action(), ScanAction::Failed));
}

#[test]
fn leading_dot_slash_is_dropped() {
    let mut s = Scanner::new(&".".to_string());
    expect_read(&mut s, ".");
    s.report(ScanEvent::Listed(vec![entry("./a.txt", true), entry("./d", false)]));
    expect_read(&mut s, "d");
    s.report(ScanEvent::Listed(vec![entry("d/b.txt", true)]));
    assert!(matches!(s.next_action(), ScanAction::Done));
    assert_eq!(s.files(), &vec!["a.txt".to_string(), "d/b.txt".to_string()]);
}
