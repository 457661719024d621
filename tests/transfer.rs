use regex_sort::classify::Entry;
use regex_sort::transfer::{Action, Transfer};

const FROM_PATHS: [&str; 5] = [
    "source/file1",
    "source/file2",
    "source/file3",
    "source/file4",
    "source/file5",
];
const TO_PATHS: [&str; 5] = [
    "output/prefix1/file1",
    "output/prefix1/file2",
    "output/prefix1/file3",
    "output/prefix2/file4",
    "output/prefix2/file5",
];

/// Records every operation asked for and answers as configured.
#[derive(Default)]
struct TestFileHandler {
    called_move: usize,
    called_copy: usize,
    called_remove: usize,
    created: Vec<String>,
    log: Vec<String>,
    want_move_err: bool,
    want_copy_err: bool,
    want_remove_err: bool,
    want_dir_err: bool,
}

impl TestFileHandler {
    fn check_files(from: &str, to: &str) {
        let from_index = FROM_PATHS.iter().position(|p| *p == from).expect("unknown source");
        if !to.is_empty() {
            let to_index = TO_PATHS.iter().position(|p| *p == to).expect("unknown destination");
            assert_eq!(from_index, to_index);
        }
    }

    /// Runs the transfer to its end; true when it finished.
    fn run(&mut self, t: &mut Transfer) -> bool {
        loop {
            let ok = match t.action() {
                Action::Finished => return true,
                Action::Abort => return false,
                Action::CreateDir { path } => {
                    self.log.push(format!("mkdir {}", path));
                    self.created.push(path);
                    !self.want_dir_err
                }
                Action::Rename { from, to } => {
                    self.log.push(format!("rename {}", from));
                    self.called_move += 1;
                    Self::check_files(&from, &to);
                    !self.want_move_err
                }
                Action::Copy { from, to } => {
                    self.log.push(format!("copy {}", from));
                    self.called_copy += 1;
                    Self::check_files(&from, &to);
                    !self.want_copy_err
                }
                Action::Remove { path } => {
                    self.log.push(format!("remove {}", path));
                    self.called_remove += 1;
                    Self::check_files(&path, "");
                    !self.want_remove_err
                }
            };
            t.report(ok);
        }
    }
}

fn groups() -> Vec<Vec<Entry>> {
    let group1 = vec![
        Entry::new("source/file1", "file1"),
        Entry::new("source/file2", "file2"),
        Entry::new("source/file3", "file3"),
    ];
    let group2 = vec![Entry::new("source/file4", "file4"), Entry::new("source/file5", "file5")];
    vec![group1, group2]
}

fn transfer(move_files: bool) -> Transfer {
    Transfer::new(&groups(), &"output".to_string(), &"prefix".to_string(), move_files)
}

#[test]
fn test_finalize_copy() {
    let mut h = TestFileHandler::default();
    assert!(h.run(&mut transfer(false)));
    assert_eq!(h.called_move, 0);
    assert_eq!(h.called_copy, 5);
    assert_eq!(h.called_remove, 0);
}

#[test]
fn test_finalize_move() {
    let mut h = TestFileHandler::default();
    assert!(h.run(&mut transfer(true)));
    assert_eq!(h.called_move, 5);
    assert_eq!(h.called_copy, 0);
    assert_eq!(h.called_remove, 0);
}

#[test]
fn test_finalize_move_failed() {
    let mut h = TestFileHandler { want_move_err: true, ..Default::default() };
    assert!(h.run(&mut transfer(true)));
    assert_eq!(h.called_move, 5);
    assert_eq!(h.called_copy, 5);
    assert_eq!(h.called_remove, 5);
}

#[test]
fn directories_come_before_each_groups_files() {
    let mut h = TestFileHandler { want_move_err: true, ..Default::default() };
    assert!(h.run(&mut transfer(true)));
    assert_eq!(h.created, vec!["output/prefix1".to_string(), "output/prefix2".to_string()]);
    let expected: Vec<String> = vec![
        "mkdir output/prefix1",
        "rename source/file1",
        "copy source/file1",
        "remove source/file1",
        "rename source/file2",
        "copy source/file2",
        "remove source/file2",
        "rename source/file3",
        "copy source/file3",
        "remove source/file3",
        "mkdir output/prefix2",
        "rename source/file4",
        "copy source/file4",
        "remove source/file4",
        "rename source/file5",
        "copy source/file5",
        "remove source/file5",
    ]
    .into_iter()
    .map(String::from)
    .collect();
    assert_eq!(h.log, expected);
}

#[test]
fn failed_copy_stops_the_run() {
    let mut h = TestFileHandler { want_copy_err: true, ..Default::default() };
    assert!(!h.run(&mut transfer(false)));
    assert_eq!(h.called_copy, 1);
}

#[test]
fn failed_fallback_copy_stops_the_run() {
    let mut h = TestFileHandler { want_move_err: true, want_copy_err: true, ..Default::default() };
    assert!(!h.run(&mut transfer(true)));
    assert_eq!((h.called_move, h.called_copy, h.called_remove), (1, 1, 0));
}

#[test]
fn failed_remove_stops_the_run() {
    let mut h = TestFileHandler { want_move_err: true, want_remove_err: true, ..Default::default() };
    assert!(!h.run(&mut transfer(true)));
    assert_eq!((h.called_move, h.called_copy, h.called_remove), (1, 1, 1));
}

#[test]
fn failed_directory_creation_stops_before_any_file() {
    let mut h = TestFileHandler { want_dir_err: true, ..Default::default() };
    assert!(!h.run(&mut transfer(false)));
    assert_eq!((h.called_move, h.called_copy, h.called_remove), (0, 0, 0));
}

#[test]
fn empty_groups_finish_at_once() {
    let mut t = Transfer::new(&vec![Vec::new(), Vec::new()], &"o".to_string(), &"p".to_string(), true);
    assert!(matches!(t.action(), Action::Finished));
    t.report(true);
    assert!(matches!(t.action(), Action::Finished));
}
