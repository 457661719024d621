use regex_sort::classify::{assign_groups, create_groups, Entry};
use regex_sort::path::{
    base_name_of, decimal_text, destination_of, file_name_of, group_folder_of, join_of, parent_dir_of,
    relative_path_of,
};
use regex_sort::pattern::{parse_regex, Pattern};
use regex_sort::plan::{create_dir_tree, group_tree_lines};

fn strings(v: &[&str]) -> Vec<String> {
    v.iter().map(|s| s.to_string()).collect()
}

fn dests(groups: &Vec<Vec<Entry>>) -> Vec<Vec<String>> {
    groups.iter().map(|g| g.iter().map(|e| e.dest.clone()).collect()).collect()
}

fn sources(groups: &Vec<Vec<Entry>>) -> Vec<Vec<String>> {
    groups.iter().map(|g| g.iter().map(|e| e.source.clone()).collect()).collect()
}

fn groups_for(exprs: &[&str], paths: &[&str], root: &str, flat: bool) -> Vec<Vec<Entry>> {
    let patterns = match parse_regex(&strings(exprs)) {
        Ok(p) => p,
        Err(_) => panic!("expressions should compile"),
    };
    create_groups(&patterns, &strings(paths), &root.to_string(), flat)
}

fn full_dests(groups: &Vec<Vec<Entry>>, output: &str, prefix: &str) -> Vec<Vec<String>> {
    groups
        .iter()
        .enumerate()
        .map(|(i, g)| g.iter().map(|e| destination_of(output, prefix, i, &e.dest)).collect())
        .collect()
}

#[test]
fn test_group() {
    let file1 = "some/path/with/file.bin";
    let file2 = "some/other/path/with/file.bin";
    let file3 = "some/path/with/file.d";
    let actual = groups_for(&[r"\.bin$", r"\.d$"], &[file1, file2, file3], ".", false);
    let expected = vec![strings(&[file1, file2]), strings(&[file3])];
    assert_eq!(expected, dests(&actual));
}

#[test]
fn nested_tree_destinations() {
    let groups = groups_for(&[".bin$", ".d$"], &["src/a.bin", "src/sub/b.bin", "src/c.d"], "src", false);
    assert_eq!(
        full_dests(&groups, "", "g"),
        vec![strings(&["g1/a.bin", "g1/sub/b.bin"]), strings(&["g2/c.d"])]
    );
    assert_eq!(
        full_dests(&groups, "out", "g"),
        vec![strings(&["out/g1/a.bin", "out/g1/sub/b.bin"]), strings(&["out/g2/c.d"])]
    );
    assert_eq!(
        sources(&groups),
        vec![strings(&["src/a.bin", "src/sub/b.bin"]), strings(&["src/c.d"])]
    );
}

#[test]
fn flat_tree_destinations() {
    let groups = groups_for(&[".bin$", ".d$"], &["src/a.bin", "src/sub/b.bin", "src/c.d"], "src", true);
    assert_eq!(
        full_dests(&groups, "", "g"),
        vec![strings(&["g1/a.bin", "g1/b.bin"]), strings(&["g2/c.d"])]
    );
}

#[test]
fn flat_base_name_collision_is_kept() {
    let groups = groups_for(&["bin"], &["x/a.bin", "y/a.bin"], "", true);
    assert_eq!(dests(&groups), vec![strings(&["a.bin", "a.bin"])]);
    assert_eq!(sources(&groups), vec![strings(&["x/a.bin", "y/a.bin"])]);
}

#[test]
fn identical_patterns_fill_both_groups() {
    let groups = groups_for(&[".bin$", ".bin$"], &["a.bin"], "", false);
    assert_eq!(dests(&groups), vec![strings(&["a.bin"]), strings(&["a.bin"])]);
}

#[test]
fn unmatched_file_is_in_no_group() {
    let groups = groups_for(&["x$", "y$"], &["a.bin", "b.x"], "", false);
    assert_eq!(dests(&groups), vec![strings(&["b.x"]), Vec::<String>::new()]);
}

#[test]
fn repeated_source_is_placed_once() {
    let groups = groups_for(&["bin"], &["r/a.bin", "r/a.bin", "r/b.bin"], "r", false);
    assert_eq!(dests(&groups), vec![strings(&["a.bin", "b.bin"])]);
}

#[test]
fn match_is_unanchored_on_full_path() {
    let groups = groups_for(&["sub"], &["r/sub/a.txt", "r/b.txt"], "r", false);
    assert_eq!(dests(&groups), vec![strings(&["sub/a.txt"])]);
}

#[test]
fn no_patterns_give_no_groups() {
    let groups = groups_for(&[], &["a.bin"], "", false);
    assert!(groups.is_empty());
}

#[test]
fn flat_names_follow_file_name_rules() {
    let groups = groups_for(&["."], &["r/dir/", "r/a", "r/..", "r/x/.", "r/", "r/y/.."], "r", true);
    assert_eq!(dests(&groups), vec![strings(&["dir", "a", "x"])]);
    assert_eq!(sources(&groups), vec![strings(&["r/dir/", "r/a", "r/x/."])]);
}

#[test]
fn nameless_paths_are_kept_without_flattening() {
    let groups = groups_for(&["."], &["r/..", "r/a"], "r", false);
    assert_eq!(dests(&groups), vec![strings(&["..", "a"])]);
}

#[test]
fn assign_groups_flat_skips_paths_without_file_name() {
    let paths = strings(&["a/", ".."]);
    let hits = vec![vec![true, true]];
    let groups = assign_groups(&hits, &paths, &"".to_string(), true);
    assert_eq!(dests(&groups), vec![strings(&["a"])]);
}

#[test]
fn file_names() {
    assert_eq!(file_name_of("a/b.txt"), Some("b.txt".to_string()));
    assert_eq!(file_name_of("b.txt"), Some("b.txt".to_string()));
    assert_eq!(file_name_of("a/"), Some("a".to_string()));
    assert_eq!(file_name_of("a//"), Some("a".to_string()));
    assert_eq!(file_name_of("a/."), Some("a".to_string()));
    assert_eq!(file_name_of("a/./"), Some("a".to_string()));
    assert_eq!(file_name_of(".."), None);
    assert_eq!(file_name_of("a/.."), None);
    assert_eq!(file_name_of("."), None);
    assert_eq!(file_name_of("./"), None);
    assert_eq!(file_name_of("/"), None);
    assert_eq!(file_name_of(""), None);
    assert_eq!(file_name_of(".hidden"), Some(".hidden".to_string()));
    assert_eq!(file_name_of("a/..b"), Some("..b".to_string()));
}

#[test]
fn relative_path_round_trip() {
    for (path, root) in [("src/a/b", "src"), ("src/a", "src/"), ("src/", "src")] {
        assert_eq!(join_of(root, &relative_path_of(path, root)), path);
    }
}

#[test]
fn assign_groups_follows_given_hits() {
    let paths = strings(&["s/a", "s/b/c", "s/d"]);
    let hits = vec![vec![true, false, true], vec![false, true, false], vec![false, false, false]];
    let groups = assign_groups(&hits, &paths, &"s".to_string(), false);
    assert_eq!(
        dests(&groups),
        vec![strings(&["a", "d"]), strings(&["b/c"]), Vec::<String>::new()]
    );
}

#[test]
fn parse_regex_reports_first_bad_expression() {
    match parse_regex(&strings(&["a", "(", "[", "b"])) {
        Ok(_) => panic!("should fail"),
        Err(e) => assert_eq!(e.index, 1),
    }
}

#[test]
fn parse_regex_keeps_order() {
    let ps = match parse_regex(&strings(&["a+", "b$"])) {
        Ok(p) => p,
        Err(_) => panic!("should compile"),
    };
    assert_eq!(ps.len(), 2);
    assert_eq!(ps[0].as_str(), "a+");
    assert_eq!(ps[1].as_str(), "b$");
}

#[test]
fn pattern_matching() {
    let p = match Pattern::compile(&r"\.bin$".to_string()) {
        Ok(p) => p,
        Err(_) => panic!("should compile"),
    };
    assert!(p.is_match("dir/a.bin"));
    assert!(!p.is_match("dir/a.bin.txt"));
    assert!(!p.is_match(r"\.bin$"));
    assert!(Pattern::compile(&"(".to_string()).is_err());
}

#[test]
fn relative_paths() {
    assert_eq!(relative_path_of("src/a/b", "src"), "a/b");
    assert_eq!(relative_path_of("src/a/b", "src/"), "a/b");
    assert_eq!(relative_path_of("src", "src"), "");
    assert_eq!(relative_path_of("srcx/a", "src"), "srcx/a");
    assert_eq!(relative_path_of("other/a", "src"), "other/a");
    assert_eq!(relative_path_of("a/b", ""), "a/b");
    assert_eq!(relative_path_of("some/path", "."), "some/path");
}

#[test]
fn base_names_and_parents() {
    assert_eq!(base_name_of("a/b/c.txt"), "c.txt");
    assert_eq!(base_name_of("c.txt"), "c.txt");
    assert_eq!(base_name_of("a/"), "");
    assert_eq!(parent_dir_of("out/g1/a/b.txt"), "out/g1/a");
    assert_eq!(parent_dir_of("b.txt"), "");
    assert_eq!(parent_dir_of("/b.txt"), "");
}

#[test]
fn joins() {
    assert_eq!(join_of("a", "b"), "a/b");
    assert_eq!(join_of("a/", "b"), "a/b");
    assert_eq!(join_of("", "b"), "b");
    assert_eq!(join_of("a", "/b"), "/b");
    assert_eq!(join_of("a", ""), "a/");
}

#[test]
fn decimals_and_folders() {
    assert_eq!(decimal_text(0), "0");
    assert_eq!(decimal_text(7), "7");
    assert_eq!(decimal_text(10), "10");
    assert_eq!(decimal_text(1234), "1234");
    assert_eq!(group_folder_of("prefix", 0), "prefix1");
    assert_eq!(group_folder_of("", 9), "10");
    assert_eq!(destination_of("output", "prefix", 1, "file4"), "output/prefix2/file4");
}

#[test]
fn dir_tree_lists_each_parent_once() {
    let group = vec![
        Entry::new("s/a/x", "a/x"),
        Entry::new("s/a/y", "a/y"),
        Entry::new("s/b/c/z", "b/c/z"),
        Entry::new("s/w", "w"),
    ];
    let dirs = create_dir_tree(&group, &"out".to_string(), &"grp".to_string(), 2);
    assert_eq!(dirs, strings(&["out/grp3/a", "out/grp3/b/c", "out/grp3"]));
    let none = create_dir_tree(&vec![Entry::new("w", "w")], &"".to_string(), &"".to_string(), 0);
    assert_eq!(none, strings(&["1"]));
}

#[test]
fn tree_listing_shows_exactly_the_groups() {
    let groups = groups_for(&[".bin$", ".d$", "zzz"], &["src/a.bin", "src/sub/b.bin", "src/c.d"], "src", false);
    let lines = group_tree_lines(&groups);
    assert_eq!(
        lines,
        strings(&["Group 1:", "\ta.bin", "\tsub/b.bin", "Group 2:", "\tc.d", "Group 3:"])
    );
}
