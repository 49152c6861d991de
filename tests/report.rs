use loc_report::analytics::Analytics;
use loc_report::args::{Structure, Target};
use loc_report::counter::count_lines;
use loc_report::filter::{is_hidden, should_ignore, should_skip};
use loc_report::report::{Full, Report};
use loc_report::scan::{Contents, Entry, IoError};
use loc_report::tree::{Directory, Tree};

fn file(dir: &str, name: &str, lines: usize) -> Entry {
    Entry::File {
        name: name.to_string(),
        path: format!("{}/{}", dir, name),
        lines: Some(lines),
    }
}

fn unreadable(dir: &str, name: &str) -> Entry {
    Entry::File {
        name: name.to_string(),
        path: format!("{}/{}", dir, name),
        lines: None,
    }
}

fn dir(parent: &str, name: &str, entries: Vec<Entry>) -> Entry {
    Entry::Dir {
        name: name.to_string(),
        path: format!("{}/{}", parent, name),
        contents: Contents::Listed(entries),
    }
}

fn missing(path: &str) -> Contents {
    Contents::Unlisted(IoError::new(
        path.to_string(),
        "No such file or directory".to_string(),
    ))
}

/// The tree of the scenario: a.txt (50), b.txt (150), sub/c.txt (7500) and
/// the hidden sub/.secret (10).
fn sample() -> Contents {
    Contents::Listed(vec![
        file("root", "a.txt", 50),
        file("root", "b.txt", 150),
        dir(
            "root",
            "sub",
            vec![file("root/sub", "c.txt", 7500), file("root/sub", ".secret", 10)],
        ),
    ])
}

fn counts(a: &Analytics) -> [usize; 11] {
    [
        a.less_than_100,
        a.between_100_and_500,
        a.between_501_and_1000,
        a.between_1001_and_2000,
        a.between_2001_and_3000,
        a.between_3001_and_4000,
        a.between_4001_and_5000,
        a.between_5001_and_6000,
        a.between_6001_and_7000,
        a.between_7001_and_8000,
        a.more_than_8000,
    ]
}

fn file_list(files: &Option<loc_report::tree::Files>) -> Vec<(String, usize)> {
    match files {
        Some(f) => f.0.iter().map(|r| (r.path.clone(), r.lines_count)).collect(),
        None => vec![],
    }
}

fn histogram_of(entries: Vec<Entry>) -> [usize; 11] {
    let a = Analytics::from_path(&Contents::Listed(entries), &[]).unwrap();
    counts(&a)
}

#[test]
fn scenario_analytics() {
    let a = Analytics::from_path(&sample(), &[]).unwrap();
    assert_eq!(counts(&a), [1, 1, 0, 0, 0, 0, 0, 0, 0, 1, 0]);
}

#[test]
fn scenario_tree() {
    let t = Tree::from_path(&"root".to_string(), &sample(), &[]).unwrap();
    assert_eq!(t.root, "root");
    assert_eq!(
        file_list(&t.files),
        vec![("root/a.txt".to_string(), 50), ("root/b.txt".to_string(), 150)]
    );
    let dirs = t.directories.as_ref().unwrap();
    assert_eq!(dirs.len(), 1);
    assert_eq!(dirs[0].root, "root/sub");
    assert!(dirs[0].sub_directories.is_none());
    assert_eq!(
        file_list(&dirs[0].files),
        vec![("root/sub/c.txt".to_string(), 7500)]
    );
}

#[test]
fn scenario_ignore_sub() {
    let ignore = vec!["sub".to_string()];
    let t = Tree::from_path(&"root".to_string(), &sample(), &ignore).unwrap();
    assert!(t.directories.is_none());
    assert_eq!(file_list(&t.files).len(), 2);
    let a = Analytics::from_path(&sample(), &ignore).unwrap();
    assert_eq!(counts(&a), [1, 1, 0, 0, 0, 0, 0, 0, 0, 0, 0]);
}

#[test]
fn scenario_missing_root() {
    let root = missing("nowhere");
    let a = Analytics::from_path(&root, &[]);
    assert_eq!(a.err().unwrap().path, "nowhere");
    let t = Tree::from_path(&"nowhere".to_string(), &root, &[]);
    assert_eq!(t.err().unwrap().path, "nowhere");
    for s in [Structure::Analytics, Structure::Tree, Structure::Full] {
        let r = Report::from_args(&"nowhere".to_string(), &root, s, &[]);
        assert_eq!(r.err().unwrap().message, "No such file or directory");
    }
}

#[test]
fn unlisted_subdirectory_aborts_the_walk() {
    let root = Contents::Listed(vec![
        file("root", "a.txt", 5),
        Entry::Dir {
            name: "locked".to_string(),
            path: "root/locked".to_string(),
            contents: missing("root/locked"),
        },
        Entry::Dir {
            name: "later".to_string(),
            path: "root/later".to_string(),
            contents: missing("root/later"),
        },
    ]);
    let a = Analytics::from_path(&root, &[]);
    assert_eq!(a.err().unwrap().path, "root/locked");
    let t = Tree::from_path(&"root".to_string(), &root, &[]);
    assert_eq!(t.err().unwrap().path, "root/locked");
}

#[test]
fn ignored_unlisted_directory_is_not_an_error() {
    let root = Contents::Listed(vec![
        file("root", "a.txt", 5),
        Entry::Dir {
            name: "locked".to_string(),
            path: "root/locked".to_string(),
            contents: missing("root/locked"),
        },
        Entry::Dir {
            name: ".git".to_string(),
            path: "root/.git".to_string(),
            contents: missing("root/.git"),
        },
    ]);
    let ignore = vec!["locked".to_string()];
    let a = Analytics::from_path(&root, &ignore).unwrap();
    assert_eq!(counts(&a), [1, 0, 0, 0, 0, 0, 0, 0, 0, 0, 0]);
    let t = Tree::from_path(&"root".to_string(), &root, &ignore).unwrap();
    assert!(t.directories.is_none());
}

#[test]
fn unreadable_file_is_left_out() {
    let entries = vec![unreadable("root", "x.bin"), file("root", "a.txt", 3)];
    assert_eq!(histogram_of(entries), [1, 0, 0, 0, 0, 0, 0, 0, 0, 0, 0]);
    let root = Contents::Listed(vec![unreadable("root", "x.bin")]);
    let t = Tree::from_path(&"root".to_string(), &root, &[]).unwrap();
    assert!(t.files.is_none());
    assert!(t.directories.is_none());
}

#[test]
fn band_boundaries() {
    let cases: [(usize, usize); 22] = [
        (0, 0),
        (99, 0),
        (100, 1),
        (500, 1),
        (501, 2),
        (1000, 2),
        (1001, 3),
        (2000, 3),
        (2001, 4),
        (3000, 4),
        (3001, 5),
        (4000, 5),
        (4001, 6),
        (5000, 6),
        (5001, 7),
        (6000, 7),
        (6001, 8),
        (7000, 8),
        (7001, 9),
        (8000, 9),
        (8001, 10),
        (usize::MAX, 10),
    ];
    for (lines, band) in cases {
        let h = histogram_of(vec![file("r", "f", lines)]);
        let mut expected = [0usize; 11];
        expected[band] = 1;
        assert_eq!(h, expected, "{} lines", lines);
    }
}

#[test]
fn counters_sum_to_counted_files() {
    let entries = vec![
        file("r", "a", 1),
        file("r", "b", 100),
        file("r", "c", 9000),
        unreadable("r", "d"),
        file("r", ".e", 4),
        dir("r", "s", vec![file("r/s", "f", 2500), file("r/s", "g", 2500)]),
    ];
    let h = histogram_of(entries);
    assert_eq!(h.iter().sum::<usize>(), 5);
    assert_eq!(h, [1, 1, 0, 0, 2, 0, 0, 0, 0, 0, 1]);
}

#[test]
fn histogram_ignores_listing_order() {
    let forward = vec![file("r", "a", 10), file("r", "b", 700), file("r", "c", 9000)];
    let backward = vec![file("r", "c", 9000), file("r", "b", 700), file("r", "a", 10)];
    assert_eq!(histogram_of(forward), histogram_of(backward));
}

#[test]
fn repeated_report_is_identical() {
    let first = Analytics::from_path(&sample(), &[]).unwrap();
    let second = Analytics::from_path(&sample(), &[]).unwrap();
    assert_eq!(counts(&first), counts(&second));
    let t1 = Tree::from_path(&"root".to_string(), &sample(), &[]).unwrap();
    let t2 = Tree::from_path(&"root".to_string(), &sample(), &[]).unwrap();
    assert_eq!(file_list(&t1.files), file_list(&t2.files));
    assert_eq!(
        t1.directories.as_ref().map(|d| d.len()),
        t2.directories.as_ref().map(|d| d.len())
    );
}

#[test]
fn empty_directory_is_kept_with_absent_lists() {
    let root = Contents::Listed(vec![dir("root", "empty", vec![]), file("root", ".hidden", 1)]);
    let t = Tree::from_path(&"root".to_string(), &root, &[]).unwrap();
    assert!(t.files.is_none());
    let dirs: &Vec<Directory> = t.directories.as_ref().unwrap();
    assert_eq!(dirs.len(), 1);
    assert_eq!(dirs[0].root, "root/empty");
    assert!(dirs[0].files.is_none());
    assert!(dirs[0].sub_directories.is_none());
}

#[test]
fn nested_directories_keep_listing_order() {
    let root = Contents::Listed(vec![
        dir("root", "x", vec![dir("root/x", "y", vec![file("root/x/y", "deep.rs", 42)])]),
        dir("root", "z", vec![file("root/z", "z.rs", 1)]),
    ]);
    let t = Tree::from_path(&"root".to_string(), &root, &[]).unwrap();
    let dirs = t.directories.as_ref().unwrap();
    assert_eq!(dirs[0].root, "root/x");
    assert_eq!(dirs[1].root, "root/z");
    let inner = dirs[0].sub_directories.as_ref().unwrap();
    assert_eq!(file_list(&inner[0].files), vec![("root/x/y/deep.rs".to_string(), 42)]);
}

#[test]
fn report_of_each_structure() {
    let path = "root".to_string();
    match Report::from_args(&path, &sample(), Structure::Analytics, &[]).unwrap() {
        Report::Analytics(a) => assert_eq!(counts(&a)[9], 1),
        _ => panic!("expected analytics"),
    }
    match Report::from_args(&path, &sample(), Structure::Tree, &[]).unwrap() {
        Report::Tree(t) => assert_eq!(t.root, "root"),
        _ => panic!("expected tree"),
    }
    match Report::from_args(&path, &sample(), Structure::Full, &[]).unwrap() {
        Report::Full(Full { analytics, tree }) => {
            assert_eq!(counts(&analytics), [1, 1, 0, 0, 0, 0, 0, 0, 0, 1, 0]);
            assert_eq!(file_list(&tree.files).len(), 2);
        }
        _ => panic!("expected full"),
    }
}

#[test]
fn full_new_keeps_parts() {
    let a = Analytics::empty();
    let t = Tree::from_path(&"r".to_string(), &Contents::Listed(vec![]), &[]).unwrap();
    let f = Full::new(a, t);
    assert_eq!(counts(&f.analytics), [0; 11]);
    assert_eq!(f.tree.root, "r");
}

#[test]
fn add_file_counts_one_band() {
    let mut a = Analytics::empty();
    a.add_file(100);
    a.add_file(8000);
    a.add_file(8001);
    assert_eq!(counts(&a), [0, 1, 0, 0, 0, 0, 0, 0, 0, 1, 1]);
}

#[test]
fn hidden_and_ignored_names() {
    assert!(is_hidden(".git"));
    assert!(is_hidden("."));
    assert!(!is_hidden("a.txt"));
    assert!(!is_hidden(""));
    let ignore = vec!["target".to_string(), "node_modules".to_string()];
    assert!(should_ignore(&"target".to_string(), &ignore));
    assert!(!should_ignore(&"targets".to_string(), &ignore));
    assert!(!should_ignore(&"target".to_string(), &[]));
    assert!(should_skip(&".env".to_string(), &ignore));
    assert!(should_skip(&"node_modules".to_string(), &ignore));
    assert!(!should_skip(&"src".to_string(), &ignore));
    let reordered = vec!["node_modules".to_string(), "target".to_string(), "target".to_string()];
    for name in ["target", "src", ".x", "node_modules"] {
        let n = name.to_string();
        assert_eq!(should_skip(&n, &ignore), should_skip(&n, &reordered));
    }
}

#[test]
fn line_counting() {
    assert_eq!(count_lines(b""), 0);
    assert_eq!(count_lines(b"\n"), 1);
    assert_eq!(count_lines(b"a"), 1);
    assert_eq!(count_lines(b"a\n"), 1);
    assert_eq!(count_lines(b"a\nb"), 2);
    assert_eq!(count_lines(b"a\r\nb\r\n"), 2);
    assert_eq!(count_lines(b"\n\n\n"), 3);
    assert_eq!(count_lines(b"x\n\ny"), 3);
}

#[test]
fn target_and_structure_names() {
    assert_eq!(Target::Stdout.as_str(), "stdout");
    assert_eq!(Target::Json.as_str(), "json");
    assert_eq!(Structure::Analytics.as_str(), "analytics");
    assert_eq!(Structure::Tree.as_str(), "tree");
    assert_eq!(Structure::Full.as_str(), "full");
}

#[test]
fn error_copy_is_equal() {
    let e = IoError::new("p".to_string(), "m".to_string());
    let d = e.duplicate();
    assert_eq!(d.path, "p");
    assert_eq!(d.message, "m");
}

#[test]
fn entry_names() {
    assert_eq!(file("r", "a", 1).name(), "a");
    assert_eq!(dir("r", "d", vec![]).name(), "d");
    assert_eq!(Entry::Other { name: "o".to_string() }.name(), "o");
}

#[test]
fn analytics_table_text() {
    let a = Analytics::from_path(&sample(), &[]).unwrap();
    let expected = String::new()
        + "                Analytics                 \n"
        + "Number of lines:          Number of files:\n"
        + "< 100                     1\n"
        + "100 ~ 500                 1\n"
        + "501 ~ 1000                0\n"
        + "1001 ~ 2000               0\n"
        + "2001 ~ 3000               0\n"
        + "3001 ~ 4000               0\n"
        + "4001 ~ 5000               0\n"
        + "5001 ~ 6000               0\n"
        + "6001 ~ 7000               0\n"
        + "7001 ~ 8000               1\n"
        + "> 8000                    0\n";
    assert_eq!(a.render(), expected);
}

#[test]
fn large_counts_in_decimal() {
    let mut a = Analytics::empty();
    a.more_than_8000 = 1234567890;
    a.less_than_100 = 10;
    let text = a.render();
    assert!(text.contains("< 100                     10\n"));
    assert!(text.contains("> 8000                    1234567890\n"));
}

#[test]
fn tree_text() {
    let t = Tree::from_path(&"root".to_string(), &sample(), &[]).unwrap();
    assert_eq!(
        t.render(),
        "root\n    root/sub\n    root/sub/c.txt: 7500\n\n    root/a.txt: 50\n    root/b.txt: 150\n\n"
    );
}

#[test]
fn nested_tree_text() {
    let root = Contents::Listed(vec![dir(
        "r",
        "x",
        vec![dir("r/x", "y", vec![file("r/x/y", "f", 7)])],
    )]);
    let t = Tree::from_path(&"r".to_string(), &root, &[]).unwrap();
    assert_eq!(t.render(), "r\n    r/x\n        r/x/y\n    r/x/y/f: 7\n\n\n");
}

#[test]
fn full_report_text() {
    let path = "root".to_string();
    let full = Report::from_args(&path, &sample(), Structure::Full, &[]).unwrap();
    let a = Analytics::from_path(&sample(), &[]).unwrap();
    let t = Tree::from_path(&path, &sample(), &[]).unwrap();
    assert_eq!(full.render(), a.render() + &t.render());
}
