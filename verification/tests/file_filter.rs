use openlabels_core::file_filter::{glob_match, FileFilter};

#[test]
fn test_glob_match() {
    assert!(glob_match(b"*.txt", b"hello.txt"));
    assert!(glob_match(b".git/*", b".git/config"));
    assert!(glob_match(b"*/.git/*", b"repo/.git/config"));
    assert!(!glob_match(b"*.txt", b"hello.pdf"));
    assert!(glob_match(b"node_modules/*", b"node_modules/express/index.js"));
}

#[test]
fn test_extension_filter() {
    let filter = FileFilter::new(
        vec!["tmp".to_string(), "pyc".to_string()],
        vec![],
        vec![],
        None,
        None,
    );
    assert!(!filter.should_include("test.tmp", "/data/test.tmp", None, 100));
    assert!(!filter.should_include("mod.pyc", "/data/mod.pyc", None, 100));
    assert!(filter.should_include("doc.pdf", "/data/doc.pdf", None, 100));
}

#[test]
fn test_pattern_filter() {
    let filter = FileFilter::new(
        vec![],
        vec![".git/*".to_string(), "node_modules/*".to_string()],
        vec![],
        None,
        None,
    );
    assert!(!filter.should_include("config", "repo/.git/config", None, 100));
    assert!(!filter.should_include(
        "index.js",
        "project/node_modules/express/index.js",
        None,
        100
    ));
    assert!(filter.should_include("main.py", "project/src/main.py", None, 100));
}

#[test]
fn test_size_filter() {
    let filter = FileFilter::new(vec![], vec![], vec![], Some(100), Some(10_000_000));
    assert!(!filter.should_include("tiny.txt", "/data/tiny.txt", None, 50));
    assert!(filter.should_include("normal.txt", "/data/normal.txt", None, 1000));
    assert!(!filter.should_include("huge.bin", "/data/huge.bin", None, 20_000_000));
}

#[test]
fn test_glob_question_mark() {
    assert!(glob_match(b"file?.rs", b"file1.rs"));
    assert!(!glob_match(b"file?.rs", b"file12.rs"));
    assert!(glob_match(b"*", b""));
    assert!(!glob_match(b"?", b""));
}

#[test]
fn test_extension_dedup_and_case() {
    let filter = FileFilter::new(
        vec![
            ".TMP".to_string(),
            "tmp".to_string(),
            "Pyc".to_string(),
        ],
        vec![],
        vec![],
        None,
        None,
    );
    // ".TMP" and "tmp" collapse to one entry.
    assert_eq!(filter.extension_count(), 2);
    assert!(!filter.should_include("a.TmP", "/a.TmP", None, 1));
}

#[test]
fn test_account_filter() {
    let filter = FileFilter::new(
        vec![],
        vec![],
        vec!["svc-backup".to_string(), "bot-*".to_string()],
        None,
        None,
    );
    assert!(!filter.should_include("f", "/f", Some("SVC-Backup"), 1));
    assert!(!filter.should_include("f", "/f", Some("bot-crawler"), 1));
    assert!(filter.should_include("f", "/f", Some("alice"), 1));
    assert!(filter.should_include("f", "/f", None, 1));
}

#[test]
fn test_filter_batch_order() {
    let filter = FileFilter::new(
        vec!["tmp".to_string()],
        vec![],
        vec![],
        Some(10),
        None,
    );
    let files = vec![
        ("a.tmp".to_string(), "/a.tmp".to_string(), "".to_string(), 100),
        ("b.txt".to_string(), "/b.txt".to_string(), "".to_string(), 100),
        ("c.txt".to_string(), "/c.txt".to_string(), "".to_string(), 5),
    ];
    assert_eq!(filter.filter_batch(&files), vec![false, true, false]);
}
