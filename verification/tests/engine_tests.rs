//! Scenario tests driving the traversal engine over simulated directory
//! trees: the engine decides, the test plays the filesystem.

use pycache_cleaner::engine::{Config, Engine, Entry};
use std::cell::RefCell;

/// Drives one full run: pops records, asks the lookup for each expanded
/// directory's entries, and collects every path the engine reports.
fn drive(engine: &mut Engine, lookup: impl Fn(&str, i32) -> Vec<Entry>) -> Vec<String> {
    let mut reports: Vec<String> = Vec::new();
    while let Some(rec) = engine.pop_next() {
        if !engine.should_expand(&rec) {
            continue;
        }
        assert!(0 <= rec.depth && rec.depth < i32::MAX);
        let entries = lookup(&rec.path, rec.depth);
        let mut matched = engine.expand(&rec, &entries);
        reports.append(&mut matched);
    }
    reports
}

fn dir(path: &str, name: &str) -> Entry {
    Entry { path: path.to_string(), name: name.to_string(), is_dir: true, is_symlink: false }
}

fn file(path: &str, name: &str) -> Entry {
    Entry { path: path.to_string(), name: name.to_string(), is_dir: false, is_symlink: false }
}

fn symlink_dir(path: &str, name: &str) -> Entry {
    Entry { path: path.to_string(), name: name.to_string(), is_dir: true, is_symlink: true }
}

fn config(max_depth: Option<i32>, dry: bool) -> Config {
    Config { max_depth, dry, dirname: "__pycache__".to_string() }
}

/// The tree of the default-run scenario: root holds `src/` and `docs/`,
/// `src/` holds `__pycache__/` (with a file inside).
fn scenario_lookup(path: &str, _depth: i32) -> Vec<Entry> {
    match path {
        "/r" => vec![dir("/r/src", "src"), dir("/r/docs", "docs")],
        "/r/src" => vec![dir("/r/src/__pycache__", "__pycache__")],
        "/r/docs" => vec![],
        "/r/src/__pycache__" => panic!("a matched directory must never be expanded"),
        other => panic!("unexpected expansion of {other}"),
    }
}

#[test]
fn default_run_removes_pycache() {
    let mut engine = Engine::new("/r".to_string(), config(None, false));
    let reports = drive(&mut engine, scenario_lookup);
    assert_eq!(reports, vec!["/r/src/__pycache__".to_string()]);
    assert!(!engine.is_dry());
}

#[test]
fn dry_run_reports_identically() {
    let mut real = Engine::new("/r".to_string(), config(None, false));
    let real_reports = drive(&mut real, scenario_lookup);
    let mut dry = Engine::new("/r".to_string(), config(None, true));
    let dry_reports = drive(&mut dry, scenario_lookup);
    assert_eq!(real_reports, dry_reports);
    assert!(dry.is_dry());
    assert!(!real.is_dry());
}

#[test]
fn no_match_reports_nothing() {
    let mut engine = Engine::new("/r".to_string(), config(None, false));
    let reports = drive(&mut engine, |path, _| match path {
        "/r" => vec![dir("/r/a", "a"), dir("/r/b", "b"), file("/r/c.txt", "c.txt")],
        "/r/a" => vec![dir("/r/a/d", "d")],
        _ => vec![],
    });
    assert_eq!(reports, Vec::<String>::new());
}

#[test]
fn match_within_depth_bound_is_reported() {
    // The match sits at depth 2; its parent at depth 1 is expanded because
    // the inclusive bound is 1.
    let mut engine = Engine::new("/r".to_string(), config(Some(1), false));
    let reports = drive(&mut engine, |path, _| match path {
        "/r" => vec![dir("/r/a", "a")],
        "/r/a" => vec![dir("/r/a/__pycache__", "__pycache__")],
        _ => vec![],
    });
    assert_eq!(reports, vec!["/r/a/__pycache__".to_string()]);
}

#[test]
fn case_insensitive_match_is_reported() {
    let mut engine = Engine::new("/r".to_string(), config(None, false));
    let reports = drive(&mut engine, |path, _| match path {
        "/r" => vec![dir("/r/__PyCache__", "__PyCache__")],
        _ => vec![],
    });
    assert_eq!(reports, vec!["/r/__PyCache__".to_string()]);
}

#[test]
fn depth_zero_examines_only_root_children() {
    // With a bound of 0 the root's own children are still matched, but no
    // child directory is expanded, so a deeper match goes unreported.
    let mut engine = Engine::new("/r".to_string(), config(Some(0), false));
    let reports = drive(&mut engine, |path, _| match path {
        "/r" => vec![dir("/r/a", "a"), dir("/r/__pycache__", "__pycache__")],
        other => panic!("expanded beyond the root: {other}"),
    });
    assert_eq!(reports, vec!["/r/__pycache__".to_string()]);
}

#[test]
fn negative_depth_examines_nothing() {
    let mut engine = Engine::new("/r".to_string(), config(Some(-1), false));
    let reports = drive(&mut engine, |path, _| {
        panic!("nothing may be expanded under a negative bound: {path}")
    });
    assert_eq!(reports, Vec::<String>::new());
}

#[test]
fn large_depth_bound_is_effectively_unbounded() {
    let mut engine = Engine::new("/r".to_string(), config(Some(i32::MAX), false));
    let reports = drive(&mut engine, |path, _| match path {
        "/r" => vec![dir("/r/a", "a")],
        "/r/a" => vec![dir("/r/a/b", "b")],
        "/r/a/b" => vec![dir("/r/a/b/__pycache__", "__pycache__")],
        _ => vec![],
    });
    assert_eq!(reports, vec!["/r/a/b/__pycache__".to_string()]);
}

#[test]
fn symlinked_match_is_never_reported() {
    let mut engine = Engine::new("/r".to_string(), config(None, false));
    let reports = drive(&mut engine, |path, _| match path {
        "/r" => vec![symlink_dir("/r/__pycache__", "__pycache__"), symlink_dir("/r/a", "a")],
        other => panic!("descended through a symlink into {other}"),
    });
    assert_eq!(reports, Vec::<String>::new());
}

#[test]
fn file_named_like_target_is_ignored() {
    let mut engine = Engine::new("/r".to_string(), config(None, false));
    let reports = drive(&mut engine, |path, _| match path {
        "/r" => vec![file("/r/__pycache__", "__pycache__")],
        _ => vec![],
    });
    assert_eq!(reports, Vec::<String>::new());
}

#[test]
fn nested_match_is_reported_once() {
    // A matching directory inside a matching directory: the inner one is part
    // of the pruned subtree. The lookup proves the outer match is never
    // expanded by refusing to answer for it.
    let mut engine = Engine::new("/r".to_string(), config(None, false));
    let reports = drive(&mut engine, |path, _| match path {
        "/r" => vec![dir("/r/__pycache__", "__pycache__")],
        other => panic!("expanded a matched directory: {other}"),
    });
    assert_eq!(reports, vec!["/r/__pycache__".to_string()]);
}

#[test]
fn visited_pair_is_expanded_only_once() {
    // Two parents hand back a child with the same (path, depth) pair; the
    // cycle guard lets only the first through.
    let expansions: RefCell<Vec<String>> = RefCell::new(Vec::new());
    let mut engine = Engine::new("/r".to_string(), config(None, false));
    let reports = drive(&mut engine, |path, depth| {
        expansions.borrow_mut().push(path.to_string());
        match path {
            "/r" => vec![dir("/r/a", "a"), dir("/r/b", "b")],
            "/r/a" | "/r/b" => {
                assert_eq!(depth, 1);
                vec![dir("/shared/c", "c")]
            }
            "/shared/c" => vec![],
            other => panic!("unexpected expansion of {other}"),
        }
    });
    assert_eq!(reports, Vec::<String>::new());
    let seen = expansions.borrow();
    assert_eq!(seen.iter().filter(|p| p.as_str() == "/shared/c").count(), 1);
    assert_eq!(seen.len(), 4);
}

#[test]
fn traversal_is_depth_first_most_recent_first() {
    let order: RefCell<Vec<(String, i32)>> = RefCell::new(Vec::new());
    let mut engine = Engine::new("/r".to_string(), config(None, false));
    drive(&mut engine, |path, depth| {
        order.borrow_mut().push((path.to_string(), depth));
        match path {
            "/r" => vec![dir("/r/a", "a"), dir("/r/b", "b")],
            "/r/b" => vec![dir("/r/b/c", "c")],
            _ => vec![],
        }
    });
    // Last enqueued is expanded first, and a child before its parent's
    // remaining siblings.
    let seen = order.borrow();
    assert_eq!(
        *seen,
        vec![
            ("/r".to_string(), 0),
            ("/r/b".to_string(), 1),
            ("/r/b/c".to_string(), 2),
            ("/r/a".to_string(), 1),
        ]
    );
}

#[test]
fn beyond_depth_record_is_skipped_but_visited() {
    // A record beyond the bound is popped and marked visited, yet never
    // expanded: the same pair enqueued again later is still skipped.
    let mut engine = Engine::new("/r".to_string(), config(Some(0), false));
    let rec = engine.pop_next().expect("the root must be queued");
    assert_eq!(rec.path, "/r");
    assert_eq!(rec.depth, 0);
    assert!(engine.should_expand(&rec));
    assert_eq!(engine.visited.len(), 1);
    assert_eq!(engine.visited[0].path, "/r");
    assert_eq!(engine.visited[0].depth, 0);
    assert_eq!(engine.queue.len(), 0);
    let deep = pycache_cleaner::engine::VisitRecord { path: "/r/a".to_string(), depth: 1 };
    assert!(!engine.should_expand(&deep));
    assert!(engine.pop_next().is_none());
}
