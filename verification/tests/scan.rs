use mdserve::ignore::{interpret_ignore_output, ScanError};
use mdserve::scan::{FileKind, ScanBuilder};
use mdserve::snapshot::Snapshot;

fn segs(parts: &[&str]) -> Vec<String> {
    parts.iter().map(|s| s.to_string()).collect()
}

fn doc(title: &str, date: &str) -> String {
    format!("```meta\ntitle = \"{}\"\ndate = {}\n```\n\nbody of {}\n", title, date, title)
}

/// One fixed little content tree, fed to a builder as a walk would.
fn scan_fixture() -> Snapshot {
    let mut b = ScanBuilder::new();
    assert!(ScanBuilder::visit_dir(&segs(&["blog"])));
    assert!(!ScanBuilder::visit_dir(&segs(&[".git"])));
    assert_eq!(b.visit_file(&segs(&["blog", ".section.toml"])), FileKind::Other);
    assert_eq!(b.visit_file(&segs(&["blog", "first.md"])), FileKind::Markdown);
    b.add_document(&segs(&["blog", "first.md"]), &doc("First", "2024-05-01"));
    assert_eq!(b.visit_file(&segs(&["blog", "second.markdown"])), FileKind::Markdown);
    b.add_document(&segs(&["blog", "second.markdown"]), &doc("Second", "2024-06-01"));
    assert_eq!(b.visit_file(&segs(&["notes.md"])), FileKind::Markdown);
    b.add_document(&segs(&["notes.md"]), &doc("Notes", "2024-06-01"));
    assert_eq!(b.visit_file(&segs(&["stray", ".section.toml"])), FileKind::Other);
    assert_eq!(b.visit_file(&segs(&["README"])), FileKind::Other);
    assert_eq!(b.visit_file(&segs(&[".hidden.md"])), FileKind::Other);
    b.retain_real_sections();
    b.finish()
}

#[test]
fn sections_hold_root_sorted_unique() {
    let snap = scan_fixture();
    // the root label is always present; "stray" had no documents; sorted, unique
    assert_eq!(snap.sections, vec!["".to_string(), "blog".to_string()]);
}

#[test]
fn index_sorted_by_date_descending_stable() {
    let snap = scan_fixture();
    let paths: Vec<&str> = snap.index.iter().map(|e| e.path.as_str()).collect();
    // 2024-06-01 twice (encounter order kept), then 2024-05-01
    assert_eq!(paths, vec!["blog/second.markdown", "notes.md", "blog/first.md"]);
    assert_eq!(snap.index[0].meta.title, "Second");
    assert_eq!(snap.index[1].meta.title, "Notes");
    assert_eq!(snap.index[2].meta.title, "First");
    assert_eq!(snap.index[0].section, "blog");
    assert_eq!(snap.index[1].section, "");
}

#[test]
fn scanning_twice_yields_identical_snapshots() {
    let a = scan_fixture();
    let b = scan_fixture();
    assert_eq!(a.sections, b.sections);
    let pa: Vec<&str> = a.index.iter().map(|e| e.path.as_str()).collect();
    let pb: Vec<&str> = b.index.iter().map(|e| e.path.as_str()).collect();
    assert_eq!(pa, pb);
    for (x, y) in a.index.iter().zip(b.index.iter()) {
        assert_eq!(x.meta.title, y.meta.title);
        assert_eq!(x.meta.date, y.meta.date);
        assert_eq!(x.section, y.section);
    }
}

#[test]
fn document_without_front_matter_is_not_indexed() {
    let mut b = ScanBuilder::new();
    b.add_document(&segs(&["plain.md"]), "# no meta here\n\njust text\n");
    let snap = b.finish();
    assert!(snap.index.is_empty());
}

#[test]
fn hidden_segments_never_reach_the_index() {
    let mut b = ScanBuilder::new();
    b.add_document(&segs(&[".hidden", "a.md"]), &doc("Hidden", "2024-05-01"));
    b.add_document(&segs(&["..", "escape.md"]), &doc("Escape", "2024-05-01"));
    b.add_document(&segs(&["ok", "fine.md"]), &doc("Fine", "2024-05-01"));
    let snap = b.finish();
    let paths: Vec<&str> = snap.index.iter().map(|e| e.path.as_str()).collect();
    assert_eq!(paths, vec!["ok/fine.md"]);
}

#[test]
fn marker_alone_makes_no_section() {
    let mut b = ScanBuilder::new();
    b.visit_file(&segs(&["empty", ".section.toml"]));
    b.retain_real_sections();
    let snap = b.finish();
    assert_eq!(snap.sections, vec!["".to_string()]);
}

#[test]
fn ignored_sections_and_paths_are_dropped() {
    let mut b = ScanBuilder::new();
    b.visit_file(&segs(&["blog", ".section.toml"]));
    b.visit_file(&segs(&["junk", ".section.toml"]));
    b.add_document(&segs(&["blog", "a.md"]), &doc("A", "2024-05-01"));
    b.add_document(&segs(&["junk", "b.md"]), &doc("B", "2024-05-02"));
    b.add_document(&segs(&["junk", "c.md"]), &doc("C", "2024-05-03"));
    b.retain_real_sections();
    b.remove_ignored_sections(&vec!["junk".to_string()]);
    b.remove_ignored_paths(&vec!["junk/b.md".to_string(), "junk/c.md".to_string()]);
    let snap = b.finish();
    assert_eq!(snap.sections, vec!["".to_string(), "blog".to_string()]);
    let paths: Vec<&str> = snap.index.iter().map(|e| e.path.as_str()).collect();
    assert_eq!(paths, vec!["blog/a.md"]);
}

#[test]
fn ignore_output_clean_exit_lists_paths() {
    let r = interpret_ignore_output(Some(0), "blog/a.md\n junk/b.md \n", "");
    let v = r.expect("exit 0 lists ignored paths");
    assert_eq!(v, vec!["blog/a.md".to_string(), "junk/b.md".to_string()]);
}

#[test]
fn ignore_output_empty_exit_zero() {
    let r = interpret_ignore_output(Some(0), "", "");
    assert_eq!(r.expect("no output, no ignored paths"), Vec::<String>::new());
}

#[test]
fn ignore_output_failures() {
    assert!(matches!(
        interpret_ignore_output(Some(128), "", "fatal: not a repository"),
        Err(ScanError::IgnoreTool(_))
    ));
    assert!(matches!(
        interpret_ignore_output(Some(1), "", ""),
        Err(ScanError::IgnoreTool(_))
    ));
    assert!(matches!(
        interpret_ignore_output(None, "", ""),
        Err(ScanError::IgnoreTool(_))
    ));
}

#[test]
fn scan_error_messages_name_the_failure() {
    let m = ScanError::Io("boom".to_string()).message();
    assert!(m.contains("boom"));
    let m2 = ScanError::UndecodablePath.message();
    assert!(m2.contains("not valid text"));
}
