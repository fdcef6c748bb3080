use mdserve::date::Date;
use mdserve::ignore::ScanError;
use mdserve::meta::Meta;
use mdserve::reload::Controller;
use mdserve::routes::{route_path, Route};
use mdserve::snapshot::{IndexEntry, Snapshot};

fn snapshot_with(path: &str) -> Snapshot {
    Snapshot {
        sections: vec!["".to_string()],
        index: vec![IndexEntry {
            meta: Meta {
                title: "t".to_string(),
                date: Date { year: 2024, month: 5, day: 1 },
                lang: None,
                desc: None,
            },
            section: "".to_string(),
            path: path.to_string(),
        }],
    }
}

#[test]
fn failed_reload_keeps_previous_snapshot() {
    let mut c = Controller::new(snapshot_with("a.md"));
    let swapped = c.apply_reload(Err(ScanError::Io("content root unreadable".to_string())));
    assert!(!swapped);
    // a request made immediately after still resolves against the old snapshot
    assert!(matches!(route_path("/a.md", c.current()), Route::Document(_)));
    assert_eq!(c.current().index.len(), 1);
    assert_eq!(c.current().index[0].path, "a.md");
}

#[test]
fn successful_reload_swaps_snapshot() {
    let mut c = Controller::new(snapshot_with("a.md"));
    let swapped = c.apply_reload(Ok(snapshot_with("b.md")));
    assert!(swapped);
    assert!(matches!(route_path("/b.md", c.current()), Route::Document(_)));
    assert!(matches!(route_path("/a.md", c.current()), Route::NotFound));
}
