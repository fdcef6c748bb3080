use mdserve::date::Date;
use mdserve::render::render_markdown;

#[test]
fn body_markdown_becomes_html() {
    let (html, meta) = render_markdown("# Hello\n\nplain body text\n");
    assert!(html.contains("<h1>"));
    assert!(html.contains("plain body text"));
    assert!(meta.is_none());
}

#[test]
fn gfm_tables_are_enabled() {
    let (html, _) = render_markdown("| a | b |\n| --- | --- |\n| 1 | 2 |\n");
    assert!(html.contains("<table>"));
}

#[test]
fn round_trip_meta_block_indexed_and_rendered() {
    let doc = "```meta\ntitle = \"T\"\ndate = 2024-05-01\n```\n\nbody text after the block\n";
    let (html, meta) = render_markdown(doc);
    assert!(html.contains("body text after the block"));
    let m = meta.expect("the meta block carries metadata");
    assert_eq!(m.title, "T");
    assert_eq!(m.date, Date { year: 2024, month: 5, day: 1 });
}

#[test]
fn meta_block_is_suppressed_from_output() {
    let doc = "```meta\ntitle = \"Secret Title Line\"\ndate = 2024-05-01\n```\n\nvisible\n";
    let (html, _) = render_markdown(doc);
    assert!(!html.contains("Secret Title Line"));
    assert!(html.contains("visible"));
}

#[test]
fn invalid_front_matter_still_renders() {
    let doc = "```meta\ntitle = broken here\n```\n\nthe body still renders\n";
    let (html, meta) = render_markdown(doc);
    assert!(meta.is_none());
    assert!(html.contains("the body still renders"));
}

#[test]
fn fenced_code_is_highlighted() {
    let doc = "```rust\nfn main() {}\n```\n";
    let (html, _) = render_markdown(doc);
    // syntect's HTML fragments open with a styled <pre>
    assert!(html.contains("<pre style="));
    assert!(html.contains("main"));
}

#[test]
fn unknown_language_falls_back_to_plain_text() {
    let doc = "```nosuchlanguage\nsome opaque text\n```\n";
    let (html, _) = render_markdown(doc);
    assert!(html.contains("some opaque text"));
    assert!(html.contains("<pre style="));
}

#[test]
fn indented_code_passes_through() {
    let doc = "para\n\n    indented code line\n";
    let (html, _) = render_markdown(doc);
    assert!(html.contains("indented code line"));
    assert!(html.contains("<code>"));
}

#[test]
fn last_meta_block_wins() {
    let doc = "```meta\ntitle = \"A\"\ndate = 2024-01-02\n```\n\nmid\n\n```meta\ntitle = \"B\"\ndate = 2024-01-03\n```\n";
    let (_, meta) = render_markdown(doc);
    let m = meta.expect("metadata present");
    assert_eq!(m.title, "B");
}

#[test]
fn broken_meta_block_keeps_earlier_metadata() {
    let doc = "```meta\ntitle = \"A\"\ndate = 2024-01-02\n```\n\nmid\n\n```meta\nnot valid\n```\n";
    let (_, meta) = render_markdown(doc);
    let m = meta.expect("earlier block still counts");
    assert_eq!(m.title, "A");
}
