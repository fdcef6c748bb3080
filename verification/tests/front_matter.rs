use mdserve::date::{parse_date, Date};
use mdserve::meta::{parse_front_matter, Meta};

#[test]
fn parse_date_exact() {
    assert_eq!(
        parse_date("2024-05-01"),
        Some(Date { year: 2024, month: 5, day: 1 })
    );
    assert_eq!(
        parse_date("1999-12-31"),
        Some(Date { year: 1999, month: 12, day: 31 })
    );
}

#[test]
fn parse_date_leap_years() {
    assert_eq!(
        parse_date("2024-02-29"),
        Some(Date { year: 2024, month: 2, day: 29 })
    );
    assert_eq!(parse_date("2023-02-29"), None);
    assert_eq!(
        parse_date("2000-02-29"),
        Some(Date { year: 2000, month: 2, day: 29 })
    );
    assert_eq!(parse_date("1900-02-29"), None);
}

#[test]
fn parse_date_rejects_malformed() {
    assert_eq!(parse_date("2024-13-01"), None);
    assert_eq!(parse_date("2024-00-10"), None);
    assert_eq!(parse_date("2024-04-31"), None);
    assert_eq!(parse_date("2024-1-01"), None);
    assert_eq!(parse_date("05-01-2024"), None);
    assert_eq!(parse_date(""), None);
}

#[test]
fn date_order() {
    let a = Date { year: 2024, month: 5, day: 1 };
    let b = Date { year: 2024, month: 5, day: 2 };
    let c = Date { year: 2023, month: 12, day: 31 };
    assert!(a.le(&b));
    assert!(!b.le(&a));
    assert!(c.le(&a));
    assert!(a.le(&a));
}

#[test]
fn front_matter_full_block() {
    let m = parse_front_matter(
        "title = \"A Post\"\ndate = 2024-05-01\nlang = \"en\"\ndesc = \"About things\"\n",
    )
    .expect("well-formed block");
    assert_eq!(m.title, "A Post");
    assert_eq!(m.date, Date { year: 2024, month: 5, day: 1 });
    assert_eq!(m.lang.as_deref(), Some("en"));
    assert_eq!(m.desc.as_deref(), Some("About things"));
}

#[test]
fn front_matter_minimal_block() {
    let m = parse_front_matter("title = \"T\"\ndate = 2024-05-01\n").expect("valid");
    assert_eq!(m.title, "T");
    assert_eq!(m.date, Date { year: 2024, month: 5, day: 1 });
    assert_eq!(m.lang, None);
    assert_eq!(m.desc, None);
}

#[test]
fn front_matter_date_as_string() {
    let m = parse_front_matter("title = \"T\"\ndate = \"2024-05-01\"\n").expect("valid");
    assert_eq!(m.date, Date { year: 2024, month: 5, day: 1 });
}

#[test]
fn front_matter_comments_and_blanks() {
    // a `#` after a quoted string or a bare date starts a comment
    let m = parse_front_matter(
        "# a comment\n\ntitle = \"T\"   # after the string\ndate = 2024-05-01 # after the date\n\n",
    )
    .expect("comments and blanks are skipped");
    assert_eq!(m.title, "T");
    assert_eq!(m.date, Date { year: 2024, month: 5, day: 1 });
}

#[test]
fn front_matter_escapes_and_literals() {
    let m = parse_front_matter(
        "title = \"a\\\"b\\\\c\\nd\"\ndate = 2024-05-01\ndesc = 'no \\escapes here'\n",
    )
    .expect("valid");
    assert_eq!(m.title, "a\"b\\c\nd");
    assert_eq!(m.desc.as_deref(), Some("no \\escapes here"));
}

#[test]
fn front_matter_unknown_keys_allowed() {
    let m = parse_front_matter(
        "title = \"T\"\ndate = 2024-05-01\ndraft = true\nweight = 42\nother = \"x\"\n",
    );
    assert!(m.is_some());
}

#[test]
fn front_matter_missing_title_or_date() {
    assert!(parse_front_matter("date = 2024-05-01\n").is_none());
    assert!(parse_front_matter("title = \"T\"\n").is_none());
    assert!(parse_front_matter("").is_none());
}

#[test]
fn front_matter_bad_lines_reject_block() {
    assert!(parse_front_matter("title = \"T\"\ndate = 2024-05-01\nnot a kv line\n").is_none());
    assert!(parse_front_matter("title = \"unterminated\ndate = 2024-05-01\n").is_none());
    assert!(parse_front_matter("title = \"T\"\ndate = wrong\n").is_none());
    assert!(parse_front_matter("title = 7\ndate = 2024-05-01\n").is_none());
    assert!(parse_front_matter("title = \"T\"\ndate = 2024-05-01\nbad key! = \"x\"\n").is_none());
}

#[test]
fn front_matter_duplicate_key_rejects_block() {
    assert!(
        parse_front_matter("title = \"T\"\ntitle = \"U\"\ndate = 2024-05-01\n").is_none()
    );
}

#[test]
fn default_meta_sentinels() {
    let m = Meta::default();
    assert_eq!(m.title, "UNTITLED!");
    assert_eq!(m.date, Date { year: 2024, month: 1, day: 1 });
    assert_eq!(m.lang, None);
    assert_eq!(m.desc, None);
}
