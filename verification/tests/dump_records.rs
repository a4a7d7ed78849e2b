use librarian::records::{
    author_row, edition_row, json_column, work_row, AuthorJson, AuthorRef, EditionRecord,
    WorkAuthorRef, WorkJson,
};

fn edition(key: &str, authors: &[&str], series: &[&str], covers: &[i64]) -> EditionRecord {
    EditionRecord {
        key: key.to_string(),
        title: "The Churn".to_string(),
        authors: authors.iter().map(|k| AuthorRef { key: k.to_string() }).collect(),
        series: series.iter().map(|s| s.to_string()).collect(),
        covers: covers.to_vec(),
    }
}

#[test]
fn json_column_takes_the_fifth_column() {
    let line = "/type/author\t/authors/OL1A\t3\t2008-04-01T03:28:50\t{\"name\": \"a\tb\"}";
    assert_eq!(json_column(line), Some("{\"name\": \"a\tb\"}".to_string()));
    assert_eq!(json_column("a\tb\tc\t{}"), None);
    assert_eq!(json_column("no tabs"), None);
    assert_eq!(json_column("a\tb\tc\td\t"), Some(String::new()));
}

#[test]
fn author_row_strips_key_and_trims() {
    let row = author_row(AuthorJson {
        key: "/authors/OL10000050A ".to_string(),
        name: Some("  Günter Brauneis\n".to_string()),
    });
    assert_eq!(row.id, "OL10000050A");
    assert_eq!(row.name, "Günter Brauneis");
}

#[test]
fn author_row_without_name_has_empty_name() {
    let row = author_row(AuthorJson { key: "/authors//authors/OL1A".to_string(), name: None });
    assert_eq!(row.id, "OL1A");
    assert_eq!(row.name, "");
}

#[test]
fn work_row_takes_first_author() {
    let row = work_row(WorkJson {
        key: "/works/OL10000177W".to_string(),
        title: Some("L'île des esclaves, de Marivaux".to_string()),
        authors: Some(vec![
            WorkAuthorRef { author: Some(AuthorRef { key: "/authors/OL5A".to_string() }) },
            WorkAuthorRef { author: Some(AuthorRef { key: "/authors/OL6A".to_string() }) },
        ]),
    });
    assert_eq!(row.id, "OL10000177W");
    assert_eq!(row.title, "L'île des esclaves, de Marivaux");
    assert_eq!(row.author_id, Some("OL5A".to_string()));
}

#[test]
fn work_row_without_authors_or_title() {
    let none = work_row(WorkJson { key: "/works/OL1W".to_string(), title: None, authors: None });
    assert_eq!(none.author_id, None);
    assert_eq!(none.title, "");
    let empty =
        work_row(WorkJson { key: "OL1W".to_string(), title: None, authors: Some(Vec::new()) });
    assert_eq!(empty.author_id, None);
    assert_eq!(empty.id, "OL1W");
    let no_author = work_row(WorkJson {
        key: "/works/OL2W".to_string(),
        title: None,
        authors: Some(vec![WorkAuthorRef { author: None }]),
    });
    assert_eq!(no_author.author_id, None);
}

#[test]
fn normalize_strips_once() {
    let mut e = edition(
        "/books//books/OL1M",
        &["/authors/OL1A", "OL2A", "/authors//authors/OL3A"],
        &[],
        &[],
    );
    e.normalize();
    assert_eq!(e.key, "/books/OL1M");
    let keys: Vec<&str> = e.authors.iter().map(|a| a.key.as_str()).collect();
    assert_eq!(keys, vec!["OL1A", "OL2A", "/authors/OL3A"]);
    assert_eq!(e.title, "The Churn");
}

#[test]
fn edition_row_needs_a_series() {
    assert_eq!(edition_row(edition("/books/OL1M", &["/authors/OL1A"], &[], &[5])), None);
}

#[test]
fn edition_row_takes_first_series_and_cover() {
    let row = edition_row(edition(
        "/books//books/OL1M",
        &["/authors/OL1A", "/authors//authors/OL3A"],
        &["The Expanse", "Other"],
        &[42, 7],
    ))
    .unwrap();
    assert_eq!(row.edition_id, "OL1M");
    assert_eq!(row.title, "The Churn");
    assert_eq!(row.series, "The Expanse");
    assert_eq!(row.cover, 42);
    assert_eq!(row.authors, vec!["OL1A".to_string(), "OL3A".to_string()]);
}

#[test]
fn edition_row_without_cover_uses_zero() {
    let row = edition_row(edition("OL1M", &[], &["S"], &[])).unwrap();
    assert_eq!(row.cover, 0);
    assert_eq!(row.edition_id, "OL1M");
    assert!(row.authors.is_empty());
}

#[test]
fn normalizing_first_keeps_the_row() {
    let raw = edition("/books//books/OL9M", &["/authors//authors/OL1A", "x"], &["S"], &[1]);
    let mut normalized = raw.clone();
    normalized.normalize();
    assert_eq!(edition_row(normalized), edition_row(raw));
}
