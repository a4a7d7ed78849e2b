//! Records of the Open Library dumps: the values read from the JSON column of a
//! dump line, and the rows that are stored for them.
use vstd::prelude::*;

use crate::text::{
    after_tabs, is_whitespace, lemma_strip_then_trim, lemma_trim_start_matches_of_copies,
    lemma_trim_ws_of_padded, repeated, lemma_trim_start_matches_result, opt_view, or_default_to,
    or_empty, rest_after_tabs, strip_prefix, strip_prefix_spec, trim, trim_start_matches,
    trim_start_matches_spec, trim_ws,
};

verus! {

/// The prefix of an author key: `/authors/`.
pub open spec fn authors_prefix() -> Seq<char> {
    seq!['/', 'a', 'u', 't', 'h', 'o', 'r', 's', '/']
}

/// The prefix of a work key: `/works/`.
pub open spec fn works_prefix() -> Seq<char> {
    seq!['/', 'w', 'o', 'r', 'k', 's', '/']
}

/// The prefix of an edition key: `/books/`.
pub open spec fn books_prefix() -> Seq<char> {
    seq!['/', 'b', 'o', 'o', 'k', 's', '/']
}

/// An author of the authors dump, e.g. key `/authors/OL10000050A`.
#[derive(Debug, Clone, PartialEq, Eq)]
pub struct AuthorJson {
    pub key: String,
    pub name: Option<String>,
}

/// A work of the works dump, e.g. key `/works/OL10000177W`.
#[derive(Debug, Clone, PartialEq, Eq)]
pub struct WorkJson {
    pub key: String,
    pub title: Option<String>,
    pub authors: Option<Vec<WorkAuthorRef>>,
}

/// One entry of a work's author list.
#[derive(Debug, Clone, PartialEq, Eq)]
pub struct WorkAuthorRef {
    pub author: Option<AuthorRef>,
}

/// A reference to an author by key.
#[derive(Debug, Clone, PartialEq, Eq)]
pub struct AuthorRef {
    pub key: String,
}

/// An edition of the editions dump.
#[derive(Debug, Clone, PartialEq, Eq)]
pub struct EditionRecord {
    pub key: String,
    pub title: String,
    pub authors: Vec<AuthorRef>,
    pub series: Vec<String>,
    pub covers: Vec<i64>,
}

/// The content of an edition record.
pub struct EditionRecordView {
    pub key: Seq<char>,
    pub title: Seq<char>,
    pub authors: Seq<Seq<char>>,
    pub series: Seq<Seq<char>>,
    pub covers: Seq<i64>,
}

impl View for EditionRecord {
    type V = EditionRecordView;

    open spec fn view(&self) -> EditionRecordView {
        EditionRecordView {
            key: self.key@,
            title: self.title@,
            authors: self.authors@.map_values(|a: AuthorRef| a.key@),
            series: self.series@.map_values(|s: String| s@),
            covers: self.covers@,
        }
    }
}

/// `s` with one leading `p` removed when it starts with `p`, else `s`.
pub open spec fn without_prefix(s: Seq<char>, p: Seq<char>) -> Seq<char> {
    or_default_to(strip_prefix_spec(s, p), s)
}

/// An edition record with `/books/` taken once off its key and `/authors/`
/// taken once off each author key.
pub open spec fn normalized(e: EditionRecordView) -> EditionRecordView {
    EditionRecordView {
        key: without_prefix(e.key, books_prefix()),
        title: e.title,
        authors: e.authors.map_values(|k: Seq<char>| without_prefix(k, authors_prefix())),
        series: e.series,
        covers: e.covers,
    }
}

/// `s` with one leading `p` removed, as a new string, when it starts with `p`;
/// a copy of `s` otherwise.
fn without_prefix_exec(s: &String, p: &str) -> (r: String)
    ensures
        r@ == without_prefix(s@, p@),
{
    match strip_prefix(s.as_str(), p) {
        Some(t) => t,
        None => s.clone(),
    }
}

impl EditionRecord {
    /// Takes `/books/` once off the key and `/authors/` once off each author
    /// key, where they start with it.
    pub fn normalize(&mut self)
        ensures
            final(self)@ == normalized(old(self)@),
    {
        proof {
            reveal_strlit("/books/");
            reveal_strlit("/authors/");
            assert("/authors/"@ =~= authors_prefix());
            assert("/books/"@ =~= books_prefix());
        }
        if let Some(stripped) = strip_prefix(self.key.as_str(), "/books/") {
            self.key = stripped;
        }
        let ghost old_authors = old(self)@.authors;
        let mut authors: Vec<AuthorRef> = Vec::new();
        let mut i: usize = 0;
        while i < self.authors.len()
            invariant
                "/authors/"@ == authors_prefix(),
                self.authors@.map_values(|a: AuthorRef| a.key@) == old_authors,
                i <= self.authors@.len(),
                authors@.len() == i,
                forall|k: int|
                    0 <= k < i ==> #[trigger] authors@[k].key@ == without_prefix(
                        old_authors[k],
                        authors_prefix(),
                    ),
            decreases self.authors@.len() - i,
        {
            let key = without_prefix_exec(&self.authors[i].key, "/authors/");
            proof {
                assert(old_authors[i as int] == self.authors@[i as int].key@);
            }
            authors.push(AuthorRef { key });
            i = i + 1;
        }
        self.authors = authors;
        assert(self@.authors =~= normalized(old(self)@).authors);
    }
}

/// The number of tab-separated columns in front of the JSON column of a dump
/// line (type, key, revision, last modified).
pub const LEADING_COLUMNS: usize = 4;

/// The JSON column of a dump line: everything after its fourth tab, or `None`
/// when the line holds fewer than four tabs.
pub fn json_column(line: &str) -> (r: Option<String>)
    ensures
        opt_view(r) == after_tabs(line@, 4),
{
    rest_after_tabs(line, LEADING_COLUMNS)
}

/// The row stored for an author.
#[derive(Debug, Clone, PartialEq, Eq)]
pub struct AuthorRow {
    pub id: String,
    pub name: String,
}

/// The row stored for a work.
#[derive(Debug, Clone, PartialEq, Eq)]
pub struct WorkRow {
    pub id: String,
    pub author_id: Option<String>,
    pub title: String,
}

/// The row stored for an edition, together with its author links.
#[derive(Debug, Clone, PartialEq, Eq)]
pub struct EditionRow {
    pub edition_id: String,
    pub title: String,
    pub series: String,
    pub cover: i64,
    pub authors: Vec<String>,
}

/// The content of an edition row.
pub struct EditionRowView {
    pub edition_id: Seq<char>,
    pub title: Seq<char>,
    pub series: Seq<char>,
    pub cover: i64,
    pub authors: Seq<Seq<char>>,
}

impl View for EditionRow {
    type V = EditionRowView;

    open spec fn view(&self) -> EditionRowView {
        EditionRowView {
            edition_id: self.edition_id@,
            title: self.title@,
            series: self.series@,
            cover: self.cover,
            authors: self.authors@.map_values(|a: String| a@),
        }
    }
}

/// The content of an optional edition row.
pub open spec fn opt_row_view(r: Option<EditionRow>) -> Option<EditionRowView> {
    match r {
        Some(row) => Some(row@),
        None => None,
    }
}

/// The id of an author: its key without the leading `/authors/` and without
/// surrounding whitespace.
pub open spec fn author_id_spec(key: Seq<char>) -> Seq<char> {
    trim_ws(trim_start_matches_spec(key, authors_prefix()))
}

/// The key of the author in the first entry of a work's author list, if the
/// list and that entry's author are present.
pub open spec fn first_author_key(w: &WorkJson) -> Option<Seq<char>> {
    match w.authors {
        Some(v) => if v@.len() > 0 {
            match v@[0].author {
                Some(a) => Some(a.key@),
                None => None,
            }
        } else {
            None
        },
        None => None,
    }
}

/// The row stored for an edition: only an edition in a series gets one. Its
/// id and its author ids lose every leading `/books/` and `/authors/`; its
/// series is the first listed, its cover the first listed or 0.
pub open spec fn edition_row_spec(e: EditionRecordView) -> Option<EditionRowView> {
    if e.series.len() == 0 {
        None
    } else {
        Some(
            EditionRowView {
                edition_id: trim_start_matches_spec(e.key, books_prefix()),
                title: e.title,
                series: e.series[0],
                cover: if e.covers.len() > 0 {
                    e.covers[0]
                } else {
                    0
                },
                authors: e.authors.map_values(
                    |k: Seq<char>| trim_start_matches_spec(k, authors_prefix()),
                ),
            },
        )
    }
}

/// The row stored for an author: the key without its leading `/authors/`,
/// the name or nothing, each without surrounding whitespace.
pub fn author_row(author: AuthorJson) -> (r: AuthorRow)
    ensures
        r.id@ == author_id_spec(author.key@),
        r.name@ == trim_ws(or_empty(opt_view(author.name))),
{
    proof {
        reveal_strlit("/authors/");
        assert("/authors/"@ =~= authors_prefix());
    }
    let id = trim_start_matches(author.key.as_str(), "/authors/");
    let id = trim(id.as_str());
    let name = match author.name {
        Some(n) => n,
        None => String::new(),
    };
    let name = trim(name.as_str());
    AuthorRow { id, name }
}

/// The row stored for a work: the key without its leading `/works/`, the
/// first author's key without its leading `/authors/`, the title or nothing.
pub fn work_row(work: WorkJson) -> (r: WorkRow)
    ensures
        r.id@ == trim_start_matches_spec(work.key@, works_prefix()),
        r.title@ == or_empty(opt_view(work.title)),
        opt_view(r.author_id) == match first_author_key(&work) {
            Some(k) => Some(trim_start_matches_spec(k, authors_prefix())),
            None => None,
        },
{
    proof {
        reveal_strlit("/works/");
        reveal_strlit("/authors/");
        assert("/works/"@ =~= works_prefix());
        assert("/authors/"@ =~= authors_prefix());
    }
    let id = trim_start_matches(work.key.as_str(), "/works/");
    let author_id = match &work.authors {
        Some(list) => if list.len() > 0 {
            match &list[0].author {
                Some(a) => Some(trim_start_matches(a.key.as_str(), "/authors/")),
                None => None,
            }
        } else {
            None
        },
        None => None,
    };
    let title = match work.title {
        Some(t) => t,
        None => String::new(),
    };
    WorkRow { id, author_id, title }
}

/// The row stored for an edition, or `None` for an edition in no series.
/// The record is normalized first, which, as `lemma_normalize_keeps_row`
/// shows, changes no row.
pub fn edition_row(edition: EditionRecord) -> (r: Option<EditionRow>)
    ensures
        opt_row_view(r) == edition_row_spec(edition@),
{
    let mut edition = edition;
    let ghost given = edition@;
    edition.normalize();
    proof {
        lemma_normalize_keeps_row(given);
        reveal_strlit("/books/");
        reveal_strlit("/authors/");
        assert("/books/"@ =~= books_prefix());
        assert("/authors/"@ =~= authors_prefix());
    }
    if edition.series.len() == 0 {
        return None;
    }
    let edition_id = trim_start_matches(edition.key.as_str(), "/books/");
    let series = edition.series[0].clone();
    let cover: i64 = if edition.covers.len() > 0 {
        edition.covers[0]
    } else {
        0
    };
    let ghost keys = edition@.authors;
    let mut authors: Vec<String> = Vec::new();
    let mut i: usize = 0;
    while i < edition.authors.len()
        invariant
            "/authors/"@ == authors_prefix(),
            keys == edition.authors@.map_values(|a: AuthorRef| a.key@),
            i <= edition.authors@.len(),
            authors@.len() == i,
            forall|k: int|
                0 <= k < i ==> #[trigger] authors@[k]@ == trim_start_matches_spec(
                    keys[k],
                    authors_prefix(),
                ),
        decreases edition.authors@.len() - i,
    {
        let a = trim_start_matches(edition.authors[i].key.as_str(), "/authors/");
        proof {
            assert(keys[i as int] == edition.authors@[i as int].key@);
        }
        authors.push(a);
        i = i + 1;
    }
    let row = EditionRow { edition_id, title: edition.title, series, cover, authors };
    assert(row@.authors =~= keys.map_values(
        |k: Seq<char>| trim_start_matches_spec(k, authors_prefix()),
    ));
    Some(row)
}

/// Normalizing an edition record before taking its row changes nothing in the
/// row: the leading prefixes it takes off once are all taken off anyway.
pub proof fn lemma_normalize_keeps_row(e: EditionRecordView)
    ensures
        edition_row_spec(normalized(e)) == edition_row_spec(e),
{
    let n = normalized(e);
    lemma_strip_then_trim(e.key, books_prefix());
    let a1 = n.authors.map_values(|k: Seq<char>| trim_start_matches_spec(k, authors_prefix()));
    let a2 = e.authors.map_values(|k: Seq<char>| trim_start_matches_spec(k, authors_prefix()));
    assert forall|i: int| 0 <= i < a1.len() implies a1[i] == a2[i] by {
        lemma_strip_then_trim(e.authors[i], authors_prefix());
    }
    assert(a1 =~= a2);
}

/// The ids of an edition row no longer start with their prefixes.
pub proof fn lemma_edition_row_ids_unprefixed(e: EditionRecordView)
    ensures
        edition_row_spec(e) matches Some(row) ==> {
            &&& !books_prefix().is_prefix_of(row.edition_id)
            &&& forall|i: int|
                0 <= i < row.authors.len() ==> !authors_prefix().is_prefix_of(
                    #[trigger] row.authors[i],
                )
        },
{
    lemma_trim_start_matches_result(e.key, books_prefix());
    assert forall|i: int| 0 <= i < e.authors.len() implies !authors_prefix().is_prefix_of(
        trim_start_matches_spec(e.authors[i], authors_prefix()),
    ) by {
        lemma_trim_start_matches_result(e.authors[i], authors_prefix());
    }
}

/// What normalizing does, entry by entry: the key loses one leading
/// `/books/` when it has one and is kept otherwise; each author key, whatever
/// the number of authors, loses one leading `/authors/` when it has one and is
/// kept otherwise; title, series and covers stay.
pub proof fn lemma_normalized_entries(e: EditionRecordView)
    ensures
        normalized(e).title == e.title,
        normalized(e).series == e.series,
        normalized(e).covers == e.covers,
        books_prefix().is_prefix_of(e.key) ==> books_prefix() + normalized(e).key == e.key,
        !books_prefix().is_prefix_of(e.key) ==> normalized(e).key == e.key,
        normalized(e).authors.len() == e.authors.len(),
        forall|i: int|
            0 <= i < e.authors.len() ==> {
                &&& authors_prefix().is_prefix_of(#[trigger] e.authors[i]) ==> authors_prefix()
                    + normalized(e).authors[i] == e.authors[i]
                &&& !authors_prefix().is_prefix_of(e.authors[i]) ==> normalized(e).authors[i]
                    == e.authors[i]
            },
{
    if books_prefix().is_prefix_of(e.key) {
        assert(books_prefix() + e.key.skip(7) =~= e.key);
    }
    assert forall|i: int| 0 <= i < e.authors.len() implies {
        &&& authors_prefix().is_prefix_of(#[trigger] e.authors[i]) ==> authors_prefix()
            + normalized(e).authors[i] == e.authors[i]
        &&& !authors_prefix().is_prefix_of(e.authors[i]) ==> normalized(e).authors[i]
            == e.authors[i]
    } by {
        let k = e.authors[i];
        if authors_prefix().is_prefix_of(k) {
            assert(authors_prefix() + k.skip(9) =~= k);
        }
    }
}

/// What the row of an edition holds: there is one exactly when the edition
/// lists a series; its title is the edition's, its series the first listed,
/// its cover the first listed cover whenever there is one (however many there
/// are) and 0 only when there is none; it has one author id per author key,
/// each the key with its leading `/authors/` removed, and the edition id is
/// the key with its leading `/books/` removed.
pub proof fn lemma_edition_row_entries(e: EditionRecordView)
    ensures
        (edition_row_spec(e) is None) <==> e.series.len() == 0,
        edition_row_spec(e) matches Some(row) ==> {
            &&& row.title == e.title
            &&& row.series == e.series[0]
            &&& e.covers.len() > 0 ==> row.cover == e.covers[0]
            &&& e.covers.len() == 0 ==> row.cover == 0
            &&& row.edition_id == trim_start_matches_spec(e.key, books_prefix())
            &&& row.authors.len() == e.authors.len()
            &&& forall|i: int|
                0 <= i < e.authors.len() ==> #[trigger] row.authors[i] == trim_start_matches_spec(
                    e.authors[i],
                    authors_prefix(),
                )
        },
{
}

/// The author of a work is the author of the first entry of its author list:
/// present exactly when the list is present, not empty, and its first entry
/// names an author, whatever the length of the list.
pub proof fn lemma_first_author_entry(w: &WorkJson)
    ensures
        w.authors is None ==> first_author_key(w) is None,
        w.authors matches Some(v) ==> {
            &&& v@.len() == 0 ==> first_author_key(w) is None
            &&& v@.len() > 0 && v@[0].author is None ==> first_author_key(w) is None
            &&& v@.len() > 0 && v@[0].author is Some ==> first_author_key(w) == Some(
                v@[0].author->0.key@,
            )
        },
{
}

/// The id of an author is the key without all its leading `/authors/`
/// copies and without the whitespace around it: for any number of copies and
/// any whitespace padding, the id is what they surround.
pub proof fn lemma_author_id_entries(j: nat, w1: Seq<char>, k: Seq<char>, w2: Seq<char>)
    requires
        forall|i: int| 0 <= i < w1.len() ==> is_whitespace(#[trigger] w1[i]),
        forall|i: int| 0 <= i < w2.len() ==> is_whitespace(#[trigger] w2[i]),
        k.len() == 0 || (!is_whitespace(k[0]) && !is_whitespace(k.last())),
        !authors_prefix().is_prefix_of(w1 + k + w2),
    ensures
        author_id_spec(repeated(authors_prefix(), j) + (w1 + k + w2)) == k,
{
    lemma_trim_start_matches_of_copies(authors_prefix(), j, w1 + k + w2);
    lemma_trim_ws_of_padded(w1, k, w2);
}

} // verus!
