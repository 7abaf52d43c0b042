//! Show identity resolution and per-season rating extraction.
//!
//! A search page is reduced to its candidate results, the first
//! candidate's link is matched against the `/title/<ID>/` URL shape, and
//! an episode listing page is reduced to rating cells that become one
//! season's rating sequence in tenths.  The HTML queries go through the
//! `scraper` crate behind trusted wrappers; everything after them is
//! verified against the names given to the wrappers' results.

use vstd::prelude::*;
use vstd::pervasive::VecAdditionalExecFns;

use crate::assoc::{assoc_map, lemma_assoc_map_insert_at, lemma_assoc_map_update, unique_keys};
use crate::error::Error;
use crate::labels::{is_numeric_label, label_less, label_lt, leading_zeros,
    lemma_label_lt_connected, lemma_label_lt_irrefl, lemma_label_lt_trans, num_lt, stripped};
use crate::parse::{is_digit_char, parse_rating_tenths, rating_text_value, trim_placeholders,
    trim_trailing_placeholders};
use crate::PLACEHOLDER_TENTHS;

verus! {

/// One season of a show: its label (usually `"1"`, `"2"`, ...) and the
/// per-episode ratings in tenths, in episode order.
#[derive(Debug, PartialEq)]
pub struct SeasonRatings {
    pub season_label: String,
    pub ratings: Vec<i32>,
}

impl View for SeasonRatings {
    type V = (Seq<char>, Seq<i32>);

    open spec fn view(&self) -> (Seq<char>, Seq<i32>) {
        (self.season_label@, self.ratings@)
    }
}

impl SeasonRatings {
    /// An equal copy.
    pub fn duplicate(&self) -> (r: SeasonRatings)
        ensures
            r@ == self@,
    {
        SeasonRatings { season_label: self.season_label.clone(), ratings: clone_values(
            &self.ratings,
        ) }
    }
}

/// The seasons as (label, ratings) pairs, in stored order.
pub open spec fn season_pairs(s: Seq<SeasonRatings>) -> Seq<(Seq<char>, Seq<i32>)> {
    Seq::new(s.len(), |i: int| s[i]@)
}

/// Strictly sorted by the label order, so every label occurs at most
/// once.
pub open spec fn sorted_by_label(s: Seq<SeasonRatings>) -> bool {
    forall|i: int, j: int|
        0 <= i < j < s.len() ==> label_lt(s[i].season_label@, s[j].season_label@)
}

/// The map from season label to rating sequence that a season table
/// denotes.
pub open spec fn seasons_map(s: Seq<SeasonRatings>) -> Map<Seq<char>, Seq<i32>> {
    assoc_map(season_pairs(s))
}

/// Strict sortedness makes the labels pairwise distinct.
pub proof fn lemma_sorted_unique(s: Seq<SeasonRatings>)
    requires
        sorted_by_label(s),
    ensures
        unique_keys(season_pairs(s)),
{
    assert forall|i: int, j: int|
        0 <= i < j < season_pairs(s).len() implies season_pairs(s)[i].0 != season_pairs(s)[j].0 by {
        lemma_label_lt_irrefl(s[i].season_label@);
        if s[i].season_label@ == s[j].season_label@ {
            assert(label_lt(s[i].season_label@, s[j].season_label@));
        }
    }
}

/// The full rating record of one show: its display title and every
/// season, kept strictly sorted by the label order.
#[derive(Debug, PartialEq)]
pub struct Ratings {
    pub name: String,
    pub ratings: Vec<SeasonRatings>,
}

impl View for Ratings {
    type V = (Seq<char>, Seq<(Seq<char>, Seq<i32>)>);

    open spec fn view(&self) -> (Seq<char>, Seq<(Seq<char>, Seq<i32>)>) {
        (self.name@, self.seasons())
    }
}

impl Ratings {
    /// The seasons as (label, ratings) pairs, in stored order.
    pub open spec fn seasons(self) -> Seq<(Seq<char>, Seq<i32>)> {
        season_pairs(self.ratings@)
    }

    /// The seasons are strictly sorted by the label order, so every
    /// label occurs at most once.
    pub open spec fn wf(self) -> bool {
        sorted_by_label(self.ratings@)
    }

    /// An equal copy.
    pub fn duplicate(&self) -> (r: Ratings)
        ensures
            r@ == self@,
            r.wf() == self.wf(),
    {
        let mut seasons: Vec<SeasonRatings> = Vec::new();
        let mut i: usize = 0;
        while i < self.ratings.len()
            invariant
                i <= self.ratings@.len(),
                seasons@.len() == i,
                forall|k: int| 0 <= k < i ==> seasons@[k]@ == self.ratings@[k]@,
            decreases self.ratings@.len() - i,
        {
            seasons.push(self.ratings[i].duplicate());
            i = i + 1;
        }
        let r = Ratings { name: self.name.clone(), ratings: seasons };
        proof {
            assert(r.seasons() =~= self.seasons());
            assert forall|a: int, b: int|
                0 <= a < b < r.ratings@.len() implies (label_lt(
                r.ratings@[a].season_label@,
                r.ratings@[b].season_label@,
            ) == label_lt(
                self.ratings@[a].season_label@,
                self.ratings@[b].season_label@,
            )) by {
                assert(r.ratings@[a]@ == self.ratings@[a]@);
                assert(r.ratings@[b]@ == self.ratings@[b]@);
            }
        }
        r
    }
}

/// An equal copy of a rating vector.
fn clone_values(v: &Vec<i32>) -> (r: Vec<i32>)
    ensures
        r@ == v@,
{
    let mut r: Vec<i32> = Vec::new();
    let mut i: usize = 0;
    while i < v.len()
        invariant
            i <= v@.len(),
            r@ == v@.take(i as int),
        decreases v@.len() - i,
    {
        r.push(v[i]);
        proof {
            assert(v@.take(i + 1) =~= v@.take(i as int).push(v@[i as int]));
        }
        i = i + 1;
    }
    proof {
        assert(v@.take(v@.len() as int) =~= v@);
    }
    r
}

/// The search hits of a search result page: for every element matching
/// the candidate selector, in document order, its inner HTML and its
/// `href` attribute.
pub uninterp spec fn search_hits_of(html: Seq<char>) -> Seq<(Seq<char>, Option<Seq<char>>)>;

/// Relies on `scraper::Html::parse_document`, `scraper::Selector::parse`
/// and `Html::select`: parsing a document and selecting
/// `.findResult .result_text a, .find-title-result a` are functions of
/// the document text alone, and `select` walks it in document order.
#[verifier::external_body]
fn scrape_search_hits(html: &str) -> (r: Vec<(String, Option<String>)>)
    ensures
        r.deep_view() == search_hits_of(html@),
{
    let document = scraper::Html::parse_document(html);
    let selector = scraper::Selector::parse(
        ".findResult .result_text a, .find-title-result a",
    ).unwrap();
    document
        .select(&selector)
        .map(|e| (e.inner_html(), e.attr("href").map(|a| a.to_string())))
        .collect()
}

/// The season labels of an episode listing page: the text of every
/// element matching the season selector, in document order.
pub uninterp spec fn season_labels_of(html: Seq<char>) -> Seq<Seq<char>>;

/// Relies on `scraper::Html::parse_document`, `scraper::Selector::parse`
/// and `Html::select`: selecting `[data-testid="tab-season-entry"]` and
/// concatenating each element's text nodes are functions of the document
/// text alone.
#[verifier::external_body]
fn scrape_season_labels(html: &str) -> (r: Vec<String>)
    ensures
        r.deep_view() == season_labels_of(html@),
{
    let document = scraper::Html::parse_document(html);
    let selector = scraper::Selector::parse("[data-testid=\"tab-season-entry\"]").unwrap();
    document.select(&selector).map(|e| e.text().collect::<String>()).collect()
}

/// The rating cells of an episode listing page, one per element matching
/// the rating-group selector, in document order.  `None` is a cell with
/// no child at all (an unrated episode); `Some(None)` is a cell whose
/// expected text node is missing; `Some(Some(t))` is a cell with rating
/// text `t`.
pub uninterp spec fn rating_cells_of(html: Seq<char>) -> Seq<Option<Option<Seq<char>>>>;

/// Relies on `scraper::Html::parse_document`, `scraper::Selector::parse`
/// and `Html::select`: selecting `[data-testid="ratingGroup--container"]`
/// and walking each match's child tree (first child, then that child's
/// first child's next sibling, a text node) are functions of the
/// document text alone.
#[verifier::external_body]
fn scrape_rating_cells(html: &str) -> (r: Vec<Option<Option<String>>>)
    ensures
        r.deep_view() == rating_cells_of(html@),
{
    let document = scraper::Html::parse_document(html);
    let selector = scraper::Selector::parse("[data-testid=\"ratingGroup--container\"]").unwrap();
    document
        .select(&selector)
        .map(|row| match row.first_child() {
            None => None,
            Some(span) => Some(
                span.first_child()
                    .and_then(|c| c.next_sibling())
                    .and_then(|n| n.value().as_text().map(|t| t.to_string())),
            ),
        })
        .collect()
}

/// Whether the URL shape marker `/title/` stands at position `i`.
pub open spec fn marker_at(s: Seq<char>, i: int) -> bool {
    &&& 0 <= i
    &&& i + 7 <= s.len()
    &&& s[i] == '/'
    &&& s[i + 1] == 't'
    &&& s[i + 2] == 'i'
    &&& s[i + 3] == 't'
    &&& s[i + 4] == 'l'
    &&& s[i + 5] == 'e'
    &&& s[i + 6] == '/'
}

/// The first position at or after `i` where the marker stands, or
/// `s.len()` if there is none.
pub open spec fn first_marker_from(s: Seq<char>, i: int) -> int
    decreases s.len() - i,
{
    if i < 0 || i + 7 > s.len() {
        s.len() as int
    } else if marker_at(s, i) {
        i
    } else {
        first_marker_from(s, i + 1)
    }
}

pub proof fn lemma_first_marker_from(s: Seq<char>, i: int)
    requires
        0 <= i <= s.len(),
    ensures
        i <= first_marker_from(s, i) <= s.len(),
        first_marker_from(s, i) < s.len() ==> marker_at(s, first_marker_from(s, i)),
        forall|j: int| i <= j < first_marker_from(s, i) ==> !marker_at(s, j),
    decreases s.len() - i,
{
    if i + 7 <= s.len() && !marker_at(s, i) {
        lemma_first_marker_from(s, i + 1);
    }
    if i + 7 > s.len() {
        assert(forall|j: int| j >= i ==> !marker_at(s, j));
    }
}

/// Index of the first occurrence of `c` in `s`, or `s.len()`.
pub open spec fn char_index(s: Seq<char>, c: char) -> int
    decreases s.len(),
{
    if s.len() == 0 {
        0
    } else if s[0] == c {
        0
    } else {
        1 + char_index(s.drop_first(), c)
    }
}

pub proof fn lemma_char_index(s: Seq<char>, c: char)
    ensures
        0 <= char_index(s, c) <= s.len(),
        char_index(s, c) < s.len() ==> s[char_index(s, c)] == c,
        forall|j: int| 0 <= j < char_index(s, c) ==> s[j] != c,
    decreases s.len(),
{
    if s.len() > 0 && s[0] != c {
        lemma_char_index(s.drop_first(), c);
        assert forall|j: int| 0 <= j < char_index(s, c) implies s[j] != c by {
            if j > 0 {
                assert(s.drop_first()[j - 1] == s[j]);
            }
        }
    }
}

/// The canonical id inside a link, by the `/title/<ID>/` URL shape: the
/// text between the first `/title/` marker and the next `/` after it,
/// which must exist and be nonempty.
pub open spec fn title_id_of(href: Seq<char>) -> Option<Seq<char>> {
    let m = first_marker_from(href, 0);
    if m == href.len() {
        None
    } else {
        let rest = href.skip(m + 7);
        let k = char_index(rest, '/');
        if k == rest.len() || k == 0 {
            None
        } else {
            Some(rest.take(k))
        }
    }
}

/// Extracts the canonical id from a candidate link.
pub fn extract_title_id(href: &str) -> (r: Option<String>)
    ensures
        match r {
            Some(id) => title_id_of(href@) == Some(id@),
            None => title_id_of(href@) is None,
        },
{
    let n = href.unicode_len();
    proof {
        lemma_first_marker_from(href@, 0);
    }
    let mut i: usize = 0;
    loop
        invariant
            n == href@.len(),
            i <= n,
            forall|k: int| 0 <= k < i ==> !marker_at(href@, k),
        ensures
            n == href@.len(),
            forall|k: int| 0 <= k < i ==> !marker_at(href@, k),
            i + 7 <= n && marker_at(href@, i as int) || (i + 7 > n && first_marker_from(href@, 0)
                == n),
        decreases n - i,
    {
        if n - i < 7 {
            proof {
                lemma_first_marker_from(href@, 0);
                assert(forall|k: int| i <= k ==> !marker_at(href@, k));
                if first_marker_from(href@, 0) < n as int {
                    assert(marker_at(href@, first_marker_from(href@, 0)));
                }
            }
            break;
        }
        if href.get_char(i) == '/' && href.get_char(i + 1) == 't' && href.get_char(i + 2) == 'i'
            && href.get_char(i + 3) == 't' && href.get_char(i + 4) == 'l' && href.get_char(i + 5)
            == 'e' && href.get_char(i + 6) == '/' {
            break;
        }
        proof {
            assert(!marker_at(href@, i as int));
        }
        i = i + 1;
    }
    if n - i < 7 {
        return None;
    }
    // the marker stands at i and nowhere earlier
    proof {
        lemma_first_marker_from(href@, 0);
        if first_marker_from(href@, 0) < i as int {
            assert(marker_at(href@, first_marker_from(href@, 0)));
        }
        assert(first_marker_from(href@, 0) == i as int);
    }
    let start = i + 7;
    let ghost rest = href@.skip(start as int);
    proof {
        lemma_char_index(rest, '/');
        assert(forall|k: int| 0 <= k < rest.len() ==> rest[k] == href@[start + k]);
    }
    let mut j: usize = start;
    loop
        invariant
            n == href@.len(),
            start <= j <= n,
            start == i + 7 <= n,
            rest == href@.skip(start as int),
            forall|k: int| start <= k < j ==> href@[k] != '/',
        ensures
            start <= j <= n,
            forall|k: int| start <= k < j ==> href@[k] != '/',
            j == n || href@[j as int] == '/',
        decreases n - j,
    {
        if j >= n {
            break;
        }
        if href.get_char(j) == '/' {
            break;
        }
        j = j + 1;
    }
    proof {
        lemma_char_index(rest, '/');
        let k = char_index(rest, '/');
        assert(forall|t: int| 0 <= t < rest.len() ==> rest[t] == href@[start + t]);
        if k < (j - start) {
            assert(href@[start + k] == '/');
        }
        if k > (j - start) && (j as int) < n as int {
            assert(rest[j - start] == '/');
        }
        assert(k == j - start);
    }
    if j == start || j == n {
        return None;
    }
    let id = href.substring_char(start, j).to_owned();
    proof {
        assert(rest.take(j - start) =~= href@.subrange(start as int, j as int));
    }
    Some(id)
}

/// What resolving a search page yields: the id and title from the first
/// candidate hit, `NotFound` without any hit, `ParseError` when the hit
/// has no link or the link does not match the `/title/<ID>/` shape.
pub open spec fn resolve_spec(html: Seq<char>) -> Result<(Seq<char>, Seq<char>), Error> {
    let hits = search_hits_of(html);
    if hits.len() == 0 {
        Err(Error::NotFound)
    } else {
        match hits[0].1 {
            None => Err(Error::ParseError),
            Some(href) => match title_id_of(href) {
                None => Err(Error::ParseError),
                Some(id) => Ok((id, hits[0].0)),
            },
        }
    }
}

/// Identity resolution is idempotent: resolving twice against an
/// unchanged source reads the same search document both times, and the
/// resolved identity is a function of that document alone.
pub proof fn lemma_resolution_idempotent(first: Seq<char>, second: Seq<char>)
    requires
        first == second,
    ensures
        resolve_spec(first) == resolve_spec(second),
{
}

/// Resolves a search result page to the canonical `(id, title)` pair of
/// its first candidate.
pub fn resolve_search_page(html: &str) -> (r: Result<(String, String), Error>)
    ensures
        match r {
            Ok(p) => resolve_spec(html@) == Ok::<(Seq<char>, Seq<char>), Error>((p.0@, p.1@)),
            Err(e) => resolve_spec(html@) == Err::<(Seq<char>, Seq<char>), Error>(e),
        },
{
    let hits = scrape_search_hits(html);
    proof {
        assert(hits.deep_view().len() == hits@.len());
    }
    if hits.len() == 0 {
        return Err(Error::NotFound);
    }
    proof {
        assert(hits.deep_view()[0] == (hits@[0].0@, hits@[0].1.deep_view()));
    }
    let first = &hits[0];
    match &first.1 {
        None => Err(Error::ParseError),
        Some(href) => {
            match extract_title_id(href.as_str()) {
                None => Err(Error::ParseError),
                Some(id) => Ok((id, first.0.clone())),
            }
        },
    }
}

/// The season labels of an episode listing page, in document order.
/// An empty result is a valid outcome: the show lists no seasons.
pub fn season_labels_from_page(html: &str) -> (r: Vec<String>)
    ensures
        r.deep_view() == season_labels_of(html@),
{
    scrape_season_labels(html)
}

/// The value of one rating cell: the sentinel for an empty cell, the
/// parsed tenths for a cell with rating text, nothing for a malformed
/// cell or unparsable text.
pub open spec fn cell_value(c: Option<Option<Seq<char>>>) -> Option<int> {
    match c {
        None => Some(PLACEHOLDER_TENTHS as int),
        Some(None) => None,
        Some(Some(t)) => rating_text_value(t),
    }
}

/// The values of all cells in order, or nothing if any cell is
/// malformed.
pub open spec fn cells_values(cells: Seq<Option<Option<Seq<char>>>>) -> Option<Seq<i32>>
    decreases cells.len(),
{
    if cells.len() == 0 {
        Some(Seq::<i32>::empty())
    } else {
        let pre = cells_values(cells.drop_last());
        let v = cell_value(cells.last());
        if pre is Some && v is Some {
            Some(pre.unwrap().push(v.unwrap() as i32))
        } else {
            None
        }
    }
}

proof fn lemma_cells_values_none(cells: Seq<Option<Option<Seq<char>>>>, i: int)
    requires
        0 <= i < cells.len(),
        cell_value(cells[i]) is None,
    ensures
        cells_values(cells) is None,
    decreases cells.len(),
{
    if i < cells.len() - 1 {
        assert(cells.drop_last()[i] == cells[i]);
        lemma_cells_values_none(cells.drop_last(), i);
    }
}

/// One season's rating sequence as read from a listing page: every cell
/// parsed, then the trailing sentinel run trimmed; nothing if any cell
/// is malformed.
pub open spec fn page_ratings(html: Seq<char>) -> Option<Seq<i32>> {
    match cells_values(rating_cells_of(html)) {
        Some(vs) => Some(trim_placeholders(vs)),
        None => None,
    }
}

/// Reads one season's ratings from its listing page.  `ParseError`
/// exactly when some nonempty cell lacks its text node or its text is
/// not a rating.
pub fn season_ratings_from_page(html: &str) -> (r: Result<Vec<i32>, Error>)
    ensures
        match r {
            Ok(v) => page_ratings(html@) == Some(v@),
            Err(e) => page_ratings(html@) is None && e == Error::ParseError,
        },
{
    let cells = scrape_rating_cells(html);
    let ghost cv = rating_cells_of(html@);
    proof {
        assert(cells.deep_view().len() == cells@.len());
    }
    let mut values: Vec<i32> = Vec::new();
    let mut i: usize = 0;
    while i < cells.len()
        invariant
            cv == rating_cells_of(html@),
            cells.deep_view() == cv,
            cells.deep_view().len() == cells@.len(),
            i <= cells@.len(),
            cells_values(cv.take(i as int)) == Some(values@),
        decreases cells@.len() - i,
    {
        proof {
            assert(cells.deep_view()[i as int] == cells@[i as int].deep_view());
            assert(cv.take(i + 1).drop_last() =~= cv.take(i as int));
            assert(cv.take(i + 1).last() == cv[i as int]);
        }
        let cell = &cells[i];
        match cell {
            None => {
                values.push(PLACEHOLDER_TENTHS);
            },
            Some(inner) => {
                match inner {
                    None => {
                        proof {
                            lemma_cells_values_none(cv, i as int);
                        }
                        return Err(Error::ParseError);
                    },
                    Some(text) => {
                        match parse_rating_tenths(text.as_str()) {
                            Ok(v) => {
                                values.push(v);
                            },
                            Err(e) => {
                                proof {
                                    lemma_cells_values_none(cv, i as int);
                                }
                                return Err(e);
                            },
                        }
                    },
                }
            },
        }
        i = i + 1;
    }
    proof {
        assert(cv.take(cv.len() as int) =~= cv);
    }
    trim_trailing_placeholders(&mut values);
    Ok(values)
}

/// Puts one season into a sorted season table: replaces the season with
/// the same label if there is one, otherwise inserts at the sorted
/// position.
fn insert_season(v: &mut Vec<SeasonRatings>, sr: SeasonRatings)
    requires
        sorted_by_label(old(v)@),
    ensures
        sorted_by_label(final(v)@),
        seasons_map(final(v)@) == seasons_map(old(v)@).insert(sr.season_label@, sr.ratings@),
{
    let mut p: usize = 0;
    while p < v.len() && label_less(v[p].season_label.as_str(), sr.season_label.as_str())
        invariant
            v@ == old(v)@,
            p <= v@.len(),
            forall|k: int| 0 <= k < p ==> label_lt(v@[k].season_label@, sr.season_label@),
        decreases v@.len() - p,
    {
        p = p + 1;
    }
    proof {
        lemma_sorted_unique(v@);
    }
    let replace = p < v.len() && v[p].season_label == sr.season_label;
    if replace {
        let ghost s = season_pairs(v@);
        proof {
            lemma_assoc_map_update(s, p as int, sr.ratings@);
            assert(season_pairs(v@.update(p as int, sr)) =~= s.update(
                p as int,
                (s[p as int].0, sr.ratings@),
            ));
        }
        let ghost before = v@;
        v.set(p, sr);
        proof {
            assert forall|i: int, j: int|
                0 <= i < j < v@.len() implies label_lt(
                v@[i].season_label@,
                v@[j].season_label@,
            ) by {
                assert(v@[i].season_label@ == before[i].season_label@);
                assert(v@[j].season_label@ == before[j].season_label@);
            }
        }
    } else {
        proof {
            lemma_label_lt_irrefl(sr.season_label@);
            if p < v@.len() && !label_lt(sr.season_label@, v@[p as int].season_label@) {
                lemma_label_lt_connected(v@[p as int].season_label@, sr.season_label@);
            }
            assert forall|k: int|
                0 <= k < season_pairs(v@).len() implies season_pairs(v@)[k].0
                != sr.season_label@ by {
                if k >= p {
                    if k > p {
                        lemma_label_lt_trans(
                            sr.season_label@,
                            v@[p as int].season_label@,
                            v@[k].season_label@,
                        );
                    }
                    lemma_label_lt_irrefl(v@[k].season_label@);
                    if v@[k].season_label@ == sr.season_label@ {
                        assert(label_lt(sr.season_label@, v@[k].season_label@));
                    }
                }
            }
            lemma_assoc_map_insert_at(
                season_pairs(v@),
                p as int,
                (sr.season_label@, sr.ratings@),
            );
            assert(season_pairs(v@.insert(p as int, sr)) =~= season_pairs(v@).insert(
                p as int,
                (sr.season_label@, sr.ratings@),
            ));
        }
        let ghost before = v@;
        v.insert(p, sr);
        proof {
            assert forall|i: int, j: int|
                0 <= i < j < v@.len() implies label_lt(
                v@[i].season_label@,
                v@[j].season_label@,
            ) by {
                if j < p {
                    assert(v@[i] == before[i] && v@[j] == before[j]);
                } else if j == p {
                    assert(v@[i] == before[i]);
                } else {
                    assert(v@[j] == before[j - 1]);
                    if i < p {
                        assert(v@[i] == before[i]);
                    } else if i == p {
                        if j - 1 > p {
                            lemma_label_lt_trans(
                                sr.season_label@,
                                before[p as int].season_label@,
                                before[j - 1].season_label@,
                            );
                        }
                    } else {
                        assert(v@[i] == before[i - 1]);
                    }
                }
            }
        }
    }
}

/// The per-page value of one scatter-gather result: the parsed season
/// for a fetched page, nothing for a failed fetch or a malformed page.
pub open spec fn page_value(p: (String, Result<String, Error>)) -> Option<Seq<i32>> {
    match p.1 {
        Ok(h) => page_ratings(h@),
        Err(_) => None,
    }
}

/// The error one scatter-gather result contributes, if any: the fetch
/// error itself, or `ParseError` for a malformed page.
pub open spec fn page_error(p: (String, Result<String, Error>)) -> Option<Error> {
    match p.1 {
        Ok(h) => if page_ratings(h@) is None {
            Some(Error::ParseError)
        } else {
            None
        },
        Err(e) => Some(e),
    }
}

/// The season map denoted by a sequence of fetched pages; on duplicate
/// labels the later page wins.  Meaningful when every page parsed.
pub open spec fn pages_map(pages: Seq<(String, Result<String, Error>)>) -> Map<
    Seq<char>,
    Seq<i32>,
>
    decreases pages.len(),
{
    if pages.len() == 0 {
        Map::empty()
    } else {
        pages_map(pages.drop_last()).insert(
            pages.last().0@,
            match page_value(pages.last()) {
                Some(v) => v,
                None => Seq::empty(),
            },
        )
    }
}

/// Assembles one show's rating record from the fetched per-season
/// pages.  All-or-nothing: if any one season failed to fetch or parse,
/// the whole aggregation fails with the first such error and no record
/// exists; otherwise the record holds exactly the parsed seasons, keyed
/// and sorted by label.
pub fn aggregate(title: &str, pages: &Vec<(String, Result<String, Error>)>) -> (r: Result<
    Ratings,
    Error,
>)
    ensures
        match r {
            Ok(rec) => {
                &&& forall|i: int| 0 <= i < pages@.len() ==> page_error(pages@[i]) is None
                &&& rec.name@ == title@
                &&& rec.wf()
                &&& seasons_map(rec.ratings@) == pages_map(pages@)
            },
            Err(e) => exists|i: int|
                0 <= i < pages@.len() && page_error(pages@[i]) == Some(e) && (forall|j: int|
                    0 <= j < i ==> page_error(pages@[j]) is None),
        },
{
    let mut seasons: Vec<SeasonRatings> = Vec::new();
    let mut i: usize = 0;
    while i < pages.len()
        invariant
            i <= pages@.len(),
            sorted_by_label(seasons@),
            seasons_map(seasons@) == pages_map(pages@.take(i as int)),
            forall|j: int| 0 <= j < i ==> page_error(pages@[j]) is None,
        decreases pages@.len() - i,
    {
        proof {
            assert(pages@.take(i + 1).drop_last() =~= pages@.take(i as int));
            assert(pages@.take(i + 1).last() == pages@[i as int]);
        }
        let page = &pages[i];
        match &page.1 {
            Err(e) => {
                return Err(*e);
            },
            Ok(html) => {
                match season_ratings_from_page(html.as_str()) {
                    Err(e) => {
                        return Err(e);
                    },
                    Ok(vals) => {
                        insert_season(
                            &mut seasons,
                            SeasonRatings { season_label: page.0.clone(), ratings: vals },
                        );
                    },
                }
            },
        }
        i = i + 1;
    }
    proof {
        assert(pages@.take(pages@.len() as int) =~= pages@);
    }
    Ok(Ratings { name: title.to_owned(), ratings: seasons })
}

/// For one-character digit labels the label order follows the digits.
proof fn lemma_digit_label_lt(a: Seq<char>, b: Seq<char>)
    requires
        a.len() == 1,
        b.len() == 1,
        is_digit_char(a[0]),
        is_digit_char(b[0]),
        a[0] < b[0],
    ensures
        label_lt(a, b),
{
    assert(is_numeric_label(a));
    assert(is_numeric_label(b));
    assert(b[0] != '0');
    assert(leading_zeros(b) == 0);
    assert(stripped(b) =~= b);
    if a[0] == '0' {
        assert(a.drop_first() =~= Seq::<char>::empty());
        assert(leading_zeros(a.drop_first()) == 0);
        assert(leading_zeros(a) == 1);
        assert(stripped(a) =~= Seq::<char>::empty());
        assert(num_lt(a, b));
    } else {
        assert(leading_zeros(a) == 0);
        assert(stripped(a) =~= a);
        assert(crate::labels::lex_lt(a, b));
        assert(num_lt(a, b));
    }
}

/// A fixed record with known contents, for trying the chart pipeline
/// without any fetching.
pub fn test_ratings() -> (r: Ratings)
    ensures
        r.wf(),
        r.name@ == "Breaking Bad"@,
        r.ratings@.len() == 5,
        r.ratings@[0].season_label@ == "1"@,
        r.ratings@[0].ratings@ == seq![90i32, 86, 87, 82, 83, 93, 88],
        r.ratings@[1].season_label@ == "2"@,
        r.ratings@[1].ratings@ == seq![86i32, 93, 83, 82, 83, 88, 86, 92, 91, 84, 89, 93, 92],
        r.ratings@[2].season_label@ == "3"@,
        r.ratings@[2].ratings@ == seq![85i32, 86, 84, 82, 85, 93, 96, 87, 84, 79, 84, 95, 97],
        r.ratings@[3].season_label@ == "4"@,
        r.ratings@[3].ratings@ == seq![92i32, 82, 80, 86, 86, 84, 88, 93, 88, 96, 97, 95, 99],
        r.ratings@[4].season_label@ == "5"@,
        r.ratings@[4].ratings@ == seq![
            92i32,
            88,
            88,
            88,
            97,
            90,
            95,
            96,
            94,
            92,
            96,
            91,
            98,
            100,
            97,
            99,
        ],
{
    let mut seasons: Vec<SeasonRatings> = Vec::new();
    seasons.push(
        SeasonRatings {
            season_label: "1".to_owned(),
            ratings: vec![90i32, 86, 87, 82, 83, 93, 88],
        },
    );
    seasons.push(
        SeasonRatings {
            season_label: "2".to_owned(),
            ratings: vec![86i32, 93, 83, 82, 83, 88, 86, 92, 91, 84, 89, 93, 92],
        },
    );
    seasons.push(
        SeasonRatings {
            season_label: "3".to_owned(),
            ratings: vec![85i32, 86, 84, 82, 85, 93, 96, 87, 84, 79, 84, 95, 97],
        },
    );
    seasons.push(
        SeasonRatings {
            season_label: "4".to_owned(),
            ratings: vec![92i32, 82, 80, 86, 86, 84, 88, 93, 88, 96, 97, 95, 99],
        },
    );
    seasons.push(
        SeasonRatings {
            season_label: "5".to_owned(),
            ratings: vec![92i32, 88, 88, 88, 97, 90, 95, 96, 94, 92, 96, 91, 98, 100, 97, 99],
        },
    );
    let r = Ratings { name: "Breaking Bad".to_owned(), ratings: seasons };
    proof {
        reveal_strlit("1");
        reveal_strlit("2");
        reveal_strlit("3");
        reveal_strlit("4");
        reveal_strlit("5");
        assert forall|i: int, j: int|
            0 <= i < j < r.ratings@.len() implies label_lt(
            r.ratings@[i].season_label@,
            r.ratings@[j].season_label@,
        ) by {
            lemma_digit_label_lt(r.ratings@[i].season_label@, r.ratings@[j].season_label@);
        }
    }
    r
}

} // verus!
