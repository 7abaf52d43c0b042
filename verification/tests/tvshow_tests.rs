use imrs::error::Error;
use imrs::labels::{label_less, lex_less, str_eq};
use imrs::parse::parse_rating_tenths;
use imrs::parse::trim_trailing_placeholders;
use imrs::tvshow::{aggregate, extract_title_id, resolve_search_page, season_labels_from_page,
    season_ratings_from_page, test_ratings};
use imrs::PLACEHOLDER_TENTHS;

const FIND_HTML: &str = "<html><body><ul>\
<li class=\"find-title-result\"><a href=\"/title/tt0903747/?ref_=fn_tv\">Breaking Bad</a></li>\
<li class=\"find-title-result\"><a href=\"/title/tt1234567/\">Other Show</a></li>\
</ul></body></html>";

fn season_page(ratings: &[&str]) -> String {
    let mut html = String::from("<html><body>");
    for r in ratings {
        if r.is_empty() {
            html.push_str("<div data-testid=\"ratingGroup--container\"></div>");
        } else {
            html.push_str(&format!(
                "<div data-testid=\"ratingGroup--container\"><span><i></i>{}</span></div>",
                r
            ));
        }
    }
    html.push_str("</body></html>");
    html
}

#[test]
fn trailing_placeholder_trim() {
    // 8.5, -1.0, 9.0, -1.0, -1.0 -> 8.5, -1.0, 9.0 (in tenths)
    let mut v: Vec<i32> = vec![85, -10, 90, -10, -10];
    trim_trailing_placeholders(&mut v);
    assert_eq!(v, vec![85, -10, 90]);
}

#[test]
fn trim_leaves_interior_placeholders() {
    let mut v: Vec<i32> = vec![PLACEHOLDER_TENTHS, 70, PLACEHOLDER_TENTHS, 80];
    trim_trailing_placeholders(&mut v);
    assert_eq!(v, vec![-10, 70, -10, 80]);
}

#[test]
fn trim_all_placeholders() {
    let mut v: Vec<i32> = vec![-10, -10, -10];
    trim_trailing_placeholders(&mut v);
    assert!(v.is_empty());
}

#[test]
fn trim_empty() {
    let mut v: Vec<i32> = Vec::new();
    trim_trailing_placeholders(&mut v);
    assert!(v.is_empty());
}

#[test]
fn parse_rating_values() {
    assert_eq!(parse_rating_tenths("8.6"), Ok(86));
    assert_eq!(parse_rating_tenths("10"), Ok(100));
    assert_eq!(parse_rating_tenths("10.0"), Ok(100));
    assert_eq!(parse_rating_tenths("7"), Ok(70));
    assert_eq!(parse_rating_tenths("0.1"), Ok(1));
    assert_eq!(parse_rating_tenths("999999.9"), Ok(9999999));
}

#[test]
fn parse_rating_rejects() {
    assert_eq!(parse_rating_tenths(""), Err(Error::ParseError));
    assert_eq!(parse_rating_tenths("N/A"), Err(Error::ParseError));
    assert_eq!(parse_rating_tenths("8.55"), Err(Error::ParseError));
    assert_eq!(parse_rating_tenths("8."), Err(Error::ParseError));
    assert_eq!(parse_rating_tenths(".5"), Err(Error::ParseError));
    assert_eq!(parse_rating_tenths("1234567"), Err(Error::ParseError));
    assert_eq!(parse_rating_tenths("-1.0"), Err(Error::ParseError));
}

#[test]
fn resolve_first_candidate() {
    let r = resolve_search_page(FIND_HTML).unwrap();
    assert_eq!(r.0, "tt0903747");
    assert_eq!(r.1, "Breaking Bad");
}

#[test]
fn resolve_not_found_without_candidates() {
    let r = resolve_search_page("<html><body><p>nothing here</p></body></html>");
    assert_eq!(r, Err(Error::NotFound));
}

#[test]
fn resolve_parse_error_without_link() {
    let html = "<div class=\"find-title-result\"><a>Breaking Bad</a></div>";
    assert_eq!(resolve_search_page(html), Err(Error::ParseError));
}

#[test]
fn resolve_parse_error_on_bad_link() {
    let html = "<div class=\"find-title-result\"><a href=\"/name/nm0000001/\">Somebody</a></div>";
    assert_eq!(resolve_search_page(html), Err(Error::ParseError));
}

#[test]
fn title_id_extraction() {
    assert_eq!(extract_title_id("/title/tt0903747/"), Some("tt0903747".to_string()));
    assert_eq!(
        extract_title_id("/title/tt0903747/?ref_=fn_al_tt_1"),
        Some("tt0903747".to_string())
    );
    assert_eq!(extract_title_id("/title/tt0903747"), None);
    assert_eq!(extract_title_id("/title//"), None);
    assert_eq!(extract_title_id("no marker at all"), None);
    assert_eq!(extract_title_id("x/title/abc/rest"), Some("abc".to_string()));
}

#[test]
fn season_labels_in_document_order() {
    let html = "<html><body>\
<a data-testid=\"tab-season-entry\">1</a>\
<a data-testid=\"tab-season-entry\">2</a>\
<a data-testid=\"tab-season-entry\">10</a>\
</body></html>";
    let labels = season_labels_from_page(html);
    assert_eq!(labels, vec!["1".to_string(), "2".to_string(), "10".to_string()]);
}

#[test]
fn season_labels_empty_page() {
    let labels = season_labels_from_page("<html><body></body></html>");
    assert!(labels.is_empty());
}

#[test]
fn season_ratings_parse_and_trim() {
    // 8.6, unrated, 9.0, then two unrated episodes at the end
    let html = season_page(&["8.6", "", "9.0", "", ""]);
    let r = season_ratings_from_page(&html).unwrap();
    assert_eq!(r, vec![86, -10, 90]);
}

#[test]
fn season_ratings_malformed_cell() {
    // a nonempty cell whose expected text node is missing
    let html = "<html><body>\
<div data-testid=\"ratingGroup--container\"><span>x</span></div>\
</body></html>";
    assert_eq!(season_ratings_from_page(html), Err(Error::ParseError));
}

#[test]
fn season_ratings_non_numeric_text() {
    let html = season_page(&["N/A"]);
    assert_eq!(season_ratings_from_page(&html), Err(Error::ParseError));
}

#[test]
fn aggregate_builds_sorted_record() {
    let p10 = season_page(&["7.0"]);
    let p2 = season_page(&["8.0", "8.5"]);
    let pages = vec![
        ("10".to_string(), Ok(p10)),
        ("2".to_string(), Ok(p2)),
    ];
    let rec = aggregate("Some Show", &pages).unwrap();
    assert_eq!(rec.name, "Some Show");
    assert_eq!(rec.ratings.len(), 2);
    // numeric label order: "2" before "10"
    assert_eq!(rec.ratings[0].season_label, "2");
    assert_eq!(rec.ratings[0].ratings, vec![80, 85]);
    assert_eq!(rec.ratings[1].season_label, "10");
    assert_eq!(rec.ratings[1].ratings, vec![70]);
}

#[test]
fn aggregate_fails_whole_on_one_error() {
    let good = season_page(&["8.0"]);
    let pages = vec![
        ("1".to_string(), Ok(good)),
        ("2".to_string(), Err(Error::TransportError)),
    ];
    assert_eq!(aggregate("Some Show", &pages), Err(Error::TransportError));
}

#[test]
fn aggregate_fails_whole_on_malformed_page() {
    let good = season_page(&["8.0"]);
    let bad = season_page(&["oops"]);
    let pages = vec![
        ("1".to_string(), Ok(good)),
        ("2".to_string(), Ok(bad)),
    ];
    assert_eq!(aggregate("Some Show", &pages), Err(Error::ParseError));
}

#[test]
fn aggregate_reports_timeout() {
    let pages = vec![("1".to_string(), Err::<String, Error>(Error::Timeout))];
    assert_eq!(aggregate("Some Show", &pages), Err(Error::Timeout));
}

#[test]
fn aggregate_empty_season_list() {
    let pages: Vec<(String, Result<String, Error>)> = Vec::new();
    let rec = aggregate("No Seasons", &pages).unwrap();
    assert_eq!(rec.name, "No Seasons");
    assert!(rec.ratings.is_empty());
}

#[test]
fn fixture_record_contents() {
    let r = test_ratings();
    assert_eq!(r.name, "Breaking Bad");
    assert_eq!(r.ratings.len(), 5);
    assert_eq!(r.ratings[0].season_label, "1");
    assert_eq!(r.ratings[0].ratings, vec![90, 86, 87, 82, 83, 93, 88]);
    assert_eq!(r.ratings[4].season_label, "5");
    assert_eq!(r.ratings[4].ratings.len(), 16);
    assert_eq!(r.ratings[4].ratings[13], 100);
}

#[test]
fn label_order_numeric_aware() {
    assert!(label_less("2", "10"));
    assert!(!label_less("10", "2"));
    assert!(!label_less("2", "2"));
    // equal values: fewer leading zeros sorts later
    assert!(label_less("01", "1"));
    assert!(!label_less("1", "01"));
    // numeric labels come before non-numeric ones
    assert!(label_less("10", "Specials"));
    assert!(!label_less("Specials", "10"));
    // non-numeric labels sort by character order
    assert!(label_less("Extras", "Specials"));
}

#[test]
fn lexicographic_and_equality_helpers() {
    assert!(lex_less("abc", "abd"));
    assert!(lex_less("ab", "abc"));
    assert!(!lex_less("abc", "abc"));
    assert!(str_eq("abc", "abc"));
    assert!(!str_eq("abc", "abd"));
    assert!(!str_eq("abc", "abcd"));
}

#[test]
fn error_descriptions() {
    assert_eq!(Error::NotFound.describe(), "not found");
    assert_eq!(Error::ParseError.describe(), "parse error");
    assert_eq!(Error::TransportError.describe(), "transport error");
    assert_eq!(Error::Timeout.describe(), "timeout");
}
