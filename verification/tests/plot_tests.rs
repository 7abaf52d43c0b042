use imrs::api::{hello, Hello};
use imrs::error::Error;
use imrs::plot::{build_series, plot_title, RATING_AXIS_MAX_TENTHS, RATING_AXIS_MIN_TENTHS};
use imrs::slack::{image_url, loading_response, slack_message};
use imrs::tvshow::{aggregate, test_ratings, Ratings, SeasonRatings};

fn two_season_record() -> Ratings {
    Ratings {
        name: "Fixture Show".to_string(),
        ratings: vec![
            SeasonRatings { season_label: "1".to_string(), ratings: vec![90, 86, 87] },
            SeasonRatings { season_label: "2".to_string(), ratings: vec![86, 93] },
        ],
    }
}

#[test]
fn continuous_series_across_seasons() {
    // seasons {"1": [9.0, 8.6, 8.7], "2": [8.6, 9.3]} must become the
    // single series (1,9.0) (2,8.6) (3,8.7) (4,8.6) (5,9.3) in tenths
    let series = build_series(&two_season_record()).unwrap();
    assert_eq!(series.len(), 2);
    assert_eq!(series[0].season_label, "1");
    assert_eq!(series[0].color_index, 0);
    assert_eq!(series[0].points, vec![(1, 90), (2, 86), (3, 87)]);
    assert_eq!(series[1].season_label, "2");
    assert_eq!(series[1].color_index, 1);
    assert_eq!(series[1].points, vec![(4, 86), (5, 93)]);
}

#[test]
fn series_from_aggregated_pages() {
    fn page(r: &[&str]) -> String {
        let mut html = String::from("<html><body>");
        for t in r {
            html.push_str(&format!(
                "<div data-testid=\"ratingGroup--container\"><span><i></i>{}</span></div>",
                t
            ));
        }
        html.push_str("</body></html>");
        html
    }
    let pages = vec![
        ("1".to_string(), Ok(page(&["9.0", "8.6", "8.7"]))),
        ("2".to_string(), Ok(page(&["8.6", "9.3"]))),
    ];
    let rec = aggregate("Fixture Show", &pages).unwrap();
    let series = build_series(&rec).unwrap();
    let mut flat: Vec<(usize, i32)> = Vec::new();
    for s in &series {
        flat.extend(s.points.iter().copied());
    }
    assert_eq!(flat, vec![(1, 90), (2, 86), (3, 87), (4, 86), (5, 93)]);
}

#[test]
fn series_of_empty_record() {
    let rec = Ratings { name: "Empty".to_string(), ratings: Vec::new() };
    let series = build_series(&rec).unwrap();
    assert!(series.is_empty());
}

#[test]
fn series_of_fixture_record() {
    let series = build_series(&test_ratings()).unwrap();
    assert_eq!(series.len(), 5);
    let total: usize = series.iter().map(|s| s.points.len()).sum();
    assert_eq!(total, 62);
    assert_eq!(series[0].points[0], (1, 90));
    assert_eq!(series[4].points[15], (62, 99));
}

#[test]
fn rating_axis_is_fixed() {
    // -1.0 .. 10.0 in tenths, so sentinels plot below the real scale
    assert_eq!(RATING_AXIS_MIN_TENTHS, -10);
    assert_eq!(RATING_AXIS_MAX_TENTHS, 100);
}

#[test]
fn title_line() {
    assert_eq!(plot_title("Breaking Bad"), "Ratings for Breaking Bad");
}

#[test]
fn greeting_with_and_without_name() {
    assert_eq!(hello(&Hello { input: Some("World".to_string()) }), "Hello, World!");
    assert_eq!(hello(&Hello { input: None }), "Hello, Test!");
}

#[test]
fn chart_url_is_percent_encoded() {
    let url = image_url("http://localhost:8080", "breaking bad");
    assert_eq!(url, "http://localhost:8080/api/image?name=breaking%20bad");
}

#[test]
fn chart_url_keeps_unreserved_characters() {
    let url = image_url("https://example.test", "Show-Name_1.0~x");
    assert_eq!(url, "https://example.test/api/image?name=Show-Name_1.0~x");
}

#[test]
fn slack_payloads() {
    let m = slack_message("Breaking Bad", "http://localhost:8080", "breaking bad");
    assert_eq!(m.response_type, "in_channel");
    assert_eq!(m.text, "Breaking Bad");
    assert_eq!(m.attachments.len(), 1);
    assert_eq!(
        m.attachments[0].image_url.as_deref(),
        Some("http://localhost:8080/api/image?name=breaking%20bad")
    );
    let loading = loading_response();
    assert_eq!(loading.response_type, "in_channel");
    assert_eq!(loading.text, "Loading...");
}

#[test]
fn transport_errors_propagate_unchanged() {
    let pages = vec![("1".to_string(), Err::<String, Error>(Error::TransportError))];
    assert_eq!(aggregate("X", &pages), Err(Error::TransportError));
}
