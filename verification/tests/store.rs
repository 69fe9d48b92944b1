use pr_dedupe::store::RawMatch;
use pr_dedupe::store::SimilarPRs;
use pr_dedupe::store::SimilarPRsInner;
use pr_dedupe::store::filter_query_results;
use pr_dedupe::store::percent_string;
use pr_dedupe::store::pr_url;
use pr_dedupe::store::u64_to_dec;
use pr_dedupe::store::url_pr_number;

fn raw(id: &str, score: i64) -> RawMatch {
    RawMatch { id: id.to_string(), score }
}

#[test]
fn filter_keeps_only_same_repo_above_threshold_and_not_self() {
    let results = vec![
        raw("repo:2", 9500),
        raw("repo:1", 9900),   // the querying PR itself
        raw("other:3", 9800),  // different repository
        raw("repo:4", 7000),   // below the threshold
        raw("repo:5", 8000),   // exactly at the threshold
    ];
    let report = filter_query_results(&results, "repo", "1", 80).unwrap();
    assert_eq!(report.data.len(), 2);
    assert_eq!(report.data[0].pr_url, "https://github.com/repo/pull/2");
    assert_eq!(report.data[0].percentage, 9500);
    assert_eq!(report.data[1].pr_url, "https://github.com/repo/pull/5");
    assert_eq!(report.data[1].percentage, 8000);
}

#[test]
fn filter_never_reports_the_querying_pr() {
    let results = vec![raw("repo:1", 10000), raw("repo:9", 9000)];
    let report = filter_query_results(&results, "repo", "1", 80).unwrap();
    for entry in &report.data {
        assert_ne!(entry.pr_url, "https://github.com/repo/pull/1");
        assert!(entry.percentage >= 8000);
        assert!(entry.percentage <= 10000);
    }
    assert_eq!(report.data.len(), 1);
}

#[test]
fn filter_handles_repo_names_with_path_separators() {
    let results = vec![raw("cs50victor/pr_dedupe:3", 9100)];
    let report = filter_query_results(&results, "cs50victor/pr_dedupe", "1", 80).unwrap();
    assert_eq!(report.data.len(), 1);
    assert_eq!(report.data[0].pr_url, "https://github.com/cs50victor/pr_dedupe/pull/3");
}

#[test]
fn filter_fails_on_an_undecodable_id() {
    let results = vec![raw("repo:2", 9500), raw("no-colon-here", 9000)];
    let err = filter_query_results(&results, "repo", "1", 80).unwrap_err();
    assert_eq!(err.id, "no-colon-here");
}

#[test]
fn filter_of_an_empty_response_is_empty() {
    let results: Vec<RawMatch> = Vec::new();
    let report = filter_query_results(&results, "repo", "1", 80).unwrap();
    assert!(report.data.is_empty());
}

#[test]
fn filter_twice_reports_the_same_matches() {
    let results = vec![raw("repo:2", 9500), raw("repo:4", 8200), raw("repo:1", 9999)];
    let first = filter_query_results(&results, "repo", "1", 80).unwrap();
    let second = filter_query_results(&results, "repo", "1", 80).unwrap();
    assert_eq!(first.data.len(), second.data.len());
    for (a, b) in first.data.iter().zip(second.data.iter()) {
        assert_eq!(a.pr_url, b.pr_url);
        assert_eq!(a.percentage, b.percentage);
    }
}

#[test]
fn pr_url_format() {
    assert_eq!(pr_url("cs50victor/pr_dedupe", "7"), "https://github.com/cs50victor/pr_dedupe/pull/7");
}

#[test]
fn url_pr_number_takes_the_trailing_segment() {
    assert_eq!(url_pr_number("https://github.com/cs50victor/pr_dedupe/pull/7"), "7");
    assert_eq!(url_pr_number("no-slash"), "no-slash");
}

#[test]
fn decimal_rendering() {
    assert_eq!(u64_to_dec(0), "0");
    assert_eq!(u64_to_dec(7), "7");
    assert_eq!(u64_to_dec(10), "10");
    assert_eq!(u64_to_dec(9073), "9073");
}

#[test]
fn percent_rendering_drops_trailing_zeros() {
    assert_eq!(percent_string(9500), "95");
    assert_eq!(percent_string(9540), "95.4");
    assert_eq!(percent_string(9543), "95.43");
    assert_eq!(percent_string(10000), "100");
    assert_eq!(percent_string(0), "0");
    assert_eq!(percent_string(8), "0.08");
}

#[test]
fn html_table_of_an_empty_report_is_empty() {
    let report = SimilarPRs { data: Vec::new() };
    assert_eq!(report.to_html_table(), "");
}

#[test]
fn html_table_renders_one_row_per_match() {
    let report = SimilarPRs {
        data: vec![
            SimilarPRsInner {
                pr_url: "https://github.com/repo/pull/2".to_string(),
                percentage: 9500,
            },
            SimilarPRsInner {
                pr_url: "https://github.com/repo/pull/5".to_string(),
                percentage: 8032,
            },
        ],
    };
    assert_eq!(
        report.to_html_table(),
        "<table><tr><th>PR</th><th>Similarity</th></tr>\
         <tr><td>#2</td><td>95%</td></tr>\
         <tr><td>#5</td><td>80.32%</td></tr></table>"
    );
}
