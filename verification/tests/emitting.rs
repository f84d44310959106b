use waybackurls::dates::{parse_archive_date, render_timestamp};
use waybackurls::emit::{timestamped_lines, url_lines};
use waybackurls::get_versions;
use waybackurls::resultset::ResultSet;
use waybackurls::Record;

fn rec(date: &str, url: &str) -> Record {
    Record { date: date.to_string(), url: url.to_string() }
}

#[test]
fn date_round_trip_to_utc_midnight() {
    let ts = parse_archive_date("20180101000000").unwrap();
    assert_eq!(render_timestamp(&ts), "2018-01-01T00:00:00+00:00");
}

#[test]
fn timestamped_line_for_parsed_date() {
    let mut rs = ResultSet::new();
    rs.insert(rec("20180101000000", "http://example.com/x"));
    let (primary, diagnostics) = timestamped_lines(&rs);
    assert_eq!(primary, vec!["2018-01-01T00:00:00+00:00 http://example.com/x".to_string()]);
    assert!(diagnostics.is_empty());
}

#[test]
fn malformed_date_is_reported_and_omitted() {
    let mut rs = ResultSet::new();
    rs.insert(rec("", "http://example.com/a"));
    let (primary, diagnostics) = timestamped_lines(&rs);
    assert!(primary.is_empty());
    assert_eq!(diagnostics.len(), 1);
    assert_eq!(diagnostics[0], "failed to parse date [] for URL [http://example.com/a]");
    // The same record still appears in URL-only mode.
    let urls = url_lines(&rs);
    assert_eq!(urls, vec!["http://example.com/a".to_string()]);
}

#[test]
fn url_lines_emit_each_key_once() {
    let mut rs = ResultSet::new();
    rs.insert(rec("20200101000000", "http://x/1"));
    rs.insert(rec("", "http://x/2"));
    rs.insert(rec("20210101000000", "http://x/1"));
    let urls = url_lines(&rs);
    assert_eq!(urls, vec!["http://x/1".to_string(), "http://x/2".to_string()]);
}

#[test]
fn mixed_set_splits_into_primary_and_diagnostics() {
    let mut rs = ResultSet::new();
    rs.insert(rec("20200102030405", "http://x/good"));
    rs.insert(rec("not-a-date", "http://x/bad"));
    let (primary, diagnostics) = timestamped_lines(&rs);
    assert_eq!(primary, vec!["2020-01-02T03:04:05+00:00 http://x/good".to_string()]);
    assert_eq!(
        diagnostics,
        vec!["failed to parse date [not-a-date] for URL [http://x/bad]".to_string()]
    );
}

#[test]
fn date_parsing_rejects_malformed_inputs() {
    assert!(parse_archive_date("").is_none());
    assert!(parse_archive_date("2018010100000").is_none());
    assert!(parse_archive_date("201801010000000").is_none());
    assert!(parse_archive_date("2018010100000x").is_none());
    assert!(parse_archive_date("20181301000000").is_none());
    assert!(parse_archive_date("20180100000000").is_none());
    assert!(parse_archive_date("20180132000000").is_none());
    assert!(parse_archive_date("20180101240000").is_none());
    assert!(parse_archive_date("20180101006000").is_none());
    assert!(parse_archive_date("20180101000060").is_none());
}

#[test]
fn date_parsing_knows_the_calendar() {
    // 2020 is a leap year; 2019 and 1900 are not; 2000 is.
    assert!(parse_archive_date("20200229120000").is_some());
    assert!(parse_archive_date("20190229000000").is_none());
    assert!(parse_archive_date("19000229000000").is_none());
    assert!(parse_archive_date("20000229000000").is_some());
    assert!(parse_archive_date("20180430235959").is_some());
    assert!(parse_archive_date("20180431000000").is_none());
}

#[test]
fn get_versions_emits_nothing() {
    assert!(get_versions("example.com").is_empty());
}
