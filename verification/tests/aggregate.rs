use waybackurls::resultset::{aggregate, ResultSet};
use waybackurls::{FetchError, Record};

fn rec(date: &str, url: &str) -> Record {
    Record { date: date.to_string(), url: url.to_string() }
}

#[test]
fn aggregate_no_providers_is_empty() {
    let outs: Vec<Result<Vec<Record>, FetchError>> = Vec::new();
    let rs = aggregate(&outs);
    assert_eq!(rs.len(), 0);
}

#[test]
fn aggregate_all_failed_is_empty_not_error() {
    let outs: Vec<Result<Vec<Record>, FetchError>> = vec![
        Err(FetchError::SourceUnavailable),
        Err(FetchError::MalformedEnvelope),
        Err(FetchError::SourceUnavailable),
    ];
    let rs = aggregate(&outs);
    assert_eq!(rs.len(), 0);
}

#[test]
fn every_returned_url_is_a_key() {
    let outs = vec![Ok(vec![
        rec("20200101000000", "http://x/1"),
        rec("", "http://x/2"),
        rec("20200103000000", "http://x/3"),
    ])];
    let rs = aggregate(&outs);
    assert!(rs.contains_url("http://x/1"));
    assert!(rs.contains_url("http://x/2"));
    assert!(rs.contains_url("http://x/3"));
    assert_eq!(rs.len(), 3);
}

#[test]
fn merging_same_result_twice_keeps_key_set() {
    let once = aggregate(&vec![Ok(vec![
        rec("20200101000000", "http://x/1"),
        rec("20200102000000", "http://x/2"),
    ])]);
    let twice = aggregate(&vec![
        Ok(vec![
            rec("20200101000000", "http://x/1"),
            rec("20200102000000", "http://x/2"),
        ]),
        Ok(vec![
            rec("20200101000000", "http://x/1"),
            rec("20200102000000", "http://x/2"),
        ]),
    ]);
    assert_eq!(once.len(), twice.len());
    assert!(twice.contains_url("http://x/1"));
    assert!(twice.contains_url("http://x/2"));
}

#[test]
fn conflicting_dates_leave_url_with_one_of_them() {
    // Two providers report the same URL with different dates: the URL must be
    // a member, and the surviving date is one of the two reported ones.
    let outs = vec![
        Ok(vec![rec("20180101000000", "http://x/same")]),
        Ok(vec![rec("20190101000000", "http://x/same")]),
    ];
    let rs = aggregate(&outs);
    assert!(rs.contains_url("http://x/same"));
    assert_eq!(rs.len(), 1);
    let d = rs.get_date("http://x/same").unwrap();
    assert!(d == "20180101000000" || d == "20190101000000");
}

#[test]
fn mixed_success_merges_exactly_the_successes() {
    let outs = vec![
        Ok(vec![rec("20200101000000", "http://x/1")]),
        Err(FetchError::SourceUnavailable),
        Ok(vec![rec("", "http://x/2")]),
    ];
    let rs = aggregate(&outs);
    assert_eq!(rs.len(), 2);
    assert_eq!(rs.get_date("http://x/1").unwrap(), "20200101000000");
    assert_eq!(rs.get_date("http://x/2").unwrap(), "");
    assert!(rs.get_date("http://x/3").is_none());
}

#[test]
fn insert_overwrites_date_for_known_url() {
    let mut rs = ResultSet::new();
    rs.insert(rec("20200101000000", "http://x/1"));
    rs.insert(rec("20210101000000", "http://x/1"));
    assert_eq!(rs.len(), 1);
    assert_eq!(rs.get_date("http://x/1").unwrap(), "20210101000000");
}

#[test]
fn empty_url_is_never_accepted() {
    let mut rs = ResultSet::new();
    rs.insert(rec("20200101000000", ""));
    assert_eq!(rs.len(), 0);
    assert!(!rs.contains_url(""));
}
