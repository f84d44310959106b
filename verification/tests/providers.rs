use waybackurls::providers::{
    begin_fetch, crawl_index_query_url, finish_fetch, parse_crawl_index_body,
    parse_threat_intel_body, parse_wayback_body, query_pattern, threat_intel_query_url,
    wayback_query_url, FetchStep, ProviderKind,
};
use waybackurls::FetchError;

#[test]
fn pattern_without_subdomains_is_exact() {
    assert_eq!(query_pattern("example.com", false), "example.com/*");
}

#[test]
fn pattern_with_subdomains_is_wildcarded() {
    assert_eq!(query_pattern("example.com", true), "*.example.com/*");
}

#[test]
fn wayback_query_urls() {
    assert_eq!(
        wayback_query_url("example.com", false),
        "http://web.archive.org/cdx/search/cdx?url=example.com/*&output=json&collapse=urlkey"
    );
    assert_eq!(
        wayback_query_url("example.com", true),
        "http://web.archive.org/cdx/search/cdx?url=*.example.com/*&output=json&collapse=urlkey"
    );
}

#[test]
fn crawl_index_query_urls() {
    assert_eq!(
        crawl_index_query_url("example.com", false),
        "http://index.commoncrawl.org/CC-MAIN-2018-22-index?url=example.com/*&output=json"
    );
    assert_eq!(
        crawl_index_query_url("example.com", true),
        "http://index.commoncrawl.org/CC-MAIN-2018-22-index?url=*.example.com/*&output=json"
    );
}

#[test]
fn threat_intel_query_url_embeds_key_and_domain() {
    assert_eq!(
        threat_intel_query_url("k123", "example.com"),
        "https://www.virustotal.com/vtapi/v2/domain/report?apikey=k123&domain=example.com"
    );
}

#[test]
fn begin_fetch_requests_for_open_providers() {
    match begin_fetch(ProviderKind::Wayback, None, "example.com", false) {
        FetchStep::Request(u) => assert_eq!(
            u,
            "http://web.archive.org/cdx/search/cdx?url=example.com/*&output=json&collapse=urlkey"
        ),
        FetchStep::Resolved(_) => panic!("wayback must always request"),
    }
    match begin_fetch(ProviderKind::CrawlIndex, None, "example.com", true) {
        FetchStep::Request(u) => assert_eq!(
            u,
            "http://index.commoncrawl.org/CC-MAIN-2018-22-index?url=*.example.com/*&output=json"
        ),
        FetchStep::Resolved(_) => panic!("crawl index must always request"),
    }
}

#[test]
fn missing_credential_resolves_to_empty_without_error() {
    match begin_fetch(ProviderKind::ThreatIntel, None, "example.com", true) {
        FetchStep::Resolved(recs) => assert!(recs.is_empty()),
        FetchStep::Request(_) => panic!("no credential: no request may be made"),
    }
    match begin_fetch(ProviderKind::ThreatIntel, Some(""), "example.com", true) {
        FetchStep::Resolved(recs) => assert!(recs.is_empty()),
        FetchStep::Request(_) => panic!("empty credential: no request may be made"),
    }
}

#[test]
fn present_credential_requests() {
    match begin_fetch(ProviderKind::ThreatIntel, Some("k123"), "example.com", true) {
        FetchStep::Request(u) => assert_eq!(
            u,
            "https://www.virustotal.com/vtapi/v2/domain/report?apikey=k123&domain=example.com"
        ),
        FetchStep::Resolved(_) => panic!("with a credential the provider must request"),
    }
}

#[test]
fn wayback_body_skips_header_row() {
    let body = r#"[["urlkey","timestamp","original"],["ab","20200101000000","http://a/"],["cd","20200102000000","http://b/"]]"#;
    let recs = parse_wayback_body(body).unwrap();
    assert_eq!(recs.len(), 2);
    assert_eq!(recs[0].date, "20200101000000");
    assert_eq!(recs[0].url, "http://a/");
    assert_eq!(recs[1].date, "20200102000000");
    assert_eq!(recs[1].url, "http://b/");
}

#[test]
fn wayback_short_row_is_skipped_not_fatal() {
    let body = r#"[["urlkey","timestamp","original"],["ab","20200101000000"],["cd","20200102000000","http://b/"]]"#;
    let recs = parse_wayback_body(body).unwrap();
    assert_eq!(recs.len(), 1);
    assert_eq!(recs[0].url, "http://b/");
}

#[test]
fn wayback_malformed_envelope_is_an_error() {
    assert_eq!(
        parse_wayback_body("not json at all").unwrap_err(),
        FetchError::MalformedEnvelope
    );
}

#[test]
fn wayback_empty_array_yields_no_records() {
    let recs = parse_wayback_body("[]").unwrap();
    assert!(recs.is_empty());
}

#[test]
fn crawl_index_reads_line_delimited_objects() {
    let body = "{\"timestamp\":\"20200101000000\",\"url\":\"http://a/\"}\nthis line is not json\n{\"url\":\"http://b/\"}\n{\"timestamp\":\"20200103000000\",\"url\":\"http://c/\"}";
    let recs = parse_crawl_index_body(body);
    assert_eq!(recs.len(), 2);
    assert_eq!(recs[0].date, "20200101000000");
    assert_eq!(recs[0].url, "http://a/");
    assert_eq!(recs[1].date, "20200103000000");
    assert_eq!(recs[1].url, "http://c/");
}

#[test]
fn crawl_index_handles_carriage_returns_and_empty_body() {
    let body = "{\"timestamp\":\"20200101000000\",\"url\":\"http://a/\"}\r\n";
    let recs = parse_crawl_index_body(body);
    assert_eq!(recs.len(), 1);
    assert_eq!(recs[0].url, "http://a/");
    assert!(parse_crawl_index_body("").is_empty());
}

#[test]
fn threat_intel_reads_detected_urls_with_empty_dates() {
    let body = r#"{"detected_urls":[{"url":"http://v/1"},{"positives":3},{"url":"http://v/2"}]}"#;
    let recs = parse_threat_intel_body(body).unwrap();
    assert_eq!(recs.len(), 2);
    assert_eq!(recs[0].date, "");
    assert_eq!(recs[0].url, "http://v/1");
    assert_eq!(recs[1].date, "");
    assert_eq!(recs[1].url, "http://v/2");
}

#[test]
fn threat_intel_missing_array_yields_no_records() {
    let recs = parse_threat_intel_body(r#"{"response_code":0}"#).unwrap();
    assert!(recs.is_empty());
}

#[test]
fn threat_intel_malformed_envelope_is_an_error() {
    assert_eq!(
        parse_threat_intel_body("][").unwrap_err(),
        FetchError::MalformedEnvelope
    );
}

#[test]
fn no_response_means_source_unavailable() {
    for kind in [ProviderKind::Wayback, ProviderKind::CrawlIndex, ProviderKind::ThreatIntel] {
        assert_eq!(
            finish_fetch(kind, None).unwrap_err(),
            FetchError::SourceUnavailable
        );
    }
}

#[test]
fn finish_fetch_decodes_by_provider() {
    let body = r#"[["urlkey","timestamp","original"],["ab","20200101000000","http://a/"]]"#;
    let recs = finish_fetch(ProviderKind::Wayback, Some(body)).unwrap();
    assert_eq!(recs.len(), 1);
    assert_eq!(recs[0].url, "http://a/");
    let recs = finish_fetch(
        ProviderKind::CrawlIndex,
        Some("{\"timestamp\":\"20200101000000\",\"url\":\"http://a/\"}"),
    )
    .unwrap();
    assert_eq!(recs.len(), 1);
    let recs = finish_fetch(
        ProviderKind::ThreatIntel,
        Some(r#"{"detected_urls":[{"url":"http://v/1"}]}"#),
    )
    .unwrap();
    assert_eq!(recs.len(), 1);
    assert_eq!(recs[0].date, "");
}
