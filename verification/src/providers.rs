//! The three URL providers: the web-archive CDX index, the crawl index and
//! the threat-intelligence domain report. Each provider is one query URL and
//! one decode step from the service's wire format into uniform records; the
//! network call itself is the caller's, driven by [`begin_fetch`] and
//! [`finish_fetch`].

use vstd::prelude::*;
use vstd::string::StrSliceExecFns;
use vstd::string::StringExecFns;
use crate::Record;
use crate::FetchError;
use crate::resultset::records_view;
use crate::strutil::split_lines;
use crate::strutil::split_lines_spec;

verus! {

/// The closed set of archive sources, invoked through one uniform interface.
#[derive(Clone, Copy, Debug, PartialEq, Eq, Structural)]
pub enum ProviderKind {
    Wayback,
    CrawlIndex,
    ThreatIntel,
}

/// The queried URL pattern: the exact domain's paths, or the domain and all
/// of its subdomains.
pub open spec fn query_pattern_spec(domain: Seq<char>, include_subdomains: bool) -> Seq<char> {
    if include_subdomains {
        "*."@ + domain + "/*"@
    } else {
        domain + "/*"@
    }
}

pub open spec fn wayback_url_spec(domain: Seq<char>, include_subdomains: bool) -> Seq<char> {
    "http://web.archive.org/cdx/search/cdx?url="@ + query_pattern_spec(domain, include_subdomains)
        + "&output=json&collapse=urlkey"@
}

pub open spec fn crawl_index_url_spec(domain: Seq<char>, include_subdomains: bool) -> Seq<char> {
    "http://index.commoncrawl.org/CC-MAIN-2018-22-index?url="@ + query_pattern_spec(
        domain,
        include_subdomains,
    ) + "&output=json"@
}

pub open spec fn threat_intel_url_spec(api_key: Seq<char>, domain: Seq<char>) -> Seq<char> {
    "https://www.virustotal.com/vtapi/v2/domain/report?apikey="@ + api_key + "&domain="@ + domain
}

/// Build the queried URL pattern for a domain.
pub fn query_pattern(domain: &str, include_subdomains: bool) -> (r: String)
    ensures
        r@ == query_pattern_spec(domain@, include_subdomains),
{
    let mut out = String::new();
    if include_subdomains {
        out.append("*.");
    }
    out.append(domain);
    out.append("/*");
    proof {
        assert(out@ =~= query_pattern_spec(domain@, include_subdomains));
    }
    out
}

pub fn wayback_query_url(domain: &str, include_subdomains: bool) -> (r: String)
    ensures
        r@ == wayback_url_spec(domain@, include_subdomains),
{
    let mut out = String::from_str("http://web.archive.org/cdx/search/cdx?url=");
    let p = query_pattern(domain, include_subdomains);
    out.append(p.as_str());
    out.append("&output=json&collapse=urlkey");
    proof {
        assert(out@ =~= wayback_url_spec(domain@, include_subdomains));
    }
    out
}

pub fn crawl_index_query_url(domain: &str, include_subdomains: bool) -> (r: String)
    ensures
        r@ == crawl_index_url_spec(domain@, include_subdomains),
{
    let mut out = String::from_str("http://index.commoncrawl.org/CC-MAIN-2018-22-index?url=");
    let p = query_pattern(domain, include_subdomains);
    out.append(p.as_str());
    out.append("&output=json");
    proof {
        assert(out@ =~= crawl_index_url_spec(domain@, include_subdomains));
    }
    out
}

pub fn threat_intel_query_url(api_key: &str, domain: &str) -> (r: String)
    ensures
        r@ == threat_intel_url_spec(api_key@, domain@),
{
    let mut out = String::from_str("https://www.virustotal.com/vtapi/v2/domain/report?apikey=");
    out.append(api_key);
    out.append("&domain=");
    out.append(domain);
    proof {
        assert(out@ =~= threat_intel_url_spec(api_key@, domain@));
    }
    out
}

/// What the web archive's response text decodes to as a JSON array of arrays
/// of strings, or nothing when it is no such document.
pub uninterp spec fn json_string_table_of(body: Seq<char>) -> Option<Seq<Seq<Seq<char>>>>;

/// What one crawl-index line yields: the "timestamp" and "url" string fields
/// of the line as a JSON object, or nothing when the line is not an object
/// holding both.
pub uninterp spec fn crawl_line_fields(line: Seq<char>) -> Option<(Seq<char>, Seq<char>)>;

/// What the threat-intelligence report yields: for each element of its
/// "detected_urls" array, that element's "url" string if it has one; an empty
/// sequence when the array is missing; nothing when the body is not JSON.
pub uninterp spec fn detected_urls_of(body: Seq<char>) -> Option<Seq<Option<Seq<char>>>>;

/// Relies on serde_json::from_str::<Vec<Vec<String>>>: decodes the body as a
/// JSON array of arrays of strings; the result depends on the body alone.
#[verifier::external_body]
fn decode_string_table(body: &str) -> (r: Option<Vec<Vec<String>>>)
    ensures
        match r {
            Some(t) => json_string_table_of(body@) == Some(t.deep_view()),
            None => json_string_table_of(body@) is None,
        },
{
    serde_json::from_str(body).ok()
}

/// Relies on serde_json::from_str::<Value> and serde_json::Value::{get,
/// as_str}: the "timestamp" and "url" string fields of one line; the result
/// depends on the line alone.
#[verifier::external_body]
fn decode_crawl_line(line: &str) -> (r: Option<(String, String)>)
    ensures
        match r {
            Some(p) => crawl_line_fields(line@) == Some((p.0@, p.1@)),
            None => crawl_line_fields(line@) is None,
        },
{
    let v: serde_json::Value = serde_json::from_str(line).ok()?;
    let date = v.get("timestamp")?.as_str()?;
    let url = v.get("url")?.as_str()?;
    Some((date.to_string(), url.to_string()))
}

/// Relies on serde_json::from_str::<Value> and serde_json::Value::{get,
/// as_array, as_str}: the "url" string of each element under
/// "detected_urls"; the result depends on the body alone.
#[verifier::external_body]
fn decode_detected_urls(body: &str) -> (r: Option<Vec<Option<String>>>)
    ensures
        match r {
            Some(items) => detected_urls_of(body@) == Some(items.deep_view()),
            None => detected_urls_of(body@) is None,
        },
{
    let v: serde_json::Value = serde_json::from_str(body).ok()?;
    let items = match v.get("detected_urls").and_then(|a| a.as_array()) {
        Some(arr) => arr.iter().map(
            |o| o.get("url").and_then(|u| u.as_str()).map(|s| s.to_string()),
        ).collect(),
        None => Vec::new(),
    };
    Some(items)
}

/// The records among the web archive's data rows: each row with at least
/// three columns contributes its second column as the date and its third as
/// the url; shorter rows are malformed and skipped.
pub open spec fn wayback_rows_records(rows: Seq<Seq<Seq<char>>>) -> Seq<(Seq<char>, Seq<char>)>
    decreases rows.len(),
{
    if rows.len() == 0 {
        Seq::empty()
    } else {
        let rest = wayback_rows_records(rows.skip(1));
        if rows[0].len() >= 3 {
            seq![(rows[0][1], rows[0][2])] + rest
        } else {
            rest
        }
    }
}

/// The records of the whole table: the first row is the header row and is
/// skipped unconditionally.
pub open spec fn wayback_records_spec(t: Seq<Seq<Seq<char>>>) -> Seq<(Seq<char>, Seq<char>)> {
    if t.len() == 0 {
        Seq::empty()
    } else {
        wayback_rows_records(t.skip(1))
    }
}

/// The records among the crawl index's lines: each line holding both fields
/// contributes them; any other line is silently dropped.
pub open spec fn crawl_records_spec(lines: Seq<Seq<char>>) -> Seq<(Seq<char>, Seq<char>)>
    decreases lines.len(),
{
    if lines.len() == 0 {
        Seq::empty()
    } else {
        let rest = crawl_records_spec(lines.skip(1));
        match crawl_line_fields(lines[0]) {
            Some(p) => seq![p] + rest,
            None => rest,
        }
    }
}

/// The records of the threat-intelligence report: one per detected URL, with
/// an empty date — this source provides none today. An element without a url
/// string is malformed and skipped.
pub open spec fn threat_intel_records_spec(items: Seq<Option<Seq<char>>>) -> Seq<
    (Seq<char>, Seq<char>),
>
    decreases items.len(),
{
    if items.len() == 0 {
        Seq::empty()
    } else {
        let rest = threat_intel_records_spec(items.skip(1));
        match items[0] {
            Some(u) => seq![(Seq::<char>::empty(), u)] + rest,
            None => rest,
        }
    }
}

/// Decode the web archive's response body.
pub fn parse_wayback_body(body: &str) -> (r: Result<Vec<Record>, FetchError>)
    ensures
        match json_string_table_of(body@) {
            Some(t) => r matches Ok(recs) && records_view(recs@) == wayback_records_spec(t),
            None => r == Err::<Vec<Record>, FetchError>(FetchError::MalformedEnvelope),
        },
{
    let table = match decode_string_table(body) {
        Some(t) => t,
        None => {
            return Err(FetchError::MalformedEnvelope);
        },
    };
    let ghost tv = table.deep_view();
    let mut recs: Vec<Record> = Vec::new();
    let n = table.len();
    if n == 0 {
        proof {
            assert(records_view(recs@) =~= wayback_records_spec(tv));
        }
        return Ok(recs);
    }
    let mut i: usize = 1;
    proof {
        assert(records_view(recs@) =~= Seq::<(Seq<char>, Seq<char>)>::empty());
    }
    while i < n
        invariant
            n == table.len(),
            n == tv.len(),
            n > 0,
            1 <= i <= n,
            tv == table.deep_view(),
            wayback_rows_records(tv.skip(1)) == records_view(recs@) + wayback_rows_records(
                tv.skip(i as int),
            ),
        decreases n - i,
    {
        let ghost rest = tv.skip(i as int);
        let ghost prev = recs@;
        proof {
            assert(rest[0] == tv[i as int]);
            assert(rest.skip(1) =~= tv.skip(i as int + 1));
            assert(tv[i as int] == table@[i as int].deep_view());
        }
        let row = &table[i];
        if row.len() >= 3 {
            proof {
                assert(row.deep_view()[1] == row@[1]@);
                assert(row.deep_view()[2] == row@[2]@);
            }
            let date = row[1].clone();
            let url = row[2].clone();
            recs.push(Record { date, url });
            proof {
                assert(records_view(recs@) =~= records_view(prev).push((tv[i as int][1], tv[
                    i as int][2])));
                assert(records_view(prev) + wayback_rows_records(rest) =~= records_view(recs@)
                    + wayback_rows_records(tv.skip(i as int + 1)));
            }
        } else {
            proof {
                assert(records_view(prev) + wayback_rows_records(rest) =~= records_view(recs@)
                    + wayback_rows_records(tv.skip(i as int + 1)));
            }
        }
        i += 1;
    }
    proof {
        assert(wayback_rows_records(tv.skip(n as int)) =~= Seq::<(Seq<char>, Seq<char>)>::empty());
        assert(records_view(recs@) =~= wayback_records_spec(tv));
    }
    Ok(recs)
}

/// Decode the crawl index's newline-delimited response body. No envelope can
/// fail here: a bad line is dropped, an empty body yields no records.
pub fn parse_crawl_index_body(body: &str) -> (r: Vec<Record>)
    ensures
        records_view(r@) == crawl_records_spec(split_lines_spec(body@)),
{
    let lines = split_lines(body);
    let ghost lv = split_lines_spec(body@);
    let mut recs: Vec<Record> = Vec::new();
    let n = lines.len();
    let mut i: usize = 0;
    proof {
        assert(lv.skip(0) =~= lv);
        assert(records_view(recs@) =~= Seq::<(Seq<char>, Seq<char>)>::empty());
    }
    while i < n
        invariant
            n == lines.len(),
            n == lv.len(),
            0 <= i <= n,
            forall|j: int| 0 <= j < n ==> (#[trigger] lines@[j])@ == lv[j],
            crawl_records_spec(lv) == records_view(recs@) + crawl_records_spec(
                lv.skip(i as int),
            ),
        decreases n - i,
    {
        let ghost rest = lv.skip(i as int);
        let ghost prev = recs@;
        proof {
            assert(rest[0] == lv[i as int]);
            assert(rest.skip(1) =~= lv.skip(i as int + 1));
        }
        match decode_crawl_line(lines[i].as_str()) {
            Some(pair) => {
                let (date, url) = pair;
                let ghost p = (date@, url@);
                recs.push(Record { date, url });
                proof {
                    assert(records_view(recs@) =~= records_view(prev).push(p));
                    assert(records_view(prev) + crawl_records_spec(rest) =~= records_view(recs@)
                        + crawl_records_spec(lv.skip(i as int + 1)));
                }
            },
            None => {
                proof {
                    assert(records_view(prev) + crawl_records_spec(rest) =~= records_view(recs@)
                        + crawl_records_spec(lv.skip(i as int + 1)));
                }
            },
        }
        i += 1;
    }
    proof {
        assert(crawl_records_spec(lv.skip(n as int)) =~= Seq::<(Seq<char>, Seq<char>)>::empty());
        assert(records_view(recs@) =~= crawl_records_spec(lv));
    }
    recs
}

/// Decode the threat-intelligence report's response body.
pub fn parse_threat_intel_body(body: &str) -> (r: Result<Vec<Record>, FetchError>)
    ensures
        match detected_urls_of(body@) {
            Some(items) => r matches Ok(recs) && records_view(recs@) == threat_intel_records_spec(
                items,
            ),
            None => r == Err::<Vec<Record>, FetchError>(FetchError::MalformedEnvelope),
        },
{
    let items = match decode_detected_urls(body) {
        Some(v) => v,
        None => {
            return Err(FetchError::MalformedEnvelope);
        },
    };
    let ghost iv = items.deep_view();
    let mut recs: Vec<Record> = Vec::new();
    let n = items.len();
    let mut i: usize = 0;
    proof {
        assert(iv.skip(0) =~= iv);
        assert(records_view(recs@) =~= Seq::<(Seq<char>, Seq<char>)>::empty());
    }
    while i < n
        invariant
            n == items.len(),
            n == iv.len(),
            0 <= i <= n,
            iv == items.deep_view(),
            threat_intel_records_spec(iv) == records_view(recs@) + threat_intel_records_spec(
                iv.skip(i as int),
            ),
        decreases n - i,
    {
        let ghost rest = iv.skip(i as int);
        let ghost prev = recs@;
        proof {
            assert(rest[0] == iv[i as int]);
            assert(rest.skip(1) =~= iv.skip(i as int + 1));
            assert(iv[i as int] == items@[i as int].deep_view());
        }
        match &items[i] {
            Some(url) => {
                let date = String::new();
                let u = url.clone();
                recs.push(Record { date, url: u });
                proof {
                    assert(records_view(recs@) =~= records_view(prev).push(
                        (Seq::<char>::empty(), url@),
                    ));
                    assert(records_view(prev) + threat_intel_records_spec(rest) =~= records_view(
                        recs@,
                    ) + threat_intel_records_spec(iv.skip(i as int + 1)));
                }
            },
            None => {
                proof {
                    assert(records_view(prev) + threat_intel_records_spec(rest) =~= records_view(
                        recs@,
                    ) + threat_intel_records_spec(iv.skip(i as int + 1)));
                }
            },
        }
        i += 1;
    }
    proof {
        assert(threat_intel_records_spec(iv.skip(n as int)) =~= Seq::<
            (Seq<char>, Seq<char>),
        >::empty());
        assert(records_view(recs@) =~= threat_intel_records_spec(iv));
    }
    Ok(recs)
}

/// The view of an optional credential.
pub open spec fn cred_view(c: Option<&str>) -> Option<Seq<char>> {
    match c {
        Some(k) => Some(k@),
        None => None,
    }
}

/// The URL a provider queries for a domain, or nothing when the provider
/// makes no call at all: the credential-gated source degrades silently to an
/// empty result when no credential (or an empty one) is configured.
pub open spec fn provider_url_spec(
    kind: ProviderKind,
    cred: Option<Seq<char>>,
    domain: Seq<char>,
    include_subdomains: bool,
) -> Option<Seq<char>> {
    match kind {
        ProviderKind::Wayback => Some(wayback_url_spec(domain, include_subdomains)),
        ProviderKind::CrawlIndex => Some(crawl_index_url_spec(domain, include_subdomains)),
        ProviderKind::ThreatIntel => match cred {
            Some(k) => if k.len() > 0 {
                Some(threat_intel_url_spec(k, domain))
            } else {
                None
            },
            None => None,
        },
    }
}

/// The first half of one provider's fetch: either the URL to request, or the
/// fetch's whole (empty) result when no request is to be made.
pub enum FetchStep {
    Request(String),
    Resolved(Vec<Record>),
}

/// Begin one provider's fetch for one domain. The threat-intelligence
/// provider resolves immediately — to an empty list, with no error — when no
/// credential is configured; the other providers always request.
pub fn begin_fetch(
    kind: ProviderKind,
    credential: Option<&str>,
    domain: &str,
    include_subdomains: bool,
) -> (r: FetchStep)
    ensures
        match r {
            FetchStep::Request(u) => provider_url_spec(
                kind,
                cred_view(credential),
                domain@,
                include_subdomains,
            ) == Some(u@),
            FetchStep::Resolved(recs) => provider_url_spec(
                kind,
                cred_view(credential),
                domain@,
                include_subdomains,
            ) is None && recs@.len() == 0,
        },
{
    match kind {
        ProviderKind::Wayback => FetchStep::Request(wayback_query_url(domain, include_subdomains)),
        ProviderKind::CrawlIndex => FetchStep::Request(
            crawl_index_query_url(domain, include_subdomains),
        ),
        ProviderKind::ThreatIntel => match credential {
            Some(k) => {
                if k.unicode_len() > 0 {
                    FetchStep::Request(threat_intel_query_url(k, domain))
                } else {
                    FetchStep::Resolved(Vec::new())
                }
            },
            None => FetchStep::Resolved(Vec::new()),
        },
    }
}

/// What a provider's records are for a given response body.
pub open spec fn decode_spec(kind: ProviderKind, body: Seq<char>) -> Result<
    Seq<(Seq<char>, Seq<char>)>,
    FetchError,
> {
    match kind {
        ProviderKind::Wayback => match json_string_table_of(body) {
            Some(t) => Ok(wayback_records_spec(t)),
            None => Err(FetchError::MalformedEnvelope),
        },
        ProviderKind::CrawlIndex => Ok(crawl_records_spec(split_lines_spec(body))),
        ProviderKind::ThreatIntel => match detected_urls_of(body) {
            Some(items) => Ok(threat_intel_records_spec(items)),
            None => Err(FetchError::MalformedEnvelope),
        },
    }
}

/// Finish one provider's fetch from what the request produced: no body means
/// the source was unreachable; a body is decoded by the provider's own rule.
pub fn finish_fetch(kind: ProviderKind, response: Option<&str>) -> (r: Result<
    Vec<Record>,
    FetchError,
>)
    ensures
        response is None ==> r == Err::<Vec<Record>, FetchError>(FetchError::SourceUnavailable),
        response matches Some(body) ==> match r {
            Ok(recs) => decode_spec(kind, body@) matches Ok(pv) && records_view(recs@) == pv,
            Err(e) => decode_spec(kind, body@) matches Err(e2) && e == e2,
        },
{
    match response {
        None => Err(FetchError::SourceUnavailable),
        Some(body) => match kind {
            ProviderKind::Wayback => parse_wayback_body(body),
            ProviderKind::CrawlIndex => Ok(parse_crawl_index_body(body)),
            ProviderKind::ThreatIntel => parse_threat_intel_body(body),
        },
    }
}

} // verus!
