//! Emission of a per-domain result set: either one bare URL per line, or —
//! in timestamped mode — a normalized UTC timestamp followed by the URL,
//! with records whose date does not parse reported on a diagnostic channel
//! and omitted from the primary output.

use vstd::prelude::*;
use vstd::string::StrSliceExecFns;
use vstd::string::StringExecFns;
use crate::dates::lemma_ts_of_valid;
use crate::dates::parse_archive_date;
use crate::dates::render_timestamp;
use crate::dates::render_ts;
use crate::dates::ts_of;
use crate::resultset::ResultSet;
use crate::resultset::records_view;

verus! {

/// The primary output lines of timestamped mode: for each record whose date
/// parses, its normalized timestamp, one space, and its url.
pub open spec fn primary_lines_spec(ps: Seq<(Seq<char>, Seq<char>)>) -> Seq<Seq<char>>
    decreases ps.len(),
{
    if ps.len() == 0 {
        Seq::empty()
    } else {
        let rest = primary_lines_spec(ps.skip(1));
        match ts_of(ps[0].0) {
            Some(t) => seq![render_ts(t) + seq![' '] + ps[0].1] + rest,
            None => rest,
        }
    }
}

/// The diagnostic reported for one record whose date does not parse, naming
/// both the offending date and its url.
pub open spec fn diag_line(d: Seq<char>, u: Seq<char>) -> Seq<char> {
    "failed to parse date ["@ + d + "] for URL ["@ + u + "]"@
}

/// The diagnostic lines of timestamped mode: one per record whose date does
/// not parse, in order.
pub open spec fn diag_lines_spec(ps: Seq<(Seq<char>, Seq<char>)>) -> Seq<Seq<char>>
    decreases ps.len(),
{
    if ps.len() == 0 {
        Seq::empty()
    } else {
        let rest = diag_lines_spec(ps.skip(1));
        match ts_of(ps[0].0) {
            Some(_) => rest,
            None => seq![diag_line(ps[0].0, ps[0].1)] + rest,
        }
    }
}

/// URL-only mode: exactly one line per distinct url of the set, in insertion
/// order.
pub fn url_lines(rs: &ResultSet) -> (r: Vec<String>)
    ensures
        r@.len() == rs.keys().len(),
        forall|i: int| 0 <= i < r@.len() ==> (#[trigger] r@[i])@ == rs.keys()[i],
{
    let recs = rs.records();
    let mut out: Vec<String> = Vec::new();
    let n = recs.len();
    let mut i: usize = 0;
    while i < n
        invariant
            n == recs.len(),
            0 <= i <= n,
            records_view(recs@) == rs.pairs(),
            out@.len() == i,
            forall|j: int| 0 <= j < i ==> (#[trigger] out@[j])@ == rs.keys()[j],
        decreases n - i,
    {
        proof {
            assert(records_view(recs@)[i as int] == (recs@[i as int].date@, recs@[i as int].url@));
            assert(rs.keys()[i as int] == rs.pairs()[i as int].1);
        }
        out.push(recs[i].url.clone());
        i += 1;
    }
    out
}

/// Timestamped mode: the primary lines and the diagnostic lines, in order.
/// A record whose date does not parse appears in the diagnostics and is
/// omitted from the primary output; the run continues.
pub fn timestamped_lines(rs: &ResultSet) -> (r: (Vec<String>, Vec<String>))
    ensures
        r.0@.map_values(|t: String| t@) == primary_lines_spec(rs.pairs()),
        r.1@.map_values(|t: String| t@) == diag_lines_spec(rs.pairs()),
{
    let recs = rs.records();
    let ghost ps = rs.pairs();
    let mut prim: Vec<String> = Vec::new();
    let mut diag: Vec<String> = Vec::new();
    let n = recs.len();
    let mut i: usize = 0;
    proof {
        assert(ps.skip(0) =~= ps);
        assert(prim@.map_values(|t: String| t@) =~= Seq::<Seq<char>>::empty());
        assert(diag@.map_values(|t: String| t@) =~= Seq::<Seq<char>>::empty());
    }
    while i < n
        invariant
            n == recs.len(),
            n == ps.len(),
            0 <= i <= n,
            records_view(recs@) == ps,
            primary_lines_spec(ps) == prim@.map_values(|t: String| t@) + primary_lines_spec(
                ps.skip(i as int),
            ),
            diag_lines_spec(ps) == diag@.map_values(|t: String| t@) + diag_lines_spec(
                ps.skip(i as int),
            ),
        decreases n - i,
    {
        let ghost rest = ps.skip(i as int);
        let ghost pprev = prim@;
        let ghost dprev = diag@;
        proof {
            assert(rest[0] == ps[i as int]);
            assert(rest.skip(1) =~= ps.skip(i as int + 1));
            assert(records_view(recs@)[i as int] == (recs@[i as int].date@, recs@[i as int].url@));
        }
        match parse_archive_date(recs[i].date.as_str()) {
            Some(ts) => {
                proof {
                    lemma_ts_of_valid(ps[i as int].0);
                }
                let mut line = render_timestamp(&ts);
                line.append(" ");
                line.append(recs[i].url.as_str());
                proof {
                    reveal_strlit(" ");
                    assert(" "@ =~= seq![' ']);
                    assert(line@ =~= render_ts(ts) + seq![' '] + ps[i as int].1);
                }
                prim.push(line);
                proof {
                    assert(prim@.map_values(|t: String| t@) =~= pprev.map_values(
                        |t: String| t@,
                    ).push(render_ts(ts) + seq![' '] + ps[i as int].1));
                    assert(pprev.map_values(|t: String| t@) + primary_lines_spec(rest)
                        =~= prim@.map_values(|t: String| t@) + primary_lines_spec(
                        ps.skip(i as int + 1),
                    ));
                    assert(diag_lines_spec(rest) == diag_lines_spec(ps.skip(i as int + 1)));
                }
            },
            None => {
                let mut line = String::from_str("failed to parse date [");
                line.append(recs[i].date.as_str());
                line.append("] for URL [");
                line.append(recs[i].url.as_str());
                line.append("]");
                proof {
                    assert(line@ =~= diag_line(ps[i as int].0, ps[i as int].1));
                }
                diag.push(line);
                proof {
                    assert(diag@.map_values(|t: String| t@) =~= dprev.map_values(
                        |t: String| t@,
                    ).push(diag_line(ps[i as int].0, ps[i as int].1)));
                    assert(dprev.map_values(|t: String| t@) + diag_lines_spec(rest)
                        =~= diag@.map_values(|t: String| t@) + diag_lines_spec(
                        ps.skip(i as int + 1),
                    ));
                    assert(primary_lines_spec(rest) == primary_lines_spec(ps.skip(i as int + 1)));
                }
            },
        }
        i += 1;
    }
    proof {
        assert(primary_lines_spec(ps.skip(n as int)) =~= Seq::<Seq<char>>::empty());
        assert(diag_lines_spec(ps.skip(n as int)) =~= Seq::<Seq<char>>::empty());
        assert(primary_lines_spec(ps) =~= prim@.map_values(|t: String| t@));
        assert(diag_lines_spec(ps) =~= diag@.map_values(|t: String| t@));
    }
    (prim, diag)
}

} // verus!
