//! Small verified string helpers: character-wise equality of string slices
//! and splitting a response body into lines.

use vstd::prelude::*;
use vstd::string::StrSliceExecFns;

verus! {

/// Character-wise equality of two string slices.
pub fn str_eq(a: &str, b: &str) -> (r: bool)
    ensures
        r == (a@ == b@),
{
    let na = a.unicode_len();
    let nb = b.unicode_len();
    if na != nb {
        return false;
    }
    let mut i: usize = 0;
    while i < na
        invariant
            na == a@.len(),
            nb == b@.len(),
            na == nb,
            0 <= i <= na,
            forall|j: int| 0 <= j < i ==> a@[j] == b@[j],
        decreases na - i,
    {
        if a.get_char(i) != b.get_char(i) {
            return false;
        }
        i += 1;
    }
    proof {
        assert(a@ =~= b@);
    }
    true
}

/// The index of the first newline in `s`, or its length if there is none.
pub open spec fn line_break(s: Seq<char>) -> int
    decreases s.len(),
{
    if s.len() == 0 {
        0
    } else if s[0] == '\n' {
        0
    } else {
        1 + line_break(s.skip(1))
    }
}

pub proof fn lemma_line_break_bounds(s: Seq<char>)
    ensures
        0 <= line_break(s) <= s.len(),
        forall|k: int| 0 <= k < line_break(s) ==> s[k] != '\n',
        line_break(s) < s.len() ==> s[line_break(s)] == '\n',
    decreases s.len(),
{
    if s.len() > 0 && s[0] != '\n' {
        lemma_line_break_bounds(s.skip(1));
        assert forall|k: int| 0 <= k < line_break(s) implies s[k] != '\n' by {
            if k > 0 {
                assert(s.skip(1)[k - 1] == s[k]);
            }
        }
        if line_break(s) < s.len() {
            assert(s.skip(1)[line_break(s) - 1] == s[line_break(s)]);
        }
    }
}

/// A position with no newline before it and a newline (or the end) at it is
/// the line break.
pub proof fn lemma_line_break_at(s: Seq<char>, m: int)
    requires
        0 <= m <= s.len(),
        forall|k: int| 0 <= k < m ==> s[k] != '\n',
        m < s.len() ==> s[m] == '\n',
    ensures
        line_break(s) == m,
    decreases s.len(),
{
    if s.len() > 0 && s[0] != '\n' {
        assert forall|k: int| 0 <= k < m - 1 implies s.skip(1)[k] != '\n' by {
            assert(s.skip(1)[k] == s[k + 1]);
        }
        if m - 1 < s.skip(1).len() {
            assert(s.skip(1)[m - 1] == s[m]);
        }
        lemma_line_break_at(s.skip(1), m - 1);
    }
}

/// A line with any trailing carriage return removed.
pub open spec fn strip_cr(line: Seq<char>) -> Seq<char> {
    if line.len() > 0 && line[line.len() - 1] == '\r' {
        line.take(line.len() - 1)
    } else {
        line
    }
}

/// The lines of `s`: pieces between newlines, each with a trailing carriage
/// return removed; a final newline does not open an extra empty line.
pub open spec fn split_lines_spec(s: Seq<char>) -> Seq<Seq<char>>
    decreases s.len(),
    via split_lines_spec_decreases
{
    if s.len() == 0 {
        Seq::empty()
    } else {
        let b = line_break(s);
        if b >= s.len() {
            seq![strip_cr(s)]
        } else {
            seq![strip_cr(s.take(b))] + split_lines_spec(s.skip(b + 1))
        }
    }
}

#[via_fn]
proof fn split_lines_spec_decreases(s: Seq<char>) {
    lemma_line_break_bounds(s);
}

/// Split a response body into its lines.
pub fn split_lines(s: &str) -> (r: Vec<String>)
    ensures
        r@.len() == split_lines_spec(s@).len(),
        forall|i: int| 0 <= i < r@.len() ==> (#[trigger] r@[i])@ == split_lines_spec(s@)[i],
{
    let n = s.unicode_len();
    let mut out: Vec<String> = Vec::new();
    let mut pos: usize = 0;
    proof {
        lemma_line_break_bounds(s@);
        assert(out@.map_values(|t: String| t@) =~= Seq::<Seq<char>>::empty());
        assert(s@.skip(0) =~= s@);
    }
    while pos < n
        invariant
            n == s@.len(),
            0 <= pos <= n,
            split_lines_spec(s@) == out@.map_values(|t: String| t@) + split_lines_spec(
                s@.skip(pos as int),
            ),
        decreases n - pos,
    {
        let ghost rest = s@.skip(pos as int);
        // Find the next newline at or after pos.
        let mut j: usize = pos;
        while j < n && s.get_char(j) != '\n'
            invariant
                n == s@.len(),
                pos <= j <= n,
                forall|k: int| pos <= k < j ==> s@[k] != '\n',
            decreases n - j,
        {
            j += 1;
        }
        proof {
            assert forall|k: int| 0 <= k < j as int - pos as int implies rest[k] != '\n' by {
                assert(rest[k] == s@[pos as int + k]);
            }
            if j < n {
                assert(rest[j as int - pos as int] == s@[j as int]);
            }
            lemma_line_break_at(rest, j as int - pos as int);
        }
        // The raw line, then strip a trailing carriage return.
        let mut end: usize = j;
        if end > pos && s.get_char(end - 1) == '\r' {
            end = end - 1;
        }
        let line = s.substring_char(pos, end);
        proof {
            let b = line_break(rest);
            assert(rest.take(b) =~= s@.subrange(pos as int, j as int));
            if b >= rest.len() {
                assert(rest.take(b) =~= rest);
            }
            assert(strip_cr(rest.take(b)) =~= s@.subrange(pos as int, end as int));
            if j < n {
                assert(rest.skip(b + 1) =~= s@.skip(j as int + 1));
            }
        }
        out.push(line.to_owned());
        proof {
            let prev = out@.drop_last();
            assert(out@.map_values(|t: String| t@) =~= prev.map_values(|t: String| t@).push(
                line@,
            ));
            if j < n {
                assert(split_lines_spec(rest) =~= seq![line@] + split_lines_spec(
                    s@.skip(j as int + 1),
                ));
                assert(prev.map_values(|t: String| t@) + split_lines_spec(rest)
                    =~= out@.map_values(|t: String| t@) + split_lines_spec(s@.skip(j as int + 1)));
            } else {
                assert(split_lines_spec(s@.skip(n as int)) =~= Seq::<Seq<char>>::empty());
                assert(split_lines_spec(rest) =~= seq![line@]);
                assert(prev.map_values(|t: String| t@) + split_lines_spec(rest)
                    =~= out@.map_values(|t: String| t@) + split_lines_spec(s@.skip(n as int)));
            }
        }
        pos = if j < n {
            j + 1
        } else {
            n
        };
    }
    proof {
        assert(split_lines_spec(s@.skip(n as int)) =~= Seq::<Seq<char>>::empty());
        assert(split_lines_spec(s@) =~= out@.map_values(|t: String| t@));
        assert forall|i: int| 0 <= i < out@.len() implies (#[trigger] out@[i])@
            == split_lines_spec(s@)[i] by {
            assert(out@.map_values(|t: String| t@)[i] == out@[i]@);
        }
    }
    out
}

} // verus!
