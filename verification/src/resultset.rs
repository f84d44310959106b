//! The per-domain deduplicating result set: a mapping from discovered URL to
//! its (possibly unknown) first-seen date, together with the merge that folds
//! provider outcomes into it. Among records that share a URL the last insert
//! wins; a record with an empty URL is never accepted.

use vstd::prelude::*;
use crate::Record;
use crate::FetchError;

verus! {

/// The date/URL views of a sequence of records, in order.
pub open spec fn records_view(recs: Seq<Record>) -> Seq<(Seq<char>, Seq<char>)> {
    recs.map_values(|r: Record| (r.date@, r.url@))
}

/// Folding a sequence of (date, url) pairs into a map, front to back: each
/// pair with a non-empty url overwrites any earlier date for that url; a pair
/// with an empty url is skipped.
pub open spec fn merge_spec(
    m: Map<Seq<char>, Seq<char>>,
    ps: Seq<(Seq<char>, Seq<char>)>,
) -> Map<Seq<char>, Seq<char>>
    decreases ps.len(),
{
    if ps.len() == 0 {
        m
    } else {
        let m1 = if ps[0].1.len() == 0 {
            m
        } else {
            m.insert(ps[0].1, ps[0].0)
        };
        merge_spec(m1, ps.skip(1))
    }
}

/// The set of non-empty urls among a sequence of (date, url) pairs.
pub open spec fn url_set(ps: Seq<(Seq<char>, Seq<char>)>) -> Set<Seq<char>>
    decreases ps.len(),
{
    if ps.len() == 0 {
        Set::empty()
    } else {
        let rest = url_set(ps.skip(1));
        if ps[0].1.len() == 0 {
            rest
        } else {
            rest.insert(ps[0].1)
        }
    }
}

/// Merging adds exactly the non-empty urls of the merged pairs to the keys.
pub proof fn lemma_merge_spec_dom(m: Map<Seq<char>, Seq<char>>, ps: Seq<(Seq<char>, Seq<char>)>)
    ensures
        merge_spec(m, ps).dom() =~= m.dom() + url_set(ps),
    decreases ps.len(),
{
    if ps.len() == 0 {
        assert(m.dom() + url_set(ps) =~= m.dom());
    } else {
        let m1 = if ps[0].1.len() == 0 {
            m
        } else {
            m.insert(ps[0].1, ps[0].0)
        };
        lemma_merge_spec_dom(m1, ps.skip(1));
    }
}

/// A url that none of the pairs writes keeps its absence, presence and value.
pub proof fn lemma_merge_spec_untouched(
    m: Map<Seq<char>, Seq<char>>,
    ps: Seq<(Seq<char>, Seq<char>)>,
    u: Seq<char>,
)
    requires
        !url_set(ps).contains(u),
    ensures
        merge_spec(m, ps).dom().contains(u) <==> m.dom().contains(u),
        m.dom().contains(u) ==> merge_spec(m, ps)[u] == m[u],
    decreases ps.len(),
{
    if ps.len() > 0 {
        let m1 = if ps[0].1.len() == 0 {
            m
        } else {
            m.insert(ps[0].1, ps[0].0)
        };
        lemma_merge_spec_untouched(m1, ps.skip(1), u);
    }
}

/// Inserting a url that no pair writes commutes with the merge.
pub proof fn lemma_merge_spec_insert_commutes(
    m: Map<Seq<char>, Seq<char>>,
    ps: Seq<(Seq<char>, Seq<char>)>,
    u: Seq<char>,
    d: Seq<char>,
)
    requires
        !url_set(ps).contains(u),
    ensures
        merge_spec(m, ps).insert(u, d) =~= merge_spec(m.insert(u, d), ps),
    decreases ps.len(),
{
    if ps.len() > 0 {
        let m1 = if ps[0].1.len() == 0 {
            m
        } else {
            m.insert(ps[0].1, ps[0].0)
        };
        lemma_merge_spec_insert_commutes(m1, ps.skip(1), u, d);
        if ps[0].1.len() > 0 {
            assert(m.insert(ps[0].1, ps[0].0).insert(u, d)
                =~= m.insert(u, d).insert(ps[0].1, ps[0].0));
        }
    }
}

/// Appending one more pair to a merge is one more insert (or none, for an
/// empty url).
pub proof fn lemma_merge_spec_push(
    m: Map<Seq<char>, Seq<char>>,
    ps: Seq<(Seq<char>, Seq<char>)>,
    p: (Seq<char>, Seq<char>),
)
    ensures
        p.1.len() == 0 ==> merge_spec(m, ps.push(p)) == merge_spec(m, ps),
        p.1.len() > 0 ==> merge_spec(m, ps.push(p)) == merge_spec(m, ps).insert(p.1, p.0),
    decreases ps.len(),
{
    if ps.len() == 0 {
        reveal_with_fuel(merge_spec, 2);
        assert(ps.push(p).skip(1) =~= Seq::<(Seq<char>, Seq<char>)>::empty());
        assert(ps.push(p)[0] == p);
        assert(merge_spec(m, ps) == m);
        if p.1.len() == 0 {
            assert(merge_spec(m, ps.push(p)) == m);
        } else {
            assert(merge_spec(m, ps.push(p)) == m.insert(p.1, p.0));
        }
    } else {
        let m1 = if ps[0].1.len() == 0 {
            m
        } else {
            m.insert(ps[0].1, ps[0].0)
        };
        assert(ps.push(p)[0] == ps[0]);
        assert(ps.push(p).skip(1) =~= ps.skip(1).push(p));
        assert(merge_spec(m, ps.push(p)) == merge_spec(m1, ps.skip(1).push(p)));
        assert(merge_spec(m, ps) == merge_spec(m1, ps.skip(1)));
        lemma_merge_spec_push(m1, ps.skip(1), p);
    }
}

/// Rewriting the single pair that holds a url (no other pair holds it) gives
/// the same map as merging the original pairs and then inserting the new date.
pub proof fn lemma_merge_spec_update(
    m: Map<Seq<char>, Seq<char>>,
    ps: Seq<(Seq<char>, Seq<char>)>,
    i: int,
    d: Seq<char>,
)
    requires
        0 <= i < ps.len(),
        ps[i].1.len() > 0,
        forall|j: int| 0 <= j < ps.len() && j != i ==> ps[j].1 != ps[i].1,
    ensures
        merge_spec(m, ps.update(i, (d, ps[i].1))) =~= merge_spec(m, ps).insert(ps[i].1, d),
    decreases ps.len(),
{
    let u = ps[i].1;
    let qs = ps.update(i, (d, u));
    if i == 0 {
        assert(qs[0] == (d, u));
        assert(qs.skip(1) =~= ps.skip(1));
        assert forall|j: int| 0 <= j < ps.skip(1).len() implies ps.skip(1)[j].1 != u by {
            assert(ps.skip(1)[j] == ps[j + 1]);
        }
        lemma_url_set_no_occurrence(ps.skip(1), u);
        lemma_merge_spec_insert_commutes(m, ps.skip(1), u, ps[0].0);
        lemma_merge_spec_insert_commutes(m, ps.skip(1), u, d);
        assert(m.insert(u, ps[0].0).insert(u, d) =~= m.insert(u, d));
    } else {
        assert(qs[0] == ps[0]);
        let m1 = if ps[0].1.len() == 0 {
            m
        } else {
            m.insert(ps[0].1, ps[0].0)
        };
        assert(qs.skip(1) =~= ps.skip(1).update(i - 1, (d, u)));
        assert(ps.skip(1)[i - 1] == ps[i]);
        assert forall|j: int|
            0 <= j < ps.skip(1).len() && j != i - 1 implies ps.skip(1)[j].1 != u by {
            assert(ps.skip(1)[j] == ps[j + 1]);
        }
        lemma_merge_spec_update(m1, ps.skip(1), i - 1, d);
    }
}

/// A sequence of pairs none of which holds url `u` has `u` outside its url set.
pub proof fn lemma_url_set_no_occurrence(ps: Seq<(Seq<char>, Seq<char>)>, u: Seq<char>)
    requires
        forall|j: int| 0 <= j < ps.len() ==> ps[j].1 != u,
    ensures
        !url_set(ps).contains(u),
    decreases ps.len(),
{
    if ps.len() > 0 {
        assert forall|j: int| 0 <= j < ps.skip(1).len() implies ps.skip(1)[j].1 != u by {
            assert(ps.skip(1)[j] == ps[j + 1]);
        }
        lemma_url_set_no_occurrence(ps.skip(1), u);
    }
}

/// A url in the url set is held by some pair, and conversely.
pub proof fn lemma_url_set_occurrence(ps: Seq<(Seq<char>, Seq<char>)>, u: Seq<char>)
    ensures
        url_set(ps).contains(u) <==> exists|j: int|
            0 <= j < ps.len() && ps[j].1 == u && u.len() > 0,
    decreases ps.len(),
{
    if ps.len() > 0 {
        lemma_url_set_occurrence(ps.skip(1), u);
        if url_set(ps.skip(1)).contains(u) {
            let j = choose|j: int| 0 <= j < ps.skip(1).len() && ps.skip(1)[j].1 == u
                && u.len() > 0;
            assert(ps[j + 1] == ps.skip(1)[j]);
        }
        if exists|j: int| 0 <= j < ps.len() && ps[j].1 == u && u.len() > 0 {
            let j = choose|j: int| 0 <= j < ps.len() && ps[j].1 == u && u.len() > 0;
            if j > 0 {
                assert(ps.skip(1)[j - 1] == ps[j]);
            }
        }
    }
}

/// The per-domain deduplicating index from discovered URL to its first-seen
/// date. At most one entry per distinct URL; an entry's URL is never empty.
pub struct ResultSet {
    entries: Vec<Record>,
}

impl ResultSet {
    /// The entries as (date, url) views, in insertion order.
    pub closed spec fn pairs(self) -> Seq<(Seq<char>, Seq<char>)> {
        records_view(self.entries@)
    }

    /// The urls alone, in insertion order.
    pub open spec fn keys(self) -> Seq<Seq<char>> {
        self.pairs().map_values(|p: (Seq<char>, Seq<char>)| p.1)
    }

    /// Well-formedness: urls are non-empty and pairwise distinct.
    pub open spec fn wf(self) -> bool {
        &&& forall|i: int| 0 <= i < self.pairs().len() ==> (#[trigger] self.pairs()[i]).1.len()
            > 0
        &&& forall|i: int, j: int|
            0 <= i < j < self.pairs().len() ==> (#[trigger] self.pairs()[i]).1
                != (#[trigger] self.pairs()[j]).1
    }

    pub fn new() -> (r: ResultSet)
        ensures
            r.wf(),
            r@ =~= Map::<Seq<char>, Seq<char>>::empty(),
            r.pairs() =~= Seq::<(Seq<char>, Seq<char>)>::empty(),
    {
        ResultSet { entries: Vec::new() }
    }

    /// Insert one record: a new url is appended, a known url has its date
    /// overwritten in place, an empty url is not accepted.
    pub fn insert(&mut self, rec: Record)
        requires
            old(self).wf(),
        ensures
            final(self).wf(),
            rec.url@.len() == 0 ==> *final(self) == *old(self),
            rec.url@.len() > 0 ==> final(self)@ == old(self)@.insert(rec.url@, rec.date@),
            rec.url@.len() > 0 && !old(self)@.dom().contains(rec.url@) ==> final(self).pairs()
                == old(self).pairs().push((rec.date@, rec.url@)),
            rec.url@.len() > 0 && old(self)@.dom().contains(rec.url@) ==> final(self).keys()
                == old(self).keys() && final(self).pairs().len() == old(self).pairs().len(),
    {
        let ghost rdate = rec.date@;
        let ghost rurl = rec.url@;
        if rec.url.as_str().is_empty() {
            return ;
        }
        let ghost ps = self.pairs();
        let n = self.entries.len();
        let mut i: usize = 0;
        while i < n
            invariant
                n == self.entries.len(),
                0 <= i <= n,
                self.wf(),
                *self == *old(self),
                ps == self.pairs(),
                rdate == rec.date@,
                rurl == rec.url@,
                rurl.len() > 0,
                forall|j: int| 0 <= j < i ==> (#[trigger] ps[j]).1 != rurl,
            decreases n - i,
        {
            assert(ps[i as int] == (self.entries@[i as int].date@, self.entries@[i as int].url@));
            if crate::strutil::str_eq(self.entries[i].url.as_str(), rec.url.as_str()) {
                proof {
                    lemma_merge_spec_dom(Map::<Seq<char>, Seq<char>>::empty(), ps);
                    assert(old(self)@.dom() =~= url_set(ps));
                    assert((i as int) < ps.len() && ps[i as int].1 == rurl);
                    lemma_url_set_occurrence(ps, rurl);
                    assert(old(self)@.dom().contains(rurl));
                    assert forall|j: int|
                        0 <= j < ps.len() && j != i implies ps[j].1 != ps[i as int].1 by {
                        if j > i {
                            assert(ps[i as int].1 != ps[j].1);
                        }
                    }
                    lemma_merge_spec_update(
                        Map::<Seq<char>, Seq<char>>::empty(),
                        ps,
                        i as int,
                        rdate,
                    );
                }
                self.entries[i] = rec;
                proof {
                    assert(self.pairs() =~= ps.update(i as int, (rdate, rurl)));
                    assert forall|k: int|
                        0 <= k < self.pairs().len() implies (#[trigger] self.pairs()[k]).1 == ps[
                        k].1 by {}
                    assert(self.keys() =~= old(self).keys());
                }
                return ;
            }
            i += 1;
        }
        proof {
            lemma_merge_spec_dom(Map::<Seq<char>, Seq<char>>::empty(), ps);
            assert(old(self)@.dom() =~= url_set(ps));
            lemma_url_set_no_occurrence(ps, rurl);
            lemma_merge_spec_push(Map::<Seq<char>, Seq<char>>::empty(), ps, (rdate, rurl));
        }
        self.entries.push(rec);
        proof {
            assert(self.pairs() =~= ps.push((rdate, rurl)));
            assert forall|k: int|
                0 <= k < ps.len() implies (#[trigger] self.pairs()[k]) == ps[k] by {}
            assert(self.pairs()[ps.len() as int] == (rdate, rurl));
        }
    }

    /// Merge one provider's records, front to back; later records overwrite
    /// earlier dates for the same url.
    pub fn merge(&mut self, recs: &Vec<Record>)
        requires
            old(self).wf(),
        ensures
            final(self).wf(),
            final(self)@ == merge_spec(old(self)@, records_view(recs@)),
    {
        let ghost rv = records_view(recs@);
        let n = recs.len();
        let mut i: usize = 0;
        proof {
            assert(rv.skip(0) =~= rv);
        }
        while i < n
            invariant
                n == recs.len(),
                0 <= i <= n,
                self.wf(),
                rv == records_view(recs@),
                merge_spec(old(self)@, rv) == merge_spec(self@, rv.skip(i as int)),
            decreases n - i,
        {
            let ghost pre = self@;
            assert(rv[i as int] == (recs@[i as int].date@, recs@[i as int].url@));
            let date = recs[i].date.clone();
            let url = recs[i].url.clone();
            self.insert(Record { date, url });
            proof {
                let rest = rv.skip(i as int);
                assert(rest[0] == rv[i as int]);
                assert(rest.skip(1) =~= rv.skip(i as int + 1));
                assert(merge_spec(pre, rest) == merge_spec(self@, rv.skip(i as int + 1)));
            }
            i += 1;
        }
        proof {
            assert(rv.skip(n as int) =~= Seq::<(Seq<char>, Seq<char>)>::empty());
        }
    }

    /// How many distinct urls the set holds.
    pub fn len(&self) -> (r: usize)
        requires
            self.wf(),
        ensures
            r == self.pairs().len(),
            r == self@.dom().len(),
    {
        proof {
            lemma_merge_spec_dom(Map::<Seq<char>, Seq<char>>::empty(), self.pairs());
            lemma_url_set_len(self.pairs());
            assert(self@.dom() =~= url_set(self.pairs()));
        }
        self.entries.len()
    }

    /// Whether a url was discovered.
    pub fn contains_url(&self, url: &str) -> (r: bool)
        requires
            self.wf(),
        ensures
            r == self@.dom().contains(url@),
    {
        let ghost ps = self.pairs();
        let n = self.entries.len();
        let mut i: usize = 0;
        while i < n
            invariant
                n == self.entries.len(),
                self.wf(),
                ps == self.pairs(),
                0 <= i <= n,
                forall|j: int| 0 <= j < i ==> (#[trigger] ps[j]).1 != url@,
            decreases n - i,
        {
            assert(ps[i as int] == (self.entries@[i as int].date@, self.entries@[i as int].url@));
            if crate::strutil::str_eq(self.entries[i].url.as_str(), url) {
                proof {
                    lemma_merge_spec_dom(Map::<Seq<char>, Seq<char>>::empty(), ps);
                    assert(self@.dom() =~= url_set(ps));
                    assert((i as int) < ps.len() && ps[i as int].1 == url@);
                    lemma_url_set_occurrence(ps, url@);
                    assert(self@.dom().contains(url@));
                }
                return true;
            }
            i += 1;
        }
        proof {
            lemma_merge_spec_dom(Map::<Seq<char>, Seq<char>>::empty(), ps);
            assert(self@.dom() =~= url_set(ps));
            lemma_url_set_no_occurrence(ps, url@);
        }
        false
    }

    /// The date recorded for a url, if the url was discovered.
    pub fn get_date(&self, url: &str) -> (r: Option<String>)
        requires
            self.wf(),
        ensures
            match r {
                Some(d) => self@.dom().contains(url@) && self@[url@] == d@,
                None => !self@.dom().contains(url@),
            },
    {
        let ghost ps = self.pairs();
        let n = self.entries.len();
        let mut i: usize = 0;
        while i < n
            invariant
                n == self.entries.len(),
                0 <= i <= n,
                ps == self.pairs(),
                self.wf(),
                forall|j: int| 0 <= j < i ==> (#[trigger] ps[j]).1 != url@,
            decreases n - i,
        {
            assert(ps[i as int] == (self.entries@[i as int].date@, self.entries@[i as int].url@));
            if crate::strutil::str_eq(self.entries[i].url.as_str(), url) {
                proof {
                    lemma_merge_spec_value(self.pairs(), i as int);
                }
                return Some(self.entries[i].date.clone());
            }
            i += 1;
        }
        proof {
            lemma_merge_spec_dom(Map::<Seq<char>, Seq<char>>::empty(), ps);
            assert(self@.dom() =~= url_set(ps));
            lemma_url_set_no_occurrence(ps, url@);
        }
        None
    }

    /// The records, in insertion order, for emission.
    pub fn records(&self) -> (r: &Vec<Record>)
        ensures
            records_view(r@) == self.pairs(),
    {
        &self.entries
    }

    /// The urls in insertion order are exactly the distinct keys of the set:
    /// no key twice, no key missing. An emission of one line per key is
    /// therefore one line per distinct discovered URL.
    pub proof fn lemma_keys_are_the_urls(&self)
        requires
            self.wf(),
        ensures
            self.keys().no_duplicates(),
            self.keys().to_set() =~= self@.dom(),
    {
        lemma_merge_spec_dom(Map::<Seq<char>, Seq<char>>::empty(), self.pairs());
        assert(self@.dom() =~= url_set(self.pairs()));
        assert forall|u: Seq<char>|
            self.keys().to_set().contains(u) implies self@.dom().contains(u) by {
            let i = choose|i: int| 0 <= i < self.keys().len() && self.keys()[i] == u;
            assert(self.pairs()[i].1 == u);
            lemma_url_set_occurrence(self.pairs(), u);
        }
        assert forall|u: Seq<char>|
            self@.dom().contains(u) implies self.keys().to_set().contains(u) by {
            lemma_url_set_occurrence(self.pairs(), u);
            let j = choose|j: int|
                0 <= j < self.pairs().len() && (#[trigger] self.pairs()[j]).1 == u && u.len() > 0;
            assert(self.keys()[j] == u);
            assert(self.keys().contains(u));
        }
        assert(self.keys().to_set() =~= self@.dom());
        assert forall|i: int, j: int|
            0 <= i < self.keys().len() && 0 <= j < self.keys().len() && i != j implies self.keys()[
            i] != self.keys()[j] by {
            if i < j {
                assert(self.pairs()[i].1 != self.pairs()[j].1);
            } else {
                assert(self.pairs()[j].1 != self.pairs()[i].1);
            }
        }
    }
}

impl View for ResultSet {
    type V = Map<Seq<char>, Seq<char>>;

    /// The set as a map from url to date.
    closed spec fn view(&self) -> Map<Seq<char>, Seq<char>> {
        merge_spec(Map::<Seq<char>, Seq<char>>::empty(), self.pairs())
    }
}

/// Under distinct non-empty urls, the url set is as large as the pair list.
pub proof fn lemma_url_set_len(ps: Seq<(Seq<char>, Seq<char>)>)
    requires
        forall|i: int| 0 <= i < ps.len() ==> (#[trigger] ps[i]).1.len() > 0,
        forall|i: int, j: int|
            0 <= i < j < ps.len() ==> (#[trigger] ps[i]).1 != (#[trigger] ps[j]).1,
    ensures
        url_set(ps).finite(),
        url_set(ps).len() == ps.len(),
    decreases ps.len(),
{
    if ps.len() > 0 {
        assert forall|i: int| 0 <= i < ps.skip(1).len() implies (#[trigger] ps.skip(1)[i]).1.len()
            > 0 by {
            assert(ps.skip(1)[i] == ps[i + 1]);
        }
        assert forall|i: int, j: int|
            0 <= i < j < ps.skip(1).len() implies (#[trigger] ps.skip(1)[i]).1
            != (#[trigger] ps.skip(1)[j]).1 by {
            assert(ps.skip(1)[i] == ps[i + 1]);
            assert(ps.skip(1)[j] == ps[j + 1]);
        }
        lemma_url_set_len(ps.skip(1));
        assert forall|j: int| 0 <= j < ps.skip(1).len() implies ps.skip(1)[j].1 != ps[0].1 by {
            assert(ps.skip(1)[j] == ps[j + 1]);
        }
        lemma_url_set_no_occurrence(ps.skip(1), ps[0].1);
    }
}

/// Under distinct non-empty urls, the merged map holds each pair's date at its
/// url.
pub proof fn lemma_merge_spec_value(ps: Seq<(Seq<char>, Seq<char>)>, i: int)
    requires
        0 <= i < ps.len(),
        forall|k: int| 0 <= k < ps.len() ==> (#[trigger] ps[k]).1.len() > 0,
        forall|k: int, j: int|
            0 <= k < j < ps.len() ==> (#[trigger] ps[k]).1 != (#[trigger] ps[j]).1,
    ensures
        merge_spec(Map::<Seq<char>, Seq<char>>::empty(), ps).dom().contains(ps[i].1),
        merge_spec(Map::<Seq<char>, Seq<char>>::empty(), ps)[ps[i].1] == ps[i].0,
{
    lemma_merge_spec_value_general(Map::<Seq<char>, Seq<char>>::empty(), ps, i);
}

proof fn lemma_merge_spec_value_general(
    m: Map<Seq<char>, Seq<char>>,
    ps: Seq<(Seq<char>, Seq<char>)>,
    i: int,
)
    requires
        0 <= i < ps.len(),
        ps[i].1.len() > 0,
        forall|j: int| i < j < ps.len() ==> (#[trigger] ps[j]).1 != ps[i].1,
    ensures
        merge_spec(m, ps).dom().contains(ps[i].1),
        merge_spec(m, ps)[ps[i].1] == ps[i].0,
    decreases ps.len(),
{
    let m1 = if ps[0].1.len() == 0 {
        m
    } else {
        m.insert(ps[0].1, ps[0].0)
    };
    if i == 0 {
        assert forall|j: int| 0 <= j < ps.skip(1).len() implies ps.skip(1)[j].1 != ps[0].1 by {
            assert(ps.skip(1)[j] == ps[j + 1]);
        }
        lemma_url_set_no_occurrence(ps.skip(1), ps[0].1);
        lemma_merge_spec_untouched(m1, ps.skip(1), ps[0].1);
    } else {
        assert(ps.skip(1)[i - 1] == ps[i]);
        assert forall|j: int|
            i - 1 < j < ps.skip(1).len() implies (#[trigger] ps.skip(1)[j]).1 != ps.skip(1)[i
            - 1].1 by {
            assert(ps.skip(1)[j] == ps[j + 1]);
        }
        lemma_merge_spec_value_general(m1, ps.skip(1), i - 1);
    }
}

/// Aggregation: fold every successful provider outcome into one map, in
/// order; a failed outcome contributes nothing.
pub open spec fn aggregate_spec(outs: Seq<Result<Vec<Record>, FetchError>>) -> Map<
    Seq<char>,
    Seq<char>,
>
    decreases outs.len(),
{
    if outs.len() == 0 {
        Map::<Seq<char>, Seq<char>>::empty()
    } else {
        let m = aggregate_spec(outs.drop_last());
        match outs.last() {
            Ok(recs) => merge_spec(m, records_view(recs@)),
            Err(_) => m,
        }
    }
}

/// Run the merge over every provider outcome for one domain. Failures are
/// tolerated: they contribute nothing, and the aggregation itself never
/// fails. Which provider's date survives for a url reported by several
/// providers depends only on the order of the outcomes given here; among
/// concurrently completing providers that order is not specified.
pub fn aggregate(outs: &Vec<Result<Vec<Record>, FetchError>>) -> (r: ResultSet)
    ensures
        r.wf(),
        r@ == aggregate_spec(outs@),
{
    let mut rs = ResultSet::new();
    let n = outs.len();
    let mut i: usize = 0;
    proof {
        assert(outs@.take(0) =~= Seq::<Result<Vec<Record>, FetchError>>::empty());
    }
    while i < n
        invariant
            n == outs.len(),
            0 <= i <= n,
            rs.wf(),
            rs@ == aggregate_spec(outs@.take(i as int)),
        decreases n - i,
    {
        proof {
            assert(outs@.take(i as int + 1).drop_last() =~= outs@.take(i as int));
            assert(outs@.take(i as int + 1).last() == outs@[i as int]);
        }
        match &outs[i] {
            Ok(recs) => {
                rs.merge(recs);
            },
            Err(_) => {},
        }
        i += 1;
    }
    proof {
        assert(outs@.take(n as int) =~= outs@);
    }
    rs
}

/// With no reachable provider — every outcome failed — aggregation yields the
/// empty result set rather than an error.
pub proof fn lemma_aggregate_all_failed(outs: Seq<Result<Vec<Record>, FetchError>>)
    requires
        forall|i: int| 0 <= i < outs.len() ==> (#[trigger] outs[i]) is Err,
    ensures
        aggregate_spec(outs) =~= Map::<Seq<char>, Seq<char>>::empty(),
    decreases outs.len(),
{
    if outs.len() > 0 {
        lemma_aggregate_all_failed(outs.drop_last());
    }
}

/// Every record a successful provider returned has its url in the merged
/// result set, provided the url is not empty.
pub proof fn lemma_aggregate_url_present(
    outs: Seq<Result<Vec<Record>, FetchError>>,
    i: int,
    j: int,
)
    requires
        0 <= i < outs.len(),
        outs[i] is Ok,
        0 <= j < outs[i]->Ok_0@.len(),
        outs[i]->Ok_0@[j].url@.len() > 0,
    ensures
        aggregate_spec(outs).dom().contains(outs[i]->Ok_0@[j].url@),
    decreases outs.len(),
{
    let m = aggregate_spec(outs.drop_last());
    if i == outs.len() - 1 {
        let recs = outs[i]->Ok_0;
        let rv = records_view(recs@);
        lemma_merge_spec_dom(m, rv);
        lemma_url_set_occurrence(rv, recs@[j].url@);
        assert(rv[j] == (recs@[j].date@, recs@[j].url@));
    } else {
        assert(outs.drop_last()[i] == outs[i]);
        lemma_aggregate_url_present(outs.drop_last(), i, j);
        match outs.last() {
            Ok(recs) => {
                lemma_merge_spec_dom(m, records_view(recs@));
            },
            Err(_) => {},
        }
    }
}

/// The date that survives a merge for a url several pairs may have written
/// is always one that some pair with that url supplied — which one is a
/// matter of merge order alone, and callers that hand providers' outcomes in
/// an unspecified order must accept any of the supplied dates.
pub proof fn lemma_merge_value_among(
    m: Map<Seq<char>, Seq<char>>,
    ps: Seq<(Seq<char>, Seq<char>)>,
    u: Seq<char>,
)
    requires
        url_set(ps).contains(u),
    ensures
        merge_spec(m, ps).dom().contains(u),
        exists|j: int|
            0 <= j < ps.len() && ps[j].1 == u && merge_spec(m, ps)[u] == (#[trigger] ps[j]).0,
    decreases ps.len(),
{
    lemma_merge_spec_dom(m, ps);
    let m1 = if ps[0].1.len() == 0 {
        m
    } else {
        m.insert(ps[0].1, ps[0].0)
    };
    if url_set(ps.skip(1)).contains(u) {
        lemma_merge_value_among(m1, ps.skip(1), u);
        let j = choose|j: int|
            0 <= j < ps.skip(1).len() && ps.skip(1)[j].1 == u && merge_spec(m1, ps.skip(1))[u]
                == (#[trigger] ps.skip(1)[j]).0;
        assert(ps[j + 1] == ps.skip(1)[j]);
        assert(merge_spec(m, ps)[u] == ps[j + 1].0);
    } else {
        assert(ps[0].1 == u && ps[0].1.len() > 0);
        lemma_merge_spec_untouched(m1, ps.skip(1), u);
        assert(merge_spec(m, ps)[u] == ps[0].0);
    }
}

/// Merging the same records twice yields the same key set as merging them
/// once: the map deduplicates by url regardless of insertion count.
pub proof fn lemma_merge_idempotent_keys(
    m: Map<Seq<char>, Seq<char>>,
    ps: Seq<(Seq<char>, Seq<char>)>,
)
    ensures
        merge_spec(merge_spec(m, ps), ps).dom() =~= merge_spec(m, ps).dom(),
{
    lemma_merge_spec_dom(m, ps);
    lemma_merge_spec_dom(merge_spec(m, ps), ps);
}

} // verus!
