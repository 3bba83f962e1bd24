//! Records grouped and counted by their local calendar date. Dates are
//! strings (normally `YYYY-MM-DD`) and are ordered as `String` orders them:
//! character by character, by code point.
use vstd::prelude::*;
use crate::text::{chars_of, same_chars, same_text};

verus! {

/// The characters of each string.
pub open spec fn texts(v: Seq<String>) -> Seq<Seq<char>> {
    v.map_values(|s: String| s@)
}

/// `a < b` in the order of `String`: the first differing character decides,
/// and a proper prefix comes first.
pub open spec fn text_lt(a: Seq<char>, b: Seq<char>) -> bool
    decreases a.len(),
{
    if a.len() == 0 {
        b.len() > 0
    } else if b.len() == 0 {
        false
    } else if (a[0] as int) < (b[0] as int) {
        true
    } else if a[0] == b[0] {
        text_lt(a.drop_first(), b.drop_first())
    } else {
        false
    }
}

pub proof fn lemma_text_lt_irreflexive(a: Seq<char>)
    ensures
        !text_lt(a, a),
    decreases a.len(),
{
    if a.len() > 0 {
        lemma_text_lt_irreflexive(a.drop_first());
    }
}

pub proof fn lemma_text_lt_transitive(a: Seq<char>, b: Seq<char>, c: Seq<char>)
    requires
        text_lt(a, b),
        text_lt(b, c),
    ensures
        text_lt(a, c),
    decreases a.len(),
{
    if a.len() > 0 && b.len() > 0 && c.len() > 0 && a[0] == b[0] && b[0] == c[0] {
        lemma_text_lt_transitive(a.drop_first(), b.drop_first(), c.drop_first());
    }
}

pub proof fn lemma_text_lt_total(a: Seq<char>, b: Seq<char>)
    ensures
        a == b || text_lt(a, b) || text_lt(b, a),
    decreases a.len(),
{
    if a.len() > 0 && b.len() > 0 && a[0] == b[0] {
        lemma_text_lt_total(a.drop_first(), b.drop_first());
        if a.drop_first() == b.drop_first() {
            assert(a == seq![a[0]] + a.drop_first());
            assert(b == seq![b[0]] + b.drop_first());
        }
    } else if a.len() > 0 && b.len() > 0 {
        assert((a[0] as int) != (b[0] as int));
    } else if a.len() == 0 && b.len() == 0 {
        assert(a == b);
    }
}

/// Whether `a` comes before `b` in the order of `String`.
pub fn chars_less(a: &[char], b: &[char]) -> (r: bool)
    ensures
        r == text_lt(a@, b@),
{
    let n = a.len();
    let m = b.len();
    let mut i: usize = 0;
    assert(a@.skip(0) == a@);
    assert(b@.skip(0) == b@);
    while i < n && i < m && a[i] == b[i]
        invariant
            i <= n == a@.len(),
            i <= m == b@.len(),
            text_lt(a@, b@) == text_lt(a@.skip(i as int), b@.skip(i as int)),
        decreases n - i,
    {
        assert(a@.skip(i as int).drop_first() == a@.skip(i as int + 1));
        assert(b@.skip(i as int).drop_first() == b@.skip(i as int + 1));
        i = i + 1;
    }
    if i == n {
        i < m
    } else if i == m {
        false
    } else {
        a[i] < b[i]
    }
}

/// The positions `i < n` with `dates[i] == d`, in increasing order.
pub open spec fn positions_of(dates: Seq<Seq<char>>, d: Seq<char>, n: int) -> Seq<usize>
    decreases n,
{
    if n <= 0 {
        Seq::<usize>::empty()
    } else if dates[n - 1] == d {
        positions_of(dates, d, n - 1).push((n - 1) as usize)
    } else {
        positions_of(dates, d, n - 1)
    }
}

pub proof fn lemma_positions_of_members(dates: Seq<Seq<char>>, d: Seq<char>, n: int)
    requires
        0 <= n <= dates.len(),
        n <= usize::MAX,
    ensures
        forall|k: int|
            0 <= k < positions_of(dates, d, n).len() ==> #[trigger] positions_of(dates, d, n)[k] < n
                && dates[positions_of(dates, d, n)[k] as int] == d,
        forall|i: int| 0 <= i < n && dates[i] == d ==> positions_of(dates, d, n).contains(i as usize),
        positions_of(dates, d, n).len() <= n,
    decreases n,
{
    if n > 0 {
        lemma_positions_of_members(dates, d, n - 1);
        let p = positions_of(dates, d, n - 1);
        if dates[n - 1] == d {
            assert forall|i: int| 0 <= i < n && dates[i] == d implies positions_of(dates, d, n).contains(
                i as usize,
            ) by {
                if i < n - 1 {
                    let k = choose|k: int| 0 <= k < p.len() && p[k] == i as usize;
                    assert(positions_of(dates, d, n)[k] == i as usize);
                } else {
                    assert(positions_of(dates, d, n)[p.len() as int] == i as usize);
                }
            }
        }
    }
}

/// How many of the first `n` dates equal `d`.
pub open spec fn date_count(dates: Seq<Seq<char>>, d: Seq<char>) -> nat {
    positions_of(dates, d, dates.len() as int).len()
}

/// The positions of the records dated `date`, in order.
pub fn positions_with_date(dates: &[String], date: &str) -> (r: Vec<usize>)
    ensures
        r@ == positions_of(texts(dates@), date@, dates@.len() as int),
{
    let n = dates.len();
    let mut r: Vec<usize> = Vec::new();
    let mut i: usize = 0;
    while i < n
        invariant
            i <= n == dates@.len(),
            r@ == positions_of(texts(dates@), date@, i as int),
        decreases n - i,
    {
        if same_text(dates[i].as_str(), date) {
            r.push(i);
        }
        i = i + 1;
    }
    r
}

/// The records dated `d`, as positions into the history.
#[derive(Debug)]
pub struct DateGroup {
    pub date: String,
    pub positions: Vec<usize>,
}

/// Groups are in increasing date order, hold exactly the positions of their
/// date, and every date of the first `n` records has its group.
pub open spec fn grouped(dates: Seq<Seq<char>>, n: int, groups: Seq<DateGroup>) -> bool {
    &&& forall|a: int, b: int|
        0 <= a < b < groups.len() ==> text_lt(#[trigger] groups[a].date@, #[trigger] groups[b].date@)
    &&& forall|k: int|
        0 <= k < groups.len() ==> (#[trigger] groups[k]).positions@ == positions_of(
            dates,
            groups[k].date@,
            n,
        ) && groups[k].positions@.len() > 0
    &&& forall|i: int|
        #![trigger dates[i]]
        0 <= i < n ==> exists|k: int| #![trigger groups[k]] 0 <= k < groups.len() && groups[k].date@ == dates[i]
}

/// Distinct dates in a strictly increasing list.
pub proof fn lemma_sorted_distinct(groups: Seq<DateGroup>, a: int, b: int)
    requires
        forall|x: int, y: int|
            0 <= x < y < groups.len() ==> text_lt(#[trigger] groups[x].date@, #[trigger] groups[y].date@),
        0 <= a < groups.len(),
        0 <= b < groups.len(),
        a != b,
    ensures
        groups[a].date@ != groups[b].date@,
{
    if a < b {
        lemma_text_lt_irreflexive(groups[a].date@);
    } else {
        lemma_text_lt_irreflexive(groups[b].date@);
    }
}

/// The records grouped by date, in increasing date order; each group lists
/// the positions of its records in history order.
pub fn group_by_date(dates: &[String]) -> (groups: Vec<DateGroup>)
    ensures
        grouped(texts(dates@), dates@.len() as int, groups@),
{
    let ghost d_all = texts(dates@);
    let n = dates.len();
    let mut groups: Vec<DateGroup> = Vec::new();
    let mut keys: Vec<Vec<char>> = Vec::new();
    let mut i: usize = 0;
    while i < n
        invariant
            i <= n == dates@.len() == d_all.len(),
            d_all == texts(dates@),
            grouped(d_all, i as int, groups@),
            keys@.len() == groups@.len(),
            forall|k: int| 0 <= k < keys@.len() ==> (#[trigger] keys@[k])@ == groups@[k].date@,
        decreases n - i,
    {
        let d = chars_of(dates[i].as_str());
        assert(d@ == d_all[i as int]);
        let mut p: usize = 0;
        while p < keys.len() && chars_less(keys[p].as_slice(), d.as_slice())
            invariant
                p <= keys@.len(),
                keys@.len() == groups@.len(),
                forall|k: int| 0 <= k < keys@.len() ==> (#[trigger] keys@[k])@ == groups@[k].date@,
                forall|q: int| 0 <= q < p ==> text_lt(#[trigger] groups@[q].date@, d@),
            decreases keys@.len() - p,
        {
            p = p + 1;
        }
        let ghost old_groups = groups@;
        proof {
            lemma_positions_of_members(d_all, d@, i as int);
        }
        let found = p < keys.len() && same_chars(keys[p].as_slice(), d.as_slice());
        if found {
            let mut g = groups.remove(p);
            g.positions.push(i);
            let ghost gv = g;
            groups.insert(p, g);
            assert(groups@ =~= old_groups.update(p as int, gv));
            proof {
                assert forall|k: int| 0 <= k < groups@.len() implies (#[trigger] groups@[k]).positions@
                    == positions_of(d_all, groups@[k].date@, i + 1) && groups@[k].positions@.len() > 0 by {
                    if k != p {
                        lemma_sorted_distinct(old_groups, k, p as int);
                        assert(groups@[k] == old_groups[k]);
                    }
                }
                assert forall|j: int| #![trigger d_all[j]] 0 <= j < i + 1 implies exists|k: int|
                    #![trigger groups@[k]]
                    0 <= k < groups@.len() && groups@[k].date@ == d_all[j] by {
                    if j < i {
                        let k = choose|k: int| #![trigger old_groups[k]] 0 <= k < old_groups.len() && old_groups[k].date@ == d_all[j];
                        assert(groups@[k].date@ == old_groups[k].date@);
                    } else {
                        assert(groups@[p as int].date@ == d_all[j]);
                    }
                }
            }
        } else {
            proof {
                // The new date sorts after every earlier key and before every later one.
                assert forall|q: int| p <= q < old_groups.len() implies text_lt(d@, #[trigger] old_groups[q].date@) by {
                    lemma_text_lt_total(old_groups[p as int].date@, d@);
                    if q > p {
                        lemma_text_lt_transitive(d@, old_groups[p as int].date@, old_groups[q].date@);
                    }
                }
                assert forall|q: int| 0 <= q < old_groups.len() implies (#[trigger] old_groups[q]).date@ != d@ by {
                    if q < p {
                        lemma_text_lt_irreflexive(d@);
                    } else {
                        lemma_text_lt_irreflexive(d@);
                    }
                }
                if positions_of(d_all, d@, i as int).len() > 0 {
                    let e = positions_of(d_all, d@, i as int)[0];
                    let k = choose|k: int| #![trigger old_groups[k]] 0 <= k < old_groups.len() && old_groups[k].date@ == d_all[e as int];
                }
                assert(positions_of(d_all, d@, i as int).len() == 0);
            }
            let mut first: Vec<usize> = Vec::new();
            first.push(i);
            let date = dates[i].clone();
            groups.insert(p, DateGroup { date, positions: first });
            keys.insert(p, d);
            proof {
                assert(groups@[p as int].positions@ =~= positions_of(d_all, d@, i + 1));
                assert forall|a: int, b: int| 0 <= a < b < groups@.len() implies text_lt(#[trigger] groups@[a].date@, #[trigger] groups@[b].date@) by {
                    if b < p {
                        assert(groups@[a] == old_groups[a] && groups@[b] == old_groups[b]);
                    } else if b == p {
                        assert(groups@[a] == old_groups[a]);
                    } else if a < p {
                        assert(groups@[a] == old_groups[a] && groups@[b] == old_groups[b - 1]);
                        lemma_text_lt_transitive(old_groups[a].date@, d@, old_groups[b - 1].date@);
                    } else if a == p {
                        assert(groups@[b] == old_groups[b - 1]);
                    } else {
                        assert(groups@[a] == old_groups[a - 1] && groups@[b] == old_groups[b - 1]);
                    }
                }
                assert forall|k: int| 0 <= k < groups@.len() implies (#[trigger] groups@[k]).positions@
                    == positions_of(d_all, groups@[k].date@, i + 1) && groups@[k].positions@.len() > 0 by {
                    if k < p {
                        assert(groups@[k] == old_groups[k]);
                    } else if k > p {
                        assert(groups@[k] == old_groups[k - 1]);
                    }
                }
                assert forall|k: int| 0 <= k < keys@.len() implies (#[trigger] keys@[k])@ == groups@[k].date@ by {
                    if k < p {
                        assert(groups@[k] == old_groups[k]);
                    } else if k > p {
                        assert(groups@[k] == old_groups[k - 1]);
                    }
                }
                assert forall|j: int| #![trigger d_all[j]] 0 <= j < i + 1 implies exists|k: int|
                    #![trigger groups@[k]]
                    0 <= k < groups@.len() && groups@[k].date@ == d_all[j] by {
                    if j < i {
                        let k = choose|k: int| #![trigger old_groups[k]] 0 <= k < old_groups.len() && old_groups[k].date@ == d_all[j];
                        if k < p {
                            assert(groups@[k] == old_groups[k]);
                        } else {
                            assert(groups@[k + 1] == old_groups[k]);
                        }
                    } else {
                        assert(groups@[p as int].date@ == d_all[j]);
                    }
                }
            }
        }
        i = i + 1;
    }
    groups
}

} // verus!
