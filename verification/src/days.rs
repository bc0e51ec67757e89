//! Day resolution over the primary rows.
//!
//! A date string groups by its first ten characters, the `yyyy-mm-dd` day.
//! The latest day is the day of the lexicographically greatest full date
//! string; the all-dates listing holds each day once, in compact `yyyymmdd`
//! form, ordered by first occurrence.

use vstd::prelude::*;

use crate::model::PrimaryRow;
use crate::tags::distinct_seqs;
use crate::text::lemma_str_lt_irrefl;
use crate::text::lemma_str_lt_trans;
use crate::text::str_lt;
use crate::text::str_less;

verus! {

/// A date string truncated to its day: the first ten characters.
pub open spec fn day_of(d: Seq<char>) -> Seq<char> {
    if d.len() >= 10 {
        d.subrange(0, 10)
    } else {
        d
    }
}

/// `s` with every `-` removed.
pub open spec fn drop_dashes(s: Seq<char>) -> Seq<char>
    decreases s.len(),
{
    if s.len() == 0 {
        Seq::empty()
    } else {
        let rest = drop_dashes(s.drop_last());
        if s.last() == '-' {
            rest
        } else {
            rest.push(s.last())
        }
    }
}

/// The compact form of a day: the day with its `-` separators removed.
pub open spec fn compact_of(d: Seq<char>) -> Seq<char> {
    drop_dashes(day_of(d))
}

/// Executable counterpart of [`day_of`].
pub fn day_of_str(d: &str) -> (r: String)
    ensures
        r@ == day_of(d@),
{
    let n = d.unicode_len();
    if n >= 10 {
        d.substring_char(0, 10).to_owned()
    } else {
        d.to_owned()
    }
}

/// Executable counterpart of [`compact_of`].
pub fn compact_of_str(d: &str) -> (r: String)
    ensures
        r@ == compact_of(d@),
{
    let n = d.unicode_len();
    let m = if n >= 10 {
        10
    } else {
        n
    };
    let mut out = String::new();
    let mut i: usize = 0;
    proof {
        assert(d@.subrange(0, 0) =~= Seq::<char>::empty());
        assert(drop_dashes(Seq::<char>::empty()) =~= Seq::<char>::empty());
    }
    while i < m
        invariant
            0 <= i <= m <= d@.len(),
            m == day_of(d@).len(),
            out@ == drop_dashes(d@.subrange(0, i as int)),
        decreases m - i,
    {
        proof {
            assert(d@.subrange(0, i + 1).drop_last() =~= d@.subrange(0, i as int));
            assert(d@.subrange(0, i + 1).last() == d@[i as int]);
        }
        let c = d.get_char(i);
        if c != '-' {
            out.append(d.substring_char(i, i + 1));
            proof {
                assert(d@.subrange(i as int, i + 1) =~= seq![d@[i as int]]);
                assert(out@ =~= drop_dashes(d@.subrange(0, i + 1)));
            }
        } else {
            proof {
                assert(out@ =~= drop_dashes(d@.subrange(0, i + 1)));
            }
        }
        i = i + 1;
    }
    proof {
        assert(d@.subrange(0, m as int) =~= day_of(d@));
    }
    out
}

/// The distinct compact days of `rows`, in order of first occurrence;
/// rows without a date contribute nothing.
pub open spec fn distinct_days(rows: Seq<PrimaryRow>) -> Seq<Seq<char>>
    decreases rows.len(),
{
    if rows.len() == 0 {
        Seq::empty()
    } else {
        let rest = distinct_days(rows.drop_last());
        match rows.last().date {
            None => rest,
            Some(d) => if rest.contains(compact_of(d@)) {
                rest
            } else {
                rest.push(compact_of(d@))
            },
        }
    }
}

/// Whether `v` holds a string whose characters are `x`.
#[verifier::loop_isolation(false)]
fn contains_string(v: &Vec<String>, x: &String) -> (r: bool)
    ensures
        r == v.deep_view().contains(x@),
{
    let mut j: usize = 0;
    while j < v.len()
        invariant
            0 <= j <= v@.len(),
            forall|t: int| 0 <= t < j ==> v.deep_view()[t] != x@,
        decreases v@.len() - j,
    {
        if v[j] == *x {
            proof {
                assert(v.deep_view()[j as int] == x@);
            }
            return true;
        }
        proof {
            assert(v.deep_view()[j as int] == v@[j as int]@);
        }
        j = j + 1;
    }
    proof {
        assert(forall|t: int| 0 <= t < v.deep_view().len() ==> v.deep_view()[t] != x@);
    }
    false
}

/// Executable counterpart of [`distinct_days`], over rows in the order given.
pub fn list_distinct_days(rows: &Vec<PrimaryRow>) -> (r: Vec<String>)
    ensures
        r.deep_view() == distinct_days(rows@),
{
    let n = rows.len();
    let mut out: Vec<String> = Vec::new();
    let mut i: usize = 0;
    proof {
        assert(rows@.take(0) =~= Seq::<PrimaryRow>::empty());
        assert(out.deep_view() =~= Seq::<Seq<char>>::empty());
    }
    while i < n
        invariant
            0 <= i <= n,
            n == rows@.len(),
            out.deep_view() == distinct_days(rows@.take(i as int)),
        decreases n - i,
    {
        proof {
            assert(rows@.take(i + 1).drop_last() =~= rows@.take(i as int));
            assert(rows@.take(i + 1).last() == rows@[i as int]);
        }
        match &rows[i].date {
            None => {},
            Some(d) => {
                let c = compact_of_str(d.as_str());
                if !contains_string(&out, &c) {
                    out.push(c);
                    proof {
                        assert(out.deep_view() =~= distinct_days(rows@.take(i + 1)));
                    }
                }
            },
        }
        i = i + 1;
    }
    proof {
        assert(rows@.take(n as int) =~= rows@);
    }
    out
}

/// The distinct-day listing never repeats a day.
pub proof fn lemma_distinct_days_distinct(rows: Seq<PrimaryRow>)
    ensures
        distinct_seqs(distinct_days(rows)),
    decreases rows.len(),
{
    if rows.len() > 0 {
        lemma_distinct_days_distinct(rows.drop_last());
        let rest = distinct_days(rows.drop_last());
        match rows.last().date {
            None => {},
            Some(d) => {
                let c = compact_of(d@);
                if !rest.contains(c) {
                    assert forall|i: int, j: int|
                        0 <= i < j < rest.push(c).len() implies rest.push(c)[i] != rest.push(c)[j]
                    by {
                        if j == rest.len() {
                            assert(rest[i] != c);
                        }
                    }
                }
            },
        }
    }
}

/// A further row that repeats a day already listed adds nothing, so each
/// day keeps the position of its first occurrence.
pub proof fn lemma_repeated_day_collapses(rows: Seq<PrimaryRow>, row: PrimaryRow)
    requires
        match row.date {
            Some(d) => distinct_days(rows).contains(compact_of(d@)),
            None => true,
        },
    ensures
        distinct_days(rows.push(row)) == distinct_days(rows),
{
    assert(rows.push(row).drop_last() =~= rows);
    assert(rows.push(row).last() == row);
}

/// A further row never disturbs the days already listed: it can only append.
pub proof fn lemma_distinct_days_extend(rows: Seq<PrimaryRow>, row: PrimaryRow)
    ensures
        distinct_days(rows).len() <= distinct_days(rows.push(row)).len(),
        forall|t: int|
            0 <= t < distinct_days(rows).len() ==> distinct_days(rows.push(row))[t]
                == distinct_days(rows)[t],
{
    assert(rows.push(row).drop_last() =~= rows);
    assert(rows.push(row).last() == row);
}

/// `d` is the greatest full date string among the rows: some row carries it,
/// and no row's date exceeds it.
pub open spec fn is_latest_date(rows: Seq<PrimaryRow>, d: Seq<char>) -> bool {
    &&& exists|i: int|
        0 <= i < rows.len() && (match #[trigger] rows[i].date {
            Some(x) => x@ == d,
            None => false,
        })
    &&& forall|i: int|
        0 <= i < rows.len() ==> (match #[trigger] rows[i].date {
            Some(x) => !str_lt(d, x@),
            None => true,
        })
}

/// Resolves the latest day: the day of the greatest full date string, or
/// nothing when no row carries a date.
pub fn resolve_latest_day(rows: &Vec<PrimaryRow>) -> (r: Option<String>)
    ensures
        match r {
            Some(day) => exists|d: Seq<char>|
                is_latest_date(rows@, d) && day@ == day_of(d),
            None => forall|i: int| 0 <= i < rows@.len() ==> rows@[i].date is None,
        },
        (r is Some) <==> exists|i: int| 0 <= i < rows@.len() && rows@[i].date is Some,
{
    let n = rows.len();
    let mut best: Option<String> = None;
    let mut i: usize = 0;
    while i < n
        invariant
            0 <= i <= n,
            n == rows@.len(),
            match best {
                None => forall|j: int| 0 <= j < i ==> rows@[j].date is None,
                Some(b) => {
                    &&& exists|j: int|
                        0 <= j < i && (match #[trigger] rows@[j].date {
                            Some(x) => x@ == b@,
                            None => false,
                        })
                    &&& forall|j: int|
                        0 <= j < i ==> (match #[trigger] rows@[j].date {
                            Some(x) => !str_lt(b@, x@),
                            None => true,
                        })
                },
            },
        decreases n - i,
    {
        match &rows[i].date {
            None => {},
            Some(x) => {
                let replace = match &best {
                    None => true,
                    Some(b) => str_less(b.as_str(), x.as_str()),
                };
                if replace {
                    proof {
                        lemma_str_lt_irrefl(x@);
                        match best {
                            None => {},
                            Some(b) => {
                                assert forall|j: int|
                                    0 <= j < i implies (match #[trigger] rows@[j].date {
                                    Some(y) => !str_lt(x@, y@),
                                    None => true,
                                }) by {
                                    match rows@[j].date {
                                        Some(y) => {
                                            if str_lt(x@, y@) {
                                                lemma_str_lt_trans(b@, x@, y@);
                                            }
                                        },
                                        None => {},
                                    }
                                }
                            },
                        }
                    }
                    best = Some(x.clone());
                    proof {
                        assert(match rows@[i as int].date {
                            Some(y) => y@ == x@,
                            None => false,
                        });
                    }
                }
            },
        }
        i = i + 1;
    }
    match best {
        None => None,
        Some(b) => {
            let day = day_of_str(b.as_str());
            proof {
                assert(is_latest_date(rows@, b@));
            }
            Some(day)
        },
    }
}

} // verus!
