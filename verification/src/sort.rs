//! Ordering of primary rows by ascending `id`.
//!
//! The store assigns `id` monotonically, and every response lists rows in
//! ascending `id` order. [`sort_rows`] states that order as a function;
//! [`sort_rows_by_id`] computes it.

use vstd::prelude::*;

use crate::model::PrimaryRow;

verus! {

broadcast use vstd::seq_lib::group_to_multiset_ensures;

/// The rows stand in ascending `id` order.
pub open spec fn sorted_by_id(rows: Seq<PrimaryRow>) -> bool {
    forall|i: int, j: int| 0 <= i < j < rows.len() ==> rows[i].id <= rows[j].id
}

/// First position at or after `i` whose row has an `id` above `id`;
/// `s.len()` when there is none. Scanning from the front keeps the sort
/// stable: a row lands after every earlier row of equal `id`.
pub open spec fn insert_pos_from(s: Seq<PrimaryRow>, id: i64, i: int) -> int
    decreases s.len() - i,
{
    if i < 0 || i >= s.len() {
        s.len() as int
    } else if s[i].id > id {
        i
    } else {
        insert_pos_from(s, id, i + 1)
    }
}

/// What [`insert_pos_from`] returns.
pub proof fn lemma_insert_pos_from(s: Seq<PrimaryRow>, id: i64, i: int)
    requires
        0 <= i <= s.len(),
    ensures
        i <= insert_pos_from(s, id, i) <= s.len(),
        insert_pos_from(s, id, i) < s.len() ==> s[insert_pos_from(s, id, i)].id > id,
        forall|k: int| i <= k < insert_pos_from(s, id, i) ==> s[k].id <= id,
    decreases s.len() - i,
{
    if i < s.len() && s[i].id <= id {
        lemma_insert_pos_from(s, id, i + 1);
    }
}

/// The rows in ascending `id` order, built by stable insertion.
pub open spec fn sort_rows(s: Seq<PrimaryRow>) -> Seq<PrimaryRow>
    decreases s.len(),
{
    if s.len() == 0 {
        Seq::empty()
    } else {
        let rest = sort_rows(s.drop_last());
        rest.insert(insert_pos_from(rest, s.last().id, 0), s.last())
    }
}

/// What sorting guarantees: ascending `id` order over exactly the rows
/// given, none lost and none invented.
pub proof fn lemma_sort_rows_ensures(s: Seq<PrimaryRow>)
    ensures
        sorted_by_id(sort_rows(s)),
        sort_rows(s).to_multiset() == s.to_multiset(),
        sort_rows(s).len() == s.len(),
    decreases s.len(),
{
    if s.len() > 0 {
        lemma_sort_rows_ensures(s.drop_last());
        let rest = sort_rows(s.drop_last());
        let x = s.last();
        let p = insert_pos_from(rest, x.id, 0);
        lemma_insert_pos_from(rest, x.id, 0);
        rest.insert_ensures(p, x);
        let t = rest.insert(p, x);
        assert forall|i: int, j: int| 0 <= i < j < t.len() implies t[i].id <= t[j].id by {
            if j < p {
                assert(t[i] == rest[i] && t[j] == rest[j]);
            } else if i < p && j == p {
                assert(t[i] == rest[i] && rest[i].id <= x.id);
            } else if i < p && j > p {
                assert(t[i] == rest[i] && t[j] == rest[j - 1]);
                if j - 1 >= p {
                    assert(rest[p].id > x.id && rest[p].id <= rest[j - 1].id);
                }
            } else if i == p {
                assert(t[j] == rest[j - 1] && rest[p].id > x.id);
                assert(rest[p].id <= rest[j - 1].id);
            } else {
                assert(t[i] == rest[i - 1] && t[j] == rest[j - 1]);
            }
        }
        assert(s.drop_last().push(x) =~= s);
        assert(t.to_multiset() == s.to_multiset());
    }
}

/// Executable counterpart of [`sort_rows`]: insertion sort into a fresh
/// vector.
pub fn sort_rows_by_id(rows: &Vec<PrimaryRow>) -> (r: Vec<PrimaryRow>)
    ensures
        r@ == sort_rows(rows@),
{
    let n = rows.len();
    let mut out: Vec<PrimaryRow> = Vec::new();
    let mut i: usize = 0;
    proof {
        assert(rows@.take(0) =~= Seq::<PrimaryRow>::empty());
    }
    while i < n
        invariant
            0 <= i <= n,
            n == rows@.len(),
            out@ == sort_rows(rows@.take(i as int)),
        decreases n - i,
    {
        let row = rows[i].duplicate();
        let target = row.id;
        let mut j: usize = 0;
        while j < out.len() && out[j].id <= target
            invariant
                0 <= j <= out@.len(),
                insert_pos_from(out@, target, 0) == insert_pos_from(out@, target, j as int),
            decreases out@.len() - j,
        {
            j = j + 1;
        }
        proof {
            assert(insert_pos_from(out@, target, 0) == j as int);
            assert(rows@.take(i + 1).drop_last() =~= rows@.take(i as int));
            assert(rows@.take(i + 1).last() == rows@[i as int]);
        }
        out.insert(j, row);
        i = i + 1;
    }
    proof {
        assert(rows@.take(n as int) =~= rows@);
    }
    out
}

} // verus!
