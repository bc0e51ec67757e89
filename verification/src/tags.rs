//! Category tag expansion.
//!
//! A keyword row encodes categories as tokens separated by `|`; each token
//! splits on its first `-` into a kind prefix and a value suffix. Expansion
//! keeps only the value, trimmed of whitespace; tokens without a separator
//! or with a blank value are dropped, and values repeat only once, in
//! first-occurrence order.

use vstd::prelude::*;

use crate::text::find_from;
use crate::text::trim_view;
use crate::text::find_char_from;
use crate::text::trim_str;

verus! {

/// The value one `kind-value` token contributes: the trimmed suffix after
/// the first `-`, or nothing when the token is malformed.
pub open spec fn token_value(tok: Seq<char>) -> Option<Seq<char>> {
    let k = find_from(tok, 0, '-');
    if k >= tok.len() {
        None
    } else {
        let v = trim_view(tok.subrange(k + 1, tok.len() as int));
        if v.len() == 0 {
            None
        } else {
            Some(v)
        }
    }
}

/// `acc` extended by the value of `tok`, unless the token is malformed or
/// its value is already present.
pub open spec fn push_tag(acc: Seq<Seq<char>>, tok: Seq<char>) -> Seq<Seq<char>> {
    match token_value(tok) {
        None => acc,
        Some(v) => if acc.contains(v) {
            acc
        } else {
            acc.push(v)
        },
    }
}

/// One left-to-right pass over the categories string: `cur` is the token
/// read so far, `acc` the values collected; `|` closes the current token.
pub open spec fn tags_scan(s: Seq<char>, cur: Seq<char>, acc: Seq<Seq<char>>) -> Seq<Seq<char>>
    decreases s.len(),
{
    if s.len() == 0 {
        push_tag(acc, cur)
    } else if s[0] == '|' {
        tags_scan(s.drop_first(), Seq::empty(), push_tag(acc, cur))
    } else {
        tags_scan(s.drop_first(), cur.push(s[0]), acc)
    }
}

/// The tag values of a categories string, deduplicated, in first-occurrence
/// order.
pub open spec fn tags_of(cats: Seq<char>) -> Seq<Seq<char>> {
    tags_scan(cats, Seq::empty(), Seq::empty())
}

/// Closes the token `s[lo..hi)`: appends its value to `acc` unless the token
/// is malformed or the value is already there.
#[verifier::loop_isolation(false)]
fn append_token(acc: &mut Vec<String>, s: &str, lo: usize, hi: usize)
    requires
        lo <= hi <= s@.len(),
    ensures
        final(acc).deep_view() == push_tag(old(acc).deep_view(), s@.subrange(lo as int, hi as int)),
{
    let ghost tok_view = s@.subrange(lo as int, hi as int);
    let tok = s.substring_char(lo, hi);
    let m = tok.unicode_len();
    let k = find_char_from(tok, 0, '-');
    if k >= m {
        return ;
    }
    let val = trim_str(tok.substring_char(k + 1, m));
    if val.unicode_len() == 0 {
        return ;
    }
    proof {
        assert(token_value(tok_view) == Some(val@));
    }
    let mut j: usize = 0;
    while j < acc.len()
        invariant
            0 <= j <= acc@.len(),
            forall|t: int| 0 <= t < j ==> acc.deep_view()[t] != val@,
        decreases acc@.len() - j,
    {
        if acc[j] == val {
            proof {
                assert(acc.deep_view()[j as int] == val@);
                assert(acc.deep_view().contains(val@));
            }
            return ;
        }
        proof {
            assert(acc.deep_view()[j as int] == acc@[j as int]@);
        }
        j = j + 1;
    }
    proof {
        assert(forall|t: int|
            0 <= t < acc.deep_view().len() ==> acc.deep_view()[t] != val@);
        assert(!acc.deep_view().contains(val@));
    }
    acc.push(val);
    proof {
        assert(acc.deep_view() =~= old(acc).deep_view().push(
            token_value(tok_view)->Some_0,
        ));
    }
}

/// Expands a categories string into its deduplicated tag values, in
/// first-occurrence order.
pub fn extract_tags(cats: &str) -> (r: Vec<String>)
    ensures
        r.deep_view() == tags_of(cats@),
{
    let n = cats.unicode_len();
    let mut acc: Vec<String> = Vec::new();
    let mut start: usize = 0;
    let mut i: usize = 0;
    proof {
        assert(cats@.skip(0) =~= cats@);
        assert(cats@.subrange(0, 0) =~= Seq::<char>::empty());
        assert(acc.deep_view() =~= Seq::<Seq<char>>::empty());
    }
    while i < n
        invariant
            start <= i <= n,
            n == cats@.len(),
            tags_of(cats@) == tags_scan(
                cats@.skip(i as int),
                cats@.subrange(start as int, i as int),
                acc.deep_view(),
            ),
        decreases n - i,
    {
        proof {
            assert(cats@.skip(i as int)[0] == cats@[i as int]);
            assert(cats@.skip(i as int).drop_first() =~= cats@.skip(i + 1));
        }
        if cats.get_char(i) == '|' {
            append_token(&mut acc, cats, start, i);
            start = i + 1;
            proof {
                assert(cats@.subrange(start as int, start as int) =~= Seq::<char>::empty());
            }
        } else {
            proof {
                assert(cats@.subrange(start as int, i as int).push(cats@[i as int]) =~= cats@
                    .subrange(start as int, i + 1));
            }
        }
        i = i + 1;
    }
    append_token(&mut acc, cats, start, n);
    acc
}

/// No two entries of `xs` are the same character sequence.
pub open spec fn distinct_seqs(xs: Seq<Seq<char>>) -> bool {
    forall|i: int, j: int| 0 <= i < j < xs.len() ==> xs[i] != xs[j]
}

proof fn lemma_push_tag_distinct(acc: Seq<Seq<char>>, tok: Seq<char>)
    requires
        distinct_seqs(acc),
    ensures
        distinct_seqs(push_tag(acc, tok)),
        acc.len() <= push_tag(acc, tok).len(),
        forall|t: int| 0 <= t < acc.len() ==> push_tag(acc, tok)[t] == acc[t],
{
    match token_value(tok) {
        None => {},
        Some(v) => {
            if !acc.contains(v) {
                assert forall|i: int, j: int|
                    0 <= i < j < push_tag(acc, tok).len() implies push_tag(acc, tok)[i] != push_tag(
                    acc,
                    tok,
                )[j] by {
                    if j == acc.len() {
                        assert(acc[i] != v);
                    }
                }
            }
        },
    }
}

proof fn lemma_tags_scan_distinct(s: Seq<char>, cur: Seq<char>, acc: Seq<Seq<char>>)
    requires
        distinct_seqs(acc),
    ensures
        distinct_seqs(tags_scan(s, cur, acc)),
        acc.len() <= tags_scan(s, cur, acc).len(),
        forall|t: int| 0 <= t < acc.len() ==> tags_scan(s, cur, acc)[t] == acc[t],
    decreases s.len(),
{
    if s.len() == 0 {
        lemma_push_tag_distinct(acc, cur);
    } else if s[0] == '|' {
        lemma_push_tag_distinct(acc, cur);
        lemma_tags_scan_distinct(s.drop_first(), Seq::empty(), push_tag(acc, cur));
    } else {
        lemma_tags_scan_distinct(s.drop_first(), cur.push(s[0]), acc);
    }
}

/// A tag expansion never holds the same value twice.
pub proof fn lemma_tags_of_distinct(cats: Seq<char>)
    ensures
        distinct_seqs(tags_of(cats)),
{
    lemma_tags_scan_distinct(cats, Seq::empty(), Seq::empty());
}

/// The scanner's state after consuming `s`, before the final token is
/// closed: the pending token and the values collected so far.
spec fn scan_state(s: Seq<char>, cur: Seq<char>, acc: Seq<Seq<char>>) -> (Seq<char>, Seq<
    Seq<char>,
>)
    decreases s.len(),
{
    if s.len() == 0 {
        (cur, acc)
    } else if s[0] == '|' {
        scan_state(s.drop_first(), Seq::empty(), push_tag(acc, cur))
    } else {
        scan_state(s.drop_first(), cur.push(s[0]), acc)
    }
}

proof fn lemma_tags_scan_flush(s: Seq<char>, cur: Seq<char>, acc: Seq<Seq<char>>)
    ensures
        tags_scan(s, cur, acc) == push_tag(scan_state(s, cur, acc).1, scan_state(s, cur, acc).0),
    decreases s.len(),
{
    if s.len() == 0 {
    } else if s[0] == '|' {
        lemma_tags_scan_flush(s.drop_first(), Seq::empty(), push_tag(acc, cur));
    } else {
        lemma_tags_scan_flush(s.drop_first(), cur.push(s[0]), acc);
    }
}

proof fn lemma_scan_state_append(a: Seq<char>, b: Seq<char>, cur: Seq<char>, acc: Seq<Seq<char>>)
    ensures
        scan_state(a + b, cur, acc) == scan_state(
            b,
            scan_state(a, cur, acc).0,
            scan_state(a, cur, acc).1,
        ),
    decreases a.len(),
{
    if a.len() == 0 {
        assert(a + b =~= b);
    } else {
        assert((a + b)[0] == a[0]);
        assert((a + b).drop_first() =~= a.drop_first() + b);
        if a[0] == '|' {
            lemma_scan_state_append(a.drop_first(), b, Seq::empty(), push_tag(acc, cur));
        } else {
            lemma_scan_state_append(a.drop_first(), b, cur.push(a[0]), acc);
        }
    }
}

proof fn lemma_scan_state_no_bar(t: Seq<char>, cur: Seq<char>, acc: Seq<Seq<char>>)
    requires
        forall|i: int| 0 <= i < t.len() ==> t[i] != '|',
    ensures
        scan_state(t, cur, acc) == (cur + t, acc),
    decreases t.len(),
{
    if t.len() == 0 {
        assert(cur + t =~= cur);
    } else {
        lemma_scan_state_no_bar(t.drop_first(), cur.push(t[0]), acc);
        assert(cur.push(t[0]) + t.drop_first() =~= cur + t);
    }
}

/// A token standing anywhere after `cats` whose value `cats` already
/// produced contributes nothing: the expansion with the token dropped is the
/// same, so values keep the position of their first occurrence no matter
/// where a duplicate stands.
pub proof fn lemma_duplicate_token_collapses_within(
    cats: Seq<char>,
    tok: Seq<char>,
    rest: Seq<char>,
)
    requires
        forall|i: int| 0 <= i < tok.len() ==> tok[i] != '|',
        match token_value(tok) {
            Some(v) => tags_of(cats).contains(v),
            None => true,
        },
    ensures
        tags_of(cats + seq!['|'] + tok + seq!['|'] + rest) == tags_of(cats + seq!['|'] + rest),
{
    let s0 = scan_state(cats, Seq::empty(), Seq::empty());
    lemma_tags_scan_flush(cats, Seq::empty(), Seq::empty());
    let a = push_tag(s0.1, s0.0);
    assert(seq!['|'][0] == '|');
    assert(seq!['|'].drop_first() =~= Seq::<char>::empty());
    lemma_scan_state_append(cats + seq!['|'] + tok + seq!['|'], rest, Seq::empty(), Seq::empty());
    lemma_scan_state_append(cats + seq!['|'] + tok, seq!['|'], Seq::empty(), Seq::empty());
    lemma_scan_state_append(cats + seq!['|'], tok, Seq::empty(), Seq::empty());
    lemma_scan_state_append(cats, seq!['|'], Seq::empty(), Seq::empty());
    assert(scan_state(seq!['|'], s0.0, s0.1) == scan_state(
        Seq::<char>::empty(),
        Seq::<char>::empty(),
        a,
    ));
    lemma_scan_state_no_bar(tok, Seq::empty(), a);
    assert(Seq::<char>::empty() + tok =~= tok);
    assert(scan_state(seq!['|'], tok, a) == scan_state(
        Seq::<char>::empty(),
        Seq::<char>::empty(),
        push_tag(a, tok),
    ));
    assert(push_tag(a, tok) == a);
    lemma_scan_state_append(cats + seq!['|'], rest, Seq::empty(), Seq::empty());
    lemma_tags_scan_flush(cats + seq!['|'] + tok + seq!['|'] + rest, Seq::empty(), Seq::empty());
    lemma_tags_scan_flush(cats + seq!['|'] + rest, Seq::empty(), Seq::empty());
}

/// Duplicate tokens collapse: appending one more `kind-value` token whose
/// value the expansion already holds leaves the expansion unchanged.
pub proof fn lemma_duplicate_token_collapses(cats: Seq<char>, tok: Seq<char>)
    requires
        forall|i: int| 0 <= i < tok.len() ==> tok[i] != '|',
        match token_value(tok) {
            Some(v) => tags_of(cats).contains(v),
            None => true,
        },
    ensures
        tags_of(cats + seq!['|'] + tok) == tags_of(cats),
{
    let whole = cats + seq!['|'] + tok;
    let s0 = scan_state(cats, Seq::empty(), Seq::empty());
    lemma_scan_state_append(cats + seq!['|'], tok, Seq::empty(), Seq::empty());
    lemma_scan_state_append(cats, seq!['|'], Seq::empty(), Seq::empty());
    assert(seq!['|'][0] == '|');
    assert(seq!['|'].drop_first() =~= Seq::<char>::empty());
    assert(scan_state(seq!['|'], s0.0, s0.1) == scan_state(
        Seq::<char>::empty(),
        Seq::<char>::empty(),
        push_tag(s0.1, s0.0),
    ));
    assert(scan_state(cats + seq!['|'], Seq::empty(), Seq::empty()) == (
        Seq::<char>::empty(),
        push_tag(s0.1, s0.0),
    ));
    lemma_tags_scan_flush(cats, Seq::empty(), Seq::empty());
    lemma_scan_state_no_bar(tok, Seq::empty(), push_tag(s0.1, s0.0));
    assert(Seq::<char>::empty() + tok =~= tok);
    lemma_tags_scan_flush(whole, Seq::empty(), Seq::empty());
    assert(tags_of(whole) == push_tag(tags_of(cats), tok));
}

} // verus!
