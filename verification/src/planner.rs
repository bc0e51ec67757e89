//! The query planner: each request intent mapped to its response.
//!
//! Three read shapes exist. The latest-day query resolves the greatest date
//! and returns that day's rows, an empty table being a valid empty result.
//! The by-date query validates an eight-digit `yyyymmdd` parameter, and a
//! valid day with no rows is an error, unlike the latest-day path. The
//! all-dates query lists every distinct day with a browse URL.

use vstd::prelude::*;

use crate::assemble::assemble_records;
use crate::assemble::filter_rows_on_day;
use crate::assemble::record_for;
use crate::assemble::rows_on_day;
use crate::days::day_of;
use crate::days::distinct_days;
use crate::days::list_distinct_days;
use crate::days::is_latest_date;
use crate::days::resolve_latest_day;
use crate::errors::ApiError;
use crate::model::Dataset;
use crate::model::DateResponse;
use crate::model::ImageRow;
use crate::model::KeywordRow;
use crate::model::LatestResponse;
use crate::model::NewsRecord;
use crate::model::PrimaryRow;
use crate::sort::lemma_sort_rows_ensures;
use crate::sort::sort_rows;
use crate::sort::sort_rows_by_id;
use crate::text::spec_is_digit;
use crate::text::is_digit_char;

verus! {

/// A well-formed date parameter: exactly eight decimal digits.
pub open spec fn valid_date_param(s: Seq<char>) -> bool {
    s.len() == 8 && forall|i: int| 0 <= i < s.len() ==> spec_is_digit(#[trigger] s[i])
}

/// An eight-digit `yyyymmdd` parameter reformatted as `yyyy-mm-dd`.
pub open spec fn formatted_day(s: Seq<char>) -> Seq<char> {
    s.subrange(0, 4) + seq!['-'] + s.subrange(4, 6) + seq!['-'] + s.subrange(6, 8)
}

/// Validates a date parameter and reformats it to `yyyy-mm-dd`.
pub fn format_date_param(input: &str) -> (r: Result<String, ApiError>)
    ensures
        match r {
            Ok(day) => valid_date_param(input@) && day@ == formatted_day(input@),
            Err(e) => e == ApiError::InvalidDateFormat && !valid_date_param(input@),
        },
{
    let n = input.unicode_len();
    if n != 8 {
        return Err(ApiError::InvalidDateFormat);
    }
    let mut i: usize = 0;
    while i < 8
        invariant
            0 <= i <= 8,
            input@.len() == 8,
            forall|j: int| 0 <= j < i ==> spec_is_digit(#[trigger] input@[j]),
        decreases 8 - i,
    {
        if !is_digit_char(input.get_char(i)) {
            return Err(ApiError::InvalidDateFormat);
        }
        i = i + 1;
    }
    let mut out = input.substring_char(0, 4).to_owned();
    out.append("-");
    out.append(input.substring_char(4, 6));
    out.append("-");
    out.append(input.substring_char(6, 8));
    proof {
        reveal_strlit("-");
        assert(out@ =~= formatted_day(input@));
    }
    Ok(out)
}

/// The records owed for `sel`, the selected rows in their final order: one
/// enriched record per row, in the same order.
pub open spec fn good_records(
    recs: Seq<NewsRecord>,
    sel: Seq<PrimaryRow>,
    ks: Seq<KeywordRow>,
    imgs: Seq<ImageRow>,
    domain: Seq<char>,
) -> bool {
    &&& recs.len() == sel.len()
    &&& forall|i: int| 0 <= i < recs.len() ==> record_for(#[trigger] recs[i], sel[i], ks, imgs, domain)
}

/// The rows of the dataset that fall on `day`, in ascending `id` order.
pub open spec fn day_selection(ds: Dataset, day: Seq<char>) -> Seq<PrimaryRow> {
    sort_rows(rows_on_day(ds.rows@, day))
}

/// A day's selection is the day's rows, none lost and none invented, in
/// ascending `id` order.
pub proof fn lemma_day_selection_sorted(ds: Dataset, day: Seq<char>)
    ensures
        crate::sort::sorted_by_id(day_selection(ds, day)),
        day_selection(ds, day).to_multiset() == rows_on_day(ds.rows@, day).to_multiset(),
        day_selection(ds, day).len() == rows_on_day(ds.rows@, day).len(),
{
    lemma_sort_rows_ensures(rows_on_day(ds.rows@, day));
}

/// Response records keep ascending `id` order whenever their selection
/// does, whatever order the per-row lookups resolved in.
pub proof fn lemma_records_sorted(
    recs: Seq<NewsRecord>,
    sel: Seq<PrimaryRow>,
    ks: Seq<KeywordRow>,
    imgs: Seq<ImageRow>,
    domain: Seq<char>,
)
    requires
        good_records(recs, sel, ks, imgs, domain),
        crate::sort::sorted_by_id(sel),
    ensures
        forall|i: int, j: int| 0 <= i < j < recs.len() ==> recs[i].id <= recs[j].id,
{
    assert forall|i: int, j: int| 0 <= i < j < recs.len() implies recs[i].id <= recs[j].id by {
        assert(record_for(recs[i], sel[i], ks, imgs, domain));
        assert(record_for(recs[j], sel[j], ks, imgs, domain));
    }
}

/// Selects and enriches the rows of one day.
fn records_of_day(ds: &Dataset, day: &String, domain: &str) -> (r: Vec<NewsRecord>)
    ensures
        good_records(r@, day_selection(*ds, day@), ds.keywords@, ds.images@, domain@),
        r@.len() == rows_on_day(ds.rows@, day@).len(),
{
    let filtered = filter_rows_on_day(&ds.rows, day);
    proof {
        lemma_sort_rows_ensures(filtered@);
    }
    let sorted = sort_rows_by_id(&filtered);
    assemble_records(&sorted, &ds.keywords, &ds.images, domain)
}

/// The latest-day query: the records of the greatest day in the store, or a
/// successful empty response when no row carries a date.
pub fn plan_latest(ds: &Dataset, domain: &str) -> (resp: LatestResponse)
    ensures
        match resp.date {
            None => {
                &&& forall|i: int| 0 <= i < ds.rows@.len() ==> (#[trigger] ds.rows@[i].date) is None
                &&& resp.records@.len() == 0
            },
            Some(day) => {
                &&& exists|d: Seq<char>| is_latest_date(ds.rows@, d) && day@ == day_of(d)
                &&& good_records(
                    resp.records@,
                    day_selection(*ds, day@),
                    ds.keywords@,
                    ds.images@,
                    domain@,
                )
                &&& resp.records@.len() == rows_on_day(ds.rows@, day@).len()
            },
        },
        (resp.date is Some) <==> exists|i: int|
            0 <= i < ds.rows@.len() && (#[trigger] ds.rows@[i].date) is Some,
{
    match resolve_latest_day(&ds.rows) {
        None => LatestResponse { date: None, records: Vec::new() },
        Some(day) => {
            let records = records_of_day(ds, &day, domain);
            LatestResponse { date: Some(day), records }
        },
    }
}

/// The by-date query: validates the eight-digit parameter, and returns that
/// day's records; a malformed parameter or a day with no rows is an error.
pub fn plan_by_date(ds: &Dataset, input: &str, domain: &str) -> (r: Result<
    LatestResponse,
    ApiError,
>)
    ensures
        match r {
            Ok(resp) => {
                &&& valid_date_param(input@)
                &&& resp.date matches Some(d) && d@ == formatted_day(input@)
                &&& good_records(
                    resp.records@,
                    day_selection(*ds, formatted_day(input@)),
                    ds.keywords@,
                    ds.images@,
                    domain@,
                )
                &&& resp.records@.len() > 0
            },
            Err(e) => match e {
                ApiError::InvalidDateFormat => !valid_date_param(input@),
                ApiError::NoDataFound => valid_date_param(input@) && rows_on_day(
                    ds.rows@,
                    formatted_day(input@),
                ).len() == 0,
                _ => false,
            },
        },
{
    let day = match format_date_param(input) {
        Err(e) => {
            return Err(e);
        },
        Ok(d) => d,
    };
    let records = records_of_day(ds, &day, domain);
    if records.is_empty() {
        return Err(ApiError::NoDataFound);
    }
    Ok(LatestResponse { date: Some(day), records })
}

/// The all-dates query: every distinct day of the store in compact
/// `yyyymmdd` form, first occurrences in ascending `id` order, each paired
/// with its browse URL `{domain}/date/{day}`.
pub fn plan_all_dates(ds: &Dataset, domain: &str) -> (r: Vec<DateResponse>)
    ensures
        ({
            let days = distinct_days(sort_rows(ds.rows@));
            &&& r@.len() == days.len()
            &&& forall|i: int|
                0 <= i < days.len() ==> (#[trigger] r@[i]).date@ == days[i] && r@[i].date_with_url@
                    == domain@ + "/date/"@ + days[i]
        }),
{
    let sorted = sort_rows_by_id(&ds.rows);
    let days = list_distinct_days(&sorted);
    let n = days.len();
    let mut out: Vec<DateResponse> = Vec::new();
    let mut i: usize = 0;
    while i < n
        invariant
            0 <= i <= n,
            n == days@.len(),
            days.deep_view() == distinct_days(sort_rows(ds.rows@)),
            out@.len() == i,
            forall|t: int|
                0 <= t < i ==> (#[trigger] out@[t]).date@ == days.deep_view()[t]
                    && out@[t].date_with_url@ == domain@ + "/date/"@ + days.deep_view()[t],
        decreases n - i,
    {
        let d = days[i].clone();
        let mut url = domain.to_owned();
        url.append("/date/");
        url.append(d.as_str());
        proof {
            assert(days.deep_view()[i as int] == days@[i as int]@);
        }
        out.push(DateResponse { date: d, date_with_url: url });
        i = i + 1;
    }
    out
}

} // verus!
