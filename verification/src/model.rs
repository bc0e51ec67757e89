//! The rows the store holds and the nested records the API returns.
//!
//! A [`Dataset`] is one read-only snapshot of the three tables: primary news
//! rows, keyword rows and image rows. Every query is a fresh computation over
//! such a snapshot; the library holds no state between requests.

use vstd::prelude::*;

verus! {

/// One news item as the primary table stores it.
pub struct PrimaryRow {
    /// Unique key assigned by the store; the stable sort key within a day.
    pub id: i64,
    /// The news text, when present.
    pub news: Option<String>,
    /// ISO-like date string `yyyy-mm-dd...`, when present.
    pub date: Option<String>,
    /// Optional foreign key into the keyword table.
    pub serpapi_id: Option<i64>,
    /// Optional foreign key into the image table.
    pub image_id: Option<i64>,
}

/// One row of the keyword table, looked up through `PrimaryRow::serpapi_id`.
pub struct KeywordRow {
    /// Key the primary rows reference.
    pub id: i64,
    /// The resolved keyword text, when present.
    pub query: Option<String>,
    /// Delimited category encoding: `kind-value` tokens separated by `|`.
    pub categories: Option<String>,
}

/// One row of the image table, looked up through `PrimaryRow::image_id`.
pub struct ImageRow {
    /// Key the primary rows reference.
    pub id: i64,
    /// Media file name, conventionally `prefix_group...`.
    pub file_name: Option<String>,
}

/// A read-only snapshot of the store, handed in by the caller.
pub struct Dataset {
    /// The primary news rows, in any order.
    pub rows: Vec<PrimaryRow>,
    /// The keyword rows.
    pub keywords: Vec<KeywordRow>,
    /// The image rows.
    pub images: Vec<ImageRow>,
}

/// The nested image object of an enriched record.
pub struct ImageInfo {
    /// The stored file name, when the image row has one.
    pub file_name: Option<String>,
    /// The synthesized media URL; present exactly when the file name is.
    pub url: Option<String>,
}

/// One enriched record: the primary fields plus the resolved keyword text,
/// the image object and the deduplicated tags.
pub struct NewsRecord {
    /// Copied from the primary row.
    pub id: i64,
    /// Copied from the primary row.
    pub news: Option<String>,
    /// Copied from the primary row.
    pub date: Option<String>,
    /// Copied from the primary row.
    pub serpapi_id: Option<i64>,
    /// Copied from the primary row.
    pub image_id: Option<i64>,
    /// The referenced keyword row's `query`, or absent.
    pub keywords: Option<String>,
    /// The referenced image row as an object, or absent.
    pub image: Option<ImageInfo>,
    /// Deduplicated category values, in first-occurrence order.
    pub tag: Vec<String>,
}

/// The response for the latest-day and by-date queries.
pub struct LatestResponse {
    /// The day the records belong to, `yyyy-mm-dd`; absent when the store
    /// holds no dated row at all.
    pub date: Option<String>,
    /// The enriched records of that day, ascending by `id`.
    pub records: Vec<NewsRecord>,
}

/// One entry of the all-dates listing.
pub struct DateResponse {
    /// A day in compact `yyyymmdd` form.
    pub date: String,
    /// Browse URL for that day: `{domain}/date/{day}`.
    pub date_with_url: String,
}

/// The primary fields of an enriched record, read back as a row.
pub open spec fn primary_of(rec: NewsRecord) -> PrimaryRow {
    PrimaryRow {
        id: rec.id,
        news: rec.news,
        date: rec.date,
        serpapi_id: rec.serpapi_id,
        image_id: rec.image_id,
    }
}

/// Copies an optional string, preserving its value exactly.
pub fn clone_opt_string(s: &Option<String>) -> (r: Option<String>)
    ensures
        r == *s,
{
    match s {
        Some(x) => Some(x.clone()),
        None => None,
    }
}

impl PrimaryRow {
    /// An exact copy of the row.
    pub fn duplicate(&self) -> (r: Self)
        ensures
            r == *self,
    {
        PrimaryRow {
            id: self.id,
            news: clone_opt_string(&self.news),
            date: clone_opt_string(&self.date),
            serpapi_id: self.serpapi_id,
            image_id: self.image_id,
        }
    }
}

} // verus!
