//! Record assembly: resolving a primary row's optional keyword and image
//! references into one enriched record.
//!
//! Lookup misses are never errors: a dangling reference only leaves the
//! derived field absent. The keyword reference contributes the resolved
//! `query` text and the expanded tags; the image reference contributes the
//! file name and the synthesized media URL.

use vstd::prelude::*;

use crate::days::day_of;
use crate::days::day_of_str;
use crate::media::make_image_url;
use crate::media::media_url;
use crate::model::ImageInfo;
use crate::model::ImageRow;
use crate::model::KeywordRow;
use crate::model::NewsRecord;
use crate::model::PrimaryRow;
use crate::model::clone_opt_string;
use crate::tags::extract_tags;
use crate::tags::tags_of;

verus! {

/// The first keyword row carrying `id`, as the store's lookup returns it.
pub open spec fn keyword_at(ks: Seq<KeywordRow>, id: i64) -> Option<KeywordRow>
    decreases ks.len(),
{
    if ks.len() == 0 {
        None
    } else if ks[0].id == id {
        Some(ks[0])
    } else {
        keyword_at(ks.drop_first(), id)
    }
}

/// The first image row carrying `id`, as the store's lookup returns it.
pub open spec fn image_at(imgs: Seq<ImageRow>, id: i64) -> Option<ImageRow>
    decreases imgs.len(),
{
    if imgs.len() == 0 {
        None
    } else if imgs[0].id == id {
        Some(imgs[0])
    } else {
        image_at(imgs.drop_first(), id)
    }
}

/// Executable counterpart of [`keyword_at`].
fn find_keyword<'a>(ks: &'a Vec<KeywordRow>, id: i64) -> (r: Option<&'a KeywordRow>)
    ensures
        match r {
            Some(k) => keyword_at(ks@, id) == Some(*k),
            None => keyword_at(ks@, id) is None,
        },
{
    let n = ks.len();
    let mut j: usize = 0;
    proof {
        assert(ks@.skip(0) =~= ks@);
    }
    while j < n
        invariant
            0 <= j <= n,
            n == ks@.len(),
            keyword_at(ks@, id) == keyword_at(ks@.skip(j as int), id),
        decreases n - j,
    {
        proof {
            assert(ks@.skip(j as int)[0] == ks@[j as int]);
            assert(ks@.skip(j as int).drop_first() =~= ks@.skip(j + 1));
        }
        if ks[j].id == id {
            return Some(&ks[j]);
        }
        j = j + 1;
    }
    None
}

/// Executable counterpart of [`image_at`].
fn find_image<'a>(imgs: &'a Vec<ImageRow>, id: i64) -> (r: Option<&'a ImageRow>)
    ensures
        match r {
            Some(img) => image_at(imgs@, id) == Some(*img),
            None => image_at(imgs@, id) is None,
        },
{
    let n = imgs.len();
    let mut j: usize = 0;
    proof {
        assert(imgs@.skip(0) =~= imgs@);
    }
    while j < n
        invariant
            0 <= j <= n,
            n == imgs@.len(),
            image_at(imgs@, id) == image_at(imgs@.skip(j as int), id),
        decreases n - j,
    {
        proof {
            assert(imgs@.skip(j as int)[0] == imgs@[j as int]);
            assert(imgs@.skip(j as int).drop_first() =~= imgs@.skip(j + 1));
        }
        if imgs[j].id == id {
            return Some(&imgs[j]);
        }
        j = j + 1;
    }
    None
}

/// The `keywords` field owed to `row`: the referenced keyword row's `query`,
/// or absent when the reference is absent or dangles.
pub open spec fn keywords_for(row: PrimaryRow, ks: Seq<KeywordRow>) -> Option<String> {
    match row.serpapi_id {
        None => None,
        Some(sid) => match keyword_at(ks, sid) {
            None => None,
            Some(k) => k.query,
        },
    }
}

/// The tag values owed to `row`: the expansion of the referenced keyword
/// row's categories, or empty when anything along the way is absent.
pub open spec fn tags_for(row: PrimaryRow, ks: Seq<KeywordRow>) -> Seq<Seq<char>> {
    match row.serpapi_id {
        None => Seq::empty(),
        Some(sid) => match keyword_at(ks, sid) {
            None => Seq::empty(),
            Some(k) => match k.categories {
                None => Seq::empty(),
                Some(c) => tags_of(c@),
            },
        },
    }
}

/// The `image` field owed to `row`: absent when the reference is absent or
/// dangles; otherwise the row's file name together with the URL synthesized
/// from it, the URL present exactly when the file name is.
pub open spec fn image_ok(
    field: Option<ImageInfo>,
    row: PrimaryRow,
    imgs: Seq<ImageRow>,
    domain: Seq<char>,
) -> bool {
    match row.image_id {
        None => field is None,
        Some(iid) => match image_at(imgs, iid) {
            None => field is None,
            Some(img) => match field {
                None => false,
                Some(info) => {
                    &&& info.file_name == img.file_name
                    &&& match img.file_name {
                        None => info.url is None,
                        Some(f) => match info.url {
                            Some(u) => u@ == media_url(domain, f@),
                            None => false,
                        },
                    }
                },
            },
        },
    }
}

/// Everything enrichment promises of one record built from `row`: the
/// primary fields preserved, and each derived field as the references
/// determine it.
pub open spec fn record_for(
    rec: NewsRecord,
    row: PrimaryRow,
    ks: Seq<KeywordRow>,
    imgs: Seq<ImageRow>,
    domain: Seq<char>,
) -> bool {
    &&& rec.id == row.id
    &&& rec.news == row.news
    &&& rec.date == row.date
    &&& rec.serpapi_id == row.serpapi_id
    &&& rec.image_id == row.image_id
    &&& rec.keywords == keywords_for(row, ks)
    &&& image_ok(rec.image, row, imgs, domain)
    &&& rec.tag.deep_view() == tags_for(row, ks)
}

/// Enriches one primary row against the keyword and image tables.
pub fn enrich_row(
    row: &PrimaryRow,
    keywords: &Vec<KeywordRow>,
    images: &Vec<ImageRow>,
    domain: &str,
) -> (rec: NewsRecord)
    ensures
        record_for(rec, *row, keywords@, images@, domain@),
{
    let mut kw: Option<String> = None;
    let mut tag: Vec<String> = Vec::new();
    proof {
        assert(tag.deep_view() =~= Seq::<Seq<char>>::empty());
    }
    match row.serpapi_id {
        None => {},
        Some(sid) => {
            match find_keyword(keywords, sid) {
                None => {},
                Some(k) => {
                    kw = clone_opt_string(&k.query);
                    match &k.categories {
                        None => {},
                        Some(c) => {
                            tag = extract_tags(c.as_str());
                        },
                    }
                },
            }
        },
    }
    let mut image: Option<ImageInfo> = None;
    match row.image_id {
        None => {},
        Some(iid) => {
            match find_image(images, iid) {
                None => {},
                Some(img) => {
                    let file_name = clone_opt_string(&img.file_name);
                    let url = match &img.file_name {
                        None => None,
                        Some(f) => Some(make_image_url(domain, f.as_str())),
                    };
                    image = Some(ImageInfo { file_name, url });
                },
            }
        },
    }
    NewsRecord {
        id: row.id,
        news: clone_opt_string(&row.news),
        date: clone_opt_string(&row.date),
        serpapi_id: row.serpapi_id,
        image_id: row.image_id,
        keywords: kw,
        image,
        tag,
    }
}

/// Enriches every row, in the order given.
pub fn assemble_records(
    rows: &Vec<PrimaryRow>,
    keywords: &Vec<KeywordRow>,
    images: &Vec<ImageRow>,
    domain: &str,
) -> (r: Vec<NewsRecord>)
    ensures
        r@.len() == rows@.len(),
        forall|i: int|
            0 <= i < rows@.len() ==> record_for(
                #[trigger] r@[i],
                rows@[i],
                keywords@,
                images@,
                domain@,
            ),
{
    let n = rows.len();
    let mut out: Vec<NewsRecord> = Vec::new();
    let mut i: usize = 0;
    while i < n
        invariant
            0 <= i <= n,
            n == rows@.len(),
            out@.len() == i,
            forall|t: int|
                0 <= t < i ==> record_for(#[trigger] out@[t], rows@[t], keywords@, images@, domain@),
        decreases n - i,
    {
        let rec = enrich_row(&rows[i], keywords, images, domain);
        out.push(rec);
        i = i + 1;
    }
    out
}

/// A row with neither reference yields absent keywords, an absent image
/// and no tags - never an error.
pub proof fn lemma_bare_row(
    rec: NewsRecord,
    row: PrimaryRow,
    ks: Seq<KeywordRow>,
    imgs: Seq<ImageRow>,
    domain: Seq<char>,
)
    requires
        record_for(rec, row, ks, imgs, domain),
        row.serpapi_id is None,
        row.image_id is None,
    ensures
        rec.keywords is None,
        rec.image is None,
        rec.tag.deep_view() == Seq::<Seq<char>>::empty(),
{
}

/// Whether `row` carries a date and that date falls on `day`.
pub open spec fn on_day(row: PrimaryRow, day: Seq<char>) -> bool {
    match row.date {
        Some(d) => day_of(d@) == day,
        None => false,
    }
}

/// The rows of `rows` that fall on `day`, in the order given.
pub open spec fn rows_on_day(rows: Seq<PrimaryRow>, day: Seq<char>) -> Seq<PrimaryRow>
    decreases rows.len(),
{
    if rows.len() == 0 {
        Seq::empty()
    } else {
        let rest = rows_on_day(rows.drop_last(), day);
        if on_day(rows.last(), day) {
            rest.push(rows.last())
        } else {
            rest
        }
    }
}

/// Executable counterpart of [`rows_on_day`].
pub fn filter_rows_on_day(rows: &Vec<PrimaryRow>, day: &String) -> (r: Vec<PrimaryRow>)
    ensures
        r@ == rows_on_day(rows@, day@),
{
    let n = rows.len();
    let mut out: Vec<PrimaryRow> = Vec::new();
    let mut i: usize = 0;
    proof {
        assert(rows@.take(0) =~= Seq::<PrimaryRow>::empty());
        assert(rows_on_day(Seq::<PrimaryRow>::empty(), day@) =~= Seq::<PrimaryRow>::empty());
    }
    while i < n
        invariant
            0 <= i <= n,
            n == rows@.len(),
            out@ == rows_on_day(rows@.take(i as int), day@),
        decreases n - i,
    {
        proof {
            assert(rows@.take(i + 1).drop_last() =~= rows@.take(i as int));
            assert(rows@.take(i + 1).last() == rows@[i as int]);
        }
        let keep = match &rows[i].date {
            Some(d) => {
                let dd = day_of_str(d.as_str());
                dd == *day
            },
            None => false,
        };
        if keep {
            out.push(rows[i].duplicate());
        }
        i = i + 1;
    }
    proof {
        assert(rows@.take(n as int) =~= rows@);
    }
    out
}

} // verus!
