use trend_story::assemble::assemble_records;
use trend_story::assemble::enrich_row;
use trend_story::errors::ApiError;
use trend_story::model::Dataset;
use trend_story::model::ImageRow;
use trend_story::model::KeywordRow;
use trend_story::model::PrimaryRow;
use trend_story::planner::plan_all_dates;
use trend_story::planner::plan_by_date;
use trend_story::planner::plan_latest;

const DOMAIN: &str = "https://trending.oopus.info";

fn row(id: i64, date: Option<&str>, serpapi_id: Option<i64>, image_id: Option<i64>) -> PrimaryRow {
    PrimaryRow {
        id,
        news: Some(format!("news {}", id)),
        date: date.map(|d| d.to_string()),
        serpapi_id,
        image_id,
    }
}

fn keyword(id: i64, query: Option<&str>, categories: Option<&str>) -> KeywordRow {
    KeywordRow {
        id,
        query: query.map(|q| q.to_string()),
        categories: categories.map(|c| c.to_string()),
    }
}

fn image(id: i64, file_name: Option<&str>) -> ImageRow {
    ImageRow { id, file_name: file_name.map(|f| f.to_string()) }
}

fn sample_dataset() -> Dataset {
    Dataset {
        rows: vec![
            row(3, Some("2024-01-15"), Some(10), None),
            row(1, Some("2024-01-15T08:30:00"), Some(11), Some(20)),
            row(2, Some("2024-01-14"), None, None),
            row(4, Some("2024-01-15"), None, Some(21)),
            row(5, None, None, None),
        ],
        keywords: vec![
            keyword(10, Some("storm"), Some("a-X|b-X|c-Y")),
            keyword(11, None, Some("noseparator|  -  |c-Z")),
        ],
        images: vec![image(20, Some("photo_nyc_001.jpg")), image(21, None)],
    }
}

#[test]
fn latest_orders_records_by_ascending_id() {
    let ds = sample_dataset();
    let resp = plan_latest(&ds, DOMAIN);
    assert_eq!(resp.date, Some("2024-01-15".to_string()));
    let ids: Vec<i64> = resp.records.iter().map(|r| r.id).collect();
    assert_eq!(ids, vec![1, 3, 4]);
}

#[test]
fn latest_enriches_each_record() {
    let ds = sample_dataset();
    let resp = plan_latest(&ds, DOMAIN);
    let r1 = &resp.records[0];
    assert_eq!(r1.id, 1);
    assert_eq!(r1.news, Some("news 1".to_string()));
    assert_eq!(r1.date, Some("2024-01-15T08:30:00".to_string()));
    assert_eq!(r1.serpapi_id, Some(11));
    assert_eq!(r1.image_id, Some(20));
    assert_eq!(r1.keywords, None);
    assert_eq!(r1.tag, vec!["Z".to_string()]);
    let info = r1.image.as_ref().expect("image object");
    assert_eq!(info.file_name, Some("photo_nyc_001.jpg".to_string()));
    assert_eq!(
        info.url,
        Some("https://trending.oopus.info/images/nyc/photo_nyc_001.jpg".to_string())
    );

    let r3 = &resp.records[1];
    assert_eq!(r3.keywords, Some("storm".to_string()));
    assert_eq!(r3.tag, vec!["X".to_string(), "Y".to_string()]);
    assert!(r3.image.is_none());

    let r4 = &resp.records[2];
    assert_eq!(r4.keywords, None);
    assert!(r4.tag.is_empty());
    let info4 = r4.image.as_ref().expect("image object with absent file name");
    assert_eq!(info4.file_name, None);
    assert_eq!(info4.url, None);
}

#[test]
fn latest_with_empty_store_is_successful_empty() {
    let ds = Dataset { rows: Vec::new(), keywords: Vec::new(), images: Vec::new() };
    let resp = plan_latest(&ds, DOMAIN);
    assert_eq!(resp.date, None);
    assert!(resp.records.is_empty());
}

#[test]
fn by_date_rejects_short_parameter() {
    let ds = sample_dataset();
    assert!(matches!(plan_by_date(&ds, "2024011", DOMAIN), Err(ApiError::InvalidDateFormat)));
}

#[test]
fn by_date_rejects_non_digit_parameter() {
    let ds = sample_dataset();
    assert!(matches!(plan_by_date(&ds, "2024xy11", DOMAIN), Err(ApiError::InvalidDateFormat)));
}

#[test]
fn by_date_targets_reformatted_day() {
    let ds = sample_dataset();
    let resp = plan_by_date(&ds, "20240115", DOMAIN).expect("rows exist for the day");
    assert_eq!(resp.date, Some("2024-01-15".to_string()));
    let ids: Vec<i64> = resp.records.iter().map(|r| r.id).collect();
    assert_eq!(ids, vec![1, 3, 4]);
}

#[test]
fn by_date_without_rows_is_not_found() {
    let ds = sample_dataset();
    assert!(matches!(plan_by_date(&ds, "20230101", DOMAIN), Err(ApiError::NoDataFound)));
}

#[test]
fn by_date_groups_by_truncated_day() {
    let ds = sample_dataset();
    let resp = plan_by_date(&ds, "20240114", DOMAIN).expect("one row on the day");
    let ids: Vec<i64> = resp.records.iter().map(|r| r.id).collect();
    assert_eq!(ids, vec![2]);
}

#[test]
fn all_dates_lists_first_occurrences_with_urls() {
    let ds = sample_dataset();
    let entries = plan_all_dates(&ds, DOMAIN);
    let days: Vec<String> = entries.iter().map(|e| e.date.clone()).collect();
    assert_eq!(days, vec!["20240115".to_string(), "20240114".to_string()]);
    assert_eq!(
        entries[0].date_with_url,
        "https://trending.oopus.info/date/20240115".to_string()
    );
    assert_eq!(
        entries[1].date_with_url,
        "https://trending.oopus.info/date/20240114".to_string()
    );
}

#[test]
fn all_dates_of_empty_store_is_empty() {
    let ds = Dataset { rows: Vec::new(), keywords: Vec::new(), images: Vec::new() };
    assert!(plan_all_dates(&ds, DOMAIN).is_empty());
}

#[test]
fn bare_row_yields_absent_fields() {
    let r = row(7, Some("2024-02-02"), None, None);
    let rec = enrich_row(&r, &Vec::new(), &Vec::new(), DOMAIN);
    assert_eq!(rec.id, 7);
    assert_eq!(rec.keywords, None);
    assert!(rec.image.is_none());
    assert!(rec.tag.is_empty());
}

#[test]
fn dangling_references_degrade_to_absent() {
    let r = row(8, Some("2024-02-02"), Some(99), Some(98));
    let rec = enrich_row(&r, &vec![keyword(1, Some("q"), None)], &vec![image(2, None)], DOMAIN);
    assert_eq!(rec.keywords, None);
    assert!(rec.tag.is_empty());
    assert!(rec.image.is_none());
}

#[test]
fn first_matching_keyword_row_wins() {
    let r = row(9, Some("2024-02-02"), Some(5), None);
    let ks = vec![keyword(5, Some("first"), None), keyword(5, Some("second"), None)];
    let rec = enrich_row(&r, &ks, &Vec::new(), DOMAIN);
    assert_eq!(rec.keywords, Some("first".to_string()));
}

#[test]
fn assemble_preserves_given_order_and_length() {
    let rows = vec![row(2, None, None, None), row(1, None, None, None)];
    let recs = assemble_records(&rows, &Vec::new(), &Vec::new(), DOMAIN);
    assert_eq!(recs.len(), 2);
    assert_eq!(recs[0].id, 2);
    assert_eq!(recs[1].id, 1);
}
