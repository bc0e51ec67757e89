use trend_story::days::compact_of_str;
use trend_story::days::day_of_str;
use trend_story::days::list_distinct_days;
use trend_story::days::resolve_latest_day;
use trend_story::errors::ApiError;
use trend_story::media::make_image_url;
use trend_story::model::PrimaryRow;
use trend_story::planner::format_date_param;
use trend_story::tags::extract_tags;
use trend_story::text::str_less;
use trend_story::text::trim_str;

fn row(id: i64, date: Option<&str>) -> PrimaryRow {
    PrimaryRow {
        id,
        news: None,
        date: date.map(|d| d.to_string()),
        serpapi_id: None,
        image_id: None,
    }
}

#[test]
fn tags_duplicate_values_collapse() {
    let tags = extract_tags("a-X|b-X|c-Y");
    assert_eq!(tags, vec!["X".to_string(), "Y".to_string()]);
}

#[test]
fn tags_malformed_tokens_dropped() {
    let tags = extract_tags("noseparator|  -  |c-Z");
    assert_eq!(tags, vec!["Z".to_string()]);
}

#[test]
fn tags_empty_and_blank_categories() {
    assert_eq!(extract_tags(""), Vec::<String>::new());
    assert_eq!(extract_tags("   "), Vec::<String>::new());
    assert_eq!(extract_tags("|||"), Vec::<String>::new());
}

#[test]
fn tags_values_are_trimmed() {
    assert_eq!(extract_tags("a-  X  |b-\tY"), vec!["X".to_string(), "Y".to_string()]);
}

#[test]
fn tags_empty_kind_is_kept_blank_value_dropped() {
    assert_eq!(extract_tags("-X|b- "), vec!["X".to_string()]);
}

#[test]
fn tags_value_may_hold_separator() {
    assert_eq!(extract_tags("kind-a-b"), vec!["a-b".to_string()]);
}

#[test]
fn trim_removes_surrounding_whitespace() {
    assert_eq!(trim_str("  x y\t"), "x y".to_string());
    assert_eq!(trim_str("   "), String::new());
    assert_eq!(trim_str("xy"), "xy".to_string());
}

#[test]
fn image_url_with_group() {
    let url = make_image_url("https://trending.oopus.info", "photo_nyc_001.jpg");
    assert_eq!(url, "https://trending.oopus.info/images/nyc/photo_nyc_001.jpg".to_string());
}

#[test]
fn image_url_without_separator() {
    let url = make_image_url("https://trending.oopus.info", "photo.jpg");
    assert_eq!(url, "https://trending.oopus.info/images/photo.jpg".to_string());
}

#[test]
fn image_url_with_empty_group() {
    let url = make_image_url("d", "a__b");
    assert_eq!(url, "d/images//a__b".to_string());
}

#[test]
fn date_param_too_short() {
    assert_eq!(format_date_param("2024011"), Err(ApiError::InvalidDateFormat));
}

#[test]
fn date_param_not_digits() {
    assert_eq!(format_date_param("2024xy11"), Err(ApiError::InvalidDateFormat));
}

#[test]
fn date_param_reformatted() {
    assert_eq!(format_date_param("20240115"), Ok("2024-01-15".to_string()));
}

#[test]
fn day_truncates_to_ten_characters() {
    assert_eq!(day_of_str("2024-01-15T10:00:00"), "2024-01-15".to_string());
    assert_eq!(day_of_str("9999"), "9999".to_string());
}

#[test]
fn compact_day_drops_separators() {
    assert_eq!(compact_of_str("2024-01-15T10:00:00"), "20240115".to_string());
    assert_eq!(compact_of_str("2024-01-15"), "20240115".to_string());
}

#[test]
fn distinct_days_keep_first_occurrence_order() {
    let rows = vec![
        row(1, Some("2024-01-16")),
        row(2, Some("2024-01-15")),
        row(3, Some("2024-01-16")),
        row(4, None),
        row(5, Some("2024-01-17")),
    ];
    let days = list_distinct_days(&rows);
    assert_eq!(
        days,
        vec!["20240116".to_string(), "20240115".to_string(), "20240117".to_string()]
    );
}

#[test]
fn latest_day_is_max_full_date() {
    let rows = vec![
        row(1, Some("2024-01-15")),
        row(2, Some("2024-01-17T08:00:00")),
        row(3, Some("2024-01-16")),
        row(4, None),
    ];
    assert_eq!(resolve_latest_day(&rows), Some("2024-01-17".to_string()));
}

#[test]
fn latest_day_none_without_dates() {
    assert_eq!(resolve_latest_day(&Vec::new()), None);
    assert_eq!(resolve_latest_day(&vec![row(1, None)]), None);
}

#[test]
fn latest_day_malformed_high_date_wins() {
    let rows = vec![row(1, Some("2024-01-15")), row(2, Some("9999"))];
    assert_eq!(resolve_latest_day(&rows), Some("9999".to_string()));
}

#[test]
fn string_order_is_lexicographic() {
    assert!(str_less("2024-01-15", "2024-01-16"));
    assert!(!str_less("2024-01-16", "2024-01-15"));
    assert!(str_less("2024", "2024-01-15"));
    assert!(!str_less("abc", "abc"));
}

#[test]
fn error_status_codes() {
    assert_eq!(ApiError::InvalidDateFormat.status_code(), 400);
    assert_eq!(ApiError::NoDataFound.status_code(), 404);
    assert_eq!(ApiError::DatabaseError.status_code(), 500);
    assert_eq!(ApiError::RouteNotFound.status_code(), 404);
    assert_eq!(ApiError::Internal.status_code(), 500);
}

#[test]
fn error_messages() {
    assert_eq!(
        ApiError::InvalidDateFormat.message(),
        "Invalid date format. Expected 8 digits (yyyymmdd)"
    );
    assert_eq!(ApiError::NoDataFound.message(), "No data found for the requested date");
    assert_eq!(ApiError::DatabaseError.message(), "Database Error");
    assert_eq!(ApiError::RouteNotFound.message(), "Not Found");
    assert_eq!(ApiError::Internal.message(), "Internal Server Error");
}
