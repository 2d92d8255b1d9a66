use higuard::aggregate::{
    error_metas, get_aggregate_errors_by_date, get_error_metrics_pie_chart,
    day_bounds, get_errors_by_namespace_with_pagination, get_unique_error_meta_by_namespace, group_by_tags, local_day_bounds,
    group_errors, metadata_filter, newest_first, page_groups, stable_desc_order, tally_keys,
    AggregatedResult, ErrorRecord, GroupKey, IndividualError, MetaFilter, TagNoId, TimeCount,
};
use higuard::errors::{QueryError, ServerError};

fn tag(k: &str, v: &str, c: &str) -> TagNoId {
    TagNoId { tag_key: k.to_string(), tag_value: v.to_string(), tag_color: c.to_string() }
}

fn err(id: u128, msg: &str, line: i32, user: &str, created: i64, tags: Option<Vec<TagNoId>>) -> IndividualError {
    IndividualError {
        id,
        user_affected: user.to_string(),
        message: msg.to_string(),
        line,
        path: "src/a.rs".to_string(),
        stack_trace: "trace".to_string(),
        namespace_id: 7,
        resolved: false,
        created_at: created,
        updated_at: created,
        tags,
    }
}

fn record(id: u128, msg: &str, path: &str, line: i32, created: i64, resolved: bool) -> ErrorRecord {
    ErrorRecord {
        id,
        user_affected: "u".to_string(),
        path: path.to_string(),
        line,
        message: msg.to_string(),
        stack_trace: format!("trace {}", id),
        resolved,
        namespace_id: 1,
        created_at: created,
        updated_at: created,
    }
}

fn sample() -> Vec<IndividualError> {
    vec![
        err(1, "boom", 10, "alice", 100, Some(vec![tag("env", "prod", "red")])),
        err(2, "crash", 20, "bob", 200, None),
        err(3, "boom", 10, "bob", 300, Some(vec![tag("env", "prod", "red"), tag("os", "linux", "blue")])),
        err(4, "boom", 30, "alice", 400, Some(vec![tag("env", "prod", "green")])),
    ]
}

#[test]
fn stable_order_puts_larger_first_and_keeps_ties() {
    assert_eq!(stable_desc_order(&vec![1, 3, 3, 2]), vec![1, 2, 3, 0]);
    assert_eq!(stable_desc_order(&vec![]), Vec::<usize>::new());
}

#[test]
fn groups_by_message_in_first_seen_order() {
    let g = group_errors(&sample(), false);
    assert_eq!(g.len(), 2);
    assert!(matches!(&g[0].key, GroupKey::Message(m) if m == "boom"));
    assert_eq!(g[0].error_count, 3);
    assert_eq!(g[0].user_affected_count, 2);
    let tags: Vec<(String, String)> = g[0].aggregated_tags.iter().map(|t| (t.tag_value.clone(), t.tag_color.clone())).collect();
    assert_eq!(tags, vec![("prod".to_string(), "red".to_string()), ("linux".to_string(), "blue".to_string()), ("prod".to_string(), "green".to_string())]);
    assert_eq!(g[1].error_count, 1);
    assert!(g[1].aggregated_tags.is_empty());
}

#[test]
fn groups_by_line() {
    let g = group_errors(&sample(), true);
    assert_eq!(g.len(), 3);
    assert!(matches!(g[0].key, GroupKey::Line(10)));
    assert_eq!(g[0].error_count, 2);
    assert_eq!(g[0].user_affected_count, 2);
}

#[test]
fn groups_by_tag_share_users_per_label() {
    let g = group_by_tags(&sample());
    assert_eq!(g.len(), 3);
    assert_eq!(g[0].tag.tag_color, "red");
    assert_eq!(g[0].error_count, 2);
    assert_eq!(g[0].user_affected_count, 2);
    assert_eq!(g[1].tag.tag_key, "os");
    assert_eq!(g[1].user_affected_count, 1);
    // same "env:prod" label as red: alice and bob were already counted under it
    assert_eq!(g[2].tag.tag_color, "green");
    assert_eq!(g[2].error_count, 1);
    assert_eq!(g[2].user_affected_count, 2);
}

#[test]
fn repeated_tag_on_one_error_counts_twice() {
    let e = vec![err(1, "m", 1, "u", 1, Some(vec![tag("a", "b", "c"), tag("a", "b", "c")]))];
    let g = group_by_tags(&e);
    assert_eq!(g.len(), 1);
    assert_eq!(g[0].error_count, 2);
    assert_eq!(g[0].user_affected_count, 1);
}

#[test]
fn pages_rank_most_errors_first() {
    let g = group_errors(&sample(), true);
    let p = page_groups(&g, 0, 2);
    assert_eq!(p.len(), 2);
    assert_eq!(p[0].error_count, 2);
    assert!(matches!(p[1].key, GroupKey::Line(20)));
    let rest = page_groups(&g, 2, 10);
    assert_eq!(rest.len(), 1);
    assert!(matches!(rest[0].key, GroupKey::Line(30)));
    assert!(page_groups(&g, 5, 1).is_empty());
}

#[test]
fn newest_errors_come_first() {
    let s = newest_first(&sample());
    let ids: Vec<u128> = s.iter().map(|e| e.id).collect();
    assert_eq!(ids, vec![4, 3, 2, 1]);
}

#[test]
fn paginated_listing_by_mode() {
    match get_errors_by_namespace_with_pagination(&sample(), "message", 0, 10) {
        AggregatedResult::ByMessage(v) => {
            assert_eq!(v.len(), 2);
            assert_eq!(v[0].error_count, 3);
        },
        _ => panic!("expected message groups"),
    }
    match get_errors_by_namespace_with_pagination(&sample(), "tags", 1, 1) {
        AggregatedResult::ByTags(v) => {
            assert_eq!(v.len(), 1);
            assert_eq!(v[0].error_count, 1);
        },
        _ => panic!("expected tag groups"),
    }
    match get_errors_by_namespace_with_pagination(&sample(), "line", 0, 1) {
        AggregatedResult::ByLine(v) => assert_eq!(v.len(), 1),
        _ => panic!("expected line groups"),
    }
    match get_errors_by_namespace_with_pagination(&sample(), "status", 0, 10) {
        AggregatedResult::ByMessage(v) => assert!(v.is_empty()),
        _ => panic!("expected an empty message page"),
    }
}

#[test]
fn tally_counts_in_first_seen_order() {
    let keys = vec!["b".to_string(), "a".to_string(), "b".to_string()];
    let t = tally_keys(&keys);
    assert_eq!(t.len(), 2);
    assert_eq!((t[0].group_key.as_str(), t[0].count), ("b", 2));
    assert_eq!((t[1].group_key.as_str(), t[1].count), ("a", 1));
}

#[test]
fn pie_chart_by_tag_labels_and_messages() {
    let tags = vec![tag("env", "prod", "red"), tag("env", "prod", "blue"), tag("os", "mac", "x")];
    let t = get_error_metrics_pie_chart("tags", &vec![], &tags);
    assert_eq!(t.len(), 2);
    assert_eq!(t[0].group_key, "env:prod");
    assert_eq!(t[0].count, 2);
    let m = get_error_metrics_pie_chart("message", &vec!["x".to_string(), "x".to_string()], &tags);
    assert_eq!(m.len(), 1);
    assert_eq!(m[0].count, 2);
}

#[test]
fn unique_meta_per_field() {
    let errors = vec![record(1, "a", "p1", 5, 1, false), record(2, "b", "p1", -3, 2, false), record(3, "a", "p2", 5, 3, true)];
    assert_eq!(get_unique_error_meta_by_namespace(&errors, "message"), vec!["a", "b"]);
    assert_eq!(get_unique_error_meta_by_namespace(&errors, "path"), vec!["p1", "p2"]);
    assert_eq!(get_unique_error_meta_by_namespace(&errors, "line"), vec!["5", "-3"]);
    assert_eq!(get_unique_error_meta_by_namespace(&errors, "stackTrace").len(), 3);
    assert_eq!(get_unique_error_meta_by_namespace(&errors, "other"), vec!["a", "b"]);
}

#[test]
fn metadata_filter_by_tag_or_message() {
    match metadata_filter("tags", " env : prod ").unwrap() {
        MetaFilter::Tag(k, v) => {
            assert_eq!(k, "env");
            assert_eq!(v, "prod");
        },
        _ => panic!("expected a tag filter"),
    }
    assert!(matches!(metadata_filter("tags", "a:b:c"), Err(ServerError::QueryError(QueryError::InvalidTag))));
    assert!(matches!(metadata_filter("tags", "ab"), Err(ServerError::QueryError(QueryError::InvalidTag))));
    match metadata_filter("message", "a:b").unwrap() {
        MetaFilter::Message(m) => assert_eq!(m, "a:b"),
        _ => panic!("expected a message filter"),
    }
    let metas = error_metas(&vec![record(9, "a", "p", 1, 55, true)]);
    assert_eq!((metas[0].id, metas[0].created_at, metas[0].resolved), (9, 55, true));
}

#[test]
fn time_buckets_count_errors() {
    let r = get_aggregate_errors_by_date(&vec![130, 10, 70, 125], 1).unwrap();
    assert_eq!(r, vec![TimeCount { time: 0, count: 1 }, TimeCount { time: 60, count: 1 }, TimeCount { time: 120, count: 2 }]);
    let neg = get_aggregate_errors_by_date(&vec![-70], 1).unwrap();
    assert_eq!(neg, vec![TimeCount { time: -60, count: 1 }]);
    assert!(get_aggregate_errors_by_date(&vec![], 5).unwrap().is_empty());
}

#[test]
fn time_bucket_outside_chrono_range_is_refused() {
    let r = get_aggregate_errors_by_date(&vec![9_000_000_000_000], 1);
    assert!(matches!(r, Err(ServerError::QueryError(QueryError::InvalidTimestamp))));
}

#[test]
fn bucket_counts_add_up_to_the_errors() {
    let secs = vec![5, 61, 62, 3599, 3600, -1, -61, 7];
    let r = get_aggregate_errors_by_date(&secs, 1).unwrap();
    let total: usize = r.iter().map(|c| c.count).sum();
    assert_eq!(total, secs.len());
    assert!(r.windows(2).all(|w| w[0].time < w[1].time));
}

#[test]
fn empty_day_needs_no_interval() {
    assert!(get_aggregate_errors_by_date(&vec![], 0).unwrap().is_empty());
}

#[test]
fn tally_counts_add_up_to_the_keys() {
    let keys: Vec<String> = ["x", "y", "x", "z", "y", "x"].iter().map(|s| s.to_string()).collect();
    let r = tally_keys(&keys);
    let total: usize = r.iter().map(|c| c.count).sum();
    assert_eq!(total, keys.len());
}

#[test]
fn ranking_is_the_same_every_time() {
    let keys = vec![2i128, 5, 2, 5, 1, 5];
    let a = stable_desc_order(&keys);
    let b = stable_desc_order(&keys);
    assert_eq!(a, b);
    assert_eq!(a, vec![1, 3, 5, 0, 2, 4]);
}

#[test]
fn day_bounds_in_utc() {
    assert!(matches!(local_day_bounds("UTC", 2024, 1, 2), Some(Ok((1704153600, 1704240000)))));
}

#[test]
fn day_bounds_follow_the_time_zone() {
    // midnight in New York on 10 March 2024 is 05:00 UTC; the day is 24 hours long
    assert!(matches!(local_day_bounds("America/New_York", 2024, 3, 10), Some(Ok((1710046800, 1710133200)))));
    assert!(matches!(local_day_bounds("Asia/Tokyo", 2024, 1, 1), Some(Ok((1704034800, 1704121200)))));
}

#[test]
fn unknown_zone_or_date_has_no_day() {
    let invalid = |r: Option<Result<(i64, i64), ServerError>>| matches!(r, Some(Err(ServerError::QueryError(QueryError::InvalidTimestamp))));
    assert!(invalid(local_day_bounds("Mars/Olympus", 2024, 1, 2)));
    assert!(invalid(local_day_bounds("UTC", 2023, 2, 29)));
}

#[test]
fn skipped_midnight_has_no_day() {
    // Santiago moved its clocks from 00:00 to 01:00 on 8 September 2019
    assert!(matches!(
        local_day_bounds("America/Santiago", 2019, 9, 8),
        Some(Err(ServerError::QueryError(QueryError::InvalidTimestamp)))
    ));
}

#[test]
fn last_day_chrono_holds_overflows() {
    assert!(local_day_bounds("UTC", 262142, 12, 31).is_none());
    assert!(matches!(day_bounds(Some(0)), Ok((0, 86400))));
    assert!(matches!(day_bounds(None), Err(ServerError::QueryError(QueryError::InvalidTimestamp))));
}

#[test]
fn group_counts_add_up() {
    let errors = sample();
    let by_message: usize = group_errors(&errors, false).iter().map(|g| g.error_count).sum();
    let by_line: usize = group_errors(&errors, true).iter().map(|g| g.error_count).sum();
    assert_eq!((by_message, by_line), (4, 4));
    let by_tag: usize = group_by_tags(&errors).iter().map(|g| g.error_count).sum();
    assert_eq!(by_tag, 4);
}
