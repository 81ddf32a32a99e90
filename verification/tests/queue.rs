use rss_saved_queue::error::AppError;
use rss_saved_queue::item::{tags_json, tags_json_with, Item, ItemRow};
use rss_saved_queue::queue::{check_update, list_filter, priority_known, require_affected, require_change, status_known};

fn row(tags_json: &str) -> ItemRow {
    ItemRow {
        id: 5,
        title: "T".into(),
        url: "https://e.com".into(),
        tags_json: tags_json.into(),
        saved_at: "2024-05-06T07:08:09Z".into(),
        status: "queue".into(),
        priority: "soon".into(),
    }
}

#[test]
fn statuses_and_priorities_are_a_fixed_set() {
    for s in ["queue", "read", "archived"] {
        assert!(status_known(s));
    }
    for p in ["next", "soon", "later"] {
        assert!(priority_known(p));
    }
    assert!(!status_known("Read"));
    assert!(!priority_known("now"));
}

#[test]
fn update_check_refuses_unknown_values_status_first() {
    assert!(check_update(Some("read"), Some("next")).is_ok());
    assert!(check_update(None, None).is_ok());
    match check_update(Some("done"), Some("never")) {
        Err(AppError::Bad(m)) => assert_eq!(m, "Unknown status."),
        other => panic!("{other:?}"),
    }
    match check_update(None, Some("never")) {
        Err(AppError::Bad(m)) => assert_eq!(m, "Unknown priority."),
        other => panic!("{other:?}"),
    }
}

#[test]
fn update_request_must_name_something() {
    match require_change(None, None) {
        Err(AppError::Bad(m)) => assert_eq!(m, "Choose a status or priority to update."),
        other => panic!("{other:?}"),
    }
    assert!(require_change(Some("read"), None).is_ok());
    assert!(require_change(None, Some("x")).is_ok());
}

#[test]
fn untouched_rows_are_not_found() {
    match require_affected(0, "That saved item no longer exists.") {
        Err(AppError::Missing(m)) => assert_eq!(m, "That saved item no longer exists."),
        other => panic!("{other:?}"),
    }
    assert!(require_affected(1, "x").is_ok());
}

#[test]
fn list_filter_trims_the_search() {
    assert_eq!(list_filter(Some("queue"), Some("  rust ")), ("queue".to_string(), "rust".to_string()));
    assert_eq!(list_filter(None, None), (String::new(), String::new()));
}

#[test]
fn rows_read_back_with_their_tags() {
    let item = Item::from_row(row(r#"["a","b c"]"#)).unwrap();
    assert_eq!(item.id, 5);
    assert_eq!(item.tags, vec!["a".to_string(), "b c".to_string()]);
    assert_eq!(item.priority, "soon");
    match Item::from_row(row("not json")) {
        Err(AppError::Internal(m)) => assert_eq!(m, "Saved tags could not be read."),
        other => panic!("{other:?}"),
    }
    assert!(Item::from_row_with(row("ignored"), Some(vec!["x".into()])).unwrap().tags == vec!["x".to_string()]);
}

#[test]
fn missing_rows_are_not_found() {
    match Item::found(None) {
        Err(AppError::Missing(m)) => assert_eq!(m, "That saved item no longer exists."),
        other => panic!("{other:?}"),
    }
    assert_eq!(Item::found(Some(row("[]"))).unwrap().tags.len(), 0);
}

#[test]
fn tags_are_stored_as_json() {
    let tags = vec!["a\"b".to_string(), "c".to_string()];
    let text = tags_json(&tags).unwrap();
    assert_eq!(text, r#"["a\"b","c"]"#);
    assert_eq!(Item::from_row(row(&text)).unwrap().tags, tags);
    assert_eq!(tags_json(&vec![]).unwrap(), "[]");
    assert!(matches!(tags_json_with(None), Err(AppError::Internal(_))));
}
