use rss_saved_queue::config::{cache_control, listen_port, parse_port, sqlite_file_path};
use rss_saved_queue::error::AppError;

#[test]
fn cache_policy_by_path() {
    assert_eq!(cache_control("/assets/app.js"), "public, max-age=31536000, immutable");
    assert_eq!(cache_control("/api/items"), "no-store");
    assert_eq!(cache_control("/health"), "no-store");
    assert_eq!(cache_control("/healthz"), "no-cache");
    assert_eq!(cache_control("/"), "no-cache");
    assert_eq!(cache_control("/api"), "no-cache");
}

#[test]
fn sqlite_path_is_read_from_the_address() {
    assert_eq!(sqlite_file_path("sqlite:///data/rss-saved-queue.db?mode=rwc").as_deref(), Some("/data/rss-saved-queue.db"));
    assert_eq!(sqlite_file_path("sqlite://rss.db").as_deref(), Some("rss.db"));
    assert_eq!(sqlite_file_path("sqlite://?mode=memory").as_deref(), Some(""));
    assert_eq!(sqlite_file_path("postgres://host/db"), None);
    assert_eq!(sqlite_file_path("sqlite::memory:"), None);
}

#[test]
fn port_parses_like_u16() {
    assert_eq!(parse_port("8080"), Some(8080));
    assert_eq!(parse_port("+443"), Some(443));
    assert_eq!(parse_port("65535"), Some(65535));
    assert_eq!(parse_port("65536"), None);
    assert_eq!(parse_port("999999999999"), None);
    assert_eq!(parse_port(""), None);
    assert_eq!(parse_port("+"), None);
    assert_eq!(parse_port("-1"), None);
    assert_eq!(parse_port("80a"), None);
    assert_eq!(parse_port(" 80"), None);
    for s in ["0", "1", "080", "+0", "65535", "65536", "x", "1 "] {
        assert_eq!(parse_port(s), s.parse::<u16>().ok(), "{s}");
    }
}

#[test]
fn port_defaults_to_8080() {
    assert_eq!(listen_port(None), 8080);
    assert_eq!(listen_port(Some("bad")), 8080);
    assert_eq!(listen_port(Some("3000")), 3000);
}

#[test]
fn errors_map_to_status_codes_and_hide_storage_details() {
    let cases = [
        (AppError::Bad("b".into()), 400, "b"),
        (AppError::Missing("m".into()), 404, "m"),
        (AppError::Unauthorized("u".into()), 401, "u"),
        (AppError::Internal("i".into()), 500, "i"),
        (AppError::Db("disk I/O error".into()), 500, "The queue could not be updated. Please try again."),
    ];
    for (error, code, message) in cases {
        assert_eq!(error.status_code(), code);
        assert_eq!(error.public_message(), message);
    }
    assert!(matches!(AppError::bad("x"), AppError::Bad(m) if m == "x"));
    assert!(matches!(AppError::not_found("x"), AppError::Missing(m) if m == "x"));
    assert!(matches!(AppError::unauthorized("x"), AppError::Unauthorized(m) if m == "x"));
    assert!(matches!(AppError::internal("x"), AppError::Internal(m) if m == "x"));
}
