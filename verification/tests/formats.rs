use rss_saved_queue::csv::export_csv;
use rss_saved_queue::error::AppError;
use rss_saved_queue::feed::{clean_label, feed_path, render_feed, render_feed_with, rss_pub_date, pub_date_with};
use rss_saved_queue::item::Item;
use rss_saved_queue::xml::xml_escape;

fn saved(id: i64, title: &str, url: &str, tags: &[&str], saved_at: &str) -> Item {
    Item {
        id,
        title: title.into(),
        url: url.into(),
        tags: tags.iter().map(|t| t.to_string()).collect(),
        saved_at: saved_at.into(),
        status: "queue".into(),
        priority: "later".into(),
    }
}

#[test]
fn xml_escape_replaces_the_five_markup_characters() {
    assert_eq!(xml_escape(r#"a & b < c > "d" 'e'"#), "a &amp; b &lt; c &gt; &quot;d&quot; &apos;e&apos;");
    assert_eq!(xml_escape("&amp;"), "&amp;amp;");
    assert_eq!(xml_escape("plain é"), "plain é");
    assert_eq!(xml_escape(""), "");
}

#[test]
fn pub_date_is_rfc2822() {
    assert_eq!(rss_pub_date("2024-05-06T07:08:09+00:00").unwrap(), "Mon, 6 May 2024 07:08:09 +0000");
    assert_eq!(rss_pub_date("2024-12-25T23:00:00+05:30").unwrap(), "Wed, 25 Dec 2024 23:00:00 +0530");
    match rss_pub_date("yesterday") {
        Err(AppError::Internal(m)) => assert_eq!(m, "Saved date could not be read."),
        other => panic!("{other:?}"),
    }
    assert_eq!(pub_date_with(Some("x".into())).unwrap(), "x");
    assert!(matches!(pub_date_with(None), Err(AppError::Internal(_))));
}

#[test]
fn feed_lists_each_item_escaped() {
    let items = vec![
        saved(7, "Reader <item>", "https://example.com/a?x=1&y=2", &["a", "b"], "2024-05-06T07:08:09+00:00"),
        saved(-3, "Second", "https://example.com/b", &[], "2024-05-06T07:08:09Z"),
    ];
    let xml = render_feed(&items).unwrap();
    let expected = String::from("<?xml version=\"1.0\" encoding=\"UTF-8\"?><rss version=\"2.0\"><channel><title>RSS Saved Queue</title><description>Private saved reading queue</description><link>https://rss-saved-queue.sociobot.in</link>")
        + "<item><title>Reader &lt;item&gt;</title><link>https://example.com/a?x=1&amp;y=2</link><guid isPermaLink=\"false\">7</guid><description>a, b</description><pubDate>Mon, 6 May 2024 07:08:09 +0000</pubDate></item>"
        + "<item><title>Second</title><link>https://example.com/b</link><guid isPermaLink=\"false\">-3</guid><description></description><pubDate>Mon, 6 May 2024 07:08:09 +0000</pubDate></item>"
        + "</channel></rss>";
    assert_eq!(xml, expected);
}

#[test]
fn feed_with_unreadable_date_is_an_internal_error() {
    let items = vec![saved(1, "a", "https://e.com", &[], "not a date")];
    assert!(matches!(render_feed(&items), Err(AppError::Internal(_))));
}

#[test]
fn empty_feed_has_only_the_channel() {
    let xml = render_feed(&vec![]).unwrap();
    assert!(xml.ends_with("</link></channel></rss>"));
}

#[test]
fn render_feed_with_given_dates() {
    let items = vec![saved(i64::MIN, "t", "u", &["x"], "ignored")];
    let xml = render_feed_with(&items, &vec![Some("D & D".into())]).unwrap();
    assert!(xml.contains("<guid isPermaLink=\"false\">-9223372036854775808</guid><description>x</description><pubDate>D &amp; D</pubDate>"));
    assert!(render_feed_with(&items, &vec![None]).is_err());
}

#[test]
fn feed_path_holds_the_token() {
    assert_eq!(feed_path("abc_-9"), "/feed/abc_-9/rss");
}

#[test]
fn label_is_defaulted_trimmed_and_cut() {
    assert_eq!(clean_label(None).unwrap(), "My feed reader");
    assert_eq!(clean_label(Some("  Reader ".into())).unwrap(), "Reader");
    let long = "ü".repeat(100);
    assert_eq!(clean_label(Some(long)).unwrap(), "ü".repeat(80));
    match clean_label(Some(" \t ".into())) {
        Err(AppError::Bad(m)) => assert_eq!(m, "Name this feed-reader connection."),
        other => panic!("{other:?}"),
    }
}

#[test]
fn csv_export_quotes_every_field() {
    let mut item = saved(1, "Say \"hi\", ok", "https://e.com", &["a", "b"], "2024-05-06T07:08:09Z");
    item.status = "read".into();
    item.priority = "next".into();
    let csv = export_csv(&vec![item]);
    assert_eq!(csv, "title,url,tags,status,priority,saved_at\n\"Say \"\"hi\"\", ok\",\"https://e.com\",\"a; b\",\"read\",\"next\",\"2024-05-06T07:08:09Z\"\n");
    assert_eq!(export_csv(&vec![]), "title,url,tags,status,priority,saved_at\n");
}

fn read_quoted_records(text: &str) -> Vec<Vec<String>> {
    let chars: Vec<char> = text.chars().collect();
    let mut records = Vec::new();
    let mut i = 0;
    while i < chars.len() {
        let mut fields = Vec::new();
        loop {
            assert_eq!(chars[i], '"');
            i += 1;
            let mut field = String::new();
            loop {
                if chars[i] == '"' {
                    if i + 1 < chars.len() && chars[i + 1] == '"' {
                        field.push('"');
                        i += 2;
                    } else {
                        i += 1;
                        break;
                    }
                } else {
                    field.push(chars[i]);
                    i += 1;
                }
            }
            fields.push(field);
            let sep = chars[i];
            i += 1;
            if sep == '\n' {
                break;
            }
            assert_eq!(sep, ',');
        }
        records.push(fields);
    }
    records
}

#[test]
fn csv_export_reads_back_one_record_per_link() {
    let mut first = saved(1, "Line\nbreak, \"quoted\"", "https://e.com/?a=1,2", &["x\"y", "z"], "2024-05-06T07:08:09Z");
    first.status = "archived".into();
    let second = saved(2, "", "u", &[], "s");
    let csv = export_csv(&vec![first, second]);
    let body = csv.strip_prefix("title,url,tags,status,priority,saved_at\n").unwrap();
    let records = read_quoted_records(body);
    assert_eq!(records.len(), 2);
    assert_eq!(records[0], vec!["Line\nbreak, \"quoted\"", "https://e.com/?a=1,2", "x\"y; z", "archived", "later", "2024-05-06T07:08:09Z"]);
    assert_eq!(records[1], vec!["", "u", "", "queue", "later", "s"]);
}

#[test]
fn escaped_xml_has_no_markup_characters() {
    let escaped = xml_escape("<a href='x'>\"&\"</a>");
    assert!(!escaped.contains('<') && !escaped.contains('>') && !escaped.contains('"') && !escaped.contains('\''));
    let back = escaped
        .replace("&lt;", "<")
        .replace("&gt;", ">")
        .replace("&quot;", "\"")
        .replace("&apos;", "'")
        .replace("&amp;", "&");
    assert_eq!(back, "<a href='x'>\"&\"</a>");
}
