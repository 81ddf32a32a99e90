//! The private RSS feed of the queue, the path of a private feed link, and
//! the name given to a feed-reader connection.

use vstd::prelude::*;
use crate::error::{AppError, ErrorKind};
use crate::item::Item;
use crate::text::{decimal, push_decimal, push_str, seq_join, join, spec_trim, trim, string_of_range, chars_of};
use crate::xml::{escapes, lemma_xml_escape_escapes, spec_xml_escape, xml_escape};

verus! {

/// What `chrono::DateTime::parse_from_rfc3339` followed by `to_rfc2822`
/// makes of a text; `None` where the text is not an RFC 3339 date and time.
pub uninterp spec fn rfc2822_of_rfc3339(text: Seq<char>) -> Option<Seq<char>>;

/// Rewrites an RFC 3339 date and time in RFC 2822 form, keeping its offset
/// (`chrono::DateTime::parse_from_rfc3339`, then `to_rfc2822`).
///
/// Trusted: the contract names the result as a function of the text alone;
/// parsing into a `FixedOffset` reads no local time zone. `to_rfc2822`
/// panics only on a year outside 0 to 9999, and an RFC 3339 text always
/// has a four-digit year.
#[verifier::external_body]
pub(crate) fn rfc3339_to_rfc2822(text: &str) -> (converted: Option<String>)
    ensures
        match converted {
            Some(s) => rfc2822_of_rfc3339(text@) == Some(s@),
            None => rfc2822_of_rfc3339(text@) is None,
        },
{
    chrono::DateTime::parse_from_rfc3339(text).ok().map(|date| date.to_rfc2822())
}

pub const DATE_UNREADABLE: &'static str = "Saved date could not be read.";

/// A converted date, or the internal error for a date that could not be
/// read.
pub fn pub_date_with(converted: Option<String>) -> (r: Result<String, AppError>)
    ensures
        match converted {
            Some(s) => r matches Ok(d) && d@ == s@,
            None => r matches Err(e) && e.is(ErrorKind::Internal, DATE_UNREADABLE@),
        },
{
    match converted {
        Some(s) => Ok(s),
        None => Err(AppError::internal(DATE_UNREADABLE)),
    }
}

/// The feed's publication date of a link saved at `saved_at` (RFC 3339):
/// the same moment in RFC 2822 form.
pub fn rss_pub_date(saved_at: &str) -> (r: Result<String, AppError>)
    ensures
        match rfc2822_of_rfc3339(saved_at@) {
            Some(s) => r matches Ok(d) && d@ == s,
            None => r matches Err(e) && e.is(ErrorKind::Internal, DATE_UNREADABLE@),
        },
{
    pub_date_with(rfc3339_to_rfc2822(saved_at))
}

pub const FEED_HEAD: &'static str = "<?xml version=\"1.0\" encoding=\"UTF-8\"?><rss version=\"2.0\"><channel><title>RSS Saved Queue</title><description>Private saved reading queue</description><link>https://rss-saved-queue.sociobot.in</link>";
pub const FEED_TAIL: &'static str = "</channel></rss>";
pub const ITEM_OPEN: &'static str = "<item><title>";
pub const TITLE_TO_LINK: &'static str = "</title><link>";
pub const LINK_TO_GUID: &'static str = "</link><guid isPermaLink=\"false\">";
pub const GUID_TO_DESCRIPTION: &'static str = "</guid><description>";
pub const DESCRIPTION_TO_DATE: &'static str = "</description><pubDate>";
pub const ITEM_CLOSE: &'static str = "</pubDate></item>";
pub const TAG_SEPARATOR: &'static str = ", ";

/// The `<item>` element of one saved link in the feed, with `date` its
/// publication date: escaped title and link, the id as a non-permalink
/// guid, the tags joined by ", " as the description.
pub open spec fn feed_entry(item: Item, date: Seq<char>) -> Seq<char> {
    ITEM_OPEN@ + spec_xml_escape(item.title@) + TITLE_TO_LINK@ + spec_xml_escape(item.url@)
        + LINK_TO_GUID@ + decimal(item.id as int) + GUID_TO_DESCRIPTION@
        + spec_xml_escape(seq_join(item.tags.deep_view(), TAG_SEPARATOR@)) + DESCRIPTION_TO_DATE@
        + spec_xml_escape(date) + ITEM_CLOSE@
}

/// Every text a feed entry takes from a saved link is escaped: the entry
/// is the fixed markup around four texts and the id, and each of the four
/// can stand in XML as it is (no `<`, `>`, `"`, `'`, and every `&` begins
/// an entity) and reads back as the link's title, its address, its tags
/// joined by ", ", and the publication date.
pub proof fn lemma_feed_entry_escapes_item(item: Item, date: Seq<char>) -> (parts: (Seq<char>, Seq<char>, Seq<char>, Seq<char>))
    ensures
        feed_entry(item, date) == ITEM_OPEN@ + parts.0 + TITLE_TO_LINK@ + parts.1 + LINK_TO_GUID@
            + decimal(item.id as int) + GUID_TO_DESCRIPTION@ + parts.2 + DESCRIPTION_TO_DATE@
            + parts.3 + ITEM_CLOSE@,
        escapes(parts.0, item.title@),
        escapes(parts.1, item.url@),
        escapes(parts.2, seq_join(item.tags.deep_view(), ", "@)),
        escapes(parts.3, date),
{
    let joined = seq_join(item.tags.deep_view(), TAG_SEPARATOR@);
    lemma_xml_escape_escapes(item.title@);
    lemma_xml_escape_escapes(item.url@);
    lemma_xml_escape_escapes(joined);
    lemma_xml_escape_escapes(date);
    (spec_xml_escape(item.title@), spec_xml_escape(item.url@), spec_xml_escape(joined), spec_xml_escape(date))
}

/// The `<item>` elements of the links, in order, with their dates.
pub open spec fn feed_entries(items: Seq<Item>, dates: Seq<Seq<char>>) -> Seq<char>
    decreases items.len(),
{
    if items.len() == 0 {
        Seq::empty()
    } else {
        feed_entries(items.drop_last(), dates) + feed_entry(items.last(), dates[items.len() - 1])
    }
}

/// The feed lists the links in the order given, one entry each: the
/// entries of no links are nothing, and one more link adds its entry, with
/// its own date, after the others.
pub proof fn lemma_feed_entries_in_order(items: Seq<Item>, x: Item, dates: Seq<Seq<char>>)
    ensures
        feed_entries(Seq::<Item>::empty(), dates) == Seq::<char>::empty(),
        feed_entries(items.push(x), dates) == feed_entries(items, dates) + feed_entry(x, dates[items.len() as int]),
        feed_document(items, dates) == FEED_HEAD@ + feed_entries(items, dates) + FEED_TAIL@,
{
    assert(items.push(x).drop_last() =~= items);
}

/// The whole feed document.
pub open spec fn feed_document(items: Seq<Item>, dates: Seq<Seq<char>>) -> Seq<char> {
    FEED_HEAD@ + feed_entries(items, dates) + FEED_TAIL@
}

/// The dates when every one is present.
pub open spec fn all_dates(dates: Seq<Option<Seq<char>>>) -> Seq<Seq<char>> {
    dates.map_values(|d: Option<Seq<char>>| d->0)
}

/// The optional dates as plain values.
pub open spec fn dates_view(dates: Seq<Option<String>>) -> Seq<Option<Seq<char>>> {
    dates.map_values(|d: Option<String>| match d { Some(s) => Some(s@), None => None })
}

fn push_entry(out: &mut String, item: &Item, date: &str)
    ensures
        final(out)@ == old(out)@ + feed_entry(*item, date@),
{
    push_str(out, ITEM_OPEN);
    push_str(out, xml_escape(item.title.as_str()).as_str());
    push_str(out, TITLE_TO_LINK);
    push_str(out, xml_escape(item.url.as_str()).as_str());
    push_str(out, LINK_TO_GUID);
    push_decimal(out, item.id);
    push_str(out, GUID_TO_DESCRIPTION);
    let tags = join(&item.tags, TAG_SEPARATOR);
    push_str(out, xml_escape(tags.as_str()).as_str());
    push_str(out, DESCRIPTION_TO_DATE);
    push_str(out, xml_escape(date).as_str());
    push_str(out, ITEM_CLOSE);
}

/// The feed of the given links, given each link's converted publication
/// date (`None` where its saved date could not be read): the document, or
/// the internal error when any date is missing.
pub fn render_feed_with(items: &Vec<Item>, dates: &Vec<Option<String>>) -> (r: Result<String, AppError>)
    requires
        dates.len() == items.len(),
    ensures
        (forall|i: int| 0 <= i < dates.len() ==> dates[i] is Some) ==> (r matches Ok(xml)
            && xml@ == feed_document(items@, all_dates(dates_view(dates@)))),
        (exists|i: int| 0 <= i < dates.len() && dates[i] is None) ==> (r matches Err(e)
            && e.is(ErrorKind::Internal, DATE_UNREADABLE@)),
{
    let ghost dv = all_dates(dates_view(dates@));
    let mut out = String::new();
    push_str(&mut out, FEED_HEAD);
    let mut i: usize = 0;
    while i < items.len()
        invariant
            i <= items.len(),
            dates.len() == items.len(),
            dv == all_dates(dates_view(dates@)),
            forall|j: int| 0 <= j < i ==> dates[j] is Some,
            out@ == FEED_HEAD@ + feed_entries(items@.take(i as int), dv),
        decreases items.len() - i,
    {
        match &dates[i] {
            Some(date) => {
                assert(dv[i as int] == date@);
                push_entry(&mut out, &items[i], date.as_str());
                assert(items@.take(i + 1).drop_last() == items@.take(i as int));
            },
            None => {
                return Err(AppError::internal(DATE_UNREADABLE));
            },
        }
        i = i + 1;
    }
    assert(items@.take(items.len() as int) == items@);
    push_str(&mut out, FEED_TAIL);
    Ok(out)
}

/// The publication date of a saved link, when its saved date can be read.
pub open spec fn item_pub_date(item: Item) -> Option<Seq<char>> {
    rfc2822_of_rfc3339(item.saved_at@)
}

/// The publication dates of the links, in order.
pub open spec fn item_pub_dates(items: Seq<Item>) -> Seq<Option<Seq<char>>> {
    items.map_values(|it: Item| item_pub_date(it))
}

/// The private RSS feed of the given links, in the order given, each with
/// its saved date rewritten in RFC 2822 form; an internal error when any
/// saved date cannot be read.
pub fn render_feed(items: &Vec<Item>) -> (r: Result<String, AppError>)
    ensures
        (forall|i: int| 0 <= i < items.len() ==> (#[trigger] item_pub_date(items[i])) is Some)
            ==> (r matches Ok(xml) && xml@ == feed_document(items@, all_dates(item_pub_dates(items@)))),
        (exists|i: int| 0 <= i < items.len() && (#[trigger] item_pub_date(items[i])) is None)
            ==> (r matches Err(e) && e.is(ErrorKind::Internal, DATE_UNREADABLE@)),
{
    let mut dates: Vec<Option<String>> = Vec::new();
    let mut i: usize = 0;
    while i < items.len()
        invariant
            i <= items.len(),
            dates.len() == i,
            dates_view(dates@) =~= item_pub_dates(items@.take(i as int)),
        decreases items.len() - i,
    {
        let d = rfc3339_to_rfc2822(items[i].saved_at.as_str());
        let ghost prev = dates@;
        dates.push(d);
        assert(dates@ == prev.push(d));
        assert(dates_view(dates@)[i as int] == item_pub_date(items[i as int]));
        assert forall|j: int| 0 <= j < i implies #[trigger] dates_view(dates@)[j] == item_pub_dates(items@.take(i + 1))[j] by {
            assert(dates@[j] == prev[j]);
            assert(dates_view(prev)[j] == item_pub_dates(items@.take(i as int))[j]);
            assert(items@.take(i as int)[j] == items@.take(i + 1)[j]);
        }
        assert(dates_view(dates@) =~= item_pub_dates(items@.take(i + 1)));
        i = i + 1;
    }
    proof {
        assert(items@.take(items.len() as int) == items@);
        assert forall|j: int| 0 <= j < dates.len() implies (#[trigger] dates[j] is Some <==> item_pub_date(items[j]) is Some) by {
            assert(dates_view(dates@)[j] == item_pub_date(items[j]));
        }
        if forall|k: int| 0 <= k < items.len() ==> (#[trigger] item_pub_date(items[k])) is Some {
            assert forall|j: int| 0 <= j < dates.len() implies #[trigger] dates[j] is Some by {
                assert(item_pub_date(items[j]) is Some);
            }
        }
        if exists|k: int| 0 <= k < items.len() && (#[trigger] item_pub_date(items[k])) is None {
            let k = choose|k: int| 0 <= k < items.len() && (#[trigger] item_pub_date(items[k])) is None;
            assert(dates[k] is None);
        }
        assert(all_dates(dates_view(dates@)) =~= all_dates(item_pub_dates(items@)));
    }
    render_feed_with(items, &dates)
}

/// The path of a private feed link.
pub open spec fn spec_feed_path(token: Seq<char>) -> Seq<char> {
    "/feed/"@ + token + "/rss"@
}

/// The path at which the feed of a private feed link is read.
pub fn feed_path(token: &str) -> (path: String)
    ensures
        path@ == spec_feed_path(token@),
{
    let mut out = String::new();
    push_str(&mut out, "/feed/");
    push_str(&mut out, token);
    push_str(&mut out, "/rss");
    out
}

pub const DEFAULT_LABEL: &'static str = "My feed reader";
pub const MAX_LABEL_CHARS: usize = 80;
pub const NAME_CONNECTION: &'static str = "Name this feed-reader connection.";

/// The name a feed-reader connection is given: the chosen one, or
/// "My feed reader", trimmed and cut to its first 80 characters.
pub open spec fn spec_label(label: Option<Seq<char>>) -> Seq<char> {
    let chosen = match label {
        Some(l) => l,
        None => DEFAULT_LABEL@,
    };
    let t = spec_trim(chosen);
    if t.len() > MAX_LABEL_CHARS { t.take(MAX_LABEL_CHARS as int) } else { t }
}

/// Names a new feed-reader connection; a name that is blank once trimmed is
/// refused.
pub fn clean_label(label: Option<String>) -> (r: Result<String, AppError>)
    ensures
        ({
            let l = spec_label(match label { Some(s) => Some(s@), None => None });
            if l.len() == 0 {
                r matches Err(e) && e.is(ErrorKind::Bad, NAME_CONNECTION@)
            } else {
                r matches Ok(name) && name@ == l
            }
        }),
        r matches Ok(name) ==> 0 < name@.len() <= MAX_LABEL_CHARS,
{
    let chosen = match label {
        Some(l) => l,
        None => DEFAULT_LABEL.to_owned(),
    };
    let trimmed = trim(chosen.as_str());
    let chars = chars_of(trimmed.as_str());
    let n = if chars.len() > MAX_LABEL_CHARS { MAX_LABEL_CHARS } else { chars.len() };
    let name = string_of_range(chars.as_slice(), 0, n);
    proof {
        assert(chars@.subrange(0, n as int) == if chars@.len() > MAX_LABEL_CHARS { chars@.take(MAX_LABEL_CHARS as int) } else { chars@ });
    }
    if n == 0 {
        return Err(AppError::bad(NAME_CONNECTION));
    }
    Ok(name)
}

} // verus!
