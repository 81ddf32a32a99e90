//! Cleaning a link before it is saved: the title and link are trimmed, the
//! link must be a complete web address, the title must be short enough, and
//! the tags are trimmed, blank ones dropped, and held to their limits.

use vstd::prelude::*;
use crate::error::{AppError, ErrorKind};
use crate::text::{spec_trim, str_eq, trim, is_trimmed, lemma_trim_trimmed};

verus! {

/// A link as the user submits it for saving.
#[derive(Debug, Clone)]
pub struct SaveItem {
    pub title: String,
    pub url: String,
    pub tags: Vec<String>,
}

/// What the logic reads of a parsed web address.
#[derive(Debug, Clone)]
pub struct UrlParts {
    pub scheme: String,
    pub host: Option<String>,
    pub username: String,
    pub password: Option<String>,
}

/// A parsed web address as plain values: scheme, host, user name, password.
pub type UrlView = (Seq<char>, Option<Seq<char>>, Seq<char>, Option<Seq<char>>);

/// The characters of an optional string.
pub open spec fn opt_view(o: Option<String>) -> Option<Seq<char>> {
    match o {
        Some(s) => Some(s@),
        None => None,
    }
}

impl UrlParts {
    /// These parts as plain values.
    pub open spec fn parts_view(&self) -> UrlView {
        (self.scheme@, opt_view(self.host), self.username@, opt_view(self.password))
    }
}

/// An optional parse result as plain values.
pub open spec fn parsed_view(p: Option<UrlParts>) -> Option<UrlView> {
    match p {
        Some(parts) => Some(parts.parts_view()),
        None => None,
    }
}

/// What `url::Url::parse` makes of a text, read through the parsed URL's
/// `scheme()`, `host_str()`, `username()` and `password()`; `None` where it
/// refuses the text.
pub uninterp spec fn url_parse_parts(input: Seq<char>) -> Option<UrlView>;

/// Parses an absolute URL with `url::Url::parse`.
///
/// Trusted: the contract only names the result; it claims that the parse is
/// a function of the text alone, which the `url` crate's parser is (it reads
/// no locale, clock or environment).
#[verifier::external_body]
pub(crate) fn parse_url(input: &str) -> (parts: Option<UrlParts>)
    ensures
        parsed_view(parts) == url_parse_parts(input@),
{
    match url::Url::parse(input) {
        Ok(u) => Some(UrlParts {
            scheme: u.scheme().to_string(),
            host: u.host_str().map(|h| h.to_string()),
            username: u.username().to_string(),
            password: u.password().map(|p| p.to_string()),
        }),
        Err(_) => None,
    }
}

/// A saved link must be an `http` or `https` address with a host and no
/// user name or password in it.
pub open spec fn web_url_ok(parsed: Option<UrlView>) -> bool {
    match parsed {
        Some(v) => {
            &&& (v.0 == "http"@ || v.0 == "https"@)
            &&& v.1 is Some
            &&& v.2.len() == 0
            &&& v.3 is None
        },
        None => false,
    }
}

/// Longest title, in characters.
pub const MAX_TITLE_CHARS: usize = 300;
/// Most tags on one saved link.
pub const MAX_TAGS: usize = 12;
/// Longest tag, in characters.
pub const MAX_TAG_CHARS: usize = 40;

pub const BAD_URL: &'static str = "Enter a complete http or https article URL.";
pub const BAD_TITLE: &'static str = "Give this saved page a title of up to 300 characters.";
pub const TOO_MANY_TAGS: &'static str = "Use up to 12 tags per saved page.";
pub const LONG_TAG: &'static str = "Tags must be 40 characters or fewer.";

/// The tags as they are kept: each trimmed, the blank ones dropped, in order.
pub open spec fn clean_tags(tags: Seq<Seq<char>>) -> Seq<Seq<char>>
    decreases tags.len(),
{
    if tags.len() == 0 {
        Seq::empty()
    } else {
        let rest = clean_tags(tags.drop_last());
        let t = spec_trim(tags.last());
        if t.len() > 0 {
            rest.push(t)
        } else {
            rest
        }
    }
}

/// Why a link is refused, checked in this order.
#[derive(Debug, Clone)]
pub enum SaveRefusal {
    Url,
    Title,
    TagCount,
    TagLength,
}

/// Whether, and why, a link with this title and tags, and whose trimmed
/// address parses to `parsed`, is refused.
pub open spec fn save_refusal(title: Seq<char>, tags: Seq<Seq<char>>, parsed: Option<UrlView>) -> Option<SaveRefusal> {
    let t = spec_trim(title);
    let kept = clean_tags(tags);
    if !web_url_ok(parsed) {
        Some(SaveRefusal::Url)
    } else if t.len() == 0 || t.len() > MAX_TITLE_CHARS {
        Some(SaveRefusal::Title)
    } else if kept.len() > MAX_TAGS {
        Some(SaveRefusal::TagCount)
    } else if exists|i: int| 0 <= i < kept.len() && #[trigger] kept[i].len() > MAX_TAG_CHARS {
        Some(SaveRefusal::TagLength)
    } else {
        None
    }
}

/// The message a refusal is answered with.
pub open spec fn refusal_message(r: SaveRefusal) -> Seq<char> {
    match r {
        SaveRefusal::Url => BAD_URL@,
        SaveRefusal::Title => BAD_TITLE@,
        SaveRefusal::TagCount => TOO_MANY_TAGS@,
        SaveRefusal::TagLength => LONG_TAG@,
    }
}

/// The outcome of cleaning `input`, when its trimmed address parses to
/// `parsed`: the refusal, or the link with trimmed title and address and
/// cleaned tags.
pub open spec fn save_outcome(input: SaveItem, parsed: Option<UrlView>, r: Result<SaveItem, AppError>) -> bool {
    match save_refusal(input.title@, input.tags.deep_view(), parsed) {
        None => r matches Ok(out) && {
            &&& out.title@ == spec_trim(input.title@)
            &&& out.url@ == spec_trim(input.url@)
            &&& out.tags.deep_view() == clean_tags(input.tags.deep_view())
        },
        Some(why) => r matches Err(e) && e.is(ErrorKind::Bad, refusal_message(why)),
    }
}

fn url_acceptable(parsed: &Option<UrlParts>) -> (ok: bool)
    ensures
        ok == web_url_ok(parsed_view(*parsed)),
{
    match parsed {
        Some(p) => {
            let scheme_ok = str_eq(p.scheme.as_str(), "http") || str_eq(p.scheme.as_str(), "https");
            scheme_ok && p.host.is_some() && p.username.as_str().is_empty() && p.password.is_none()
        },
        None => false,
    }
}

/// Trims each tag and drops the blank ones.
pub fn clean_tag_list(tags: &Vec<String>) -> (kept: Vec<String>)
    ensures
        kept.deep_view() == clean_tags(tags.deep_view()),
{
    let ghost dv = tags.deep_view();
    let mut kept: Vec<String> = Vec::new();
    let mut i: usize = 0;
    while i < tags.len()
        invariant
            i <= tags.len(),
            dv == tags.deep_view(),
            dv.len() == tags.len(),
            kept.deep_view() == clean_tags(dv.take(i as int)),
        decreases tags.len() - i,
    {
        assert(dv.take(i + 1).drop_last() == dv.take(i as int));
        assert(dv.take(i + 1).last() == tags[i as int]@);
        let t = trim(tags[i].as_str());
        if !t.as_str().is_empty() {
            let ghost before = kept.deep_view();
            kept.push(t);
            assert(kept.deep_view() =~= before.push(t@));
        }
        i = i + 1;
    }
    assert(dv.take(tags.len() as int) == dv);
    kept
}

/// Cleans a link to be saved, given what its trimmed address parses to.
pub fn clean_save_with(input: SaveItem, parsed: Option<UrlParts>) -> (r: Result<SaveItem, AppError>)
    ensures
        save_outcome(input, parsed_view(parsed), r),
{
    let title = trim(input.title.as_str());
    let url = trim(input.url.as_str());
    if !url_acceptable(&parsed) {
        return Err(AppError::bad(BAD_URL));
    }
    if title.as_str().is_empty() || title.as_str().unicode_len() > MAX_TITLE_CHARS {
        return Err(AppError::bad(BAD_TITLE));
    }
    let tags = clean_tag_list(&input.tags);
    if tags.len() > MAX_TAGS {
        return Err(AppError::bad(TOO_MANY_TAGS));
    }
    let ghost kept = tags.deep_view();
    let mut j: usize = 0;
    while j < tags.len()
        invariant
            j <= tags.len(),
            kept == tags.deep_view(),
            kept == clean_tags(input.tags.deep_view()),
            kept.len() == tags.len(),
            kept.len() <= MAX_TAGS,
            web_url_ok(parsed_view(parsed)),
            0 < spec_trim(input.title@).len() <= MAX_TITLE_CHARS,
            forall|k: int| 0 <= k < j ==> #[trigger] kept[k].len() <= MAX_TAG_CHARS,
        decreases tags.len() - j,
    {
        assert(kept[j as int] == tags[j as int]@);
        if tags[j].as_str().unicode_len() > MAX_TAG_CHARS {
            assert(clean_tags(input.tags.deep_view())[j as int].len() > MAX_TAG_CHARS);
            return Err(AppError::bad(LONG_TAG));
        }
        j = j + 1;
    }
    Ok(SaveItem { title, url, tags })
}

/// Cleans a link to be saved: trims the title and address, requires a
/// complete `http` or `https` address without user name or password and a
/// title of 1 to 300 characters, trims the tags and drops the blank ones,
/// and refuses more than 12 tags or a tag over 40 characters, rather than
/// dropping any.
pub fn clean_save(input: SaveItem) -> (r: Result<SaveItem, AppError>)
    ensures
        save_outcome(input, url_parse_parts(spec_trim(input.url@)), r),
{
    let trimmed = trim(input.url.as_str());
    let parsed = parse_url(trimmed.as_str());
    clean_save_with(input, parsed)
}

/// Every kept tag is trimmed and not blank.
pub open spec fn tags_clean(tags: Seq<Seq<char>>) -> bool {
    forall|i: int| 0 <= i < tags.len() ==> #[trigger] tags[i].len() > 0 && is_trimmed(tags[i])
}

proof fn lemma_clean_tags_clean(tags: Seq<Seq<char>>)
    ensures
        tags_clean(clean_tags(tags)),
        clean_tags(tags).len() <= tags.len(),
    decreases tags.len(),
{
    if tags.len() > 0 {
        lemma_clean_tags_clean(tags.drop_last());
        lemma_trim_trimmed(tags.last());
        let rest = clean_tags(tags.drop_last());
        let t = spec_trim(tags.last());
        if t.len() > 0 {
            assert forall|i: int| 0 <= i < rest.push(t).len() implies #[trigger] rest.push(t)[i].len() > 0 && is_trimmed(rest.push(t)[i]) by {
                if i < rest.len() {
                    assert(rest.push(t)[i] == rest[i]);
                }
            }
        }
    }
}

proof fn lemma_clean_tags_of_clean(tags: Seq<Seq<char>>)
    requires
        tags_clean(tags),
    ensures
        clean_tags(tags) == tags,
    decreases tags.len(),
{
    if tags.len() > 0 {
        let d = tags.drop_last();
        assert forall|i: int| 0 <= i < d.len() implies #[trigger] d[i].len() > 0 && is_trimmed(d[i]) by {
            assert(d[i] == tags[i]);
        }
        lemma_clean_tags_of_clean(d);
        assert(tags.last() == tags[tags.len() - 1]);
        crate::text::lemma_trim_of_trimmed(tags.last());
        assert(d.push(tags.last()) =~= tags);
    }
}

/// A link that cleaning accepts is within every limit: its title and
/// address have no surrounding whitespace, its title has 1 to 300
/// characters, its address is a complete web address, and it has at most
/// 12 tags, each of 1 to 40 characters with no surrounding whitespace.
pub proof fn lemma_saved_link_within_limits(input: SaveItem, parsed: Option<UrlView>, out: SaveItem)
    requires
        save_outcome(input, parsed, Ok(out)),
    ensures
        is_trimmed(out.title@),
        0 < out.title@.len() <= MAX_TITLE_CHARS,
        is_trimmed(out.url@),
        web_url_ok(parsed),
        out.tags.deep_view().len() <= MAX_TAGS,
        forall|i: int| 0 <= i < out.tags.deep_view().len() ==> {
            &&& 0 < (#[trigger] out.tags.deep_view()[i]).len() <= MAX_TAG_CHARS
            &&& is_trimmed(out.tags.deep_view()[i])
        },
{
    lemma_trim_trimmed(input.title@);
    lemma_trim_trimmed(input.url@);
    lemma_clean_tags_clean(input.tags.deep_view());
    assert(save_refusal(input.title@, input.tags.deep_view(), parsed) is None);
}

/// Cleaning is idempotent: a link that cleaning accepted is accepted again
/// by a second cleaning, which changes none of its title, address or tags.
pub proof fn lemma_clean_save_idempotent(input: SaveItem, out: SaveItem)
    requires
        save_outcome(input, url_parse_parts(spec_trim(input.url@)), Ok(out)),
    ensures
        save_refusal(out.title@, out.tags.deep_view(), url_parse_parts(spec_trim(out.url@))) is None,
        spec_trim(out.title@) == out.title@,
        spec_trim(out.url@) == out.url@,
        clean_tags(out.tags.deep_view()) == out.tags.deep_view(),
{
    lemma_trim_trimmed(input.title@);
    lemma_trim_trimmed(input.url@);
    lemma_clean_tags_clean(input.tags.deep_view());
    lemma_clean_tags_of_clean(out.tags.deep_view());
    assert(save_refusal(input.title@, input.tags.deep_view(), url_parse_parts(spec_trim(input.url@))) is None);
}

} // verus!
