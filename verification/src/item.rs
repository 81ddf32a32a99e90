//! A saved link as it is stored and read back, and the JSON text its tags
//! are stored as.

use vstd::prelude::*;
use crate::error::{AppError, ErrorKind};

verus! {

/// A saved link, as the queue shows it.
#[derive(Debug, Clone)]
pub struct Item {
    pub id: i64,
    pub title: String,
    pub url: String,
    pub tags: Vec<String>,
    pub saved_at: String,
    pub status: String,
    pub priority: String,
}

/// A saved link as storage holds it: the tags are a JSON array of strings.
#[derive(Debug, Clone)]
pub struct ItemRow {
    pub id: i64,
    pub title: String,
    pub url: String,
    pub tags_json: String,
    pub saved_at: String,
    pub status: String,
    pub priority: String,
}

pub const TAGS_UNREADABLE: &'static str = "Saved tags could not be read.";
pub const TAGS_UNWRITABLE: &'static str = "Saved tags could not be written.";
pub const ITEM_GONE: &'static str = "That saved item no longer exists.";

/// What `serde_json::from_str::<Vec<String>>` makes of a text: the strings
/// of a JSON array of strings, or `None` where the text is not one.
pub uninterp spec fn json_string_list(text: Seq<char>) -> Option<Seq<Seq<char>>>;

/// What `serde_json::to_string` writes for a list of strings.
pub uninterp spec fn json_of_string_list(list: Seq<Seq<char>>) -> Seq<char>;

/// Reads a JSON array of strings with `serde_json::from_str`.
///
/// Trusted: the contract only names the result, as a function of the text
/// alone, which `serde_json`'s parser is.
#[verifier::external_body]
pub(crate) fn parse_string_list(text: &str) -> (list: Option<Vec<String>>)
    ensures
        match list {
            Some(v) => json_string_list(text@) == Some(v.deep_view()),
            None => json_string_list(text@) is None,
        },
{
    serde_json::from_str::<Vec<String>>(text).ok()
}

/// Writes a list of strings as a JSON array with `serde_json::to_string`.
///
/// Trusted: the contract names the text written, as a function of the list
/// alone, and states that writing succeeds: `serde_json::to_string` fails
/// only when a `Serialize` impl reports an error or a map has keys that are
/// not strings, and a list of strings written into memory has neither.
#[verifier::external_body]
pub(crate) fn write_string_list(list: &Vec<String>) -> (text: Option<String>)
    ensures
        text is Some,
        text matches Some(t) ==> t@ == json_of_string_list(list.deep_view()),
{
    serde_json::to_string(list).ok()
}

impl Item {
    /// `row` read back as a saved link, with `tags` the list its JSON text
    /// was read as.
    pub open spec fn from_row_outcome(row: ItemRow, tags: Option<Seq<Seq<char>>>, r: Result<Item, AppError>) -> bool {
        match tags {
            Some(t) => r matches Ok(item) && {
                &&& item.id == row.id
                &&& item.title == row.title
                &&& item.url == row.url
                &&& item.tags.deep_view() == t
                &&& item.saved_at == row.saved_at
                &&& item.status == row.status
                &&& item.priority == row.priority
            },
            None => r matches Err(e) && e.is(ErrorKind::Internal, TAGS_UNREADABLE@),
        }
    }

    /// Builds a saved link from its stored row, given the tags its JSON text
    /// was read as; unreadable tags are an internal error.
    pub fn from_row_with(row: ItemRow, tags: Option<Vec<String>>) -> (r: Result<Item, AppError>)
        ensures
            Item::from_row_outcome(row, match tags { Some(v) => Some(v.deep_view()), None => None }, r),
    {
        match tags {
            Some(tags) => Ok(Item {
                id: row.id,
                title: row.title,
                url: row.url,
                tags,
                saved_at: row.saved_at,
                status: row.status,
                priority: row.priority,
            }),
            None => Err(AppError::internal(TAGS_UNREADABLE)),
        }
    }

    /// Builds a saved link from its stored row, reading the tags from their
    /// JSON text.
    pub fn from_row(row: ItemRow) -> (r: Result<Item, AppError>)
        ensures
            Item::from_row_outcome(row, json_string_list(row.tags_json@), r),
    {
        let tags = parse_string_list(row.tags_json.as_str());
        Item::from_row_with(row, tags)
    }

    /// A row looked up by id and account: a missing row is answered with
    /// "not found".
    pub fn found(row: Option<ItemRow>) -> (r: Result<Item, AppError>)
        ensures
            match row {
                Some(row) => Item::from_row_outcome(row, json_string_list(row.tags_json@), r),
                None => r matches Err(e) && e.is(ErrorKind::Missing, ITEM_GONE@),
            },
    {
        match row {
            Some(row) => Item::from_row(row),
            None => Err(AppError::not_found(ITEM_GONE)),
        }
    }
}

/// The JSON text the tags are stored as, when writing it succeeded.
pub fn tags_json_with(written: Option<String>) -> (r: Result<String, AppError>)
    ensures
        match written {
            Some(t) => r == Ok::<String, AppError>(t),
            None => r matches Err(e) && e.is(ErrorKind::Internal, TAGS_UNWRITABLE@),
        },
{
    match written {
        Some(t) => Ok(t),
        None => Err(AppError::internal(TAGS_UNWRITABLE)),
    }
}

/// The JSON text the tags of a saved link are stored as.
pub fn tags_json(tags: &Vec<String>) -> (r: Result<String, AppError>)
    ensures
        r is Ok,
        r matches Ok(t) ==> t@ == json_of_string_list(tags.deep_view()),
{
    tags_json_with(write_string_list(tags))
}

} // verus!
