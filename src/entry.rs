//! Feed entries as the poller sees them.
use vstd::prelude::*;
use vstd::string::StrSliceExecFns;

verus! {

/// One item of the feed as it was read, every missing field empty.
pub struct RawItem {
    pub guid: String,
    pub title: String,
    pub link: String,
    pub pub_date: String,
    pub content: String,
}

/// One feed entry with its publication time in seconds since the Unix epoch.
/// Its guid is the key under which the store keeps it.
pub struct FeedEntry {
    pub guid: String,
    pub title: String,
    pub link: String,
    pub published: i64,
    pub body: String,
}

/// Why a raw item could not become an entry.
#[derive(PartialEq, Eq, Structural, Clone, Copy, Debug)]
pub enum EntryError {
    /// The publication date is not an RFC 2822 date.
    BadDate,
}

/// The instant, in seconds since the Unix epoch, that an RFC 2822 date
/// denotes, if it is one.
pub uninterp spec fn rfc2822_seconds(s: Seq<char>) -> Option<int>;

/// Relies on chrono::DateTime::parse_from_rfc2822, then DateTime::timestamp:
/// the result depends on the text alone.
#[verifier::external_body]
fn parse_rfc2822(s: &str) -> (r: Option<i64>)
    ensures
        r is None <==> rfc2822_seconds(s@) is None,
        r matches Some(t) ==> rfc2822_seconds(s@) == Some(t as int),
{
    chrono::DateTime::parse_from_rfc2822(s).ok().map(|d| d.timestamp())
}

/// The key of an item: its guid, or its link when the feed gives no guid, so
/// that items without a guid do not all collapse onto the empty key.
pub open spec fn key_of(guid: Seq<char>, link: Seq<char>) -> Seq<char> {
    if guid.len() == 0 {
        link
    } else {
        guid
    }
}

impl FeedEntry {
    /// The entry that `raw` describes, published at `published`.
    pub fn with_time(raw: RawItem, published: i64) -> (r: FeedEntry)
        ensures
            r.guid@ == key_of(raw.guid@, raw.link@),
            r.title@ == raw.title@,
            r.link@ == raw.link@,
            r.body@ == raw.content@,
            r.published == published,
    {
        let guid = if raw.guid.as_str().unicode_len() == 0 {
            raw.link.clone()
        } else {
            raw.guid
        };
        FeedEntry {
            guid,
            title: raw.title,
            link: raw.link,
            published,
            body: raw.content,
        }
    }

    /// The entry that `raw` describes; fails when its date does not parse.
    pub fn from_raw(raw: RawItem) -> (r: Result<FeedEntry, EntryError>)
        ensures
            rfc2822_seconds(raw.pub_date@) is None <==> r is Err,
            r matches Ok(e) ==> {
                &&& Some(e.published as int) == rfc2822_seconds(raw.pub_date@)
                &&& e.guid@ == key_of(raw.guid@, raw.link@)
                &&& e.title@ == raw.title@
                &&& e.link@ == raw.link@
                &&& e.body@ == raw.content@
            },
    {
        match parse_rfc2822(raw.pub_date.as_str()) {
            None => Err(EntryError::BadDate),
            Some(t) => Ok(FeedEntry::with_time(raw, t)),
        }
    }
}

} // verus!
