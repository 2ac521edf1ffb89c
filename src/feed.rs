//! Reading the feed document into raw items.
use vstd::prelude::*;
use crate::entry::RawItem;

verus! {

/// Why a fetch produced no entries.
#[derive(PartialEq, Eq, Structural, Clone, Copy, Debug)]
pub enum FetchError {
    /// The feed could not be retrieved.
    Network,
    /// The response is not a well-formed feed document.
    Parse,
}

/// The optional fields of one feed item as the reader gives them.
pub struct ItemFields {
    pub guid: Option<String>,
    pub title: Option<String>,
    pub link: Option<String>,
    pub pub_date: Option<String>,
    pub content: Option<String>,
}

/// Whether `s` is a feed document that the RSS reader accepts.
pub uninterp spec fn is_feed_document(s: Seq<char>) -> bool;

/// The number of items that the reader finds in feed document `s`.
pub uninterp spec fn feed_item_count(s: Seq<char>) -> int;

/// Field `f` (guid 0, title 1, link 2, publication date 3, content 4) of
/// item `k` of feed document `s`, as the reader gives it; `None` when the
/// item lacks it.
pub uninterp spec fn feed_item_field(s: Seq<char>, k: int, f: int) -> Option<Seq<char>>;

/// The text of an optional string.
pub open spec fn opt_view(o: Option<String>) -> Option<Seq<char>> {
    match o {
        Some(s) => Some(s@),
        None => None,
    }
}

/// The text of an optional field; empty when it is missing.
pub open spec fn or_empty_spec(o: Option<Seq<char>>) -> Seq<char> {
    match o {
        Some(s) => s,
        None => Seq::empty(),
    }
}

/// `f` holds the fields of item `k` of document `s`.
pub open spec fn fields_of_item(f: ItemFields, s: Seq<char>, k: int) -> bool {
    &&& opt_view(f.guid) == feed_item_field(s, k, 0)
    &&& opt_view(f.title) == feed_item_field(s, k, 1)
    &&& opt_view(f.link) == feed_item_field(s, k, 2)
    &&& opt_view(f.pub_date) == feed_item_field(s, k, 3)
    &&& opt_view(f.content) == feed_item_field(s, k, 4)
}

/// Relies on rss::Channel::read_from, Channel::items and the Item accessors
/// guid (with Guid::value), title, link, pub_date and content: the items
/// and their fields depend on the text alone, in document order.
#[verifier::external_body]
fn read_items(xml: &str) -> (r: Option<Vec<ItemFields>>)
    ensures
        r is Some <==> is_feed_document(xml@),
        r matches Some(v) ==> v@.len() == feed_item_count(xml@),
        r matches Some(v) ==> forall|k: int|
            0 <= k < v@.len() ==> {
                &&& opt_view(#[trigger] v@[k].guid) == feed_item_field(xml@, k, 0)
                &&& opt_view(v@[k].title) == feed_item_field(xml@, k, 1)
                &&& opt_view(v@[k].link) == feed_item_field(xml@, k, 2)
                &&& opt_view(v@[k].pub_date) == feed_item_field(xml@, k, 3)
                &&& opt_view(v@[k].content) == feed_item_field(xml@, k, 4)
            },
{
    match rss::Channel::read_from(xml.as_bytes()) {
        Ok(c) => Some(c.items().iter().map(|i| ItemFields {
            guid: i.guid().map(|g| g.value().to_string()),
            title: i.title().map(|s| s.to_string()),
            link: i.link().map(|s| s.to_string()),
            pub_date: i.pub_date().map(|s| s.to_string()),
            content: i.content().map(|s| s.to_string()),
        }).collect()),
        Err(_) => None,
    }
}

/// The text of a field that may be missing; empty when it is.
pub fn or_empty(o: &Option<String>) -> (r: String)
    ensures
        r@ == or_empty_spec(opt_view(*o)),
{
    match o {
        Some(s) => s.clone(),
        None => String::new(),
    }
}

/// The raw item for one feed item, every missing field empty.
pub fn raw_item(f: &ItemFields) -> (r: RawItem)
    ensures
        r.guid@ == or_empty_spec(opt_view(f.guid)),
        r.title@ == or_empty_spec(opt_view(f.title)),
        r.link@ == or_empty_spec(opt_view(f.link)),
        r.pub_date@ == or_empty_spec(opt_view(f.pub_date)),
        r.content@ == or_empty_spec(opt_view(f.content)),
{
    RawItem {
        guid: or_empty(&f.guid),
        title: or_empty(&f.title),
        link: or_empty(&f.link),
        pub_date: or_empty(&f.pub_date),
        content: or_empty(&f.content),
    }
}

/// `r` is the raw item built from item `k` of document `s`.
pub open spec fn is_raw_item_of(r: RawItem, s: Seq<char>, k: int) -> bool {
    &&& r.guid@ == or_empty_spec(feed_item_field(s, k, 0))
    &&& r.title@ == or_empty_spec(feed_item_field(s, k, 1))
    &&& r.link@ == or_empty_spec(feed_item_field(s, k, 2))
    &&& r.pub_date@ == or_empty_spec(feed_item_field(s, k, 3))
    &&& r.content@ == or_empty_spec(feed_item_field(s, k, 4))
}

/// The raw items of a feed document in document order, every missing field
/// empty; fails with `FetchError::Parse` exactly when the text is not a
/// feed document.
pub fn parse_feed(xml: &str) -> (r: Result<Vec<RawItem>, FetchError>)
    ensures
        r is Ok <==> is_feed_document(xml@),
        r matches Err(e) ==> e == FetchError::Parse,
        r matches Ok(v) ==> v@.len() == feed_item_count(xml@) && forall|k: int|
            0 <= k < v@.len() ==> is_raw_item_of(#[trigger] v@[k], xml@, k),
{
    match read_items(xml) {
        None => Err(FetchError::Parse),
        Some(items) => {
            let mut out: Vec<RawItem> = Vec::new();
            let mut i: usize = 0;
            while i < items.len()
                invariant
                    i <= items@.len(),
                    items@.len() == feed_item_count(xml@),
                    forall|k: int| 0 <= k < items@.len() ==> fields_of_item(#[trigger] items@[k], xml@, k),
                    out@.len() == i,
                    forall|k: int| 0 <= k < i ==> is_raw_item_of(#[trigger] out@[k], xml@, k),
                decreases items@.len() - i,
            {
                let r = raw_item(&items[i]);
                assert(fields_of_item(items@[i as int], xml@, i as int));
                out.push(r);
                i = i + 1;
            }
            Ok(out)
        },
    }
}

} // verus!
