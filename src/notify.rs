//! Notifications: what is sent to the chat channel for a new entry.
use vstd::prelude::*;
use vstd::string::StringExecFns;
use crate::entry::FeedEntry;
use crate::extract::ExtractedFields;

verus! {

/// The wall-clock text of instant `t` (seconds since the Unix epoch) in the
/// display time zone, if `t` is a representable instant.
pub uninterp spec fn local_display(t: int) -> Option<Seq<char>>;

/// Relies on chrono::DateTime::from_timestamp, chrono_tz's Asia/Ho_Chi_Minh
/// zone and DateTime::format: the text depends on the instant alone, and
/// there is none for an instant out of chrono's range.
#[verifier::external_body]
fn display_time(t: i64) -> (r: Option<String>)
    ensures
        r is None <==> local_display(t as int) is None,
        r matches Some(s) ==> local_display(t as int) == Some(s@),
{
    match chrono::DateTime::from_timestamp(t, 0) {
        Some(d) => Some(
            d.with_timezone(&chrono_tz::Asia::Ho_Chi_Minh).format("%a, %d %b %Y %H:%M:%S").to_string(),
        ),
        None => None,
    }
}

/// A rendered notification: the title line, the decoded summary, four
/// labelled fields, the skills text and the link of the action button.
pub struct Notification {
    pub channel: String,
    pub title: String,
    pub summary: String,
    pub posted_on: String,
    pub hourly_range: String,
    pub location: String,
    pub category: String,
    pub skills: String,
    pub url: String,
}

/// A labelled field: the bold label, a colon, a line feed, then the value.
pub open spec fn labelled(label: Seq<char>, value: Seq<char>) -> Seq<char> {
    "*"@ + label + "*: \n"@ + value
}

/// The display text of a publication time; empty when it has none.
pub open spec fn posted_text(t: int) -> Seq<char> {
    match local_display(t) {
        Some(s) => s,
        None => Seq::empty(),
    }
}

/// `n` is the notification for entry `e` with fields `f` on channel `c`.
pub open spec fn renders(n: Notification, e: FeedEntry, f: ExtractedFields, c: Seq<char>) -> bool {
    &&& n.channel@ == c
    &&& n.title@ == "*"@ + e.title@ + "*"@
    &&& n.summary@ == f.summary@
    &&& n.posted_on@ == labelled("Posted On"@, posted_text(e.published as int))
    &&& n.hourly_range@ == labelled("Hourly Range"@, f.hourly_range@)
    &&& n.location@ == labelled("Location"@, f.location@)
    &&& n.category@ == labelled("Category"@, f.category@)
    &&& n.skills@ == f.skills@
    &&& n.url@ == e.guid@
}

fn label(name: &str, value: &str) -> (r: String)
    ensures
        r@ == labelled(name@, value@),
{
    let mut s = String::from_str("*");
    s.append(name);
    s.append("*: \n");
    s.append(value);
    s
}

/// Renders the notification for `entry` with its extracted `fields`.
pub fn render(entry: &FeedEntry, fields: &ExtractedFields, channel: &str) -> (r: Notification)
    ensures
        renders(r, *entry, *fields, channel@),
{
    let mut title = String::from_str("*");
    title.append(entry.title.as_str());
    title.append("*");
    let posted = match display_time(entry.published) {
        Some(s) => s,
        None => String::new(),
    };
    Notification {
        channel: String::from_str(channel),
        title,
        summary: fields.summary.clone(),
        posted_on: label("Posted On", posted.as_str()),
        hourly_range: label("Hourly Range", fields.hourly_range.as_str()),
        location: label("Location", fields.location.as_str()),
        category: label("Category", fields.category.as_str()),
        skills: fields.skills.clone(),
        url: entry.guid.clone(),
    }
}

/// How a notification leaves the library.
pub enum Delivery {
    /// Dry run: the payload is shown and nothing is sent.
    Show(Notification),
    /// The payload is posted to the messaging sink.
    Post(Notification),
}

/// Decides the delivery of `n`: in a dry run it is only shown.
pub fn notify(n: Notification, dry_run: bool) -> (r: Delivery)
    ensures
        dry_run <==> r is Show,
        r matches Delivery::Show(m) ==> m == n,
        r matches Delivery::Post(m) ==> m == n,
{
    if dry_run {
        Delivery::Show(n)
    } else {
        Delivery::Post(n)
    }
}

} // verus!
