//! What a feed is made of, and how it is written as an Atom document.

use crate::html::{escaped, push_escaped};
use crate::time::{rfc3339_text, Timestamp, UtcTime};
use vstd::prelude::*;

verus! {

/// The document up to the identifier of the feed.
pub const FEED_OPEN: &'static str =
    "<?xml version=\"1.0\" encoding=\"utf-8\"?>\n<feed xmlns=\"http://www.w3.org/2005/Atom\">\n  <id>";

/// From the identifier of the feed to its title.
pub const FEED_TITLE: &'static str = "</id>\n  <title>";

/// From the title of the feed to its description.
pub const FEED_SUBTITLE: &'static str = "</title>\n  <subtitle>";

/// From the description of the feed to the time of its last update.
pub const FEED_UPDATED: &'static str = "</subtitle>\n  <updated>";

/// From the time of the last update to the address of the feed.
pub const FEED_SELF: &'static str = "</updated>\n  <link rel=\"self\" href=\"";

/// From the address of the feed to the address of the landing page.
pub const FEED_ALTERNATE: &'static str = "\" />\n  <link rel=\"alternate\" href=\"";

/// From the address of the landing page to the entries.
pub const FEED_ENTRIES: &'static str = "\" />\n";

/// The end of the document.
pub const FEED_CLOSE: &'static str = "</feed>\n";

/// An entry up to its identifier.
pub const ENTRY_OPEN: &'static str = "  <entry>\n    <id>";

/// From the identifier of an entry to its title.
pub const ENTRY_TITLE: &'static str = "</id>\n    <title>";

/// From the title of an entry to its link.
pub const ENTRY_LINK: &'static str = "</title>\n    <link href=\"";

/// From the link of an entry to the time of its last update.
pub const ENTRY_UPDATED: &'static str = "\" />\n    <updated>";

/// From the time of the last update of an entry to its summary.
pub const ENTRY_SUMMARY: &'static str = "</updated>\n    <summary type=\"html\">";

/// The end of an entry.
pub const ENTRY_CLOSE: &'static str = "</summary>\n  </entry>\n";

/// One entry of the feed.
#[derive(Debug, Clone, PartialEq, Eq)]
pub struct FeedEntry {
    pub id: String,
    pub title: String,
    pub link: String,
    pub updated: Timestamp,
    pub summary_html: String,
}

/// What an entry holds, with each string as its characters.
pub struct FeedEntryView {
    pub id: Seq<char>,
    pub title: Seq<char>,
    pub link: Seq<char>,
    pub updated: Timestamp,
    pub summary_html: Seq<char>,
}

impl View for FeedEntry {
    type V = FeedEntryView;

    open spec fn view(&self) -> FeedEntryView {
        FeedEntryView {
            id: self.id@,
            title: self.title@,
            link: self.link@,
            updated: self.updated,
            summary_html: self.summary_html@,
        }
    }
}

/// The feed as a whole.
#[derive(Debug, Clone, PartialEq, Eq)]
pub struct FeedInfo {
    pub id: String,
    pub title: String,
    pub description: String,
    pub updated: Timestamp,
    pub feed_url: String,
    pub index_url: String,
    pub entries: Vec<FeedEntry>,
}

/// The views of a list of entries.
pub open spec fn entry_views(entries: Seq<FeedEntry>) -> Seq<FeedEntryView> {
    Seq::new(entries.len(), |i: int| entries[i]@)
}

/// The times at which the entries were last updated.
pub open spec fn updated_times(entries: Seq<FeedEntry>) -> Seq<Timestamp> {
    Seq::new(entries.len(), |i: int| entries[i].updated)
}

/// The latest of a list of times, and of equal instants the one that comes
/// last in the list; none for an empty list.
pub open spec fn latest(times: Seq<Timestamp>) -> Option<Timestamp>
    decreases times.len(),
{
    if times.len() == 0 {
        None
    } else {
        match latest(times.drop_last()) {
            Some(t) => if times.last().before(t) {
                Some(t)
            } else {
                Some(times.last())
            },
            None => Some(times.last()),
        }
    }
}

/// The time at which a feed was last updated: the latest of the times of
/// its entries, and `now` at offset zero where it has no entries.
pub open spec fn feed_updated_of(times: Seq<Timestamp>, now: UtcTime) -> Timestamp {
    match latest(times) {
        Some(t) => t,
        None => Timestamp::of(now.secs(), now.nanos(), 0),
    }
}

/// The latest of a list of times is one of them, and none of them is
/// later.
pub proof fn lemma_latest(times: Seq<Timestamp>)
    ensures
        times.len() == 0 <==> latest(times) is None,
        latest(times) matches Some(t) ==> times.contains(t) && forall|i: int|
            0 <= i < times.len() ==> !t.before(#[trigger] times[i]),
    decreases times.len(),
{
    if times.len() > 0 {
        let head = times.drop_last();
        lemma_latest(head);
        let t = latest(times)->0;
        if t == times.last() {
            assert(times[times.len() - 1] == t);
        } else {
            let i = choose|i: int| 0 <= i < head.len() && head[i] == t;
            assert(times[i] == t);
        }
        assert forall|i: int| 0 <= i < times.len() implies !t.before(#[trigger] times[i]) by {
            if i < head.len() {
                assert(head[i] == times[i]);
            }
        }
    }
}

/// The time at which the feed was last updated.
pub fn default_feed_updated(entries: &[FeedEntry], now: UtcTime) -> (r: Timestamp)
    ensures
        r == feed_updated_of(updated_times(entries@), now),
        forall|i: int| 0 <= i < entries.len() ==> !r.before((#[trigger] entries[i]).updated),
{
    let ghost times = updated_times(entries@);
    let mut best: Option<Timestamp> = None;
    let mut i: usize = 0;
    assert(times.take(0) =~= Seq::<Timestamp>::empty());
    while i < entries.len()
        invariant
            i <= entries.len(),
            times == updated_times(entries@),
            best == latest(times.take(i as int)),
        decreases entries.len() - i,
    {
        proof {
            assert(times.take(i + 1).drop_last() =~= times.take(i as int));
            assert(times.take(i + 1).last() == entries[i as int].updated);
        }
        let t = entries[i].updated;
        best =
        match best {
            Some(b) => if t.is_before(&b) {
                Some(b)
            } else {
                Some(t)
            },
            None => Some(t),
        };
        i += 1;
    }
    proof {
        assert(times.take(entries.len() as int) =~= times);
        lemma_latest(times);
        assert forall|i: int| 0 <= i < entries.len() implies times[i] == (
        #[trigger] entries[i]).updated by {}
    }
    match best {
        Some(t) => t,
        None => now.at_zero_offset(),
    }
}

// ---------------------------------------------------------------------------
// The document
// ---------------------------------------------------------------------------

/// The text of a time as it stands in the document.
pub open spec fn time_text(t: Timestamp) -> Seq<char> {
    rfc3339_text(t.secs(), t.nanos(), t.offset())
}

/// One entry as it stands in the document: every text escaped, the
/// summary too, which the reader of the feed takes for HTML once it is
/// unescaped.
pub open spec fn entry_xml_of(entry: FeedEntryView) -> Seq<char> {
    ENTRY_OPEN@ + escaped(entry.id) + ENTRY_TITLE@ + escaped(entry.title) + ENTRY_LINK@ + escaped(
        entry.link,
    ) + ENTRY_UPDATED@ + time_text(entry.updated) + ENTRY_SUMMARY@ + escaped(entry.summary_html)
        + ENTRY_CLOSE@
}

/// The entries as they stand in the document, one after another.
pub open spec fn entries_xml_of(entries: Seq<FeedEntryView>) -> Seq<char>
    decreases entries.len(),
{
    if entries.len() == 0 {
        Seq::<char>::empty()
    } else {
        entries_xml_of(entries.drop_last()) + entry_xml_of(entries.last())
    }
}

/// The document up to the entries.
pub open spec fn feed_head_of(feed: FeedInfo) -> Seq<char> {
    FEED_OPEN@ + escaped(feed.id@) + FEED_TITLE@ + escaped(feed.title@) + FEED_SUBTITLE@ + escaped(
        feed.description@,
    ) + FEED_UPDATED@ + time_text(feed.updated) + FEED_SELF@ + escaped(feed.feed_url@)
        + FEED_ALTERNATE@ + escaped(feed.index_url@) + FEED_ENTRIES@
}

/// The feed as an Atom document.
pub open spec fn feed_xml_of(feed: FeedInfo) -> Seq<char> {
    feed_head_of(feed) + entries_xml_of(entry_views(feed.entries@)) + FEED_CLOSE@
}

/// One entry as it stands in the document.
pub fn entry_xml(entry: &FeedEntry) -> (r: String)
    ensures
        r@ == entry_xml_of(entry@),
{
    let updated = entry.updated.to_rfc3339();
    let mut out = ENTRY_OPEN.to_owned();
    push_escaped(&mut out, entry.id.as_str());
    out.append(ENTRY_TITLE);
    push_escaped(&mut out, entry.title.as_str());
    out.append(ENTRY_LINK);
    push_escaped(&mut out, entry.link.as_str());
    out.append(ENTRY_UPDATED);
    out.append(updated.as_str());
    out.append(ENTRY_SUMMARY);
    push_escaped(&mut out, entry.summary_html.as_str());
    out.append(ENTRY_CLOSE);
    out
}

fn feed_head(feed: &FeedInfo) -> (r: String)
    ensures
        r@ == feed_head_of(*feed),
{
    let updated = feed.updated.to_rfc3339();
    let mut out = FEED_OPEN.to_owned();
    push_escaped(&mut out, feed.id.as_str());
    out.append(FEED_TITLE);
    push_escaped(&mut out, feed.title.as_str());
    out.append(FEED_SUBTITLE);
    push_escaped(&mut out, feed.description.as_str());
    out.append(FEED_UPDATED);
    out.append(updated.as_str());
    out.append(FEED_SELF);
    push_escaped(&mut out, feed.feed_url.as_str());
    out.append(FEED_ALTERNATE);
    push_escaped(&mut out, feed.index_url.as_str());
    out.append(FEED_ENTRIES);
    out
}

/// Writes the feed as an Atom document.
pub fn build_feed_xml(feed: &FeedInfo) -> (r: String)
    ensures
        r@ == feed_xml_of(*feed),
{
    let ghost entries = entry_views(feed.entries@);
    let mut out = feed_head(feed);
    let mut i: usize = 0;
    assert(entries.take(0) =~= Seq::<FeedEntryView>::empty());
    assert(out@ =~= feed_head_of(*feed) + entries_xml_of(entries.take(0)));
    while i < feed.entries.len()
        invariant
            i <= feed.entries.len(),
            entries == entry_views(feed.entries@),
            out@ == feed_head_of(*feed) + entries_xml_of(entries.take(i as int)),
        decreases feed.entries.len() - i,
    {
        let text = entry_xml(&feed.entries[i]);
        out.append(text.as_str());
        proof {
            let done = entries.take(i + 1);
            assert(done.drop_last() =~= entries.take(i as int));
            assert(done.last() == feed.entries[i as int]@);
            assert(out@ =~= feed_head_of(*feed) + entries_xml_of(done));
        }
        i += 1;
    }
    assert(entries.take(feed.entries.len() as int) =~= entries);
    out.append(FEED_CLOSE);
    out
}

} // verus!
