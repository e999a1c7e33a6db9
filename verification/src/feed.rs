//! From the store to the feed: one pass of the pipeline, and the entries
//! that the ranked records are rendered from.

use crate::atom::{
    build_feed_xml, default_feed_updated, entry_views, feed_updated_of, feed_xml_of, updated_times,
    FeedEntry, FeedEntryView, FeedInfo,
};
use crate::config::AppConfig;
use crate::devto_api::Article;
use crate::html::{build_index_html, index_html_of, IndexPage};
use crate::projection::{compare_standings, is_ranked, outranks, standing, standing_of};
use crate::retention::is_pruned;
use crate::state::{
    keyed_count, keyless_titles, merged_into, published_of, published_time,
    select_updated_time, skipped_titles, updated_of, views, StateStore, StoredArticle,
    StoredArticleView,
};
use crate::text::{
    decimal, joined, push_decimal, push_joined, push_stripped_end, push_stripped_start, strip_end,
    strip_start, texts,
};
use crate::time::{rfc3339_text, utc_year_text, Timestamp, UtcTime};
use std::cmp::Ordering;
use vstd::prelude::*;

verus! {

// ---------------------------------------------------------------------------
// Addresses
// ---------------------------------------------------------------------------

/// The address of `path` below `base`: `path` itself where there is no
/// base, else the two joined by exactly one slash.
pub open spec fn url_of(base: Seq<char>, path: Seq<char>) -> Seq<char> {
    if base.len() == 0 {
        path
    } else {
        strip_end(base, '/') + seq!['/'] + strip_start(path, '/')
    }
}

/// The address of `path` below `base`.
pub fn build_url(base: &str, path: &str) -> (r: String)
    ensures
        r@ == url_of(base@, path@),
{
    if base.is_empty() {
        return path.to_owned();
    }
    let mut out = String::new();
    push_stripped_end(&mut out, base, '/');
    out.push('/');
    push_stripped_start(&mut out, path, '/');
    assert(out@ =~= strip_end(base@, '/') + seq!['/'] + strip_start(path@, '/'));
    out
}

// ---------------------------------------------------------------------------
// The summary of a record
// ---------------------------------------------------------------------------

/// The line that gives the counts of reactions.
pub open spec fn reactions_line(item: StoredArticleView) -> Seq<char> {
    "Reactions: public "@ + decimal(item.public_reactions_count as nat) + " / positive "@ + decimal(
        item.positive_reactions_count as nat,
    )
}

/// The line that names the author: with a link to their page where name
/// and handle are known, by name alone where only the name is, and as
/// unknown otherwise.
pub open spec fn author_line(item: StoredArticleView) -> Seq<char> {
    match (item.user_name, item.user_username) {
        (Some(name), Some(handle)) => "Author: <a href=\"https://dev.to/"@ + handle + "\">"@ + name
            + "</a>"@,
        (Some(name), None) => "Author: "@ + name,
        _ => "Author: unknown"@,
    }
}

/// The text of the date of publication: the precise timestamp as it
/// stands, else the alternate one, else `unknown`.
pub open spec fn published_text(item: StoredArticleView) -> Seq<char> {
    match item.published_timestamp {
        Some(t) => t,
        None => match item.published_at {
            Some(t) => t,
            None => "unknown"@,
        },
    }
}

/// The line that lists the tags.
pub open spec fn tags_line(item: StoredArticleView) -> Seq<char> {
    if item.tag_list.len() == 0 {
        "Tags: none"@
    } else {
        "Tags: "@ + joined(item.tag_list, ", "@)
    }
}

/// The line that gives the description.
pub open spec fn description_line(item: StoredArticleView) -> Seq<char> {
    match item.description {
        Some(d) => "Description: "@ + d,
        None => "Description: none"@,
    }
}

/// The summary of a record: five lines separated by line breaks.
pub open spec fn summary_of(item: StoredArticleView) -> Seq<char> {
    reactions_line(item) + "<br/>"@ + author_line(item) + "<br/>Published: "@ + published_text(item)
        + "<br/>"@ + tags_line(item) + "<br/>"@ + description_line(item)
}

fn reactions_text(item: &StoredArticle) -> (r: String)
    ensures
        r@ == reactions_line(item@),
{
    let mut out = "Reactions: public ".to_owned();
    push_decimal(&mut out, item.public_reactions_count as u64);
    out.append(" / positive ");
    push_decimal(&mut out, item.positive_reactions_count as u64);
    out
}

fn author_text(item: &StoredArticle) -> (r: String)
    ensures
        r@ == author_line(item@),
{
    match (&item.user_name, &item.user_username) {
        (Some(name), Some(handle)) => {
            let mut out = "Author: <a href=\"https://dev.to/".to_owned();
            out.append(handle.as_str());
            out.append("\">");
            out.append(name.as_str());
            out.append("</a>");
            out
        },
        (Some(name), None) => {
            let mut out = "Author: ".to_owned();
            out.append(name.as_str());
            out
        },
        _ => "Author: unknown".to_owned(),
    }
}

fn tags_text(item: &StoredArticle) -> (r: String)
    ensures
        r@ == tags_line(item@),
{
    if item.tag_list.len() == 0 {
        "Tags: none".to_owned()
    } else {
        let mut out = "Tags: ".to_owned();
        push_joined(&mut out, &item.tag_list, ", ");
        out
    }
}

fn description_text(item: &StoredArticle) -> (r: String)
    ensures
        r@ == description_line(item@),
{
    match &item.description {
        Some(d) => {
            let mut out = "Description: ".to_owned();
            out.append(d.as_str());
            out
        },
        None => "Description: none".to_owned(),
    }
}

/// The summary of `item`, as HTML.
pub fn build_summary_html(item: &StoredArticle) -> (r: String)
    ensures
        r@ == summary_of(item@),
{
    let mut out = reactions_text(item);
    out.append("<br/>");
    let author = author_text(item);
    out.append(author.as_str());
    out.append("<br/>Published: ");
    match &item.published_timestamp {
        Some(t) => {
            out.append(t.as_str());
        },
        None => match &item.published_at {
            Some(t) => {
                out.append(t.as_str());
            },
            None => {
                out.append("unknown");
            },
        },
    }
    out.append("<br/>");
    let tags = tags_text(item);
    out.append(tags.as_str());
    out.append("<br/>");
    let description = description_text(item);
    out.append(description.as_str());
    out
}

// ---------------------------------------------------------------------------
// Entries
// ---------------------------------------------------------------------------

/// The identifier of the entry for a record, in a feed built in the year
/// written `year`: a tag URI with the numeric identifier where the record
/// has one, else its canonical URL, else a tag URI that says `unknown`.
pub open spec fn entry_id_of(item: StoredArticleView, year: Seq<char>) -> Seq<char> {
    match item.id {
        Some(id) => "tag:dev.to,"@ + year + ":"@ + decimal(id as nat),
        None => match item.canonical_url {
            Some(url) => url,
            None => "tag:dev.to,"@ + year + ":unknown"@,
        },
    }
}

/// Where the entry for a record points: its canonical URL, else its direct
/// URL, else nowhere.
pub open spec fn link_of(item: StoredArticleView) -> Option<Seq<char>> {
    match item.canonical_url {
        Some(url) => Some(url),
        None => item.url,
    }
}

/// The time the entry for a record was last updated: the later of its last
/// edit and its publication as far as they are known, else `now` at offset
/// zero.
pub open spec fn entry_updated_of(item: StoredArticleView, now: UtcTime) -> Timestamp {
    match updated_of(item) {
        Some(t) => t,
        None => match published_of(item) {
            Some(t) => t,
            None => Timestamp::of(now.secs(), now.nanos(), 0),
        },
    }
}

/// The entry for a record; none for a record that has no link.
pub open spec fn entry_of(item: StoredArticleView, now: UtcTime, year: Seq<char>) -> Option<
    FeedEntryView,
> {
    match link_of(item) {
        Some(link) => Some(
            FeedEntryView {
                id: entry_id_of(item, year),
                title: item.title,
                link,
                updated: entry_updated_of(item, now),
                summary_html: summary_of(item),
            },
        ),
        None => None,
    }
}

/// The entries for a list of records, in the order of the list, without
/// the records that have no link.
pub open spec fn entries_of(items: Seq<StoredArticleView>, now: UtcTime, year: Seq<char>) -> Seq<
    FeedEntryView,
>
    decreases items.len(),
{
    if items.len() == 0 {
        Seq::<FeedEntryView>::empty()
    } else {
        let head = entries_of(items.drop_last(), now, year);
        match entry_of(items.last(), now, year) {
            Some(entry) => head.push(entry),
            None => head,
        }
    }
}

/// The identifier of the entry for `item` in a feed built in the year
/// written `year`.
pub fn entry_id(item: &StoredArticle, year: &str) -> (r: String)
    ensures
        r@ == entry_id_of(item@, year@),
{
    match item.id {
        Some(id) => {
            let mut out = "tag:dev.to,".to_owned();
            out.append(year);
            out.append(":");
            push_decimal(&mut out, id);
            out
        },
        None => match &item.canonical_url {
            Some(url) => url.clone(),
            None => {
                let mut out = "tag:dev.to,".to_owned();
                out.append(year);
                out.append(":unknown");
                out
            },
        },
    }
}

/// The identifier of the entry for `item` in a feed built at `now`.
pub fn build_entry_id(item: &StoredArticle, now: UtcTime) -> (r: String)
    ensures
        r@ == entry_id_of(item@, utc_year_text(now.secs(), now.nanos())),
{
    let year = now.year_text();
    entry_id(item, year.as_str())
}

/// The entry for `item` in a feed built at `now`, in the year written
/// `year`; none if the record has no link.
pub fn build_entry(item: &StoredArticle, now: UtcTime, year: &str) -> (r: Option<FeedEntry>)
    ensures
        match r {
            Some(entry) => entry_of(item@, now, year@) == Some(entry@),
            None => entry_of(item@, now, year@) is None,
        },
{
    let link = match &item.canonical_url {
        Some(url) => url.clone(),
        None => match &item.url {
            Some(url) => url.clone(),
            None => {
                return None;
            },
        },
    };
    let updated = match select_updated_time(item) {
        Some(t) => t,
        None => match published_time(item) {
            Some(t) => t,
            None => now.at_zero_offset(),
        },
    };
    Some(
        FeedEntry {
            id: entry_id(item, year),
            title: item.title.clone(),
            link,
            updated,
            summary_html: build_summary_html(item),
        },
    )
}

/// The entries for `items` in a feed built at `now`, in the year written
/// `year`.
pub fn build_entries_in_year(items: &[StoredArticle], now: UtcTime, year: &str) -> (entries: Vec<
    FeedEntry,
>)
    ensures
        entry_views(entries@) == entries_of(views(items@), now, year@),
{
    let mut entries: Vec<FeedEntry> = Vec::new();
    let mut i: usize = 0;
    assert(views(items@).take(0) =~= Seq::<StoredArticleView>::empty());
    assert(entry_views(entries@) =~= Seq::<FeedEntryView>::empty());
    while i < items.len()
        invariant
            i <= items.len(),
            entry_views(entries@) == entries_of(views(items@).take(i as int), now, year@),
        decreases items.len() - i,
    {
        let ghost before = entry_views(entries@);
        proof {
            assert(views(items@).take(i + 1).drop_last() =~= views(items@).take(i as int));
            assert(views(items@).take(i + 1).last() == items@[i as int]@);
        }
        match build_entry(&items[i], now, year) {
            Some(entry) => {
                entries.push(entry);
                assert(entry_views(entries@) =~= before.push(entry@));
            },
            None => {},
        }
        i += 1;
    }
    assert(views(items@).take(items.len() as int) =~= views(items@));
    entries
}

/// The entries for `items` in a feed built at `now`.
pub fn build_entries(items: &[StoredArticle], now: UtcTime) -> (entries: Vec<FeedEntry>)
    ensures
        entry_views(entries@) == entries_of(
            views(items@),
            now,
            utc_year_text(now.secs(), now.nanos()),
        ),
{
    let year = now.year_text();
    build_entries_in_year(items, now, year.as_str())
}

// ---------------------------------------------------------------------------
// Ranking
// ---------------------------------------------------------------------------

/// Compares two records for the order of the feed: `Less` where `a` ranks
/// above `b` (more public reactions, or as many and published later),
/// `Greater` where `b` ranks above `a`, `Equal` where neither does.
pub fn compare_items(a: &StoredArticle, b: &StoredArticle) -> (r: Ordering)
    ensures
        (r == Ordering::Less) == outranks(standing_of(a@), standing_of(b@)),
        (r == Ordering::Greater) == outranks(standing_of(b@), standing_of(a@)),
{
    let left = standing(a);
    let right = standing(b);
    compare_standings(&left, &right)
}

// ---------------------------------------------------------------------------
// One pass
// ---------------------------------------------------------------------------

/// The identifier of a feed built in the year written `year`: the address
/// of the feed where the site has one, else a tag URI.
pub open spec fn feed_id_of(site_url: Seq<char>, feed_url: Seq<char>, year: Seq<char>) -> Seq<char> {
    if site_url.len() == 0 {
        "tag:dev.to,"@ + year + ":devto-feed"@
    } else {
        feed_url
    }
}

/// The address of the landing page: `index.html` below the site, or just
/// that where the site has no address.
pub open spec fn index_url_of(site_url: Seq<char>) -> Seq<char> {
    if site_url.len() == 0 {
        "index.html"@
    } else {
        url_of(site_url, "index.html"@)
    }
}

/// The identifier of the feed.
pub fn feed_id(site_url: &str, feed_url: &str, year: &str) -> (r: String)
    ensures
        r@ == feed_id_of(site_url@, feed_url@, year@),
{
    if site_url.is_empty() {
        let mut out = "tag:dev.to,".to_owned();
        out.append(year);
        out.append(":devto-feed");
        out
    } else {
        feed_url.to_owned()
    }
}

/// The address of the landing page.
pub fn index_url(site_url: &str) -> (r: String)
    ensures
        r@ == index_url_of(site_url@),
{
    if site_url.is_empty() {
        "index.html".to_owned()
    } else {
        build_url(site_url, "index.html")
    }
}

/// What one pass produces besides the new state of the store.
#[derive(Debug, Clone, PartialEq, Eq)]
pub struct Pass {
    /// How many articles were stored.
    pub merged: usize,
    /// The titles of the articles that were passed over because they have
    /// no key.
    pub skipped: Vec<String>,
    /// The ranked view of the store.
    pub items: Vec<StoredArticle>,
    /// The feed made of the ranked view.
    pub feed: FeedInfo,
    /// The feed as an Atom document.
    pub feed_xml: String,
    /// The landing page.
    pub index_html: String,
    /// The time of the pass, as text.
    pub last_build: String,
}

/// Whether `pass` and the store `after` are what one pass at `now` makes
/// of the store `before` and the fetched `articles`: every article that
/// has a key is merged, whatever its count of reactions; the store is
/// pruned; its ranked view, to which alone the threshold of reactions
/// applies, is taken; and the feed and the landing page are made from that
/// view.
pub open spec fn is_pass(
    before: Map<Seq<char>, StoredArticleView>,
    articles: Seq<Article>,
    now: UtcTime,
    config: AppConfig,
    after: Map<Seq<char>, StoredArticleView>,
    pass: Pass,
) -> bool {
    let stamp = rfc3339_text(now.secs(), now.nanos(), 0);
    let year = utc_year_text(now.secs(), now.nanos());
    let feed = pass.feed;
    &&& pass.merged == keyed_count(articles)
    &&& texts(pass.skipped@) == keyless_titles(articles)
    &&& is_pruned(
        merged_into(before, articles, stamp),
        after,
        now,
        config.max_stored_days,
        config.max_stored_items as int,
    )
    &&& is_ranked(after, config.min_reactions, config.max_feed_entries as int, views(pass.items@))
    &&& entry_views(feed.entries@) == entries_of(views(pass.items@), now, year)
    &&& feed.updated == feed_updated_of(updated_times(feed.entries@), now)
    &&& feed.feed_url@ == url_of(config.site_url@, config.feed_path@)
    &&& feed.index_url@ == index_url_of(config.site_url@)
    &&& feed.id@ == feed_id_of(config.site_url@, feed.feed_url@, year)
    &&& feed.title@ == config.site_title@
    &&& feed.description@ == config.site_description@
    &&& pass.feed_xml@ == feed_xml_of(feed)
    &&& pass.index_html@ == index_html_of(
        IndexPage {
            title: config.site_title,
            description: config.site_description,
            feed_url: feed.feed_url,
            updated: feed.updated,
            min_reactions: config.min_reactions,
            lookback_days: config.lookback_days,
        },
        rfc3339_text(feed.updated.secs(), feed.updated.nanos(), feed.updated.offset()),
    )
    &&& pass.last_build@ == stamp
}

/// One pass of the pipeline over the store: merges the fetched articles
/// that have a key, prunes the store, and makes the feed and the landing
/// page from its ranked view. Reading the store and the articles, and
/// writing out what comes back, is left to the caller.
pub fn reconcile(state: &mut StateStore, articles: &[Article], now: UtcTime, config: &AppConfig) -> (pass:
    Pass)
    ensures
        is_pass(old(state)@, articles@, now, *config, final(state)@, pass),
{
    let skipped = skipped_titles(articles);
    let merged = state.merge_from_api(articles, now);
    state.prune(now, config.max_stored_days, config.max_stored_items);
    let items = state.ranked(config.min_reactions, config.max_feed_entries);

    let year = now.year_text();
    let feed_url = build_url(config.site_url.as_str(), config.feed_path.as_str());
    let index_url = index_url(config.site_url.as_str());
    let entries = build_entries_in_year(items.as_slice(), now, year.as_str());
    let updated = default_feed_updated(entries.as_slice(), now);
    let id = feed_id(config.site_url.as_str(), feed_url.as_str(), year.as_str());
    let page = IndexPage {
        title: config.site_title.clone(),
        description: config.site_description.clone(),
        feed_url: feed_url.clone(),
        updated,
        min_reactions: config.min_reactions,
        lookback_days: config.lookback_days,
    };
    let index_html = build_index_html(&page);
    let feed = FeedInfo {
        id,
        title: config.site_title.clone(),
        description: config.site_description.clone(),
        updated,
        feed_url,
        index_url,
        entries,
    };
    let feed_xml = build_feed_xml(&feed);
    Pass { merged, skipped, items, feed, feed_xml, index_html, last_build: now.to_rfc3339() }
}

} // verus!
