//! The landing page that points readers to the feed.

use crate::text::{decimal, push_decimal};
use crate::time::{rfc3339_text, Timestamp};
use vstd::prelude::*;

verus! {

/// What `&` is written as.
pub const ESCAPED_AMP: &'static str = "&amp;";

/// What `<` is written as.
pub const ESCAPED_LT: &'static str = "&lt;";

/// What `>` is written as.
pub const ESCAPED_GT: &'static str = "&gt;";

/// What `"` is written as.
pub const ESCAPED_QUOTE: &'static str = "&quot;";

/// What `'` is written as.
pub const ESCAPED_APOSTROPHE: &'static str = "&#39;";

/// The page up to the title.
pub const PAGE_OPEN: &'static str =
    "<!doctype html>\n<html lang=\"ja\">\n<head>\n  <meta charset=\"utf-8\" />\n  <meta name=\"viewport\" content=\"width=device-width, initial-scale=1\" />\n  <title>";

/// From the title to the heading.
pub const PAGE_STYLE: &'static str =
    "</title>\n  <style>\n    body { font-family: -apple-system, BlinkMacSystemFont, \"Segoe UI\", sans-serif; margin: 2rem; line-height: 1.6; }\n    .meta { color: #555; }\n  </style>\n</head>\n<body>\n  <h1>";

/// From the heading to the description.
pub const PAGE_LEAD: &'static str = "</h1>\n  <p>";

/// From the description to the address of the feed.
pub const PAGE_LINK: &'static str = "</p>\n  <p><a href=\"";

/// From the address of the feed to the time of the last update.
pub const PAGE_META: &'static str =
    "\">feed.xml</a></p>\n  <div class=\"meta\">\n    <p>\u{6700}\u{7d42}\u{66f4}\u{65b0}: ";

/// From the time of the last update to the reaction threshold.
pub const PAGE_MIN: &'static str = "</p>\n    <p>min_reactions: ";

/// From the reaction threshold to the lookback window.
pub const PAGE_DAYS: &'static str = "</p>\n    <p>lookback_days: ";

/// The end of the page.
pub const PAGE_CLOSE: &'static str = "</p>\n  </div>\n</body>\n</html>\n";

/// What the landing page shows.
#[derive(Debug, Clone, PartialEq, Eq)]
pub struct IndexPage {
    pub title: String,
    pub description: String,
    pub feed_url: String,
    pub updated: Timestamp,
    pub min_reactions: u32,
    pub lookback_days: u32,
}

/// What one character is written as in HTML text and attribute values.
pub open spec fn escaped_char(c: char) -> Seq<char> {
    if c == '&' {
        ESCAPED_AMP@
    } else if c == '<' {
        ESCAPED_LT@
    } else if c == '>' {
        ESCAPED_GT@
    } else if c == '"' {
        ESCAPED_QUOTE@
    } else if c == '\'' {
        ESCAPED_APOSTROPHE@
    } else {
        seq![c]
    }
}

/// `s` with each of `& < > " '` written as its entity.
pub open spec fn escaped(s: Seq<char>) -> Seq<char>
    decreases s.len(),
{
    if s.len() == 0 {
        Seq::<char>::empty()
    } else {
        escaped(s.drop_last()) + escaped_char(s.last())
    }
}

/// Appends `value`, escaped, to `out`.
pub fn push_escaped(out: &mut String, value: &str)
    ensures
        final(out)@ == old(out)@ + escaped(value@),
{
    assert(value@.take(0) =~= Seq::<char>::empty());
    assert(out@ =~= old(out)@ + escaped(value@.take(0)));
    for c in it: value.chars()
        invariant
            it.seq() == value@,
            out@ == old(out)@ + escaped(value@.take(it.index() as int)),
    {
        let ghost before = out@;
        let ghost done = value@.take(it.index() as int);
        if c == '&' {
            out.append(ESCAPED_AMP);
        } else if c == '<' {
            out.append(ESCAPED_LT);
        } else if c == '>' {
            out.append(ESCAPED_GT);
        } else if c == '"' {
            out.append(ESCAPED_QUOTE);
        } else if c == '\'' {
            out.append(ESCAPED_APOSTROPHE);
        } else {
            out.push(c);
            assert(out@ =~= before + seq![c]);
        }
        proof {
            let next = value@.take(it.index() + 1);
            assert(next.drop_last() =~= done);
            assert(next.last() == c);
            assert(out@ =~= old(out)@ + escaped(next));
        }
    }
    assert(value@.take(value@.len() as int) =~= value@);
}

/// `value` with each of `& < > " '` written as its entity.
pub fn escape_html(value: &str) -> (r: String)
    ensures
        r@ == escaped(value@),
{
    let mut out = String::new();
    push_escaped(&mut out, value);
    assert(out@ =~= escaped(value@));
    out
}

/// The text of the landing page for `page`, given the text of the time of
/// its last update.
pub open spec fn index_html_of(page: IndexPage, updated: Seq<char>) -> Seq<char> {
    PAGE_OPEN@ + escaped(page.title@) + PAGE_STYLE@ + escaped(page.title@) + PAGE_LEAD@ + escaped(
        page.description@,
    ) + PAGE_LINK@ + escaped(page.feed_url@) + PAGE_META@ + updated + PAGE_MIN@ + decimal(
        page.min_reactions as nat,
    ) + PAGE_DAYS@ + decimal(page.lookback_days as nat) + PAGE_CLOSE@
}

/// Writes the landing page, with `updated` as the text of the time of the
/// last update.
pub fn render_index(page: &IndexPage, updated: &str) -> (r: String)
    ensures
        r@ == index_html_of(*page, updated@),
{
    let mut out = PAGE_OPEN.to_owned();
    push_escaped(&mut out, page.title.as_str());
    out.append(PAGE_STYLE);
    push_escaped(&mut out, page.title.as_str());
    out.append(PAGE_LEAD);
    push_escaped(&mut out, page.description.as_str());
    out.append(PAGE_LINK);
    push_escaped(&mut out, page.feed_url.as_str());
    out.append(PAGE_META);
    out.append(updated);
    out.append(PAGE_MIN);
    push_decimal(&mut out, page.min_reactions as u64);
    out.append(PAGE_DAYS);
    push_decimal(&mut out, page.lookback_days as u64);
    out.append(PAGE_CLOSE);
    out
}

/// Writes the landing page.
pub fn build_index_html(page: &IndexPage) -> (r: String)
    ensures
        r@ == index_html_of(
            *page,
            rfc3339_text(page.updated.secs(), page.updated.nanos(), page.updated.offset()),
        ),
{
    let updated = page.updated.to_rfc3339();
    render_index(page, updated.as_str())
}

} // verus!
