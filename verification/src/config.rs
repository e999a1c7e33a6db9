//! The settings the library is run with.

use vstd::prelude::*;

verus! {

/// The settings of one run. The library reads the thresholds and limits;
/// the titles and addresses are passed through to what is rendered.
#[derive(Debug, Clone, PartialEq, Eq)]
pub struct AppConfig {
    /// The fewest public reactions a record must have to be shown.
    pub min_reactions: u32,
    /// The window, in days, the source is asked to rank articles over.
    pub lookback_days: u32,
    /// How many articles the source is asked for per page.
    pub per_page: u32,
    /// The most pages that are fetched.
    pub max_pages: u32,
    /// How many days a record stays in the store after it was last seen.
    pub max_stored_days: u32,
    /// The most records the store holds.
    pub max_stored_items: usize,
    /// The most entries the feed shows.
    pub max_feed_entries: usize,
    /// The address of the site, or the empty string where there is none.
    pub site_url: String,
    /// The path of the feed below the address of the site.
    pub feed_path: String,
    /// The title of the feed and of the landing page.
    pub site_title: String,
    /// The description of the feed and of the landing page.
    pub site_description: String,
}

} // verus!
