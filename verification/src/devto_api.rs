//! The records an article source hands over, and the decisions taken while
//! fetching them page by page.

use crate::text::{decimal, push_decimal};
use vstd::arithmetic::power2::{lemma_pow2_unfold, pow2};
use vstd::bits::lemma_u64_pow2_no_overflow;
use vstd::prelude::*;

verus! {

/// The author of an article, as the source reports them.
#[derive(Debug, Clone, PartialEq, Eq)]
pub struct User {
    pub name: Option<String>,
    pub username: Option<String>,
}

/// A candidate record: one article as the source reports it, not yet merged
/// into the store. Any field but the title may be missing.
#[derive(Debug, Clone, PartialEq, Eq)]
pub struct Article {
    pub id: Option<u64>,
    pub title: String,
    pub url: Option<String>,
    pub canonical_url: Option<String>,
    pub description: Option<String>,
    pub published_timestamp: Option<String>,
    pub published_at: Option<String>,
    pub edited_at: Option<String>,
    pub public_reactions_count: Option<u32>,
    pub positive_reactions_count: Option<u32>,
    pub tag_list: Option<String>,
    pub user: Option<User>,
}

// ---------------------------------------------------------------------------
// Fetching
// ---------------------------------------------------------------------------

/// Where the articles are asked for.
pub const BASE_URL: &'static str = "https://dev.to/api/articles";

/// How often one page is asked for at most.
pub const MAX_RETRIES: usize = 3;

/// How long one request may take, in seconds.
pub const TIMEOUT_SECS: u64 = 15;

/// The address one page is asked for at.
pub open spec fn page_url_of(lookback_days: u32, per_page: u32, page: u32) -> Seq<char> {
    BASE_URL@ + "?top="@ + decimal(lookback_days as nat) + "&per_page="@ + decimal(per_page as nat)
        + "&page="@ + decimal(page as nat)
}

/// The address one page is asked for at.
pub fn page_url(lookback_days: u32, per_page: u32, page: u32) -> (r: String)
    ensures
        r@ == page_url_of(lookback_days, per_page, page),
{
    let mut out = BASE_URL.to_owned();
    out.append("?top=");
    push_decimal(&mut out, lookback_days as u64);
    out.append("&per_page=");
    push_decimal(&mut out, per_page as u64);
    out.append("&page=");
    push_decimal(&mut out, page as u64);
    out
}

/// Whether a response with this status is worth asking again: the server
/// failed (500 to 599) or asked for patience (429).
pub open spec fn retryable(status: u16) -> bool {
    500 <= status <= 599 || status == 429
}

/// Whether a response with this status is worth asking again.
pub fn should_retry(status: u16) -> (r: bool)
    ensures
        r == retryable(status),
{
    (500 <= status && status <= 599) || status == 429
}

/// The seconds to wait after the given attempt: one after the first, and
/// twice as many after each further one.
pub open spec fn backoff_secs(attempt: nat) -> nat {
    if attempt == 0 {
        1
    } else {
        pow2((attempt - 1) as nat)
    }
}

/// The seconds to wait after the given attempt. Beyond 64 attempts the
/// wait no longer fits a `u64`.
pub fn backoff_duration(attempt: usize) -> (secs: u64)
    requires
        attempt <= 64,
    ensures
        secs == backoff_secs(attempt as nat),
{
    let doublings: usize = if attempt == 0 {
        0
    } else {
        attempt - 1
    };
    let mut secs: u64 = 1;
    let mut i: usize = 0;
    proof {
        lemma_pow2_unfold(1);
        assert(pow2(0) == 1) by {
            vstd::arithmetic::power2::lemma2_to64();
        }
    }
    while i < doublings
        invariant
            i <= doublings <= 63,
            secs == pow2(i as nat),
        decreases doublings - i,
    {
        proof {
            lemma_pow2_unfold((i + 1) as nat);
            lemma_u64_pow2_no_overflow((i + 1) as nat);
        }
        secs = secs * 2;
        i += 1;
    }
    secs
}

/// What came of one request for a page.
#[derive(Clone, Copy, Debug, PartialEq, Eq)]
pub enum Outcome {
    /// A response arrived, with this status.
    Response(u16),
    /// No response arrived.
    Failure,
}

/// What to do after a request.
#[derive(Clone, Copy, Debug, PartialEq, Eq)]
pub enum Step {
    /// Read the articles from the response.
    Accept,
    /// Wait this many seconds and ask again.
    Retry(u64),
    /// Report the page as failed.
    GiveUp,
}

/// What to do after the given attempt, counted from one, came to
/// `outcome`: a response with a status from 200 to 299 is accepted; a
/// response worth asking again and a request without response are
/// retried, unless this was the last attempt allowed; all else fails.
pub open spec fn step_of(attempt: usize, outcome: Outcome) -> Step {
    match outcome {
        Outcome::Response(status) => if 200 <= status <= 299 {
            Step::Accept
        } else if retryable(status) && attempt < MAX_RETRIES {
            Step::Retry(backoff_secs(attempt as nat) as u64)
        } else {
            Step::GiveUp
        },
        Outcome::Failure => if attempt < MAX_RETRIES {
            Step::Retry(backoff_secs(attempt as nat) as u64)
        } else {
            Step::GiveUp
        },
    }
}

/// What to do after the given attempt came to `outcome`.
pub fn next_step(attempt: usize, outcome: Outcome) -> (step: Step)
    ensures
        step == step_of(attempt, outcome),
{
    match outcome {
        Outcome::Response(status) => {
            if 200 <= status && status <= 299 {
                Step::Accept
            } else if should_retry(status) && attempt < MAX_RETRIES {
                Step::Retry(backoff_duration(attempt))
            } else {
                Step::GiveUp
            }
        },
        Outcome::Failure => {
            if attempt < MAX_RETRIES {
                Step::Retry(backoff_duration(attempt))
            } else {
                Step::GiveUp
            }
        },
    }
}

/// The page to ask for after page `page` brought `count` articles: the
/// next one, unless the page was empty or short of `per_page` articles, or
/// was the last of `max_pages`.
pub open spec fn page_after(page: u32, count: usize, per_page: u32, max_pages: u32) -> Option<u32> {
    if count == 0 || count < per_page || page >= max_pages {
        None
    } else {
        Some((page + 1) as u32)
    }
}

/// The first page to ask for: page one, unless no page may be fetched.
pub fn first_page(max_pages: u32) -> (r: Option<u32>)
    ensures
        r == (if max_pages >= 1 {
            Some(1u32)
        } else {
            None
        }),
{
    if max_pages >= 1 {
        Some(1)
    } else {
        None
    }
}

/// The page to ask for after page `page` brought `count` articles.
pub fn next_page(page: u32, count: usize, per_page: u32, max_pages: u32) -> (r: Option<u32>)
    ensures
        r == page_after(page, count, per_page, max_pages),
{
    if count == 0 || page >= max_pages {
        return None;
    }
    if (count as u64) < (per_page as u64) {
        return None;
    }
    Some(page + 1)
}

} // verus!
