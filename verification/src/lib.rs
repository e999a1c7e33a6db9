//! Keeps a rolling history of popular articles and turns it into a feed.
//!
//! One pass takes the store of records kept from earlier passes and the
//! articles fetched now. It merges the articles into the store under their
//! identity keys, ages out and caps the store, and derives from it the
//! ranked list of records that the feed and the landing page show.
//!
//! - [`state`] holds the records, the store and the merge;
//! - [`retention`] and [`projection`] say which records stay in the store
//!   and which are shown, and decide it on plain values by way of
//!   [`rank`];
//! - [`order`] says what it is to choose the first few under an order, and
//!   shows that such a choice is unique;
//! - [`feed`] runs one pass and makes the entries of the feed;
//! - [`atom`] and [`html`] write the feed and the landing page;
//! - [`config`] holds the settings;
//! - [`devto_api`] holds the fetched records and the decisions taken while
//!   fetching;
//! - [`time`] and [`text`] are the instants and the strings everything else
//!   is stated over.
//!
//! Reading and writing files, talking to the network and reading the clock
//! are left to the caller. Times are read and written by `chrono`; what it
//! returns is taken on trust, under a name, and everything built on it is
//! proved for whatever it returns.

pub mod atom;
pub mod config;
pub mod devto_api;
pub mod feed;
pub mod html;
pub mod order;
pub mod projection;
pub mod rank;
pub mod retention;
pub mod state;
pub mod text;
pub mod time;
