//! Cursor-based, bidirectional pagination over an ordered byte-keyed store.
//!
//! Keys are encoded into order-preserving bytes (`key`), a request's cursor
//! and display order decide a directional, bounded walk of a
//! sled tree (`store`), and the fetched window is trimmed, re-oriented and
//! flagged (`query`, `fetch`, `paginate`). The mathematical model of scans
//! and pages lives in `model`, and the laws that pages obey in `laws`.
//!
//! What a tree holds is on disk and may change under concurrent writes, so
//! no contract names it: a walk of the tree promises only what holds of
//! every outcome (its keys come in order, beyond the cursor, at most as many
//! as asked for), and each fetch is stated over that outcome, through
//! `model::page_of_scan`. The laws speak of `model::page_of_store`, the page
//! built from the walk of a store holding a given ascending sequence of
//! entries; `laws::lemma_store_scan_is_outcome` shows that walk is one of
//! the outcomes a fetch may see. So the laws describe fetches from a store
//! that holds those entries while it is read; they are not tied to a tree
//! by any executable contract.

pub mod direction;
pub mod fetch;
pub mod key;
pub mod key_order;
pub mod laws;
pub mod model;
pub mod paginate;
pub mod query;
pub mod store;
