//! What a full-text search answers with.

use vstd::prelude::*;

verus! {

/// One page that matched a search.
#[derive(Clone, Debug)]
pub struct SearchResultPage {
    pub url: String,
    pub title: Option<String>,
    pub domain: String,
    pub http_status: i32,
    pub saved_at: String,
}

} // verus!
