//! Connection settings for posting a status to a Mastodon server.

use vstd::prelude::*;

verus! {

/// Where to post and with which access token.
#[derive(Debug)]
pub struct MastodonApiConfig {
    pub base_url: String,
    pub token: String,
}

} // verus!
