//! Connection settings for posting a note to a Misskey server.

use vstd::prelude::*;

verus! {

/// Where to post and with which access token.
#[derive(Debug)]
pub struct MisskeyApiConfig {
    pub base_url: String,
    pub token: String,
}

} // verus!
