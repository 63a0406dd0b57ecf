//! Settings kept between runs.

use vstd::prelude::*;

verus! {

/// The saved settings that the front end reads: last root folder, and the
/// service address and token.
pub struct ConfigPayload {
    pub root_path: Option<String>,
    pub gitlab_url: Option<String>,
    pub gitlab_token: Option<String>,
}

} // verus!
